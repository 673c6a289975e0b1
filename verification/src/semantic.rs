//! Semantic memory: records with optional embeddings.
//!
//! The records, the embeddings (singles as bit patterns) and the numeric
//! ids under which embeddings sit in a vector index are kept here; the
//! vector index itself searches with floating-point distances and lives
//! beside this store, keyed by those ids.
use vstd::prelude::*;
use crate::backend::{backend_info_of, BackendInfo};
use crate::episodic::{json_key, json_key_text, value_key, value_key_text};
use crate::error::AdbError;
use crate::float::{f32_is_nan, f32_key, f32_lt};
use crate::json::{json_get, merge_members, object_merge, Json, JsonView};
use crate::memory::{opt_view, MemoryRecord, MemoryType, Metadata, MetadataView, RecordView};
use crate::order::record_views;
use crate::predicate::{all_conditions_hold, conditions_hold, Modifiers, Predicate};
use crate::records::{select_records, selected};
use crate::scope::Scope;
use crate::seqs::{lemma_filter_member, lemma_filter_step, lemma_take_all};
use crate::text::{owned, push_decimal, str_eq};
use crate::time::{clock_now, Timestamp, Ttl};
use crate::working::{key_index, keys_unique, lemma_key_index, with_record};

verus! {

broadcast use vstd::string::group_string_axioms;

/// The embedding width a backend gets by default.
pub const DEFAULT_DIMENSIONS: usize = 1536;

/// Whether a record satisfies a predicate for updates and removals:
/// `WHERE` on the payload; `KEY id` or `KEY key` on the record's key, other
/// `KEY`s on the text of a payload member, both compared as text; `ALL`,
/// `LIKE` and `PATTERN` every record.
pub open spec fn semantic_matches(r: RecordView, p: Predicate) -> bool {
    match p {
        Predicate::Where { conditions } => conditions_hold(conditions@, r.data),
        Predicate::Key { field, value } => key_matches(r, field@, value@),
        _ => true,
    }
}

/// Whether a record has the key text of `value` as its key (field `id` or
/// `key`) or as the text of payload member `field`.
pub open spec fn key_matches(r: RecordView, field: Seq<char>, value: crate::predicate::ValueView) -> bool {
    match value_key_text(value) {
        Some(k) => if field == "id"@ || field == "key"@ {
            r.id == k
        } else {
            match json_get(r.data, field) {
                Some(v) => json_key_text(v) == Some(k),
                None => false,
            }
        },
        None => false,
    }
}

/// Whether a lookup finds a record: as `semantic_matches`, except that
/// `LIKE` and `PATTERN` find nothing.
pub open spec fn semantic_found(r: RecordView, p: Predicate) -> bool {
    match p {
        Predicate::Like { .. } => false,
        Predicate::Pattern { .. } => false,
        _ => semantic_matches(r, p),
    }
}

/// A payload after an update with `data`: members set when both are
/// objects, replaced otherwise.
pub open spec fn semantic_merged(old: JsonView, data: JsonView) -> JsonView {
    match (old, data) {
        (JsonView::Object(m), JsonView::Object(u)) => JsonView::Object(object_merge(m, u)),
        _ => data,
    }
}

/// A record after an update with `data` at instant `now`: payload merged,
/// marked read, version bumped.
pub open spec fn semantic_updated(r: RecordView, data: JsonView, now: Timestamp) -> RecordView {
    RecordView {
        data: semantic_merged(r.data, data),
        meta: MetadataView { version: (r.meta.version + 1) as u64, accessed_at: now, ..r.meta },
        ..r
    }
}

/// The embedding entries, keys with their vectors.
pub open spec fn embedding_views(v: Seq<(String, Vec<u32>)>) -> Seq<(Seq<char>, Seq<u32>)> {
    v.map_values(|e: (String, Vec<u32>)| (e.0@, e.1@))
}

/// The id entries, numeric ids with their keys.
pub open spec fn id_views(v: Seq<(u64, String)>) -> Seq<(u64, Seq<char>)> {
    v.map_values(|e: (u64, String)| (e.0, e.1@))
}

/// Whether `key` has an embedding.
pub open spec fn has_embedding(e: Seq<(Seq<char>, Seq<u32>)>, key: Seq<char>) -> bool {
    exists|i: int| 0 <= i < e.len() && e[i].0 == key
}

/// The store is well formed: keys of records, of embeddings and of ids
/// unique; ids unique and below the next one.
pub open spec fn semantic_wf(
    records: Seq<RecordView>,
    emb: Seq<(Seq<char>, Seq<u32>)>,
    ids: Seq<(u64, Seq<char>)>,
    next_id: u64,
) -> bool {
    &&& keys_unique(records)
    &&& forall|i: int, j: int| 0 <= i < j < emb.len() ==> emb[i].0 != emb[j].0
    &&& forall|i: int, j: int| 0 <= i < j < ids.len() ==> ids[i].0 != ids[j].0 && ids[i].1 != ids[j].1
    &&& forall|i: int| 0 <= i < ids.len() ==> (#[trigger] ids[i]).0 < next_id
}

/// Semantic memory.
pub struct SemanticBackend {
    records: Vec<MemoryRecord>,
    embeddings: Vec<(String, Vec<u32>)>,
    ids: Vec<(u64, String)>,
    next_id: u64,
    dimensions: usize,
}

impl SemanticBackend {
    #[verifier::type_invariant]
    spec fn inv(self) -> bool {
        semantic_wf(record_views(self.records@), embedding_views(self.embeddings@), id_views(self.ids@), self.next_id)
    }

    /// The records, in the order their keys were first stored.
    pub closed spec fn records(self) -> Seq<RecordView> {
        record_views(self.records@)
    }

    /// The embeddings, in the order their keys were first embedded.
    pub closed spec fn embedded(self) -> Seq<(Seq<char>, Seq<u32>)> {
        embedding_views(self.embeddings@)
    }

    /// The numeric ids of the embedded keys in the vector index.
    pub closed spec fn index_ids(self) -> Seq<(u64, Seq<char>)> {
        id_views(self.ids@)
    }

    /// The embedding width.
    pub closed spec fn width(self) -> usize {
        self.dimensions
    }

    /// An empty store for embeddings of 1536 singles.
    pub fn new() -> (r: SemanticBackend)
        ensures
            r.records().len() == 0,
            r.embedded().len() == 0,
            r.index_ids().len() == 0,
            r.width() == DEFAULT_DIMENSIONS,
    {
        SemanticBackend::with_dimensions(DEFAULT_DIMENSIONS)
    }

    /// An empty store for embeddings of a width.
    pub fn with_dimensions(dimensions: usize) -> (r: SemanticBackend)
        ensures
            r.records().len() == 0,
            r.embedded().len() == 0,
            r.index_ids().len() == 0,
            r.width() == dimensions,
    {
        let r = SemanticBackend { records: Vec::new(), embeddings: Vec::new(), ids: Vec::new(), next_id: 1, dimensions };
        assert(record_views(r.records@) =~= Seq::<RecordView>::empty());
        assert(embedding_views(r.embeddings@) =~= Seq::<(Seq<char>, Seq<u32>)>::empty());
        assert(id_views(r.ids@) =~= Seq::<(u64, Seq<char>)>::empty());
        r
    }

    /// The embedding width.
    pub fn dimensions(&self) -> (r: usize)
        ensures
            r == self.width(),
    {
        self.dimensions
    }

    /// Position of the record with a key.
    fn find(&self, key: &str) -> (r: Option<usize>)
        ensures
            match r {
                Some(i) => key_index(self.records(), key@) == Some(i as int) && i < self.records().len(),
                None => key_index(self.records(), key@) is None,
            },
    {
        proof {
            use_type_invariant(self);
            lemma_key_index(self.records(), key@);
        }
        let ghost s = record_views(self.records@);
        let mut i: usize = 0;
        while i < self.records.len()
            invariant
                i <= self.records@.len(),
                s == record_views(self.records@),
                keys_unique(s),
                forall|k: int| 0 <= k < i ==> s[k].id != key@,
            decreases self.records@.len() - i,
        {
            if str_eq(self.records[i].id.as_str(), key) {
                proof {
                    let c = choose|c: int| 0 <= c < s.len() && s[c].id == key@;
                    assert(s[i as int].id == key@);
                    if c != i as int {
                        if c < i as int {
                            assert(s[c].id != key@);
                        } else {
                            assert(s[i as int].id != s[c].id);
                        }
                    }
                }
                return Some(i);
            }
            i = i + 1;
        }
        None
    }

    /// Puts a record in, replacing the record with its key.
    fn put_record(&mut self, record: MemoryRecord)
        ensures
            final(self).records() == with_record(old(self).records(), record@),
            final(self).embedded() == old(self).embedded(),
            final(self).index_ids() == old(self).index_ids(),
            final(self).width() == old(self).width(),
    {
        proof {
            use_type_invariant(&*self);
        }
        let found = self.find(record.id.as_str());
        let ghost old_s = record_views(self.records@);
        let ghost rv = record@;
        let mut g = SemanticBackend::with_dimensions(self.dimensions);
        std::mem::swap(&mut g, self);
        let SemanticBackend { records, embeddings, ids, next_id, dimensions } = g;
        let mut records = records;
        match found {
            Some(i) => {
                records.set(i, record);
                proof {
                    assert(record_views(records@) =~= old_s.update(i as int, rv));
                }
            },
            None => {
                records.push(record);
                proof {
                    assert(record_views(records@) =~= old_s.push(rv));
                }
            },
        }
        proof {
            lemma_key_index(old_s, rv.id);
            let ns = record_views(records@);
            assert forall|a: int, b: int| 0 <= a < b < ns.len() implies ns[a].id != ns[b].id by {
                if found is None {
                    if b == old_s.len() {
                        assert(old_s[a].id != rv.id);
                    } else {
                        assert(old_s[a].id != old_s[b].id);
                    }
                } else {
                    let i = found.unwrap() as int;
                    if a == i {
                        assert(old_s[i].id != old_s[b].id);
                    } else if b == i {
                        assert(old_s[a].id != old_s[i].id);
                    } else {
                        assert(old_s[a].id != old_s[b].id);
                    }
                }
            }
        }
        *self = SemanticBackend { records, embeddings, ids, next_id, dimensions };
    }

    /// Stores a record under `key` as of instant `now`, replacing the
    /// record with that key; returns a copy.
    pub fn store_at(
        &mut self,
        key: &str,
        data: Json,
        scope: Scope,
        namespace: Option<&str>,
        ttl: Option<Ttl>,
        now: Timestamp,
    ) -> (r: MemoryRecord)
        ensures
            r@ == (RecordView {
                id: key@,
                memory_type: MemoryType::Semantic,
                data: data@,
                meta: MetadataView {
                    created_at: now,
                    accessed_at: now,
                    scope,
                    namespace: match namespace {
                        Some(n) => Some(n@),
                        None => None,
                    },
                    ttl,
                    version: 1,
                },
            }),
            final(self).records() == with_record(old(self).records(), r@),
            final(self).embedded() == old(self).embedded(),
            final(self).index_ids() == old(self).index_ids(),
            final(self).width() == old(self).width(),
    {
        let mut metadata = Metadata::new_at(scope, now);
        metadata.namespace = match namespace {
            Some(n) => Some(owned(n)),
            None => None,
        };
        metadata.ttl = ttl;
        let record = MemoryRecord { id: owned(key), memory_type: MemoryType::Semantic, data, metadata };
        let out = record.copy();
        self.put_record(record);
        out
    }

    /// Stores a record under `key` now (see `store_at`).
    pub fn store(
        &mut self,
        key: &str,
        data: Json,
        scope: Scope,
        namespace: Option<&str>,
        ttl: Option<Ttl>,
    ) -> (r: MemoryRecord)
        ensures
            r@.id == key@,
            r@.memory_type == MemoryType::Semantic,
            r@.data == data@,
            r@.meta == (MetadataView {
                created_at: r@.meta.created_at,
                accessed_at: r@.meta.created_at,
                scope,
                namespace: match namespace {
                    Some(n) => Some(n@),
                    None => None,
                },
                ttl,
                version: 1,
            }),
            final(self).records() == with_record(old(self).records(), r@),
            final(self).embedded() == old(self).embedded(),
            final(self).index_ids() == old(self).index_ids(),
    {
        let now = clock_now();
        self.store_at(key, data, scope, namespace, ttl, now)
    }
}


/// The key a numeric id stands for.
pub open spec fn key_of_id(ids: Seq<(u64, Seq<char>)>, id: u64) -> Option<Seq<char>> {
    if exists|i: int| 0 <= i < ids.len() && ids[i].0 == id {
        Some(ids[choose|i: int| 0 <= i < ids.len() && ids[i].0 == id].1)
    } else {
        None
    }
}

/// The numeric id of a key.
pub open spec fn id_of_key(ids: Seq<(u64, Seq<char>)>, key: Seq<char>) -> Option<u64> {
    if exists|i: int| 0 <= i < ids.len() && ids[i].1 == key {
        Some(ids[choose|i: int| 0 <= i < ids.len() && ids[i].1 == key].0)
    } else {
        None
    }
}

/// The embeddings with the one for `key` set (replaced, or added at the
/// end).
pub open spec fn with_embedding(e: Seq<(Seq<char>, Seq<u32>)>, key: Seq<char>, v: Seq<u32>) -> Seq<(Seq<char>, Seq<u32>)> {
    if exists|i: int| 0 <= i < e.len() && e[i].0 == key {
        e.update(choose|i: int| 0 <= i < e.len() && e[i].0 == key, (key, v))
    } else {
        e.push((key, v))
    }
}

/// The message of a width mismatch: what was expected and what came.
pub open spec fn width_mismatch(what: Seq<char>, expected: nat, got: nat) -> Seq<char> {
    what + "mbedding dimension mismatch: expected "@ + crate::text::decimal(expected) + ", got "@
        + crate::text::decimal(got)
}

/// The message of a width mismatch.
fn width_message(what: &str, expected: usize, got: usize) -> (r: String)
    ensures
        r@ == width_mismatch(what@, expected as nat, got as nat),
{
    let mut s = owned(what);
    s.append("mbedding dimension mismatch: expected ");
    push_decimal(&mut s, expected as u128);
    s.append(", got ");
    push_decimal(&mut s, got as u128);
    proof {
        assert(s@ =~= width_mismatch(what@, expected as nat, got as nat));
    }
    s
}

/// The search hits kept: those with a similarity not below the minimum,
/// whose id stands for a key with a record, as that record and the
/// similarity.
pub open spec fn similar(
    records: Seq<RecordView>,
    ids: Seq<(u64, Seq<char>)>,
    hits: Seq<(u64, u32)>,
    min_confidence: Option<u32>,
) -> Seq<(RecordView, u32)> {
    hits.filter(|h: (u64, u32)| hit_kept(records, ids, h, min_confidence)).map_values(
        |h: (u64, u32)| (records[key_index(records, key_of_id(ids, h.0)->0)->0], h.1),
    )
}

/// Whether a search hit is kept (see `similar`).
pub open spec fn hit_kept(
    records: Seq<RecordView>,
    ids: Seq<(u64, Seq<char>)>,
    h: (u64, u32),
    min_confidence: Option<u32>,
) -> bool {
    &&& !(min_confidence matches Some(m) && f32_lt(h.1, m))
    &&& key_of_id(ids, h.0) matches Some(k) && key_index(records, k) is Some
}

/// Whether some record removed by predicate `p` has key `k`.
pub open spec fn removed_key(records: Seq<RecordView>, p: Predicate, k: Seq<char>) -> bool {
    exists|i: int| 0 <= i < records.len() && records[i].id == k && semantic_matches(records[i], p)
}

/// Whether a record satisfies a predicate (see `semantic_matches`).
fn matches_predicate(r: &MemoryRecord, p: &Predicate) -> (b: bool)
    ensures
        b == semantic_matches(r@, *p),
{
    proof {
        reveal_strlit("id");
        reveal_strlit("key");
    }
    match p {
        Predicate::Where { conditions } => all_conditions_hold(conditions, &r.data),
        Predicate::Key { field, value } => match value_key(value) {
            Some(k) => {
                if str_eq(field.as_str(), "id") || str_eq(field.as_str(), "key") {
                    str_eq(r.id.as_str(), k.as_str())
                } else {
                    match r.data.get(field.as_str()) {
                        Some(v) => match json_key(v) {
                            Some(t) => str_eq(t.as_str(), k.as_str()),
                            None => false,
                        },
                        None => false,
                    }
                }
            },
            None => false,
        },
        _ => true,
    }
}

/// Position of the embedding of a key.
fn embedding_position(v: &Vec<(String, Vec<u32>)>, key: &str) -> (r: Option<usize>)
    ensures
        match r {
            Some(i) => i < v@.len() && embedding_views(v@)[i as int].0 == key@,
            None => forall|k: int| 0 <= k < v@.len() ==> embedding_views(v@)[k].0 != key@,
        },
{
    let ghost e = embedding_views(v@);
    let mut i: usize = 0;
    while i < v.len()
        invariant
            i <= v@.len(),
            e == embedding_views(v@),
            forall|k: int| 0 <= k < i ==> e[k].0 != key@,
        decreases v@.len() - i,
    {
        if str_eq(v[i].0.as_str(), key) {
            return Some(i);
        }
        i = i + 1;
    }
    None
}

/// A copy of a vector of bit patterns.
fn copy_bits(v: &Vec<u32>) -> (r: Vec<u32>)
    ensures
        r@ == v@,
{
    let mut r: Vec<u32> = Vec::new();
    let mut i: usize = 0;
    while i < v.len()
        invariant
            i <= v@.len(),
            r@ == v@.take(i as int),
        decreases v@.len() - i,
    {
        r.push(v[i]);
        assert(r@ =~= v@.take(i + 1));
        i = i + 1;
    }
    assert(v@.take(v@.len() as int) =~= v@);
    r
}

impl SemanticBackend {
    /// Position of the id entry with a key.
    fn id_position(&self, key: &str) -> (r: Option<usize>)
        ensures
            match r {
                Some(i) => i < self.index_ids().len() && self.index_ids()[i as int].1 == key@ && id_of_key(
                    self.index_ids(),
                    key@,
                ) == Some(self.index_ids()[i as int].0),
                None => id_of_key(self.index_ids(), key@) is None,
            },
    {
        proof {
            use_type_invariant(self);
        }
        let ghost v = id_views(self.ids@);
        let mut i: usize = 0;
        while i < self.ids.len()
            invariant
                i <= self.ids@.len(),
                v == id_views(self.ids@),
                semantic_wf(record_views(self.records@), embedding_views(self.embeddings@), v, self.next_id),
                forall|k: int| 0 <= k < i ==> v[k].1 != key@,
            decreases self.ids@.len() - i,
        {
            if str_eq(self.ids[i].1.as_str(), key) {
                proof {
                    let c = choose|c: int| 0 <= c < v.len() && v[c].1 == key@;
                    assert(v[i as int].1 == key@);
                    if c != i as int {
                        if c < i as int {
                            assert(v[c].1 != key@);
                        } else {
                            assert(v[i as int].1 != v[c].1);
                        }
                    }
                }
                return Some(i);
            }
            i = i + 1;
        }
        None
    }

    /// The key a numeric id stands for.
    fn key_for_id(&self, id: u64) -> (r: Option<&String>)
        ensures
            match key_of_id(self.index_ids(), id) {
                Some(k) => r matches Some(x) && x@ == k,
                None => r is None,
            },
    {
        proof {
            use_type_invariant(self);
        }
        let ghost v = id_views(self.ids@);
        let mut i: usize = 0;
        while i < self.ids.len()
            invariant
                i <= self.ids@.len(),
                v == id_views(self.ids@),
                semantic_wf(record_views(self.records@), embedding_views(self.embeddings@), v, self.next_id),
                forall|k: int| 0 <= k < i ==> v[k].0 != id,
            decreases self.ids@.len() - i,
        {
            if self.ids[i].0 == id {
                proof {
                    let c = choose|c: int| 0 <= c < v.len() && v[c].0 == id;
                    assert(v[i as int].0 == id);
                    if c != i as int {
                        if c < i as int {
                            assert(v[c].0 != id);
                        } else {
                            assert(v[i as int].0 != v[c].0);
                        }
                    }
                }
                return Some(&self.ids[i].1);
            }
            i = i + 1;
        }
        None
    }

    /// Sets the embedding of a key.
    fn put_embedding(&mut self, key: &str, embedding: Vec<u32>)
        ensures
            final(self).embedded() == with_embedding(old(self).embedded(), key@, embedding@),
            final(self).records() == old(self).records(),
            final(self).index_ids() == old(self).index_ids(),
            final(self).width() == old(self).width(),
    {
        proof {
            use_type_invariant(&*self);
        }
        let mut g = SemanticBackend::with_dimensions(self.dimensions);
        std::mem::swap(&mut g, self);
        let SemanticBackend { records, embeddings, ids, next_id, dimensions } = g;
        let ghost e = embedding_views(embeddings@);
        let ghost ev = embedding@;
        let mut embeddings = embeddings;
        let found = embedding_position(&embeddings, key);
        proof {
            assert(semantic_wf(record_views(records@), e, id_views(ids@), next_id));
        }
        match found {
            Some(i) => {
                proof {
                    let c = choose|c: int| 0 <= c < e.len() && e[c].0 == key@;
                    assert(e[i as int].0 == key@);
                    if c != i as int {
                        if c < i as int {
                            assert(e[c].0 != e[i as int].0);
                        } else {
                            assert(e[i as int].0 != e[c].0);
                        }
                    }
                }
                embeddings.set(i, (owned(key), embedding));
                proof {
                    assert(embedding_views(embeddings@) =~= e.update(i as int, (key@, ev)));
                }
            },
            None => {
                embeddings.push((owned(key), embedding));
                proof {
                    assert(embedding_views(embeddings@) =~= e.push((key@, ev)));
                }
            },
        }
        proof {
            let ne = embedding_views(embeddings@);
            assert forall|a: int, b: int| 0 <= a < b < ne.len() implies ne[a].0 != ne[b].0 by {
                if found is Some {
                    let i = found.unwrap() as int;
                    if a == i {
                        assert(e[i].0 != e[b].0);
                    } else if b == i {
                        assert(e[a].0 != e[i].0);
                    } else {
                        assert(e[a].0 != e[b].0);
                    }
                } else if b == e.len() {
                    assert(e[a].0 != key@);
                } else {
                    assert(e[a].0 != e[b].0);
                }
            }
        }
        *self = SemanticBackend { records, embeddings, ids, next_id, dimensions };
    }

    /// Stores a record with its embedding.  Fails when the embedding's
    /// width is not the store's; otherwise answers the numeric id under
    /// which the vector index is to hold the embedding, and whether that id
    /// already held one (the key was embedded before).
    pub fn store_with_embedding(&mut self, record: MemoryRecord, embedding: Vec<u32>) -> (r: Result<(u64, bool), AdbError>)
        ensures
            embedding@.len() != old(self).width() ==> (r matches Err(AdbError::EmbeddingError(m)) && m@ == width_mismatch(
                "E"@,
                old(self).width() as nat,
                embedding@.len(),
            )) && final(self).records() == old(self).records() && final(self).embedded() == old(self).embedded()
                && final(self).index_ids() == old(self).index_ids(),
            embedding@.len() == old(self).width() ==> match id_of_key(old(self).index_ids(), record.id@) {
                Some(id) => r == Ok::<(u64, bool), AdbError>((id, true)) && final(self).index_ids() == old(
                    self,
                ).index_ids(),
                None => (r matches Ok(x) && !x.1 && final(self).index_ids() == old(self).index_ids().push(
                    (x.0, record.id@),
                ) && forall|i: int| 0 <= i < old(self).index_ids().len() ==> old(self).index_ids()[i].0 != x.0) || (
                r is Err && final(self).records() == old(self).records()),
            },
            r is Ok ==> final(self).records() == with_record(old(self).records(), record@) && final(self).embedded()
                == with_embedding(old(self).embedded(), record.id@, embedding@),
            final(self).width() == old(self).width(),
    {
        proof {
            use_type_invariant(&*self);
            reveal_strlit("E");
        }
        if embedding.len() != self.dimensions {
            let m = width_message("E", self.dimensions, embedding.len());
            return Err(AdbError::EmbeddingError(m));
        }
        let key = owned(record.id.as_str());
        match self.id_position(key.as_str()) {
            Some(i) => {
                let id = self.ids[i].0;
                self.put_record(record);
                self.put_embedding(key.as_str(), embedding);
                Ok((id, true))
            },
            None => {
                if self.next_id == u64::MAX {
                    return Err(AdbError::VectorIndexError(owned("no numeric ids left")));
                }
                let id = self.next_id;
                let mut g = SemanticBackend::with_dimensions(self.dimensions);
                std::mem::swap(&mut g, self);
                let SemanticBackend { records, embeddings, ids, next_id, dimensions } = g;
                let ghost iv = id_views(ids@);
                let mut ids = ids;
                ids.push((id, owned(key.as_str())));
                proof {
                    assert(id_views(ids@) =~= iv.push((id, key@)));
                    let ni = id_views(ids@);
                    assert forall|a: int, b: int| 0 <= a < b < ni.len() implies ni[a].0 != ni[b].0 && ni[a].1 != ni[b].1 by {
                        if b == iv.len() {
                            assert(iv[a].0 < id);
                            assert(iv[a].1 != key@);
                        } else {
                            assert(iv[a].0 != iv[b].0 && iv[a].1 != iv[b].1);
                        }
                    }
                    assert forall|a: int| 0 <= a < ni.len() implies (#[trigger] ni[a]).0 < id + 1 by {
                        if a < iv.len() {
                            assert(iv[a].0 < id);
                        }
                    }
                    assert forall|a: int| 0 <= a < iv.len() implies iv[a].0 != id by {
                        assert(iv[a].0 < id);
                    }
                }
                *self = SemanticBackend { records, embeddings, ids, next_id: id + 1, dimensions };
                self.put_record(record);
                self.put_embedding(key.as_str(), embedding);
                Ok((id, false))
            },
        }
    }

    /// Checks the width of a query embedding.
    pub fn check_query(&self, len: usize) -> (r: Result<(), AdbError>)
        ensures
            len == self.width() ==> r is Ok,
            len != self.width() ==> (r matches Err(AdbError::EmbeddingError(m)) && m@ == width_mismatch(
                "Query e"@,
                self.width() as nat,
                len as nat,
            )),
    {
        proof {
            reveal_strlit("Query e");
        }
        if len != self.dimensions {
            let m = width_message("Query e", self.dimensions, len);
            return Err(AdbError::EmbeddingError(m));
        }
        Ok(())
    }

    /// The records a similarity search found: the vector index's hits, as
    /// numeric ids with their similarities (singles), filtered and mapped
    /// to records (see `similar`).
    pub fn similar_records(&self, hits: &Vec<(u64, u32)>, min_confidence: Option<u32>) -> (r: Vec<(MemoryRecord, u32)>)
        ensures
            r@.map_values(|e: (MemoryRecord, u32)| (e.0@, e.1)) == similar(
                self.records(),
                self.index_ids(),
                hits@,
                min_confidence,
            ),
    {
        let ghost pred = |h: (u64, u32)| hit_kept(self.records(), self.index_ids(), h, min_confidence);
        let ghost f = |h: (u64, u32)|
            (self.records()[key_index(self.records(), key_of_id(self.index_ids(), h.0)->0)->0], h.1);
        let mut out: Vec<(MemoryRecord, u32)> = Vec::new();
        let mut i: usize = 0;
        while i < hits.len()
            invariant
                i <= hits@.len(),
                pred == (|h: (u64, u32)| hit_kept(self.records(), self.index_ids(), h, min_confidence)),
                f == (|h: (u64, u32)|
                    (self.records()[key_index(self.records(), key_of_id(self.index_ids(), h.0)->0)->0], h.1)),
                out@.map_values(|e: (MemoryRecord, u32)| (e.0@, e.1)) == hits@.take(i as int).filter(pred).map_values(f),
            decreases hits@.len() - i,
        {
            proof {
                lemma_filter_step(hits@, pred, i as int);
            }
            let (id, sim) = hits[i];
            let low = match min_confidence {
                Some(m) => crate::float::f32_bits_lt(sim, m),
                None => false,
            };
            let mut pushed = false;
            if !low {
                match self.key_for_id(id) {
                    Some(k) => match self.find(k.as_str()) {
                        Some(j) => {
                            let c = self.records[j].copy();
                            let ghost before = out@;
                            out.push((c, sim));
                            pushed = true;
                            proof {
                                assert(out@.map_values(|e: (MemoryRecord, u32)| (e.0@, e.1)) =~= before.map_values(
                                    |e: (MemoryRecord, u32)| (e.0@, e.1),
                                ).push(f(hits@[i as int])));
                            }
                        },
                        None => {},
                    },
                    None => {},
                }
            }
            proof {
                assert(pred(hits@[i as int]) == pushed);
            }
            i = i + 1;
        }
        proof {
            lemma_take_all(hits@);
        }
        out
    }

    /// A copy of the embedding of a key.
    pub fn get_embedding(&self, key: &str) -> (r: Option<Vec<u32>>)
        ensures
            match r {
                Some(v) => exists|i: int| 0 <= i < self.embedded().len() && self.embedded()[i] == (key@, v@),
                None => !has_embedding(self.embedded(), key@),
            },
    {
        let ghost e = embedding_views(self.embeddings@);
        let mut i: usize = 0;
        while i < self.embeddings.len()
            invariant
                i <= self.embeddings@.len(),
                e == embedding_views(self.embeddings@),
                forall|k: int| 0 <= k < i ==> e[k].0 != key@,
            decreases self.embeddings@.len() - i,
        {
            if str_eq(self.embeddings[i].0.as_str(), key) {
                let v = copy_bits(&self.embeddings[i].1);
                assert(e[i as int] == (key@, v@));
                assert(self.embedded()[i as int] == (key@, v@));
                return Some(v);
            }
            i = i + 1;
        }
        None
    }
}


/// The records a lookup returns: those the predicate finds, then scope,
/// namespace, order (records without the field last) and limit.
pub open spec fn semantic_lookup(records: Seq<RecordView>, p: Predicate, m: Modifiers) -> Seq<RecordView> {
    selected(records.filter(|r: RecordView| semantic_found(r, p)), m, false)
}

/// The records a recall returns: for `LIKE` and `PATTERN` the records
/// with an embedding, then scope, namespace, order and limit; otherwise a
/// lookup.
pub open spec fn semantic_recall(
    records: Seq<RecordView>,
    emb: Seq<(Seq<char>, Seq<u32>)>,
    p: Predicate,
    m: Modifiers,
) -> Seq<RecordView> {
    match p {
        Predicate::Like { .. } | Predicate::Pattern { .. } => selected(
            records.filter(|r: RecordView| has_embedding(emb, r.id)),
            m,
            false,
        ),
        _ => semantic_lookup(records, p, m),
    }
}

/// Whether a lookup finds a record (see `semantic_found`).
fn found_by(r: &MemoryRecord, p: &Predicate) -> (b: bool)
    ensures
        b == semantic_found(r@, *p),
{
    match p {
        Predicate::Like { .. } => false,
        Predicate::Pattern { .. } => false,
        _ => matches_predicate(r, p),
    }
}

impl SemanticBackend {
    /// The records a lookup returns (see `semantic_lookup`).
    pub fn lookup(&self, p: &Predicate, m: &Modifiers) -> (r: Vec<MemoryRecord>)
        ensures
            record_views(r@) == semantic_lookup(self.records(), *p, *m),
    {
        let keep = |x: &MemoryRecord| -> (b: bool)
            ensures
                b == semantic_found(x@, *p),
            { found_by(x, p) };
        let found = crate::records::filter_records(&self.records, keep, Ghost(|r: RecordView| semantic_found(r, *p)));
        select_records(found, m, false)
    }

    /// The records a recall returns (see `semantic_recall`).
    pub fn recall(&self, p: &Predicate, m: &Modifiers) -> (r: Vec<MemoryRecord>)
        ensures
            record_views(r@) == semantic_recall(self.records(), self.embedded(), *p, *m),
    {
        match p {
            Predicate::Like { .. } | Predicate::Pattern { .. } => {
                let keep = |x: &MemoryRecord| -> (b: bool)
                    ensures
                        b == has_embedding(self.embedded(), x@.id),
                    { embedding_position(&self.embeddings, x.id.as_str()).is_some() };
                let found = crate::records::filter_records(
                    &self.records,
                    keep,
                    Ghost(|r: RecordView| has_embedding(self.embedded(), r.id)),
                );
                select_records(found, m, false)
            },
            _ => self.lookup(p, m),
        }
    }

    /// Updates the records satisfying `p` with `data` at instant `now` (see
    /// `semantic_updated`); returns how many.
    pub fn update_at(&mut self, p: &Predicate, data: &Json, now: Timestamp) -> (r: u64)
        requires
            forall|i: int|
                0 <= i < old(self).records().len() && semantic_matches(#[trigger] old(self).records()[i], *p)
                    ==> old(self).records()[i].meta.version < u64::MAX,
        ensures
            final(self).records() == old(self).records().map_values(
                |x: RecordView| if semantic_matches(x, *p) { semantic_updated(x, data@, now) } else { x },
            ),
            r == old(self).records().filter(|x: RecordView| semantic_matches(x, *p)).len(),
            final(self).embedded() == old(self).embedded(),
            final(self).index_ids() == old(self).index_ids(),
            final(self).width() == old(self).width(),
    {
        proof {
            use_type_invariant(&*self);
        }
        let ghost s = record_views(self.records@);
        let ghost pred = |x: RecordView| semantic_matches(x, *p);
        let ghost f = |x: RecordView| if semantic_matches(x, *p) { semantic_updated(x, data@, now) } else { x };
        let mut g = SemanticBackend::with_dimensions(self.dimensions);
        std::mem::swap(&mut g, self);
        let SemanticBackend { records, embeddings, ids, next_id, dimensions } = g;
        proof {
            assert(s == old(self).records());
            assert forall|k: int| 0 <= k < s.len() && semantic_matches(#[trigger] s[k], *p) implies s[k].meta.version
                < u64::MAX by {
                assert(old(self).records()[k] == s[k]);
            }
        }
        let mut records = records;
        let mut count: u64 = 0;
        let mut i: usize = 0;
        while i < records.len()
            invariant
                records@.len() == s.len(),
                i <= s.len(),
                pred == (|x: RecordView| semantic_matches(x, *p)),
                f == (|x: RecordView| if semantic_matches(x, *p) { semantic_updated(x, data@, now) } else { x }),
                forall|k: int| 0 <= k < s.len() && semantic_matches(#[trigger] s[k], *p) ==> s[k].meta.version < u64::MAX,
                forall|k: int| 0 <= k < i ==> #[trigger] record_views(records@)[k] == f(s[k]),
                forall|k: int| i <= k < s.len() ==> #[trigger] record_views(records@)[k] == s[k],
                count == s.take(i as int).filter(pred).len(),
                count <= i,
            decreases s.len() - i,
        {
            proof {
                lemma_filter_step(s, pred, i as int);
                assert(record_views(records@)[i as int] == s[i as int]);
            }
            if matches_predicate(&records[i], p) {
                let u = semantic_update_record(&records[i], data, now);
                let ghost before = record_views(records@);
                records.set(i, u);
                proof {
                    assert(record_views(records@) =~= before.update(i as int, f(s[i as int])));
                }
                count = count + 1;
            }
            i = i + 1;
        }
        proof {
            lemma_take_all(s);
            let ns = record_views(records@);
            assert(ns =~= s.map_values(f));
            assert forall|a: int, b: int| 0 <= a < b < ns.len() implies ns[a].id != ns[b].id by {
                assert(s[a].id != s[b].id);
            }
        }
        *self = SemanticBackend { records, embeddings, ids, next_id, dimensions };
        count
    }

    /// Updates the records satisfying `p` with `data` now.
    pub fn update(&mut self, p: &Predicate, data: &Json) -> (r: u64)
        requires
            forall|i: int|
                0 <= i < old(self).records().len() && semantic_matches(#[trigger] old(self).records()[i], *p)
                    ==> old(self).records()[i].meta.version < u64::MAX,
        ensures
            exists|now: Timestamp|
                now.wf() && final(self).records() == old(self).records().map_values(
                    |x: RecordView| if semantic_matches(x, *p) { semantic_updated(x, data@, now) } else { x },
                ),
            r == old(self).records().filter(|x: RecordView| semantic_matches(x, *p)).len(),
            final(self).embedded() == old(self).embedded(),
            final(self).index_ids() == old(self).index_ids(),
    {
        let now = clock_now();
        self.update_at(p, data, now)
    }

    /// Removes the records satisfying `p`, with their embeddings and ids;
    /// returns how many records.
    pub fn forget(&mut self, p: &Predicate) -> (r: u64)
        ensures
            final(self).records() == old(self).records().filter(|x: RecordView| !semantic_matches(x, *p)),
            final(self).embedded() == old(self).embedded().filter(
                |e: (Seq<char>, Seq<u32>)| !removed_key(old(self).records(), *p, e.0),
            ),
            final(self).index_ids() == old(self).index_ids().filter(
                |e: (u64, Seq<char>)| !removed_key(old(self).records(), *p, e.1),
            ),
            r == old(self).records().len() - final(self).records().len(),
            final(self).width() == old(self).width(),
    {
        proof {
            use_type_invariant(&*self);
        }
        let ghost s = record_views(self.records@);
        // keys of the removed records
        let mut gone: Vec<String> = Vec::new();
        let mut i: usize = 0;
        while i < self.records.len()
            invariant
                i <= self.records@.len(),
                s == record_views(self.records@),
                forall|k: int| 0 <= k < gone@.len() ==> removed_key(s, *p, #[trigger] gone@[k]@),
                forall|k: int| 0 <= k < i && semantic_matches(s[k], *p) ==> exists|j: int| 0 <= j < gone@.len() && (#[trigger] gone@[j])@ == s[k].id,
            decreases self.records@.len() - i,
        {
            if matches_predicate(&self.records[i], p) {
                let ghost before = gone@;
                gone.push(self.records[i].id.clone());
                proof {
                    assert(gone@[before.len() as int]@ == s[i as int].id);
                    assert forall|k: int| 0 <= k < i + 1 && semantic_matches(s[k], *p) implies exists|j: int|
                        0 <= j < gone@.len() && (#[trigger] gone@[j])@ == s[k].id by {
                        if k == i as int {
                            assert(gone@[before.len() as int]@ == s[k].id);
                        } else {
                            let j = choose|j: int| 0 <= j < before.len() && (#[trigger] before[j])@ == s[k].id;
                            assert(gone@[j] == before[j]);
                        }
                    }
                }
            }
            i = i + 1;
        }
        let mut g = SemanticBackend::with_dimensions(self.dimensions);
        std::mem::swap(&mut g, self);
        let SemanticBackend { records, embeddings, ids, next_id, dimensions } = g;
        let n = records.len();
        let keep = |x: &MemoryRecord| -> (b: bool)
            ensures
                b == !semantic_matches(x@, *p),
            { !matches_predicate(x, p) };
        let kept = crate::records::filter_records(&records, keep, Ghost(|x: RecordView| !semantic_matches(x, *p)));
        let ghost ev = embedding_views(embeddings@);
        let new_emb = keep_embeddings(&embeddings, &gone, Ghost(s), Ghost(*p));
        let new_ids = keep_ids(&ids, &gone, Ghost(s), Ghost(*p));
        proof {
            broadcast use vstd::seq_lib::group_filter_ensures;
            let ns = record_views(kept@);
            assert forall|a: int, b: int| 0 <= a < b < ns.len() implies ns[a].id != ns[b].id by {
                lemma_filter_ids(s, |x: RecordView| !semantic_matches(x, *p), a, b);
            }
            let ne = embedding_views(new_emb@);
            assert forall|a: int, b: int| 0 <= a < b < ne.len() implies ne[a].0 != ne[b].0 by {
                lemma_filter_unique_emb(ev, |e: (Seq<char>, Seq<u32>)| !removed_key(s, *p, e.0), a, b);
            }
            let iv = id_views(ids@);
            let ni = id_views(new_ids@);
            assert forall|a: int, b: int| 0 <= a < b < ni.len() implies ni[a].0 != ni[b].0 && ni[a].1 != ni[b].1 by {
                lemma_filter_unique_ids(iv, |e: (u64, Seq<char>)| !removed_key(s, *p, e.1), a, b);
            }
            assert forall|a: int| 0 <= a < ni.len() implies (#[trigger] ni[a]).0 < next_id by {
                crate::seqs::lemma_filter_member(iv, |e: (u64, Seq<char>)| !removed_key(s, *p, e.1), a);
            }
            assert(ns.len() <= s.len());
        }
        let removed = n - kept.len();
        *self = SemanticBackend { records: kept, embeddings: new_emb, ids: new_ids, next_id, dimensions };
        removed as u64
    }

    /// Whether every record an update with `p` would change can still have
    /// its version bumped.
    pub fn can_update(&self, p: &Predicate) -> (r: bool)
        ensures
            r == forall|i: int|
                0 <= i < self.records().len() && semantic_matches(#[trigger] self.records()[i], *p)
                    ==> self.records()[i].meta.version < u64::MAX,
    {
        let ghost s = record_views(self.records@);
        let mut i: usize = 0;
        while i < self.records.len()
            invariant
                i <= self.records@.len(),
                s == record_views(self.records@),
                forall|k: int| 0 <= k < i && semantic_matches(#[trigger] s[k], *p) ==> s[k].meta.version < u64::MAX,
            decreases self.records@.len() - i,
        {
            if self.records[i].metadata.version == u64::MAX && matches_predicate(&self.records[i], p) {
                assert(s[i as int].meta.version == u64::MAX);
                return false;
            }
            i = i + 1;
        }
        true
    }

    /// The number of records.
    pub fn count(&self) -> (r: usize)
        ensures
            r == self.records().len(),
    {
        self.records.len()
    }

    /// Removes every record, embedding and id.
    pub fn clear(&mut self)
        ensures
            final(self).records().len() == 0,
            final(self).embedded().len() == 0,
            final(self).index_ids().len() == 0,
            final(self).width() == old(self).width(),
    {
        *self = SemanticBackend::with_dimensions(self.dimensions);
    }

    /// The memory kind this backend holds.
    pub fn memory_type(&self) -> (r: MemoryType)
        ensures
            r == MemoryType::Semantic,
    {
        MemoryType::Semantic
    }

    /// What this backend offers.
    pub fn info(&self) -> (r: BackendInfo)
        ensures
            r == backend_info_of(MemoryType::Semantic),
    {
        BackendInfo::semantic()
    }
}

impl Default for SemanticBackend {
    fn default() -> (r: SemanticBackend)
        ensures
            r.records().len() == 0,
            r.width() == DEFAULT_DIMENSIONS,
    {
        SemanticBackend::new()
    }
}

/// A record updated with `data` at instant `now` (see `semantic_updated`).
fn semantic_update_record(record: &MemoryRecord, data: &Json, now: Timestamp) -> (r: MemoryRecord)
    requires
        record.metadata.version < u64::MAX,
    ensures
        r@ == semantic_updated(record@, data@, now),
{
    let mut c = record.copy();
    match data {
        Json::Object(u) => {
            proof {
                crate::json::lemma_object_view(*u);
            }
            match c.data {
                Json::Object(m) => {
                    proof {
                        crate::json::lemma_object_view(m);
                    }
                    let mut m2 = m;
                    merge_members(&mut m2, u);
                    proof {
                        crate::json::lemma_object_view(m2);
                    }
                    c.data = Json::Object(m2);
                },
                _ => {
                    c.data = data.copy();
                },
            }
        },
        _ => {
            c.data = data.copy();
        },
    }
    c.metadata.touch_at(now);
    c.metadata.bump_version();
    c
}

/// Whether one of the strings is `k`.
fn among(v: &Vec<String>, k: &str) -> (r: bool)
    ensures
        r == exists|j: int| 0 <= j < v@.len() && (#[trigger] v@[j])@ == k@,
{
    let mut i: usize = 0;
    while i < v.len()
        invariant
            i <= v@.len(),
            forall|j: int| 0 <= j < i ==> (#[trigger] v@[j])@ != k@,
        decreases v@.len() - i,
    {
        if str_eq(v[i].as_str(), k) {
            assert(v@[i as int]@ == k@);
            return true;
        }
        i = i + 1;
    }
    false
}

/// The embeddings whose key no removed record has.
fn keep_embeddings(
    v: &Vec<(String, Vec<u32>)>,
    gone: &Vec<String>,
    Ghost(s): Ghost<Seq<RecordView>>,
    Ghost(p): Ghost<Predicate>,
) -> (r: Vec<(String, Vec<u32>)>)
    requires
        forall|k: int| 0 <= k < gone@.len() ==> removed_key(s, p, #[trigger] gone@[k]@),
        forall|k: int| 0 <= k < s.len() && semantic_matches(s[k], p) ==> exists|j: int| 0 <= j < gone@.len() && (#[trigger] gone@[j])@ == s[k].id,
    ensures
        embedding_views(r@) == embedding_views(v@).filter(|e: (Seq<char>, Seq<u32>)| !removed_key(s, p, e.0)),
{
    let ghost ev = embedding_views(v@);
    let ghost pred = |e: (Seq<char>, Seq<u32>)| !removed_key(s, p, e.0);
    let mut out: Vec<(String, Vec<u32>)> = Vec::new();
    let mut i: usize = 0;
    while i < v.len()
        invariant
            i <= v@.len(),
            ev == embedding_views(v@),
            pred == (|e: (Seq<char>, Seq<u32>)| !removed_key(s, p, e.0)),
            forall|k: int| 0 <= k < gone@.len() ==> removed_key(s, p, #[trigger] gone@[k]@),
            forall|k: int| 0 <= k < s.len() && semantic_matches(s[k], p) ==> exists|j: int| 0 <= j < gone@.len() && (#[trigger] gone@[j])@ == s[k].id,
            embedding_views(out@) == ev.take(i as int).filter(pred),
        decreases v@.len() - i,
    {
        proof {
            lemma_filter_step(ev, pred, i as int);
        }
        let hit = among(gone, v[i].0.as_str());
        proof {
            if hit {
                let j = choose|j: int| 0 <= j < gone@.len() && (#[trigger] gone@[j])@ == v@[i as int].0@;
                assert(removed_key(s, p, gone@[j]@));
            } else {
                if removed_key(s, p, ev[i as int].0) {
                    let k = choose|k: int| 0 <= k < s.len() && s[k].id == ev[i as int].0 && semantic_matches(s[k], p);
                    let j = choose|j: int| 0 <= j < gone@.len() && (#[trigger] gone@[j])@ == s[k].id;
                    assert(gone@[j]@ == v@[i as int].0@);
                }
            }
        }
        if !hit {
            let e = (v[i].0.clone(), copy_bits(&v[i].1));
            let ghost before = embedding_views(out@);
            out.push(e);
            proof {
                assert(embedding_views(out@) =~= before.push(ev[i as int]));
            }
        }
        i = i + 1;
    }
    proof {
        lemma_take_all(ev);
    }
    out
}

/// The ids whose key no removed record has.
fn keep_ids(
    v: &Vec<(u64, String)>,
    gone: &Vec<String>,
    Ghost(s): Ghost<Seq<RecordView>>,
    Ghost(p): Ghost<Predicate>,
) -> (r: Vec<(u64, String)>)
    requires
        forall|k: int| 0 <= k < gone@.len() ==> removed_key(s, p, #[trigger] gone@[k]@),
        forall|k: int| 0 <= k < s.len() && semantic_matches(s[k], p) ==> exists|j: int| 0 <= j < gone@.len() && (#[trigger] gone@[j])@ == s[k].id,
    ensures
        id_views(r@) == id_views(v@).filter(|e: (u64, Seq<char>)| !removed_key(s, p, e.1)),
{
    let ghost iv = id_views(v@);
    let ghost pred = |e: (u64, Seq<char>)| !removed_key(s, p, e.1);
    let mut out: Vec<(u64, String)> = Vec::new();
    let mut i: usize = 0;
    while i < v.len()
        invariant
            i <= v@.len(),
            iv == id_views(v@),
            pred == (|e: (u64, Seq<char>)| !removed_key(s, p, e.1)),
            forall|k: int| 0 <= k < gone@.len() ==> removed_key(s, p, #[trigger] gone@[k]@),
            forall|k: int| 0 <= k < s.len() && semantic_matches(s[k], p) ==> exists|j: int| 0 <= j < gone@.len() && (#[trigger] gone@[j])@ == s[k].id,
            id_views(out@) == iv.take(i as int).filter(pred),
        decreases v@.len() - i,
    {
        proof {
            lemma_filter_step(iv, pred, i as int);
        }
        let hit = among(gone, v[i].1.as_str());
        proof {
            if hit {
                let j = choose|j: int| 0 <= j < gone@.len() && (#[trigger] gone@[j])@ == v@[i as int].1@;
                assert(removed_key(s, p, gone@[j]@));
            } else {
                if removed_key(s, p, iv[i as int].1) {
                    let k = choose|k: int| 0 <= k < s.len() && s[k].id == iv[i as int].1 && semantic_matches(s[k], p);
                    let j = choose|j: int| 0 <= j < gone@.len() && (#[trigger] gone@[j])@ == s[k].id;
                    assert(gone@[j]@ == v@[i as int].1@);
                }
            }
        }
        if !hit {
            let e = (v[i].0, v[i].1.clone());
            let ghost before = id_views(out@);
            out.push(e);
            proof {
                assert(id_views(out@) =~= before.push(iv[i as int]));
            }
        }
        i = i + 1;
    }
    proof {
        lemma_take_all(iv);
    }
    out
}

/// Filtering records with unique keys keeps them unique.
proof fn lemma_filter_ids(s: Seq<RecordView>, f: spec_fn(RecordView) -> bool, a: int, b: int)
    requires
        keys_unique(s),
        0 <= a < b < s.filter(f).len(),
    ensures
        s.filter(f)[a].id != s.filter(f)[b].id,
    decreases s.len(),
{
    if s.len() > 0 {
        let init = s.drop_last();
        assert forall|i: int, j: int| 0 <= i < j < init.len() implies init[i].id != init[j].id by {
            assert(init[i] == s[i] && init[j] == s[j]);
        }
        assert(s =~= init.push(s.last()));
        init.lemma_filter_push(s.last(), f);
        let g = init.filter(f);
        if f(s.last()) && b == g.len() {
            crate::seqs::lemma_filter_member(init, f, a);
            let w = choose|w: int| 0 <= w < init.len() && init[w] == g[a];
            assert(s[w] == init[w]);
            assert(s[w].id != s[s.len() - 1].id);
        } else {
            lemma_filter_ids(init, f, a, b);
        }
    }
}

/// Filtering embeddings with unique keys keeps them unique.
proof fn lemma_filter_unique_emb(
    s: Seq<(Seq<char>, Seq<u32>)>,
    f: spec_fn((Seq<char>, Seq<u32>)) -> bool,
    a: int,
    b: int,
)
    requires
        forall|i: int, j: int| 0 <= i < j < s.len() ==> s[i].0 != s[j].0,
        0 <= a < b < s.filter(f).len(),
    ensures
        s.filter(f)[a].0 != s.filter(f)[b].0,
    decreases s.len(),
{
    if s.len() > 0 {
        let init = s.drop_last();
        assert forall|i: int, j: int| 0 <= i < j < init.len() implies init[i].0 != init[j].0 by {
            assert(init[i] == s[i] && init[j] == s[j]);
        }
        assert(s =~= init.push(s.last()));
        init.lemma_filter_push(s.last(), f);
        let g = init.filter(f);
        if f(s.last()) && b == g.len() {
            crate::seqs::lemma_filter_member(init, f, a);
            let w = choose|w: int| 0 <= w < init.len() && init[w] == g[a];
            assert(s[w] == init[w]);
            assert(s[w].0 != s[s.len() - 1].0);
        } else {
            lemma_filter_unique_emb(init, f, a, b);
        }
    }
}

/// Filtering ids with unique ids and keys keeps both unique.
proof fn lemma_filter_unique_ids(s: Seq<(u64, Seq<char>)>, f: spec_fn((u64, Seq<char>)) -> bool, a: int, b: int)
    requires
        forall|i: int, j: int| 0 <= i < j < s.len() ==> s[i].0 != s[j].0 && s[i].1 != s[j].1,
        0 <= a < b < s.filter(f).len(),
    ensures
        s.filter(f)[a].0 != s.filter(f)[b].0 && s.filter(f)[a].1 != s.filter(f)[b].1,
    decreases s.len(),
{
    if s.len() > 0 {
        let init = s.drop_last();
        assert forall|i: int, j: int| 0 <= i < j < init.len() implies init[i].0 != init[j].0 && init[i].1 != init[j].1 by {
            assert(init[i] == s[i] && init[j] == s[j]);
        }
        assert(s =~= init.push(s.last()));
        init.lemma_filter_push(s.last(), f);
        let g = init.filter(f);
        if f(s.last()) && b == g.len() {
            crate::seqs::lemma_filter_member(init, f, a);
            let w = choose|w: int| 0 <= w < init.len() && init[w] == g[a];
            assert(s[w] == init[w]);
            assert(s[w].0 != s[s.len() - 1].0 && s[w].1 != s[s.len() - 1].1);
        } else {
            lemma_filter_unique_ids(init, f, a, b);
        }
    }
}

/// What a similarity search returns: each result is a stored record with
/// the similarity of one of the index's hits, never below the minimum
/// confidence when one is given (singles compared by their value; a NaN
/// similarity or minimum compares with nothing), and a hit whose
/// similarity is below the minimum is not among the results.
pub proof fn lemma_similar_above_minimum(
    records: Seq<RecordView>,
    ids: Seq<(u64, Seq<char>)>,
    hits: Seq<(u64, u32)>,
    min_confidence: Option<u32>,
)
    ensures
        forall|k: int| 0 <= k < similar(records, ids, hits, min_confidence).len() ==> {
            let e = #[trigger] similar(records, ids, hits, min_confidence)[k];
            &&& records.contains(e.0)
            &&& exists|h: (u64, u32)| hits.contains(h) && h.1 == e.1 && key_of_id(ids, h.0) == Some(e.0.id)
            &&& (min_confidence matches Some(m) ==> !f32_lt(e.1, m))
            &&& (min_confidence is Some && !f32_is_nan(e.1) && !f32_is_nan(min_confidence->0) ==> f32_key(e.1) >= f32_key(min_confidence->0))
        },
        min_confidence is None ==> similar(records, ids, hits, min_confidence).len() <= hits.len(),
{
    let pred = |h: (u64, u32)| hit_kept(records, ids, h, min_confidence);
    let out = similar(records, ids, hits, min_confidence);
    assert forall|k: int| 0 <= k < out.len() implies {
        let e = #[trigger] out[k];
        &&& records.contains(e.0)
        &&& exists|h: (u64, u32)| hits.contains(h) && h.1 == e.1 && key_of_id(ids, h.0) == Some(e.0.id)
        &&& (min_confidence matches Some(m) ==> !f32_lt(e.1, m))
        &&& (min_confidence is Some && !f32_is_nan(e.1) && !f32_is_nan(min_confidence->0) ==> f32_key(e.1) >= f32_key(min_confidence->0))
    } by {
        lemma_filter_member(hits, pred, k);
        let h = hits.filter(pred)[k];
        assert(pred(h));
        let key = key_of_id(ids, h.0)->0;
        lemma_key_index(records, key);
        let i = key_index(records, key)->0;
        assert(out[k] == (records[i], h.1));
        assert(records[i] == records[i]);
        assert(records.contains(records[i]));
    }
    hits.lemma_filter_len(pred);
}

} // verus!
