//! The five memory kinds, record metadata and memory records.
use vstd::prelude::*;
use crate::json::{json_as_f64, json_as_i64, json_as_str, json_get, Json, JsonView};
use crate::scope::Scope;
use crate::text::{copy_string, owned, str_eq, to_upper, uppercase_of};
use crate::time::{clock_now, delta_of, max_delta_total, Timestamp, Ttl};

verus! {

broadcast use vstd::string::group_string_axioms;

/// The five kinds of memory.
#[derive(Clone, Copy, Debug, PartialEq, Eq, Hash, Structural)]
pub enum MemoryType {
    /// Current task state; constant-time lookup and insert.
    Working,
    /// Tool registry with schemas, rankings and relevance scores.
    Tools,
    /// How-to knowledge, a graph of procedures.
    Procedural,
    /// Facts and concepts with embeddings for similarity search.
    Semantic,
    /// Time-ordered events.
    Episodic,
}

/// The upper-case name of a memory kind.
pub open spec fn memory_type_name(t: MemoryType) -> Seq<char> {
    match t {
        MemoryType::Working => "WORKING"@,
        MemoryType::Tools => "TOOLS"@,
        MemoryType::Procedural => "PROCEDURAL"@,
        MemoryType::Semantic => "SEMANTIC"@,
        MemoryType::Episodic => "EPISODIC"@,
    }
}

/// The name of the backend that holds a memory kind.
pub open spec fn backend_name_of(t: MemoryType) -> Seq<char> {
    match t {
        MemoryType::Working => "working"@,
        MemoryType::Tools => "tools"@,
        MemoryType::Procedural => "procedural"@,
        MemoryType::Semantic => "semantic"@,
        MemoryType::Episodic => "episodic"@,
    }
}

/// The memory kind an upper-case name denotes.
pub open spec fn memory_type_named(n: Seq<char>) -> Option<MemoryType> {
    if n == "WORKING"@ {
        Some(MemoryType::Working)
    } else if n == "TOOLS"@ {
        Some(MemoryType::Tools)
    } else if n == "PROCEDURAL"@ {
        Some(MemoryType::Procedural)
    } else if n == "SEMANTIC"@ {
        Some(MemoryType::Semantic)
    } else if n == "EPISODIC"@ {
        Some(MemoryType::Episodic)
    } else {
        None
    }
}

/// Expected median latency of a memory kind, in milliseconds.
pub open spec fn latency_p50_of(t: MemoryType) -> u64 {
    match t {
        MemoryType::Working => 0,
        MemoryType::Tools => 1,
        MemoryType::Procedural => 2,
        MemoryType::Semantic => 10,
        MemoryType::Episodic => 20,
    }
}

/// Expected 99th-percentile latency of a memory kind, in milliseconds.
pub open spec fn latency_p99_of(t: MemoryType) -> u64 {
    match t {
        MemoryType::Working => 1,
        MemoryType::Tools => 2,
        MemoryType::Procedural => 5,
        MemoryType::Semantic => 25,
        MemoryType::Episodic => 50,
    }
}

impl MemoryType {
    /// The name of the backend that holds this kind.
    pub fn backend_name(&self) -> (r: &'static str)
        ensures
            r@ == backend_name_of(*self),
    {
        match self {
            MemoryType::Working => "working",
            MemoryType::Tools => "tools",
            MemoryType::Procedural => "procedural",
            MemoryType::Semantic => "semantic",
            MemoryType::Episodic => "episodic",
        }
    }

    /// Expected median latency in milliseconds.
    pub fn latency_p50_ms(&self) -> (r: u64)
        ensures
            r == latency_p50_of(*self),
    {
        match self {
            MemoryType::Working => 0,
            MemoryType::Tools => 1,
            MemoryType::Procedural => 2,
            MemoryType::Semantic => 10,
            MemoryType::Episodic => 20,
        }
    }

    /// Expected 99th-percentile latency in milliseconds.
    pub fn latency_p99_ms(&self) -> (r: u64)
        ensures
            r == latency_p99_of(*self),
    {
        match self {
            MemoryType::Working => 1,
            MemoryType::Tools => 2,
            MemoryType::Procedural => 5,
            MemoryType::Semantic => 25,
            MemoryType::Episodic => 50,
        }
    }

    /// Parses a memory kind, ignoring case.
    pub fn from_str(s: &str) -> (r: Option<MemoryType>)
        ensures
            r == memory_type_named(uppercase_of(s@)),
    {
        let up = to_upper(s);
        proof {
            reveal_strlit("WORKING");
            reveal_strlit("TOOLS");
            reveal_strlit("PROCEDURAL");
            reveal_strlit("SEMANTIC");
            reveal_strlit("EPISODIC");
        }
        if str_eq(up.as_str(), "WORKING") {
            Some(MemoryType::Working)
        } else if str_eq(up.as_str(), "TOOLS") {
            Some(MemoryType::Tools)
        } else if str_eq(up.as_str(), "PROCEDURAL") {
            Some(MemoryType::Procedural)
        } else if str_eq(up.as_str(), "SEMANTIC") {
            Some(MemoryType::Semantic)
        } else if str_eq(up.as_str(), "EPISODIC") {
            Some(MemoryType::Episodic)
        } else {
            None
        }
    }

    /// Every memory kind, from the fastest to the slowest.
    pub fn all() -> (r: Vec<MemoryType>)
        ensures
            r@ == seq![
                MemoryType::Working,
                MemoryType::Tools,
                MemoryType::Procedural,
                MemoryType::Semantic,
                MemoryType::Episodic,
            ],
    {
        let mut v: Vec<MemoryType> = Vec::new();
        v.push(MemoryType::Working);
        v.push(MemoryType::Tools);
        v.push(MemoryType::Procedural);
        v.push(MemoryType::Semantic);
        v.push(MemoryType::Episodic);
        v
    }

    /// The displayed form: the upper-case name.
    pub fn to_string(&self) -> (r: String)
        ensures
            r@ == memory_type_name(*self),
    {
        match self {
            MemoryType::Working => owned("WORKING"),
            MemoryType::Tools => owned("TOOLS"),
            MemoryType::Procedural => owned("PROCEDURAL"),
            MemoryType::Semantic => owned("SEMANTIC"),
            MemoryType::Episodic => owned("EPISODIC"),
        }
    }
}

// ---------------------------------------------------------------------------
// Metadata
// ---------------------------------------------------------------------------

/// Metadata of every record.
#[derive(Debug)]
pub struct Metadata {
    pub created_at: Timestamp,
    /// When the record was last read.
    pub accessed_at: Timestamp,
    pub scope: Scope,
    /// Namespace of the owning agent.
    pub namespace: Option<String>,
    /// Time to live, from creation.
    pub ttl: Option<Ttl>,
    /// Version, bumped by each update.
    pub version: u64,
}

/// The value of a record's metadata.
pub struct MetadataView {
    pub created_at: Timestamp,
    pub accessed_at: Timestamp,
    pub scope: Scope,
    pub namespace: Option<Seq<char>>,
    pub ttl: Option<Ttl>,
    pub version: u64,
}

/// The value of an optional string.
pub open spec fn opt_view(s: Option<String>) -> Option<Seq<char>> {
    match s {
        Some(x) => Some(x@),
        None => None,
    }
}

impl View for Metadata {
    type V = MetadataView;

    open spec fn view(&self) -> MetadataView {
        MetadataView {
            created_at: self.created_at,
            accessed_at: self.accessed_at,
            scope: self.scope,
            namespace: opt_view(self.namespace),
            ttl: self.ttl,
            version: self.version,
        }
    }
}

/// Whether metadata `m` has outlived its time to live at instant `now`:
/// it has one, and `now` is strictly later than the creation instant plus
/// the span (a span longer than `chrono` accepts counts as zero).
pub open spec fn expired_at(m: MetadataView, now: Timestamp) -> bool {
    match m.ttl {
        Some(t) => now.total() > m.created_at.total() + delta_of(t.total()),
        None => false,
    }
}

/// A copy of an optional string.
pub fn copy_opt_string(s: &Option<String>) -> (r: Option<String>)
    ensures
        opt_view(r) == opt_view(*s),
{
    match s {
        Some(x) => Some(copy_string(x)),
        None => None,
    }
}

impl Metadata {
    /// Fresh metadata: created and accessed at `now`, version 1, no
    /// namespace and no time to live.
    pub fn new_at(scope: Scope, now: Timestamp) -> (r: Metadata)
        ensures
            r@ == (MetadataView {
                created_at: now,
                accessed_at: now,
                scope,
                namespace: None,
                ttl: None,
                version: 1,
            }),
    {
        Metadata { created_at: now, accessed_at: now, scope, namespace: None, ttl: None, version: 1 }
    }

    /// Fresh metadata created now (see `new_at`).
    pub fn new(scope: Scope) -> (r: Metadata)
        ensures
            r.created_at == r.accessed_at,
            r.created_at.wf(),
            r@ == (MetadataView {
                created_at: r.created_at,
                accessed_at: r.created_at,
                scope,
                namespace: None,
                ttl: None,
                version: 1,
            }),
    {
        Metadata::new_at(scope, clock_now())
    }

    /// Fresh metadata in a namespace.
    pub fn with_namespace(scope: Scope, namespace: &str) -> (r: Metadata)
        ensures
            r.created_at == r.accessed_at,
            r.created_at.wf(),
            r@ == (MetadataView {
                created_at: r.created_at,
                accessed_at: r.created_at,
                scope,
                namespace: Some(namespace@),
                ttl: None,
                version: 1,
            }),
    {
        let mut m = Metadata::new(scope);
        m.namespace = Some(owned(namespace));
        m
    }

    /// Fresh metadata with a time to live.
    pub fn with_ttl(scope: Scope, ttl: Ttl) -> (r: Metadata)
        ensures
            r.created_at == r.accessed_at,
            r.created_at.wf(),
            r@ == (MetadataView {
                created_at: r.created_at,
                accessed_at: r.created_at,
                scope,
                namespace: None,
                ttl: Some(ttl),
                version: 1,
            }),
    {
        let mut m = Metadata::new(scope);
        m.ttl = Some(ttl);
        m
    }

    /// Whether the record has outlived its time to live at instant `now`.
    pub fn is_expired_at(&self, now: &Timestamp) -> (r: bool)
        ensures
            r == expired_at(self@, *now),
    {
        match self.ttl {
            Some(t) => {
                let secs: u64 = t.as_secs();
                let nanos: u32 = t.subsec_nanos();
                let span: i128 = secs as i128 * 1_000_000_000 + nanos as i128;
                let delta: i128 = if span <= 9_223_372_036_854_775_807i128 * 1_000_000 {
                    span
                } else {
                    0
                };
                let created: i128 = self.created_at.secs as i128 * 1_000_000_000
                    + self.created_at.nanos as i128;
                let current: i128 = now.secs as i128 * 1_000_000_000 + now.nanos as i128;
                current > created + delta
            },
            None => false,
        }
    }

    /// Whether the record has outlived its time to live now.  A record
    /// without a time to live never expires.
    pub fn is_expired(&self) -> (r: bool)
        ensures
            self.ttl is None ==> !r,
            exists|now: Timestamp| now.wf() && r == expired_at(self@, now),
    {
        let now = clock_now();
        self.is_expired_at(&now)
    }

    /// Records a read at instant `now`.
    pub fn touch_at(&mut self, now: Timestamp)
        ensures
            final(self)@ == (MetadataView { accessed_at: now, ..old(self)@ }),
    {
        self.accessed_at = now;
    }

    /// Records a read now.
    pub fn touch(&mut self)
        ensures
            final(self).accessed_at.wf(),
            final(self)@ == (MetadataView { accessed_at: final(self).accessed_at, ..old(self)@ }),
    {
        self.accessed_at = clock_now();
    }

    /// Increments the version.
    pub fn bump_version(&mut self)
        requires
            old(self).version < u64::MAX,
        ensures
            final(self)@ == (MetadataView { version: (old(self).version + 1) as u64, ..old(self)@ }),
    {
        self.version = self.version + 1;
    }

    /// A copy of the metadata.
    pub fn copy(&self) -> (r: Metadata)
        ensures
            r@ == self@,
    {
        Metadata {
            created_at: self.created_at,
            accessed_at: self.accessed_at,
            scope: self.scope,
            namespace: copy_opt_string(&self.namespace),
            ttl: self.ttl,
            version: self.version,
        }
    }
}

impl Default for Metadata {
    fn default() -> (r: Metadata)
        ensures
            r.created_at == r.accessed_at,
            r@ == (MetadataView {
                created_at: r.created_at,
                accessed_at: r.created_at,
                scope: Scope::Private,
                namespace: None,
                ttl: None,
                version: 1,
            }),
    {
        Metadata::new(Scope::Private)
    }
}

// ---------------------------------------------------------------------------
// Records
// ---------------------------------------------------------------------------

/// A record of some memory kind: a key, a JSON payload and metadata.
#[derive(Debug)]
pub struct MemoryRecord {
    pub id: String,
    pub memory_type: MemoryType,
    pub data: Json,
    pub metadata: Metadata,
}

/// The value of a record.
pub struct RecordView {
    pub id: Seq<char>,
    pub memory_type: MemoryType,
    pub data: JsonView,
    pub meta: MetadataView,
}

impl View for MemoryRecord {
    type V = RecordView;

    open spec fn view(&self) -> RecordView {
        RecordView {
            id: self.id@,
            memory_type: self.memory_type,
            data: self.data@,
            meta: self.metadata@,
        }
    }
}

impl MemoryRecord {
    /// A fresh record (metadata as `Metadata::new`).
    pub fn new(id: &str, memory_type: MemoryType, data: Json, scope: Scope) -> (r: MemoryRecord)
        ensures
            r.id@ == id@,
            r.memory_type == memory_type,
            r.data == data,
            r.metadata.created_at.wf(),
            r.metadata@ == (MetadataView {
                created_at: r.metadata.created_at,
                accessed_at: r.metadata.created_at,
                scope,
                namespace: None,
                ttl: None,
                version: 1,
            }),
    {
        MemoryRecord { id: owned(id), memory_type, data, metadata: Metadata::new(scope) }
    }

    /// A fresh record with a namespace and a time to live.
    pub fn with_options(
        id: &str,
        memory_type: MemoryType,
        data: Json,
        scope: Scope,
        namespace: Option<String>,
        ttl: Option<Ttl>,
    ) -> (r: MemoryRecord)
        ensures
            r.id@ == id@,
            r.memory_type == memory_type,
            r.data == data,
            r.metadata.created_at.wf(),
            r.metadata@ == (MetadataView {
                created_at: r.metadata.created_at,
                accessed_at: r.metadata.created_at,
                scope,
                namespace: opt_view(namespace),
                ttl,
                version: 1,
            }),
    {
        let mut record = MemoryRecord::new(id, memory_type, data, scope);
        record.metadata.namespace = namespace;
        record.metadata.ttl = ttl;
        record
    }

    /// Whether the record has outlived its time to live at instant `now`.
    pub fn is_expired_at(&self, now: &Timestamp) -> (r: bool)
        ensures
            r == expired_at(self.metadata@, *now),
    {
        self.metadata.is_expired_at(now)
    }

    /// Whether the record has outlived its time to live now.
    pub fn is_expired(&self) -> (r: bool)
        ensures
            self.metadata.ttl is None ==> !r,
            exists|now: Timestamp| now.wf() && r == expired_at(self.metadata@, now),
    {
        self.metadata.is_expired()
    }

    /// The payload member named `field`.
    pub fn get(&self, field: &str) -> (r: Option<&Json>)
        ensures
            match json_get(self.data@, field@) {
                Some(v) => r matches Some(x) && x@ == v,
                None => r is None,
            },
    {
        self.data.get(field)
    }

    /// The payload member named `field`, when it is a string.
    pub fn get_str(&self, field: &str) -> (r: Option<&str>)
        ensures
            match json_get(self.data@, field@) {
                Some(v) => match json_as_str(v) {
                    Some(s) => r matches Some(x) && x@ == s,
                    None => r is None,
                },
                None => r is None,
            },
    {
        match self.data.get(field) {
            Some(v) => v.as_str(),
            None => None,
        }
    }

    /// The payload member named `field`, when it is an integer that fits an `i64`.
    pub fn get_i64(&self, field: &str) -> (r: Option<i64>)
        ensures
            r == match json_get(self.data@, field@) {
                Some(v) => json_as_i64(v),
                None => None,
            },
    {
        match self.data.get(field) {
            Some(v) => v.as_i64(),
            None => None,
        }
    }

    /// The payload member named `field` as a double (its bit pattern), when
    /// it is a number.
    pub fn get_f64(&self, field: &str) -> (r: Option<u64>)
        ensures
            r == match json_get(self.data@, field@) {
                Some(v) => json_as_f64(v),
                None => None,
            },
    {
        match self.data.get(field) {
            Some(v) => v.as_f64_bits(),
            None => None,
        }
    }

    /// Records a read now.
    pub fn touch(&mut self)
        ensures
            final(self).metadata.accessed_at.wf(),
            final(self)@ == (RecordView {
                meta: MetadataView { accessed_at: final(self).metadata.accessed_at, ..old(self)@.meta },
                ..old(self)@
            }),
    {
        self.metadata.touch();
    }

    /// A copy of the record.
    pub fn copy(&self) -> (r: MemoryRecord)
        ensures
            r@ == self@,
    {
        MemoryRecord {
            id: copy_string(&self.id),
            memory_type: self.memory_type,
            data: self.data.copy(),
            metadata: self.metadata.copy(),
        }
    }
}

} // verus!
