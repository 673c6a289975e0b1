//! The link store: every link between records, keyed by link id, with the
//! link types seen since the store was created or last cleared.
use vstd::prelude::*;
use crate::float::{f32_bits_unit_clamp, f32_unit_clamp};
use crate::link::{link_is_from, link_is_to, link_matches, Link, LinkPredicate, LinkView};
use crate::memory::MemoryType;
use crate::seqs::{lemma_filter_member, lemma_filter_step, lemma_take_all};
use crate::text::{copy_string, owned, str_eq};
use crate::time::Timestamp;

verus! {

broadcast use vstd::string::group_string_axioms;

/// The values of a sequence of links.
pub open spec fn link_views(v: Seq<Link>) -> Seq<LinkView> {
    v.map_values(|l: Link| l@)
}

/// The values of a sequence of strings.
pub open spec fn string_views(v: Seq<String>) -> Seq<Seq<char>> {
    v.map_values(|s: String| s@)
}

/// Whether link `l` has the type `t`, when a type is given.
pub open spec fn type_filter(t: Option<Seq<char>>, l: LinkView) -> bool {
    match t {
        Some(k) => l.link_type == k,
        None => true,
    }
}

/// The value of an optional string slice.
pub open spec fn opt_str_view(s: Option<&str>) -> Option<Seq<char>> {
    match s {
        Some(x) => Some(x@),
        None => None,
    }
}

/// Links starting at record `(t, id)` with the given type, in store order.
pub open spec fn links_from(s: Seq<LinkView>, t: MemoryType, id: Seq<char>, k: Option<Seq<char>>) -> Seq<LinkView> {
    s.filter(|l: LinkView| link_is_from(l, t, id) && type_filter(k, l))
}

/// Links ending at record `(t, id)` with the given type, in store order.
pub open spec fn links_to(s: Seq<LinkView>, t: MemoryType, id: Seq<char>, k: Option<Seq<char>>) -> Seq<LinkView> {
    s.filter(|l: LinkView| link_is_to(l, t, id) && type_filter(k, l))
}

/// The position of the link with key `id`, if any (keys are unique in a
/// store, so there is at most one).
pub open spec fn id_index(s: Seq<LinkView>, id: Seq<char>) -> Option<int> {
    if exists|i: int| 0 <= i < s.len() && s[i].id == id {
        Some(choose|i: int| 0 <= i < s.len() && s[i].id == id)
    } else {
        None
    }
}

/// The number of links of type `k`.
pub open spec fn type_count(s: Seq<LinkView>, k: Seq<char>) -> nat {
    s.filter(|l: LinkView| l.link_type == k).len()
}

/// The value of a link store.
pub struct LinkStoreView {
    /// The links, in the order they were made.
    pub links: Seq<LinkView>,
    /// The link types made since the store was created or last cleared,
    /// in first-seen order.
    pub types: Seq<Seq<char>>,
}

/// In-memory store of links.
pub struct LinkStore {
    links: Vec<Link>,
    types: Vec<String>,
}

impl View for LinkStore {
    type V = LinkStoreView;

    closed spec fn view(&self) -> LinkStoreView {
        LinkStoreView {
            links: link_views(self.links@),
            types: string_views(self.types@),
        }
    }
}

/// A store value is consistent: link ids are unique, link types are listed
/// once each, and every link's type is listed.
pub open spec fn link_store_wf(v: LinkStoreView) -> bool {
    &&& forall|i: int, j: int| 0 <= i < j < v.links.len() ==> v.links[i].id != v.links[j].id
    &&& forall|i: int, j: int| 0 <= i < j < v.types.len() ==> v.types[i] != v.types[j]
    &&& forall|i: int| 0 <= i < v.links.len() ==> v.types.contains(#[trigger] v.links[i].link_type)
}

impl LinkStore {
    #[verifier::type_invariant]
    spec fn inv(self) -> bool {
        link_store_wf(self@)
    }

    /// An empty store.
    pub fn new() -> (r: LinkStore)
        ensures
            r@.links == Seq::<LinkView>::empty(),
            r@.types == Seq::<Seq<char>>::empty(),
    {
        let r = LinkStore { links: Vec::new(), types: Vec::new() };
        assert(r@.links =~= Seq::<LinkView>::empty());
        assert(r@.types =~= Seq::<Seq<char>>::empty());
        r
    }

    /// Index of the link with key `id`.
    fn find(&self, id: &str) -> (r: Option<usize>)
        ensures
            match r {
                Some(i) => i < self@.links.len() && self@.links[i as int].id == id@,
                None => forall|i: int| 0 <= i < self@.links.len() ==> self@.links[i].id != id@,
            },
    {
        let mut i: usize = 0;
        while i < self.links.len()
            invariant
                i <= self.links@.len(),
                forall|k: int| 0 <= k < i ==> self@.links[k].id != id@,
            decreases self.links@.len() - i,
        {
            if str_eq(self.links[i].id.as_str(), id) {
                return Some(i);
            }
            i = i + 1;
        }
        None
    }

    /// Whether type `k` is listed.
    fn has_type(&self, k: &str) -> (r: bool)
        ensures
            r == self@.types.contains(k@),
    {
        let mut i: usize = 0;
        while i < self.types.len()
            invariant
                i <= self.types@.len(),
                forall|m: int| 0 <= m < i ==> self@.types[m] != k@,
            decreases self.types@.len() - i,
        {
            if str_eq(self.types[i].as_str(), k) {
                assert(self@.types[i as int] == k@);
                return true;
            }
            i = i + 1;
        }
        false
    }

    /// Stores `link` under its key, replacing the link with the same key if
    /// there is one, and lists its type if it is new.
    fn insert(&mut self, link: Link)
        ensures
            match id_index(old(self)@.links, link@.id) {
                Some(i) => final(self)@.links == old(self)@.links.update(i, link@),
                None => final(self)@.links == old(self)@.links.push(link@),
            },
            final(self)@.types == if old(self)@.types.contains(link@.link_type) {
                old(self)@.types
            } else {
                old(self)@.types.push(link@.link_type)
            },
    {
        proof {
            use_type_invariant(&*self);
        }
        let known = self.has_type(link.link_type.as_str());
        let found = self.find(link.id.as_str());
        let ghost old_links = self@.links;
        let ghost old_types = self@.types;
        let ty = copy_string(&link.link_type);
        let mut links = Vec::new();
        std::mem::swap(&mut links, &mut self.links);
        let mut types = Vec::new();
        std::mem::swap(&mut types, &mut self.types);
        match found {
            Some(i) => {
                links.set(i, link);
            },
            None => {
                links.push(link);
            },
        }
        if !known {
            types.push(ty);
        }
        proof {
            let nl = link_views(links@);
            let nt = string_views(types@);
            match found {
                Some(j) => {
                    assert(id_index(old_links, link@.id) == Some(j as int));
                    assert(nl =~= old_links.update(j as int, link@));
                },
                None => {
                    assert(id_index(old_links, link@.id) is None);
                    assert(nl =~= old_links.push(link@));
                },
            }
            if known {
                assert(nt =~= old_types);
            } else {
                assert(nt =~= old_types.push(link@.link_type));
            }
            assert(nt.contains(link@.link_type)) by {
                if known {
                } else {
                    assert(nt[nt.len() - 1] == link@.link_type);
                }
            }
            assert forall|a: int| 0 <= a < nl.len() implies nt.contains(#[trigger] nl[a].link_type) by {
                if nl[a] != link@ {
                    assert(old_types.contains(old_links[a].link_type));
                    let w = choose|w: int| 0 <= w < old_types.len() && old_types[w] == old_links[a].link_type;
                    assert(nt[w] == old_types[w]);
                }
            }
        }
        self.types = types;
        self.links = links;
    }

    /// Makes a link with a fresh key and stores it; returns a copy.
    pub fn link(
        &mut self,
        from_type: MemoryType,
        from_id: &str,
        to_type: MemoryType,
        to_id: &str,
        link_type: &str,
        weight: u32,
    ) -> (r: Link)
        ensures
            r@ == (LinkView {
                id: r.id@,
                from_type,
                from_id: from_id@,
                to_type,
                to_id: to_id@,
                link_type: link_type@,
                weight: f32_unit_clamp(weight),
                created_at: r.created_at,
                updated_at: r.created_at,
            }),
            crate::link::uuid_v4_text(r.id@),
            match id_index(old(self)@.links, r@.id) {
                Some(i) => final(self)@.links == old(self)@.links.update(i, r@),
                None => final(self)@.links == old(self)@.links.push(r@),
            },
            final(self)@.types == if old(self)@.types.contains(link_type@) {
                old(self)@.types
            } else {
                old(self)@.types.push(link_type@)
            },
    {
        let link = Link::new(from_type, from_id, to_type, to_id, link_type, weight);
        let r = link.copy();
        self.insert(link);
        r
    }

    /// Links starting at record `(from_type, from_id)`, of type `link_type`
    /// when one is given, in the order they were made.
    pub fn get_links_from(&self, from_type: MemoryType, from_id: &str, link_type: Option<&str>) -> (r: Vec<Link>)
        ensures
            link_views(r@) == links_from(self@.links, from_type, from_id@, opt_str_view(link_type)),
    {
        let ghost s = self@.links;
        let ghost k = opt_str_view(link_type);
        let ghost pred = |l: LinkView| link_is_from(l, from_type, from_id@) && type_filter(k, l);
        let mut out: Vec<Link> = Vec::new();
        let mut i: usize = 0;
        while i < self.links.len()
            invariant
                i <= self.links@.len(),
                s == self@.links,
                k == opt_str_view(link_type),
                pred == (|l: LinkView| link_is_from(l, from_type, from_id@) && type_filter(k, l)),
                link_views(out@) == s.take(i as int).filter(pred),
            decreases self.links@.len() - i,
        {
            let l = &self.links[i];
            let keep = l.is_from(from_type, from_id) && match link_type {
                Some(t) => l.has_type(t),
                None => true,
            };
            proof {
                assert(s[i as int] == l@);
                assert(pred(l@) == keep);
                lemma_filter_step(s, pred, i as int);
            }
            if keep {
                out.push(l.copy());
                assert(link_views(out@) =~= s.take(i as int).filter(pred).push(l@));
            }
            i = i + 1;
        }
        proof {
            lemma_take_all(s);
        }
        out
    }

    /// Links ending at record `(to_type, to_id)`, of type `link_type` when
    /// one is given, in the order they were made.
    pub fn get_links_to(&self, to_type: MemoryType, to_id: &str, link_type: Option<&str>) -> (r: Vec<Link>)
        ensures
            link_views(r@) == links_to(self@.links, to_type, to_id@, opt_str_view(link_type)),
    {
        let ghost s = self@.links;
        let ghost k = opt_str_view(link_type);
        let ghost pred = |l: LinkView| link_is_to(l, to_type, to_id@) && type_filter(k, l);
        let mut out: Vec<Link> = Vec::new();
        let mut i: usize = 0;
        while i < self.links.len()
            invariant
                i <= self.links@.len(),
                s == self@.links,
                k == opt_str_view(link_type),
                pred == (|l: LinkView| link_is_to(l, to_type, to_id@) && type_filter(k, l)),
                link_views(out@) == s.take(i as int).filter(pred),
            decreases self.links@.len() - i,
        {
            let l = &self.links[i];
            let keep = l.is_to(to_type, to_id) && match link_type {
                Some(t) => l.has_type(t),
                None => true,
            };
            proof {
                assert(s[i as int] == l@);
                assert(pred(l@) == keep);
                lemma_filter_step(s, pred, i as int);
            }
            if keep {
                out.push(l.copy());
                assert(link_views(out@) =~= s.take(i as int).filter(pred).push(l@));
            }
            i = i + 1;
        }
        proof {
            lemma_take_all(s);
        }
        out
    }

    /// The links passing `predicate`, in the order they were made.
    pub fn get_links(&self, predicate: &LinkPredicate) -> (r: Vec<Link>)
        ensures
            link_views(r@) == self@.links.filter(|l: LinkView| link_matches(predicate@, l)),
    {
        let ghost s = self@.links;
        let ghost pred = |l: LinkView| link_matches(predicate@, l);
        let mut out: Vec<Link> = Vec::new();
        let mut i: usize = 0;
        while i < self.links.len()
            invariant
                i <= self.links@.len(),
                s == self@.links,
                pred == (|l: LinkView| link_matches(predicate@, l)),
                link_views(out@) == s.take(i as int).filter(pred),
            decreases self.links@.len() - i,
        {
            let l = &self.links[i];
            let keep = predicate.matches(l);
            proof {
                assert(s[i as int] == l@);
                assert(pred(l@) == keep);
                lemma_filter_step(s, pred, i as int);
            }
            if keep {
                out.push(l.copy());
                assert(link_views(out@) =~= s.take(i as int).filter(pred).push(l@));
            }
            i = i + 1;
        }
        proof {
            lemma_take_all(s);
        }
        out
    }

    /// Sets the weight (clamped to [0, 1]) of the link with key `link_id`,
    /// as of now; nothing happens when there is none.
    pub fn update_weight(&mut self, link_id: &str, weight: u32)
        ensures
            final(self)@.types == old(self)@.types,
            match id_index(old(self)@.links, link_id@) {
                Some(i) => final(self)@.links == old(self)@.links.update(
                    i,
                    LinkView {
                        weight: f32_unit_clamp(weight),
                        updated_at: final(self)@.links[i].updated_at,
                        ..old(self)@.links[i]
                    },
                ),
                None => final(self)@.links == old(self)@.links,
            },
    {
        proof {
            use_type_invariant(&*self);
        }
        let found = self.find(link_id);
        let ghost old_links = self@.links;
        match found {
            Some(i) => {
                assert(id_index(old_links, link_id@) == Some(i as int));
                let mut links = Vec::new();
        std::mem::swap(&mut links, &mut self.links);
                let mut l = links[i].copy();
                l.set_weight(weight);
                links.set(i, l);
                proof {
                    let nl = link_views(links@);
                    assert(nl =~= old_links.update(
                        i as int,
                        LinkView {
                            weight: f32_unit_clamp(weight),
                            updated_at: nl[i as int].updated_at,
                            ..old_links[i as int]
                        },
                    ));
                    assert forall|a: int, b: int| 0 <= a < b < nl.len() implies nl[a].id != nl[b].id by {
                        assert(old_links[a].id != old_links[b].id);
                    }
                    assert forall|a: int| 0 <= a < nl.len() implies self@.types.contains(#[trigger] nl[a].link_type) by {
                        assert(self@.types.contains(old_links[a].link_type));
                    }
                }
                self.links = links;
            },
            None => {},
        }
    }

    /// Moves the weight of the link with key `link_id` toward a success
    /// signal as of now (see `Link::update_weight`); nothing happens when
    /// there is none.
    pub fn update_weight_with_signal<B: Fn(u32, u32, u32) -> u32>(
        &mut self,
        link_id: &str,
        signal: u32,
        decay: u32,
        blend: &B,
    )
        requires
            forall|w: u32, s: u32, d: u32| call_requires(*blend, (w, s, d)),
        ensures
            final(self)@.types == old(self)@.types,
            match id_index(old(self)@.links, link_id@) {
                Some(i) => exists|b: u32|
                    {
                        &&& #[trigger] call_ensures(
                            *blend,
                            (old(self)@.links[i].weight, f32_unit_clamp(signal), f32_unit_clamp(decay)),
                            b,
                        )
                        &&& final(self)@.links == old(self)@.links.update(
                            i,
                            LinkView {
                                weight: f32_unit_clamp(b),
                                updated_at: final(self)@.links[i].updated_at,
                                ..old(self)@.links[i]
                            },
                        )
                    },
                None => final(self)@.links == old(self)@.links,
            },
    {
        match self.get_link(link_id) {
            Some(l) => {
                let b = blend(l.weight, f32_bits_unit_clamp(signal), f32_bits_unit_clamp(decay));
                self.update_weight(link_id, b);
            },
            None => {},
        }
    }

    /// The link with key `link_id`, if any.
    pub fn get_link(&self, link_id: &str) -> (r: Option<Link>)
        ensures
            match id_index(self@.links, link_id@) {
                Some(i) => r matches Some(l) && l@ == self@.links[i],
                None => r is None,
            },
    {
        let found = self.find(link_id);
        proof {
            use_type_invariant(self);
        }
        match found {
            Some(i) => {
                assert(id_index(self@.links, link_id@) == Some(i as int));
                Some(self.links[i].copy())
            },
            None => None,
        }
    }

    /// Removes the links passing `predicate`; returns how many there were.
    /// The other links stay, in their order.
    pub fn forget_links(&mut self, predicate: &LinkPredicate) -> (r: u64)
        ensures
            final(self)@.links == old(self)@.links.filter(|l: LinkView| !link_matches(predicate@, l)),
            r == old(self)@.links.filter(|l: LinkView| link_matches(predicate@, l)).len(),
            final(self)@.types == old(self)@.types,
    {
        proof {
            use_type_invariant(&*self);
        }
        let ghost s = self@.links;
        let ghost types = self@.types;
        let ghost keep_pred = |l: LinkView| !link_matches(predicate@, l);
        let ghost drop_pred = |l: LinkView| link_matches(predicate@, l);
        let mut old_links = Vec::new();
        std::mem::swap(&mut old_links, &mut self.links);
        let mut kept: Vec<Link> = Vec::new();
        let mut count: u64 = 0;
        let mut i: usize = 0;
        while i < old_links.len()
            invariant
                i <= old_links@.len(),
                s == link_views(old_links@),
                keep_pred == (|l: LinkView| !link_matches(predicate@, l)),
                drop_pred == (|l: LinkView| link_matches(predicate@, l)),
                link_views(kept@) == s.take(i as int).filter(keep_pred),
                count == s.take(i as int).filter(drop_pred).len(),
                count <= i,
            decreases old_links@.len() - i,
        {
            let l = &old_links[i];
            let hit = predicate.matches(l);
            proof {
                assert(s[i as int] == l@);
                assert(keep_pred(l@) == !hit);
                assert(drop_pred(l@) == hit);
                lemma_filter_step(s, keep_pred, i as int);
                lemma_filter_step(s, drop_pred, i as int);
                broadcast use vstd::seq_lib::group_filter_ensures;
            }
            if hit {
                count = count + 1;
            } else {
                kept.push(l.copy());
                assert(link_views(kept@) =~= s.take(i as int).filter(keep_pred).push(l@));
            }
            i = i + 1;
        }
        proof {
            lemma_take_all(s);
            let nl = link_views(kept@);
            assert forall|a: int, b: int| 0 <= a < b < nl.len() implies nl[a].id != nl[b].id by {
                // kept links are distinct elements of the original sequence
                lemma_filter_ids_unique(s, keep_pred, a, b);
            }
            assert forall|a: int| 0 <= a < nl.len() implies types.contains(#[trigger] nl[a].link_type) by {
                lemma_filter_member(s, keep_pred, a);
                let w = choose|w: int| 0 <= w < s.len() && s[w] == nl[a];
                assert(types.contains(s[w].link_type));
            }
        }
        self.links = kept;
        count
    }

    /// The number of links.
    pub fn count(&self) -> (r: usize)
        ensures
            r == self@.links.len(),
    {
        self.links.len()
    }

    /// Removes every link and forgets every link type.
    pub fn clear(&mut self)
        ensures
            final(self)@.links == Seq::<LinkView>::empty(),
            final(self)@.types == Seq::<Seq<char>>::empty(),
    {
        *self = LinkStore { links: Vec::new(), types: Vec::new() };
        assert(self@.links =~= Seq::<LinkView>::empty());
        assert(self@.types =~= Seq::<Seq<char>>::empty());
    }

    /// Each link type made since the store was created or last cleared, in
    /// first-seen order, with the number of links of that type now stored
    /// (zero once they are all forgotten).
    pub fn type_stats(&self) -> (r: Vec<(String, usize)>)
        ensures
            r@.len() == self@.types.len(),
            forall|k: int| 0 <= k < r@.len() ==> #[trigger] r@[k].0@ == self@.types[k]
                && r@[k].1 == type_count(self@.links, self@.types[k]),
    {
        let mut out: Vec<(String, usize)> = Vec::new();
        let mut k: usize = 0;
        while k < self.types.len()
            invariant
                k <= self.types@.len(),
                out@.len() == k,
                forall|m: int| 0 <= m < k ==> #[trigger] out@[m].0@ == self@.types[m]
                    && out@[m].1 == type_count(self@.links, self@.types[m]),
            decreases self.types@.len() - k,
        {
            let t = self.types[k].as_str();
            let ghost s = self@.links;
            let ghost pred = |l: LinkView| l.link_type == t@;
            let mut n: usize = 0;
            let mut i: usize = 0;
            while i < self.links.len()
                invariant
                    i <= self.links@.len(),
                    s == self@.links,
                    pred == (|l: LinkView| l.link_type == t@),
                    n == s.take(i as int).filter(pred).len(),
                    n <= i,
                decreases self.links@.len() - i,
            {
                let hit = self.links[i].has_type(t);
                proof {
                    assert(s[i as int] == self.links@[i as int]@);
                    assert(pred(s[i as int]) == hit);
                    lemma_filter_step(s, pred, i as int);
                }
                if hit {
                    n = n + 1;
                }
                i = i + 1;
            }
            proof {
                lemma_take_all(s);
            }
            out.push((copy_string(&self.types[k]), n));
            k = k + 1;
        }
        out
    }

    /// The link types made since the store was created or last cleared, in
    /// first-seen order.
    pub fn link_types(&self) -> (r: Vec<String>)
        ensures
            string_views(r@) == self@.types,
    {
        let mut out: Vec<String> = Vec::new();
        let mut k: usize = 0;
        while k < self.types.len()
            invariant
                k <= self.types@.len(),
                string_views(out@) == self@.types.take(k as int),
            decreases self.types@.len() - k,
        {
            let c = copy_string(&self.types[k]);
            assert(c@ == self@.types[k as int]);
            let ghost before = out@;
            out.push(c);
            assert(string_views(out@) =~= string_views(before).push(c@));
            assert(string_views(out@) =~= self@.types.take(k + 1));
            k = k + 1;
        }
        proof {
            lemma_take_all(self@.types);
        }
        out
    }
}

/// Two distinct positions of a filtered sequence of links with unique ids
/// hold links with different ids.
proof fn lemma_filter_ids_unique(s: Seq<LinkView>, p: spec_fn(LinkView) -> bool, a: int, b: int)
    requires
        forall|i: int, j: int| 0 <= i < j < s.len() ==> s[i].id != s[j].id,
        0 <= a < b < s.filter(p).len(),
    ensures
        s.filter(p)[a].id != s.filter(p)[b].id,
    decreases s.len(),
{
    let f = s.filter(p);
    if s.len() > 0 {
        let init = s.drop_last();
        let g = init.filter(p);
        assert forall|i: int, j: int| 0 <= i < j < init.len() implies init[i].id != init[j].id by {
            assert(init[i] == s[i] && init[j] == s[j]);
        }
        assert(s =~= init.push(s.last()));
        init.lemma_filter_push(s.last(), p);
        if p(s.last()) {
            assert(f == g.push(s.last()));
            if b < g.len() {
                lemma_filter_ids_unique(init, p, a, b);
            } else {
                // f[b] is the last link; f[a] comes from the earlier ones
                lemma_filter_member(init, p, a);
                let w = choose|w: int| 0 <= w < init.len() && init[w] == g[a];
                assert(s[w] == init[w]);
                assert(s[w].id != s[s.len() - 1].id);
            }
        } else {
            assert(f == g);
            lemma_filter_ids_unique(init, p, a, b);
        }
    }
}

} // verus!
