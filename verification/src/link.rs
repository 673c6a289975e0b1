//! Typed, weighted links between records of any memory kinds.
use vstd::prelude::*;
use crate::float::{f32_bits_lt, f32_bits_unit_clamp, f32_is_nan, f32_key, f32_lt, f32_unit_clamp};
use crate::memory::{opt_view, MemoryType};
use crate::text::{copy_string, owned, str_eq};
use crate::time::{clock_now, Timestamp};

verus! {

broadcast use vstd::string::group_string_axioms;

/// A lower-case hexadecimal digit.
pub open spec fn is_lower_hex(c: char) -> bool {
    (0x30 <= c as u32 <= 0x39) || (0x61 <= c as u32 <= 0x66)
}

/// The hyphenated text of a random (version 4, RFC 4122 variant) UUID: 32
/// lower-case hexadecimal digits in groups of 8-4-4-4-12 separated by
/// hyphens, the version digit `4` first in the third group and the variant
/// digit (`8`, `9`, `a` or `b`) first in the fourth.
pub open spec fn uuid_v4_text(s: Seq<char>) -> bool {
    &&& s.len() == 36
    &&& forall|i: int|
        0 <= i < 36 ==> if i == 8 || i == 13 || i == 18 || i == 23 {
            s[i] == '-'
        } else {
            is_lower_hex(#[trigger] s[i])
        }
    &&& s[14] == '4'
    &&& (s[19] == '8' || s[19] == '9' || s[19] == 'a' || s[19] == 'b')
}

/// Makes a random UUID with `uuid::Uuid::new_v4`, which sets the version
/// and variant bits of random bits, and renders it with its `Display` form
/// (see `uuid_v4_text`).  Which random digits come out is left open.
#[verifier::external_body]
pub(crate) fn new_uuid() -> (r: String)
    ensures
        uuid_v4_text(r@),
{
    uuid::Uuid::new_v4().to_string()
}

/// A typed edge from one record to another.
#[derive(Debug)]
pub struct Link {
    pub id: String,
    pub from_type: MemoryType,
    pub from_id: String,
    pub to_type: MemoryType,
    pub to_id: String,
    /// Kind of relation, chosen by the agent ("applied_to", "triggers", ...).
    pub link_type: String,
    /// Strength in [0, 1] (an `f32`, as its bit pattern).
    pub weight: u32,
    pub created_at: Timestamp,
    pub updated_at: Timestamp,
}

/// The value of a link.
pub struct LinkView {
    pub id: Seq<char>,
    pub from_type: MemoryType,
    pub from_id: Seq<char>,
    pub to_type: MemoryType,
    pub to_id: Seq<char>,
    pub link_type: Seq<char>,
    pub weight: u32,
    pub created_at: Timestamp,
    pub updated_at: Timestamp,
}

impl View for Link {
    type V = LinkView;

    open spec fn view(&self) -> LinkView {
        LinkView {
            id: self.id@,
            from_type: self.from_type,
            from_id: self.from_id@,
            to_type: self.to_type,
            to_id: self.to_id@,
            link_type: self.link_type@,
            weight: self.weight,
            created_at: self.created_at,
            updated_at: self.updated_at,
        }
    }
}

/// Whether link `l` starts at record `(t, id)`.
pub open spec fn link_is_from(l: LinkView, t: MemoryType, id: Seq<char>) -> bool {
    l.from_type == t && l.from_id == id
}

/// Whether link `l` ends at record `(t, id)`.
pub open spec fn link_is_to(l: LinkView, t: MemoryType, id: Seq<char>) -> bool {
    l.to_type == t && l.to_id == id
}

impl Link {
    /// A link with the given key, created now, its weight clamped to [0, 1].
    pub fn with_id(
        id: &str,
        from_type: MemoryType,
        from_id: &str,
        to_type: MemoryType,
        to_id: &str,
        link_type: &str,
        weight: u32,
    ) -> (r: Link)
        ensures
            r@ == (LinkView {
                id: id@,
                from_type,
                from_id: from_id@,
                to_type,
                to_id: to_id@,
                link_type: link_type@,
                weight: f32_unit_clamp(weight),
                created_at: r.created_at,
                updated_at: r.created_at,
            }),
            r.created_at.wf(),
    {
        let now = clock_now();
        Link {
            id: owned(id),
            from_type,
            from_id: owned(from_id),
            to_type,
            to_id: owned(to_id),
            link_type: owned(link_type),
            weight: f32_bits_unit_clamp(weight),
            created_at: now,
            updated_at: now,
        }
    }

    /// A link with a fresh random key (a UUID), created now, its weight
    /// clamped to [0, 1].
    pub fn new(
        from_type: MemoryType,
        from_id: &str,
        to_type: MemoryType,
        to_id: &str,
        link_type: &str,
        weight: u32,
    ) -> (r: Link)
        ensures
            r@ == (LinkView {
                id: r.id@,
                from_type,
                from_id: from_id@,
                to_type,
                to_id: to_id@,
                link_type: link_type@,
                weight: f32_unit_clamp(weight),
                created_at: r.created_at,
                updated_at: r.created_at,
            }),
            uuid_v4_text(r.id@),
            r.created_at.wf(),
    {
        let id = new_uuid();
        Link::with_id(id.as_str(), from_type, from_id, to_type, to_id, link_type, weight)
    }

    /// Sets the weight, clamped to [0, 1], as of instant `now`.
    pub fn set_weight_at(&mut self, weight: u32, now: Timestamp)
        ensures
            final(self)@ == (LinkView { weight: f32_unit_clamp(weight), updated_at: now, ..old(self)@ }),
    {
        self.weight = f32_bits_unit_clamp(weight);
        self.updated_at = now;
    }

    /// Sets the weight, clamped to [0, 1], as of now.
    pub fn set_weight(&mut self, weight: u32)
        ensures
            final(self).updated_at.wf(),
            final(self)@ == (LinkView {
                weight: f32_unit_clamp(weight),
                updated_at: final(self).updated_at,
                ..old(self)@
            }),
    {
        let now = clock_now();
        self.set_weight_at(weight, now);
    }

    /// Moves the weight toward a success signal as of now: `blend`
    /// computes `weight * decay + signal * (1 - decay)` in single precision
    /// from the weight, the signal and the decay (both clamped to [0, 1]),
    /// and the result is clamped to [0, 1].
    pub fn update_weight<B: Fn(u32, u32, u32) -> u32>(&mut self, signal: u32, decay: u32, blend: &B)
        requires
            forall|w: u32, s: u32, d: u32| call_requires(*blend, (w, s, d)),
        ensures
            final(self).updated_at.wf(),
            exists|b: u32|
                {
                    &&& #[trigger] call_ensures(
                        *blend,
                        (old(self).weight, f32_unit_clamp(signal), f32_unit_clamp(decay)),
                        b,
                    )
                    &&& final(self)@ == (LinkView {
                        weight: f32_unit_clamp(b),
                        updated_at: final(self).updated_at,
                        ..old(self)@
                    })
                },
    {
        let b = blend(self.weight, f32_bits_unit_clamp(signal), f32_bits_unit_clamp(decay));
        self.set_weight(b);
    }

    /// Whether the link starts at record `(memory_type, id)`.
    pub fn is_from(&self, memory_type: MemoryType, id: &str) -> (r: bool)
        ensures
            r == link_is_from(self@, memory_type, id@),
    {
        self.from_type == memory_type && str_eq(self.from_id.as_str(), id)
    }

    /// Whether the link ends at record `(memory_type, id)`.
    pub fn is_to(&self, memory_type: MemoryType, id: &str) -> (r: bool)
        ensures
            r == link_is_to(self@, memory_type, id@),
    {
        self.to_type == memory_type && str_eq(self.to_id.as_str(), id)
    }

    /// Whether the link has the given type.
    pub fn has_type(&self, link_type: &str) -> (r: bool)
        ensures
            r == (self.link_type@ == link_type@),
    {
        str_eq(self.link_type.as_str(), link_type)
    }

    /// The record at the other end from `(memory_type, id)`: the target when
    /// the link starts there, else the source when it ends there.
    pub fn other_end(&self, memory_type: MemoryType, id: &str) -> (r: Option<(MemoryType, &str)>)
        ensures
            link_is_from(self@, memory_type, id@) ==> (r matches Some((t, x))
                && t == self.to_type && x@ == self.to_id@),
            !link_is_from(self@, memory_type, id@) && link_is_to(self@, memory_type, id@)
                ==> (r matches Some((t, x)) && t == self.from_type && x@ == self.from_id@),
            !link_is_from(self@, memory_type, id@) && !link_is_to(self@, memory_type, id@)
                ==> r is None,
    {
        if self.is_from(memory_type, id) {
            Some((self.to_type, self.to_id.as_str()))
        } else if self.is_to(memory_type, id) {
            Some((self.from_type, self.from_id.as_str()))
        } else {
            None
        }
    }

    /// A copy of the link.
    pub fn copy(&self) -> (r: Link)
        ensures
            r@ == self@,
    {
        Link {
            id: copy_string(&self.id),
            from_type: self.from_type,
            from_id: copy_string(&self.from_id),
            to_type: self.to_type,
            to_id: copy_string(&self.to_id),
            link_type: copy_string(&self.link_type),
            weight: self.weight,
            created_at: self.created_at,
            updated_at: self.updated_at,
        }
    }
}

// ---------------------------------------------------------------------------
// Link predicates
// ---------------------------------------------------------------------------

/// A filter on links; each present field must hold.
#[derive(Debug)]
pub struct LinkPredicate {
    pub from_type: Option<MemoryType>,
    pub from_id: Option<String>,
    pub to_type: Option<MemoryType>,
    pub to_id: Option<String>,
    pub link_type: Option<String>,
    /// Least weight (an `f32` bit pattern).
    pub min_weight: Option<u32>,
    /// Greatest weight (an `f32` bit pattern).
    pub max_weight: Option<u32>,
}

/// The value of a link predicate.
pub struct LinkPredicateView {
    pub from_type: Option<MemoryType>,
    pub from_id: Option<Seq<char>>,
    pub to_type: Option<MemoryType>,
    pub to_id: Option<Seq<char>>,
    pub link_type: Option<Seq<char>>,
    pub min_weight: Option<u32>,
    pub max_weight: Option<u32>,
}

impl View for LinkPredicate {
    type V = LinkPredicateView;

    open spec fn view(&self) -> LinkPredicateView {
        LinkPredicateView {
            from_type: self.from_type,
            from_id: opt_view(self.from_id),
            to_type: self.to_type,
            to_id: opt_view(self.to_id),
            link_type: opt_view(self.link_type),
            min_weight: self.min_weight,
            max_weight: self.max_weight,
        }
    }
}

/// The predicate with no filter.
pub open spec fn empty_link_predicate() -> LinkPredicateView {
    LinkPredicateView {
        from_type: None,
        from_id: None,
        to_type: None,
        to_id: None,
        link_type: None,
        min_weight: None,
        max_weight: None,
    }
}

/// Whether link `l` passes filter `p`: every present field equals the
/// link's, and its weight is not below the least weight nor above the
/// greatest (NaN bounds exclude nothing).
pub open spec fn link_matches(p: LinkPredicateView, l: LinkView) -> bool {
    &&& (p.from_type matches Some(t) ==> l.from_type == t)
    &&& (p.from_id matches Some(i) ==> l.from_id == i)
    &&& (p.to_type matches Some(t) ==> l.to_type == t)
    &&& (p.to_id matches Some(i) ==> l.to_id == i)
    &&& (p.link_type matches Some(k) ==> l.link_type == k)
    &&& (p.min_weight matches Some(m) ==> !f32_lt(l.weight, m))
    &&& (p.max_weight matches Some(m) ==> !f32_lt(m, l.weight))
}

impl Default for LinkPredicate {
    fn default() -> (r: LinkPredicate)
        ensures
            r@ == empty_link_predicate(),
    {
        LinkPredicate {
            from_type: None,
            from_id: None,
            to_type: None,
            to_id: None,
            link_type: None,
            min_weight: None,
            max_weight: None,
        }
    }
}

impl LinkPredicate {
    /// Links starting at record `(memory_type, id)`.
    pub fn from_record(memory_type: MemoryType, id: &str) -> (r: LinkPredicate)
        ensures
            r@ == (LinkPredicateView {
                from_type: Some(memory_type),
                from_id: Some(id@),
                ..empty_link_predicate()
            }),
    {
        let mut p = LinkPredicate::default();
        p.from_type = Some(memory_type);
        p.from_id = Some(owned(id));
        p
    }

    /// Links ending at record `(memory_type, id)`.
    pub fn to_record(memory_type: MemoryType, id: &str) -> (r: LinkPredicate)
        ensures
            r@ == (LinkPredicateView {
                to_type: Some(memory_type),
                to_id: Some(id@),
                ..empty_link_predicate()
            }),
    {
        let mut p = LinkPredicate::default();
        p.to_type = Some(memory_type);
        p.to_id = Some(owned(id));
        p
    }

    /// Links of one type.
    pub fn of_type(link_type: &str) -> (r: LinkPredicate)
        ensures
            r@ == (LinkPredicateView { link_type: Some(link_type@), ..empty_link_predicate() }),
    {
        let mut p = LinkPredicate::default();
        p.link_type = Some(owned(link_type));
        p
    }

    /// This filter, restricted to one link type.
    pub fn with_type(self, link_type: &str) -> (r: LinkPredicate)
        ensures
            r@ == (LinkPredicateView { link_type: Some(link_type@), ..self@ }),
    {
        let mut p = self;
        p.link_type = Some(owned(link_type));
        p
    }

    /// This filter, with a least weight.
    pub fn with_min_weight(self, min_weight: u32) -> (r: LinkPredicate)
        ensures
            r@ == (LinkPredicateView { min_weight: Some(min_weight), ..self@ }),
    {
        let mut p = self;
        p.min_weight = Some(min_weight);
        p
    }

    /// Whether a link passes this filter.
    pub fn matches(&self, link: &Link) -> (r: bool)
        ensures
            r == link_matches(self@, link@),
    {
        if let Some(ft) = &self.from_type {
            if link.from_type != *ft {
                return false;
            }
        }
        if let Some(fi) = &self.from_id {
            if !str_eq(link.from_id.as_str(), fi.as_str()) {
                return false;
            }
        }
        if let Some(tt) = &self.to_type {
            if link.to_type != *tt {
                return false;
            }
        }
        if let Some(ti) = &self.to_id {
            if !str_eq(link.to_id.as_str(), ti.as_str()) {
                return false;
            }
        }
        if let Some(lt) = &self.link_type {
            if !str_eq(link.link_type.as_str(), lt.as_str()) {
                return false;
            }
        }
        if let Some(min) = self.min_weight {
            if f32_bits_lt(link.weight, min) {
                return false;
            }
        }
        if let Some(max) = self.max_weight {
            if f32_bits_lt(max, link.weight) {
                return false;
            }
        }
        true
    }
}

/// Weight clamping is idempotent: a weight already clamped to [0, 1] is
/// left as it is by a second clamp.
pub proof fn lemma_weight_clamp_idempotent(w: u32)
    ensures
        f32_unit_clamp(f32_unit_clamp(w)) == f32_unit_clamp(w),
{
}

/// A link that a predicate matches lies within the predicate's weight
/// bounds: its weight is not below the minimum and not above the maximum
/// (weights compared as singles by their value; a NaN weight or bound
/// compares with nothing).  A link above the maximum, or below the
/// minimum, is never matched.  It also has the ends and the type the
/// predicate names.
pub proof fn lemma_matched_links_in_bounds(p: LinkPredicateView, l: LinkView)
    ensures
        link_matches(p, l) && p.max_weight is Some && !f32_is_nan(l.weight) && !f32_is_nan(p.max_weight->0)
            ==> f32_key(l.weight) <= f32_key(p.max_weight->0),
        link_matches(p, l) && p.min_weight is Some && !f32_is_nan(l.weight) && !f32_is_nan(p.min_weight->0)
            ==> f32_key(l.weight) >= f32_key(p.min_weight->0),
        p.max_weight matches Some(m) && f32_lt(m, l.weight) ==> !link_matches(p, l),
        p.min_weight matches Some(m) && f32_lt(l.weight, m) ==> !link_matches(p, l),
        link_matches(p, l) ==> {
            &&& (p.from_type matches Some(t) ==> l.from_type == t)
            &&& (p.from_id matches Some(i) ==> l.from_id == i)
            &&& (p.to_type matches Some(t) ==> l.to_type == t)
            &&& (p.to_id matches Some(i) ==> l.to_id == i)
            &&& (p.link_type matches Some(k) ==> l.link_type == k)
        },
{
}

} // verus!
