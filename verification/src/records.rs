//! Operations on lists of records shared by the backends: filtering,
//! truncation, marking reads, and the query modifiers common to them.
use vstd::prelude::*;
use crate::memory::{expired_at, MemoryRecord, MetadataView, RecordView};
use crate::order::{record_gt, record_views, sort_records, sort_stable, RecordOrder, RecordOrderView};
use crate::predicate::{condition_holds, Condition, Modifiers};
use crate::scope::Scope;
use crate::seqs::{lemma_filter_step, lemma_take_all};
use crate::text::{copy_string, str_eq};
use crate::time::Timestamp;

verus! {

broadcast use vstd::string::group_string_axioms;

/// Copies of the records that `keep` accepts, in their order.
pub(crate) fn filter_records<F: Fn(&MemoryRecord) -> bool>(
    v: &Vec<MemoryRecord>,
    keep: F,
    Ghost(p): Ghost<spec_fn(RecordView) -> bool>,
) -> (r: Vec<MemoryRecord>)
    requires
        forall|x: &MemoryRecord| #[trigger] keep.requires((x,)),
        forall|x: &MemoryRecord, b: bool| keep.ensures((x,), b) ==> b == p(x@),
    ensures
        record_views(r@) == record_views(v@).filter(p),
{
    let ghost s = record_views(v@);
    let mut out: Vec<MemoryRecord> = Vec::new();
    let mut i: usize = 0;
    while i < v.len()
        invariant
            i <= v@.len(),
            s == record_views(v@),
            forall|x: &MemoryRecord| #[trigger] keep.requires((x,)),
            forall|x: &MemoryRecord, b: bool| keep.ensures((x,), b) ==> b == p(x@),
            record_views(out@) == s.take(i as int).filter(p),
        decreases v@.len() - i,
    {
        let r = &v[i];
        let k = keep(r);
        proof {
            assert(s[i as int] == r@);
            lemma_filter_step(s, p, i as int);
        }
        if k {
            let c = r.copy();
            let ghost before = record_views(out@);
            out.push(c);
            assert(record_views(out@) =~= before.push(r@));
        }
        i = i + 1;
    }
    proof {
        lemma_take_all(s);
    }
    out
}

/// Copies of all records.
pub fn copy_records(v: &Vec<MemoryRecord>) -> (r: Vec<MemoryRecord>)
    ensures
        record_views(r@) == record_views(v@),
{
    let mut out: Vec<MemoryRecord> = Vec::new();
    let mut i: usize = 0;
    while i < v.len()
        invariant
            i <= v@.len(),
            record_views(out@) == record_views(v@).take(i as int),
        decreases v@.len() - i,
    {
        let c = v[i].copy();
        let ghost before = record_views(out@);
        out.push(c);
        assert(record_views(out@) =~= before.push(v@[i as int]@));
        assert(record_views(v@).take(i + 1) =~= record_views(v@).take(i as int).push(v@[i as int]@));
        i = i + 1;
    }
    assert(record_views(v@).take(v@.len() as int) =~= record_views(v@));
    out
}

/// The first `n` records (all of them when there are fewer).
pub open spec fn limited<A>(s: Seq<A>, n: Option<usize>) -> Seq<A> {
    match n {
        Some(k) => if k < s.len() { s.take(k as int) } else { s },
        None => s,
    }
}

/// Drops the records after the first `n`.
pub fn truncate_records(v: &mut Vec<MemoryRecord>, n: usize)
    ensures
        record_views(final(v)@) == limited(record_views(old(v)@), Some(n)),
{
    let ghost s = record_views(v@);
    v.truncate(n);
    assert(record_views(v@) =~= limited(s, Some(n)));
}

/// A record read at instant `now`.
pub open spec fn touched(r: RecordView, now: Timestamp) -> RecordView {
    RecordView { meta: MetadataView { accessed_at: now, ..r.meta }, ..r }
}

/// Records read at instant `now`.
pub open spec fn all_touched(s: Seq<RecordView>, now: Timestamp) -> Seq<RecordView> {
    s.map_values(|r: RecordView| touched(r, now))
}

/// Marks every record as read at instant `now`.
pub fn touch_records(v: Vec<MemoryRecord>, now: Timestamp) -> (r: Vec<MemoryRecord>)
    ensures
        record_views(r@) == all_touched(record_views(v@), now),
{
    let ghost s = record_views(v@);
    let mut out: Vec<MemoryRecord> = Vec::new();
    let mut i: usize = 0;
    while i < v.len()
        invariant
            i <= v@.len(),
            s == record_views(v@),
            record_views(out@) == all_touched(s.take(i as int), now),
        decreases v@.len() - i,
    {
        let mut c = v[i].copy();
        c.metadata.touch_at(now);
        let ghost before = record_views(out@);
        out.push(c);
        assert(record_views(out@) =~= before.push(touched(s[i as int], now)));
        assert(all_touched(s.take(i + 1), now) =~= all_touched(s.take(i as int), now).push(
            touched(s[i as int], now),
        ));
        i = i + 1;
    }
    assert(s.take(s.len() as int) =~= s);
    out
}

/// Whether a record has scope `sc`.
pub open spec fn same_scope(r: RecordView, sc: Scope) -> bool {
    r.meta.scope == sc
}

/// The records of a scope (all of them when no scope is given).
pub open spec fn in_scope(s: Seq<RecordView>, scope: Option<Scope>) -> Seq<RecordView> {
    match scope {
        Some(sc) => s.filter(|r: RecordView| same_scope(r, sc)),
        None => s,
    }
}

/// Whether a record is in namespace `n`.
pub open spec fn same_namespace(r: RecordView, n: Seq<char>) -> bool {
    r.meta.namespace == Some(n)
}

/// The records of a namespace (all of them when no namespace is given).
pub open spec fn in_namespace(s: Seq<RecordView>, ns: Option<Seq<char>>) -> Seq<RecordView> {
    match ns {
        Some(n) => s.filter(|r: RecordView| same_namespace(r, n)),
        None => s,
    }
}

/// The order an ORDER BY modifier asks for: by the field, descending
/// when not ascending, records without the field first when
/// `missing_first` (last otherwise).
pub open spec fn order_by_order(field: Seq<char>, ascending: bool, missing_first: bool) -> RecordOrderView {
    RecordOrderView::Field { field, swapped: false, reversed: !ascending, missing_first }
}

/// The records sorted as an ORDER BY modifier asks (unchanged without one).
pub open spec fn ordered(s: Seq<RecordView>, m: Modifiers, missing_first: bool) -> Seq<RecordView> {
    match m.order_by {
        Some(o) => sort_stable(s, record_gt(order_by_order(o.field@, o.ascending, missing_first))),
        None => s,
    }
}

/// The value of the namespace modifier.
pub open spec fn namespace_of(m: Modifiers) -> Option<Seq<char>> {
    match m.namespace {
        Some(n) => Some(n@),
        None => None,
    }
}

/// Scope, namespace, order and limit of a query, applied in that order.
pub open spec fn selected(s: Seq<RecordView>, m: Modifiers, missing_first: bool) -> Seq<RecordView> {
    limited(ordered(in_namespace(in_scope(s, m.scope), namespace_of(m)), m, missing_first), m.limit)
}

/// The records of the scope and namespace that `m` asks for.
pub fn scoped_records(v: Vec<MemoryRecord>, m: &Modifiers) -> (r: Vec<MemoryRecord>)
    ensures
        record_views(r@) == in_namespace(in_scope(record_views(v@), m.scope), namespace_of(*m)),
{
    let v1 = match m.scope {
        Some(sc) => {
            let keep = |x: &MemoryRecord| -> (b: bool)
                ensures
                    b == same_scope(x@, sc),
                { x.metadata.scope == sc };
            filter_records(&v, keep, Ghost(|r: RecordView| same_scope(r, sc)))
        },
        None => v,
    };
    let v2 = match &m.namespace {
        Some(ns) => {
            let keep = |x: &MemoryRecord| -> (b: bool)
                ensures
                    b == same_namespace(x@, ns@),
                {
                    match &x.metadata.namespace {
                        Some(y) => str_eq(y.as_str(), ns.as_str()),
                        None => false,
                    }
                };
            filter_records(&v1, keep, Ghost(|r: RecordView| same_namespace(r, ns@)))
        },
        None => v1,
    };
    v2
}

/// Applies the scope, namespace, order and limit of `m`, in that order.
pub fn select_records(v: Vec<MemoryRecord>, m: &Modifiers, missing_first: bool) -> (r: Vec<MemoryRecord>)
    ensures
        record_views(r@) == selected(record_views(v@), *m, missing_first),
{
    let v2 = scoped_records(v, m);
    let v3 = match &m.order_by {
        Some(o) => {
            let order = RecordOrder::Field {
                field: copy_string(&o.field),
                swapped: false,
                reversed: !o.ascending,
                missing_first,
            };
            sort_records(v2, &order)
        },
        None => v2,
    };
    let mut v4 = v3;
    match m.limit {
        Some(n) => truncate_records(&mut v4, n),
        None => {},
    }
    v4
}

/// The records not expired at instant `now`.
pub open spec fn live(s: Seq<RecordView>, now: Timestamp) -> Seq<RecordView> {
    s.filter(|r: RecordView| !expired_at(r.meta, now))
}

/// The records from the first one whose payload satisfies `c` on.
pub open spec fn since(s: Seq<RecordView>, c: Condition) -> Seq<RecordView>
    decreases s.len(),
{
    if s.len() == 0 {
        s
    } else if condition_holds(c, s[0].data) {
        s
    } else {
        since(s.drop_first(), c)
    }
}

/// The records from the first whose payload satisfies `c` on.
pub fn records_since(v: Vec<MemoryRecord>, c: &Condition) -> (r: Vec<MemoryRecord>)
    ensures
        record_views(r@) == since(record_views(v@), *c),
{
    let ghost s = record_views(v@);
    assert(s.skip(0) =~= s);
    let mut i: usize = 0;
    while i < v.len()
        invariant
            i <= v@.len(),
            s == record_views(v@),
            since(s, *c) == since(s.skip(i as int), *c),
        decreases v@.len() - i,
    {
        if c.matches(&v[i].data) {
            let mut out: Vec<MemoryRecord> = Vec::new();
            let mut j: usize = i;
            while j < v.len()
                invariant
                    i <= j <= v@.len(),
                    s == record_views(v@),
                    record_views(out@) == s.subrange(i as int, j as int),
                decreases v@.len() - j,
            {
                let cp = v[j].copy();
                let ghost before = record_views(out@);
                out.push(cp);
                assert(record_views(out@) =~= before.push(s[j as int]));
                assert(record_views(out@) =~= s.subrange(i as int, j + 1));
                j = j + 1;
            }
            proof {
                assert(s.skip(i as int)[0] == s[i as int]);
                assert(s.subrange(i as int, v@.len() as int) =~= s.skip(i as int));
            }
            return out;
        }
        proof {
            assert(s.skip(i as int)[0] == s[i as int]);
            assert(s.skip(i as int).drop_first() =~= s.skip(i + 1));
        }
        i = i + 1;
    }
    proof {
        assert(s.skip(i as int) =~= Seq::<RecordView>::empty());
    }
    let out: Vec<MemoryRecord> = Vec::new();
    assert(record_views(out@) =~= Seq::<RecordView>::empty());
    out
}

} // verus!
