//! Ordering of payload values and a stable sort of records.
use vstd::prelude::*;
use crate::float::{f32_bits_lt, f32_is_nan, f32_key, f32_lt, f64_bits_order, f64_order};
use crate::json::{json_as_f64, json_get, Json, JsonView};
use crate::memory::{MemoryRecord, RecordView};
use crate::text::{chars_of, order_chars, seq_order};

verus! {

broadcast use vstd::string::group_string_axioms;

// ---------------------------------------------------------------------------
// Stable insertion, as a specification
// ---------------------------------------------------------------------------

/// `x` inserted into `s` after the last element that is not greater than
/// it (and so after all elements equal to it).
pub open spec fn insert_sorted<A>(s: Seq<A>, x: A, gt: spec_fn(A, A) -> bool) -> Seq<A>
    decreases s.len(),
{
    if s.len() == 0 {
        seq![x]
    } else if gt(s.last(), x) {
        insert_sorted(s.drop_last(), x, gt).push(s.last())
    } else {
        s.push(x)
    }
}

/// The stable sort of `s` by the strict order `gt`: elements inserted one
/// by one in their order, each after the elements not greater than it.
/// When `gt` is the strict part of a total preorder this is the only
/// ordering of `s` that is sorted and keeps equal elements in their order.
pub open spec fn sort_stable<A>(s: Seq<A>, gt: spec_fn(A, A) -> bool) -> Seq<A>
    decreases s.len(),
{
    if s.len() == 0 {
        s
    } else {
        insert_sorted(sort_stable(s.drop_last(), gt), s.last(), gt)
    }
}

/// Inserting at position `j`, where everything from `j` on is greater than
/// `x` and the element before `j` is not, is `insert_sorted`.
pub proof fn lemma_insert_at<A>(s: Seq<A>, x: A, gt: spec_fn(A, A) -> bool, j: int)
    requires
        0 <= j <= s.len(),
        forall|k: int| j <= k < s.len() ==> gt(#[trigger] s[k], x),
        j > 0 ==> !gt(s[j - 1], x),
    ensures
        insert_sorted(s, x, gt) == s.insert(j, x),
    decreases s.len(),
{
    if s.len() == 0 {
        assert(s.insert(j, x) =~= seq![x]);
    } else if gt(s.last(), x) {
        let t = s.drop_last();
        assert(j < s.len());
        assert forall|k: int| j <= k < t.len() implies gt(#[trigger] t[k], x) by {
            assert(t[k] == s[k]);
        }
        lemma_insert_at(t, x, gt, j);
        assert(t.insert(j, x).push(s.last()) =~= s.insert(j, x));
    } else {
        assert(j == s.len());
        assert(s.insert(j, x) =~= s.push(x));
    }
}

/// Sorting keeps the number of elements.
pub proof fn lemma_sort_len<A>(s: Seq<A>, gt: spec_fn(A, A) -> bool)
    ensures
        sort_stable(s, gt).len() == s.len(),
    decreases s.len(),
{
    if s.len() > 0 {
        lemma_sort_len(s.drop_last(), gt);
        lemma_insert_len(sort_stable(s.drop_last(), gt), s.last(), gt);
    }
}

/// Inserting adds one element.
pub proof fn lemma_insert_len<A>(s: Seq<A>, x: A, gt: spec_fn(A, A) -> bool)
    ensures
        insert_sorted(s, x, gt).len() == s.len() + 1,
    decreases s.len(),
{
    if s.len() > 0 && gt(s.last(), x) {
        lemma_insert_len(s.drop_last(), x, gt);
    }
}

/// Inserting keeps the elements: the result holds what `s` holds and `x`.
pub proof fn lemma_insert_multiset<A>(s: Seq<A>, x: A, gt: spec_fn(A, A) -> bool)
    ensures
        insert_sorted(s, x, gt).to_multiset() == s.to_multiset().insert(x),
    decreases s.len(),
{
    broadcast use vstd::seq_lib::group_to_multiset_ensures;
    if s.len() == 0 {
        assert(seq![x] =~= Seq::<A>::empty().push(x));
    } else if gt(s.last(), x) {
        let t = s.drop_last();
        lemma_insert_multiset(t, x, gt);
        assert(s =~= t.push(s.last()));
        assert(insert_sorted(s, x, gt).to_multiset() =~= s.to_multiset().insert(x));
    }
}

/// Sorting is a permutation: the sorted sequence holds the same elements,
/// each as many times.
pub proof fn lemma_sort_permutation<A>(s: Seq<A>, gt: spec_fn(A, A) -> bool)
    ensures
        sort_stable(s, gt).to_multiset() == s.to_multiset(),
    decreases s.len(),
{
    broadcast use vstd::seq_lib::group_to_multiset_ensures;
    if s.len() > 0 {
        let t = s.drop_last();
        lemma_sort_permutation(t, gt);
        lemma_insert_multiset(sort_stable(t, gt), s.last(), gt);
        assert(s =~= t.push(s.last()));
    }
}

// ---------------------------------------------------------------------------
// Order of payload values
// ---------------------------------------------------------------------------

/// Order of two present payload values (-1, 0, 1): numbers by value (as
/// doubles), strings lexicographically, anything else equal.
pub open spec fn json_value_order(a: JsonView, b: JsonView) -> int {
    match (a, b) {
        (JsonView::Number(_), JsonView::Number(_)) => match (json_as_f64(a), json_as_f64(b)) {
            (Some(x), Some(y)) => match f64_order(x, y) {
                Some(c) => c,
                None => 0,
            },
            _ => 0,
        },
        (JsonView::String(x), JsonView::String(y)) => seq_order(x, y),
        _ => 0,
    }
}

/// Order of two possibly missing payload values: missing values first or
/// last, present ones by `json_value_order`.
pub open spec fn json_opt_order(a: Option<JsonView>, b: Option<JsonView>, missing_first: bool) -> int {
    match (a, b) {
        (None, None) => 0,
        (None, Some(_)) => if missing_first { -1 } else { 1 },
        (Some(_), None) => if missing_first { 1 } else { -1 },
        (Some(x), Some(y)) => json_value_order(x, y),
    }
}

/// `json_value_order` on documents.
pub fn compare_json(a: &Json, b: &Json) -> (r: i8)
    ensures
        r as int == json_value_order(a@, b@),
        -1 <= r <= 1,
{
    match (a, b) {
        (Json::Number(x), Json::Number(y)) => {
            match f64_bits_order(x.as_f64_bits(), y.as_f64_bits()) {
                Some(c) => c,
                None => 0,
            }
        },
        (Json::String(x), Json::String(y)) => {
            let xc = chars_of(x.as_str());
            let yc = chars_of(y.as_str());
            order_chars(&xc, &yc)
        },
        _ => 0,
    }
}

/// `json_opt_order` on documents.
pub fn compare_json_opt(a: Option<&Json>, b: Option<&Json>, missing_first: bool) -> (r: i8)
    ensures
        r as int == json_opt_order(
            match a {
                Some(x) => Some(x@),
                None => None,
            },
            match b {
                Some(x) => Some(x@),
                None => None,
            },
            missing_first,
        ),
        -1 <= r <= 1,
{
    match (a, b) {
        (None, None) => 0,
        (None, Some(_)) => if missing_first { -1 } else { 1 },
        (Some(_), None) => if missing_first { 1 } else { -1 },
        (Some(x), Some(y)) => compare_json(x, y),
    }
}

// ---------------------------------------------------------------------------
// Orders on records
// ---------------------------------------------------------------------------

/// How records are ordered.
#[derive(Debug)]
pub enum RecordOrder {
    /// By a payload field; `swapped` compares the second record's value to
    /// the first's, `reversed` inverts the outcome, and `missing_first`
    /// puts records without the field first.
    Field { field: String, swapped: bool, reversed: bool, missing_first: bool },
    /// By creation instant, oldest first unless `newest_first`.
    Created { newest_first: bool },
}

/// The value of a record order.
pub enum RecordOrderView {
    Field { field: Seq<char>, swapped: bool, reversed: bool, missing_first: bool },
    Created { newest_first: bool },
}

impl View for RecordOrder {
    type V = RecordOrderView;

    open spec fn view(&self) -> RecordOrderView {
        match self {
            RecordOrder::Field { field, swapped, reversed, missing_first } => RecordOrderView::Field {
                field: field@,
                swapped: *swapped,
                reversed: *reversed,
                missing_first: *missing_first,
            },
            RecordOrder::Created { newest_first } => RecordOrderView::Created {
                newest_first: *newest_first,
            },
        }
    }
}

/// Order of two records (-1, 0, 1) under order `o`.
pub open spec fn record_order(o: RecordOrderView, a: RecordView, b: RecordView) -> int {
    match o {
        RecordOrderView::Field { field, swapped, reversed, missing_first } => {
            let (x, y) = if swapped { (b, a) } else { (a, b) };
            let c = json_opt_order(json_get(x.data, field), json_get(y.data, field), missing_first);
            if reversed { -c } else { c }
        },
        RecordOrderView::Created { newest_first } => {
            let (x, y) = if newest_first { (b, a) } else { (a, b) };
            let tx = x.meta.created_at.total();
            let ty = y.meta.created_at.total();
            if tx < ty { -1 } else if tx > ty { 1 } else { 0 }
        },
    }
}

/// Whether record `a` sorts strictly after record `b` under order `o`.
pub open spec fn record_gt(o: RecordOrderView) -> spec_fn(RecordView, RecordView) -> bool {
    |a: RecordView, b: RecordView| record_order(o, a, b) > 0
}

/// The values of a sequence of records.
pub open spec fn record_views(v: Seq<MemoryRecord>) -> Seq<RecordView> {
    v.map_values(|r: MemoryRecord| r@)
}

/// `record_order` on records.
fn compare_records(o: &RecordOrder, a: &MemoryRecord, b: &MemoryRecord) -> (r: i8)
    ensures
        r as int == record_order(o@, a@, b@),
{
    match o {
        RecordOrder::Field { field, swapped, reversed, missing_first } => {
            let (x, y) = if *swapped { (b, a) } else { (a, b) };
            let c = compare_json_opt(x.get(field.as_str()), y.get(field.as_str()), *missing_first);
            if *reversed { -c } else { c }
        },
        RecordOrder::Created { newest_first } => {
            let (x, y) = if *newest_first { (b, a) } else { (a, b) };
            let tx: i128 = x.metadata.created_at.secs as i128 * 1_000_000_000
                + x.metadata.created_at.nanos as i128;
            let ty: i128 = y.metadata.created_at.secs as i128 * 1_000_000_000
                + y.metadata.created_at.nanos as i128;
            if tx < ty {
                -1
            } else if tx > ty {
                1
            } else {
                0
            }
        },
    }
}

/// Sorts records stably by order `o`.
pub fn sort_records(v: Vec<MemoryRecord>, o: &RecordOrder) -> (r: Vec<MemoryRecord>)
    ensures
        record_views(r@) == sort_stable(record_views(v@), record_gt(o@)),
{
    let ghost s = record_views(v@);
    let ghost gt = record_gt(o@);
    let mut out: Vec<MemoryRecord> = Vec::new();
    let mut rest = v;
    let mut taken: Vec<MemoryRecord> = Vec::new();
    // move the records into `taken` in reverse so that popping yields them in order
    while rest.len() > 0
        invariant
            record_views(taken@) + record_views(rest@).reverse() =~= s.reverse(),
        decreases rest@.len(),
    {
        let x = rest.pop().unwrap();
        taken.push(x);
        proof {
            let rv = record_views(rest@);
            assert(record_views(taken@) + rv.reverse() =~= s.reverse());
        }
    }
    assert(record_views(taken@) =~= s.reverse());
    let n = taken.len();
    let mut i: usize = 0;
    while i < n
        invariant
            n == s.len(),
            i <= n,
            taken@.len() == n - i,
            record_views(taken@) =~= s.reverse().take(n - i),
            record_views(out@) == sort_stable(s.take(i as int), gt),
            gt == record_gt(o@),
        decreases n - i,
    {
        let ghost tv = record_views(taken@);
        let x = taken.pop().unwrap();
        proof {
            assert(x@ == tv[n - i - 1]);
            assert(tv[n - i - 1] == s.reverse()[n - i - 1]);
            assert(x@ == s[i as int]);
            assert(record_views(taken@) =~= tv.drop_last());
        }
        let mut j: usize = out.len();
        while j > 0 && compare_records(o, &out[j - 1], &x) > 0
            invariant
                j <= out@.len(),
                forall|k: int| j <= k < out@.len() ==> gt(#[trigger] record_views(out@)[k], x@),
                gt == record_gt(o@),
            decreases j,
        {
            assert(gt(record_views(out@)[j - 1], x@));
            j = j - 1;
        }
        proof {
            let ov = record_views(out@);
            if j > 0 {
                assert(!gt(ov[j - 1], x@));
            }
            lemma_insert_at(ov, x@, gt, j as int);
            assert(s.take(i + 1).drop_last() =~= s.take(i as int));
            assert(s.take(i + 1).last() == x@);
        }
        let ghost before = record_views(out@);
        out.insert(j, x);
        proof {
            assert(record_views(out@) =~= before.insert(j as int, x@));
        }
        i = i + 1;
    }
    assert(s.take(n as int) =~= s);
    out
}


// ---------------------------------------------------------------------------
// Records ranked by a score
// ---------------------------------------------------------------------------

/// A scored record sorts after another when its score is lower (highest
/// first; NaN scores compare equal to everything).
pub open spec fn score_gt() -> spec_fn((u32, RecordView), (u32, RecordView)) -> bool {
    |a: (u32, RecordView), b: (u32, RecordView)| f32_lt(a.0, b.0)
}

/// The scores are numbers (no NaN) and never increase along the sequence.
pub open spec fn scores_descending(s: Seq<(u32, RecordView)>) -> bool {
    &&& forall|i: int| 0 <= i < s.len() ==> !f32_is_nan(#[trigger] s[i].0)
    &&& forall|i: int, j: int| 0 <= i < j < s.len() ==> f32_key(#[trigger] s[i].0) >= f32_key(#[trigger] s[j].0)
}

/// Inserting a scored record with a number score into scores that
/// descend keeps them descending.
proof fn lemma_insert_scored(s: Seq<(u32, RecordView)>, x: (u32, RecordView))
    requires
        scores_descending(s),
        !f32_is_nan(x.0),
    ensures
        scores_descending(insert_sorted(s, x, score_gt())),
    decreases s.len(),
{
    broadcast use vstd::seq_lib::group_to_multiset_ensures;
    if s.len() == 0 {
    } else if score_gt()(s.last(), x) {
        let t = s.drop_last();
        assert(scores_descending(t));
        lemma_insert_scored(t, x);
        lemma_insert_multiset(t, x, score_gt());
        let u = insert_sorted(t, x, score_gt());
        let r = u.push(s.last());
        assert(insert_sorted(s, x, score_gt()) == r);
        assert forall|i: int| 0 <= i < u.len() implies f32_key(#[trigger] u[i].0) >= f32_key(s.last().0) by {
            let e = u[i];
            assert(u.contains(e));
            assert(u.to_multiset().count(e) > 0);
            if e != x {
                assert(t.to_multiset().count(e) > 0);
                assert(t.contains(e));
                let w = choose|w: int| 0 <= w < t.len() && t[w] == e;
                assert(s[w] == e);
                assert(f32_key(s[w].0) >= f32_key(s[s.len() - 1].0));
            }
        }
        assert forall|i: int, j: int| 0 <= i < j < r.len() implies f32_key(#[trigger] r[i].0) >= f32_key(#[trigger] r[j].0) by {
            if j == r.len() - 1 {
                assert(r[i] == u[i]);
            } else {
                assert(r[i] == u[i] && r[j] == u[j]);
            }
        }
        assert forall|i: int| 0 <= i < r.len() implies !f32_is_nan(#[trigger] r[i].0) by {
            if i < u.len() {
                assert(r[i] == u[i]);
            }
        }
    } else {
        let r = s.push(x);
        assert(insert_sorted(s, x, score_gt()) == r);
        assert forall|i: int, j: int| 0 <= i < j < r.len() implies f32_key(#[trigger] r[i].0) >= f32_key(#[trigger] r[j].0) by {
            if j == r.len() - 1 {
                if i < s.len() - 1 {
                    assert(f32_key(s[i].0) >= f32_key(s[s.len() - 1].0));
                }
            }
        }
    }
}

/// Ranking scored records by score, all scores numbers, puts them in
/// descending order of score and keeps every record.
pub proof fn lemma_ranked_by_score(s: Seq<(u32, RecordView)>)
    requires
        forall|i: int| 0 <= i < s.len() ==> !f32_is_nan(#[trigger] s[i].0),
    ensures
        scores_descending(sort_stable(s, score_gt())),
        sort_stable(s, score_gt()).to_multiset() == s.to_multiset(),
    decreases s.len(),
{
    lemma_sort_permutation(s, score_gt());
    if s.len() > 0 {
        let t = s.drop_last();
        lemma_ranked_by_score(t);
        lemma_insert_scored(sort_stable(t, score_gt()), s.last());
    }
}

/// The views of scored records.
pub open spec fn scored_views(v: Seq<(u32, MemoryRecord)>) -> Seq<(u32, RecordView)> {
    v.map_values(|e: (u32, MemoryRecord)| (e.0, e.1@))
}

/// The records of scored records, in order.
pub open spec fn unscored(v: Seq<(u32, RecordView)>) -> Seq<RecordView> {
    v.map_values(|e: (u32, RecordView)| e.1)
}

/// Sorts scored records stably by descending score.
pub fn sort_scored(v: Vec<(u32, MemoryRecord)>) -> (r: Vec<(u32, MemoryRecord)>)
    ensures
        scored_views(r@) == sort_stable(scored_views(v@), score_gt()),
{
    let ghost s = scored_views(v@);
    let ghost gt = score_gt();
    let n = v.len();
    let mut rest = crate::seqs::reversed(v);
    let mut out: Vec<(u32, MemoryRecord)> = Vec::new();
    let mut i: usize = 0;
    while i < n
        invariant
            n == s.len(),
            i <= n,
            rest@.len() == n - i,
            forall|k: int| 0 <= k < n - i ==> (#[trigger] scored_views(rest@)[k]) == s[n - 1 - k],
            gt == score_gt(),
            scored_views(out@) == sort_stable(s.take(i as int), gt),
        decreases n - i,
    {
        let ghost rv = scored_views(rest@);
        let x = rest.pop().unwrap();
        proof {
            assert(rv[n - i - 1] == (x.0, x.1@));
            assert(s[i as int] == (x.0, x.1@));
            assert forall|k: int| 0 <= k < n - i - 1 implies (#[trigger] scored_views(rest@)[k]) == s[n - 1 - k] by {
                assert(scored_views(rest@)[k] == rv[k]);
            }
        }
        let mut j: usize = out.len();
        while j > 0 && f32_bits_lt(out[j - 1].0, x.0)
            invariant
                j <= out@.len(),
                forall|k: int| j <= k < out@.len() ==> gt(#[trigger] scored_views(out@)[k], (x.0, x.1@)),
                gt == score_gt(),
            decreases j,
        {
            assert(gt(scored_views(out@)[j - 1], (x.0, x.1@)));
            j = j - 1;
        }
        proof {
            let ov = scored_views(out@);
            if j > 0 {
                assert(!gt(ov[j - 1], (x.0, x.1@)));
            }
            lemma_insert_at(ov, (x.0, x.1@), gt, j as int);
            assert(s.take(i + 1).drop_last() =~= s.take(i as int));
            assert(s.take(i + 1).last() == (x.0, x.1@));
        }
        let ghost before = scored_views(out@);
        let ghost xv = (x.0, x.1@);
        out.insert(j, x);
        proof {
            assert(scored_views(out@) =~= before.insert(j as int, xv));
        }
        i = i + 1;
    }
    proof {
        assert(s.take(n as int) =~= s);
    }
    out
}

/// The records of the first `limit` scored records (all when no limit).
pub fn first_records(v: Vec<(u32, MemoryRecord)>, limit: Option<usize>) -> (r: Vec<MemoryRecord>)
    ensures
        record_views(r@) == unscored(crate::records::limited(scored_views(v@), limit)),
{
    let ghost s = scored_views(v@);
    let n = v.len();
    let cap = match limit {
        Some(k) => if k < n { k } else { n },
        None => n,
    };
    let mut rest = crate::seqs::reversed(v);
    proof {
        assert forall|a: int| 0 <= a < n implies (#[trigger] scored_views(rest@)[a]) == s[n - 1 - a] by {
            assert(rest@[a] == v@[n - 1 - a]);
        }
    }
    let mut r: Vec<MemoryRecord> = Vec::new();
    let mut k: usize = 0;
    while k < cap
        invariant
            n == s.len(),
            cap <= n,
            k <= cap,
            rest@.len() == n - k,
            forall|a: int| 0 <= a < n - k ==> (#[trigger] scored_views(rest@)[a]) == s[n - 1 - a],
            record_views(r@) == unscored(s.take(k as int)),
        decreases cap - k,
    {
        let ghost rv = scored_views(rest@);
        let e = rest.pop().unwrap();
        proof {
            assert(rv[n - k - 1] == (e.0, e.1@));
            assert forall|a: int| 0 <= a < n - k - 1 implies (#[trigger] scored_views(rest@)[a]) == s[n - 1 - a] by {
                assert(scored_views(rest@)[a] == rv[a]);
            }
        }
        let ghost before = record_views(r@);
        r.push(e.1);
        proof {
            assert(record_views(r@) =~= before.push(s[k as int].1));
            assert(unscored(s.take(k + 1)) =~= unscored(s.take(k as int)).push(s[k as int].1));
        }
        k = k + 1;
    }
    proof {
        assert(s.take(cap as int) =~= crate::records::limited(s, limit));
    }
    r
}

} // verus!
