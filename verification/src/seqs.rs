//! Facts about filtered sequences used by the stores' loops.
use vstd::prelude::*;

verus! {

/// Filtering a prefix one element longer adds that element when it passes.
pub proof fn lemma_filter_step<A>(s: Seq<A>, p: spec_fn(A) -> bool, i: int)
    requires
        0 <= i < s.len(),
    ensures
        s.take(i + 1).filter(p) == if p(s[i]) {
            s.take(i).filter(p).push(s[i])
        } else {
            s.take(i).filter(p)
        },
{
    assert(s.take(i + 1) =~= s.take(i).push(s[i]));
    s.take(i).lemma_filter_push(s[i], p);
}

/// The whole sequence is its longest prefix.
pub proof fn lemma_take_all<A>(s: Seq<A>)
    ensures
        s.take(s.len() as int) == s,
{
    assert(s.take(s.len() as int) =~= s);
}

/// Every element of a filtered sequence is an element of the sequence and
/// passes the filter.
pub proof fn lemma_filter_member<A>(s: Seq<A>, p: spec_fn(A) -> bool, a: int)
    requires
        0 <= a < s.filter(p).len(),
    ensures
        s.contains(s.filter(p)[a]),
        p(s.filter(p)[a]),
{
    broadcast use vstd::seq_lib::group_filter_ensures;
    let x = s.filter(p)[a];
    assert(s.filter(p).contains(x));
    s.lemma_filter_contains_rev(p, x);
}

/// The elements of `v` in reverse order.
pub fn reversed<T>(v: Vec<T>) -> (r: Vec<T>)
    ensures
        r@ == v@.reverse(),
{
    let ghost s = v@;
    let mut rest = v;
    let mut out: Vec<T> = Vec::new();
    while rest.len() > 0
        invariant
            rest@.len() <= s.len(),
            rest@ == s.take(rest@.len() as int),
            out@ == s.reverse().take(s.len() - rest@.len()),
        decreases rest@.len(),
    {
        let ghost n = rest@.len();
        let x = rest.pop().unwrap();
        proof {
            assert(x == s[n - 1]);
            assert(rest@ =~= s.take(n - 1));
            assert(s.reverse()[s.len() - n] == s[n - 1]);
        }
        out.push(x);
        assert(out@ =~= s.reverse().take(s.len() - (n - 1)));
    }
    assert(out@ =~= s.reverse());
    out
}

} // verus!
