//! Token overlap of two texts (Jaccard similarity on white-space tokens).
use vstd::prelude::*;
use crate::float::{f32_bits_of_ratio, f32_of_ratio, f32_round_nat, f32_round_u128};
use crate::seqs::{lemma_filter_step, lemma_take_all};
use crate::text::{char_is_whitespace, chars_of, is_white};

verus! {

/// The tokens of a text (`str::split_whitespace`): the maximal runs of
/// characters that are not white space, in order.
pub open spec fn tokens(s: Seq<char>) -> Seq<Seq<char>>
    decreases s.len(),
{
    if s.len() == 0 {
        Seq::empty()
    } else {
        let t = tokens(s.drop_last());
        let c = s.last();
        if is_white(c) {
            t
        } else if s.len() >= 2 && !is_white(s[s.len() - 2]) {
            t.update(t.len() - 1, t.last().push(c))
        } else {
            t.push(seq![c])
        }
    }
}

/// The distinct elements of `s`, each at its first occurrence.
pub open spec fn dedup<A>(s: Seq<A>) -> Seq<A>
    decreases s.len(),
{
    if s.len() == 0 {
        s
    } else {
        let d = dedup(s.drop_last());
        if d.contains(s.last()) {
            d
        } else {
            d.push(s.last())
        }
    }
}

/// The number of distinct tokens the two texts share: the size of the
/// intersection of their token sets.
pub open spec fn shared_tokens(a: Seq<char>, b: Seq<char>) -> nat {
    let da = dedup(tokens(a));
    let db = dedup(tokens(b));
    da.filter(|t: Seq<char>| db.contains(t)).len()
}

/// The number of distinct tokens in either text: the size of the union
/// of their token sets.
pub open spec fn all_tokens(a: Seq<char>, b: Seq<char>) -> nat {
    let da = dedup(tokens(a));
    let db = dedup(tokens(b));
    da.len() + db.filter(|t: Seq<char>| !da.contains(t)).len()
}

/// The Jaccard similarity of two texts as a single's bit pattern: 1.0 when
/// neither has a token, otherwise the number of shared tokens divided by
/// the number of all tokens (each count first converted to a single, as
/// `count as f32 / count as f32` does).
pub open spec fn jaccard(a: Seq<char>, b: Seq<char>) -> u32 {
    let i = shared_tokens(a, b);
    let u = all_tokens(a, b);
    if u == 0 {
        0x3F80_0000
    } else {
        f32_of_ratio(f32_round_nat(i), f32_round_nat(u))
    }
}

/// The views of character vectors.
pub open spec fn char_views(v: Seq<Vec<char>>) -> Seq<Seq<char>> {
    v.map_values(|x: Vec<char>| x@)
}

/// Whether two character vectors hold the same characters.
fn same_chars(a: &Vec<char>, b: &Vec<char>) -> (r: bool)
    ensures
        r == (a@ == b@),
{
    if a.len() != b.len() {
        return false;
    }
    let mut i: usize = 0;
    while i < a.len()
        invariant
            a@.len() == b@.len(),
            i <= a@.len(),
            forall|k: int| 0 <= k < i ==> a@[k] == b@[k],
        decreases a@.len() - i,
    {
        if a[i] != b[i] {
            return false;
        }
        i = i + 1;
    }
    assert(a@ =~= b@);
    true
}

/// Whether `t` is one of the vectors of `v`.
fn holds(v: &Vec<Vec<char>>, t: &Vec<char>) -> (r: bool)
    ensures
        r == char_views(v@).contains(t@),
{
    let ghost w = char_views(v@);
    let mut i: usize = 0;
    while i < v.len()
        invariant
            i <= v@.len(),
            w == char_views(v@),
            forall|k: int| 0 <= k < i ==> w[k] != t@,
        decreases v@.len() - i,
    {
        if same_chars(&v[i], t) {
            assert(w[i as int] == t@);
            return true;
        }
        i = i + 1;
    }
    false
}

/// A text of one token is one token long and its first character opens it.
proof fn lemma_tokens_nonempty(s: Seq<char>)
    requires
        s.len() > 0,
        !is_white(s.last()),
    ensures
        tokens(s).len() > 0,
    decreases s.len(),
{
    let c = s.last();
    if s.len() >= 2 && !is_white(s[s.len() - 2]) {
        lemma_tokens_nonempty(s.drop_last());
    }
}

/// The tokens of a text (see `tokens`).
pub fn tokens_of(s: &str) -> (r: Vec<Vec<char>>)
    ensures
        char_views(r@) == tokens(s@),
{
    let cs = chars_of(s);
    let ghost cv = cs@;
    let mut out: Vec<Vec<char>> = Vec::new();
    let mut i: usize = 0;
    while i < cs.len()
        invariant
            i <= cs@.len(),
            cv == cs@,
            char_views(out@) == tokens(cv.take(i as int)),
        decreases cs@.len() - i,
    {
        let c = cs[i];
        let ghost pre = cv.take(i as int);
        proof {
            assert(cv.take(i + 1).drop_last() =~= pre);
            assert(cv.take(i + 1).last() == c);
        }
        let white = char_is_whitespace(c);
        if !white {
            let joins = i >= 1 && !char_is_whitespace(cs[i - 1]);
            if joins {
                proof {
                    assert(cv.take(i + 1)[i - 1] == cs@[i - 1]);
                    assert(pre.last() == cs@[i - 1]);
                    lemma_tokens_nonempty(pre);
                }
                let ghost before = char_views(out@);
                let mut last = out.pop().unwrap();
                last.push(c);
                out.push(last);
                proof {
                    assert(char_views(out@) =~= before.update(before.len() - 1, before.last().push(c)));
                }
            } else {
                let ghost before = char_views(out@);
                let mut t: Vec<char> = Vec::new();
                t.push(c);
                out.push(t);
                proof {
                    assert(t@ =~= seq![c]);
                    assert(char_views(out@) =~= before.push(seq![c]));
                    if i >= 1 {
                        assert(cv.take(i + 1)[i - 1] == cs@[i - 1]);
                    }
                }
            }
        }
        i = i + 1;
    }
    proof {
        lemma_take_all(cv);
    }
    out
}

/// The distinct tokens, each at its first occurrence (see `dedup`).
fn distinct(v: &Vec<Vec<char>>) -> (r: Vec<Vec<char>>)
    ensures
        char_views(r@) == dedup(char_views(v@)),
{
    let ghost w = char_views(v@);
    let mut out: Vec<Vec<char>> = Vec::new();
    let mut i: usize = 0;
    while i < v.len()
        invariant
            i <= v@.len(),
            w == char_views(v@),
            char_views(out@) == dedup(w.take(i as int)),
        decreases v@.len() - i,
    {
        proof {
            assert(w.take(i + 1).drop_last() =~= w.take(i as int));
            assert(w.take(i + 1).last() == v@[i as int]@);
        }
        if !holds(&out, &v[i]) {
            let ghost before = char_views(out@);
            let t = v[i].clone();
            out.push(t);
            proof {
                assert(char_views(out@) =~= before.push(v@[i as int]@));
            }
        }
        i = i + 1;
    }
    proof {
        lemma_take_all(w);
    }
    out
}

/// The number of vectors of `v` that `w` holds (or does not hold).
fn count_held(v: &Vec<Vec<char>>, w: &Vec<Vec<char>>, held: bool) -> (r: usize)
    ensures
        held ==> r == char_views(v@).filter(|t: Seq<char>| char_views(w@).contains(t)).len(),
        !held ==> r == char_views(v@).filter(|t: Seq<char>| !char_views(w@).contains(t)).len(),
{
    let ghost vv = char_views(v@);
    let ghost ww = char_views(w@);
    let ghost p = if held {
        |t: Seq<char>| ww.contains(t)
    } else {
        |t: Seq<char>| !ww.contains(t)
    };
    let mut count: usize = 0;
    let mut i: usize = 0;
    while i < v.len()
        invariant
            i <= v@.len(),
            vv == char_views(v@),
            ww == char_views(w@),
            p == (if held {
                |t: Seq<char>| ww.contains(t)
            } else {
                |t: Seq<char>| !ww.contains(t)
            }),
            count == vv.take(i as int).filter(p).len(),
            count <= i,
        decreases v@.len() - i,
    {
        proof {
            lemma_filter_step(vv, p, i as int);
            assert(vv[i as int] == v@[i as int]@);
        }
        if holds(w, &v[i]) == held {
            count = count + 1;
        }
        i = i + 1;
    }
    proof {
        lemma_take_all(vv);
        if held {
            assert(p =~= (|t: Seq<char>| ww.contains(t)));
        } else {
            assert(p =~= (|t: Seq<char>| !ww.contains(t)));
        }
    }
    count
}

/// The numbers of shared and of all distinct tokens of two texts.
pub fn token_overlap(a: &str, b: &str) -> (r: (u128, u128))
    ensures
        r.0 == shared_tokens(a@, b@),
        r.1 == all_tokens(a@, b@),
        r.0 <= r.1 <= 0x4_0000_0000_0000_0000,
{
    let ta = tokens_of(a);
    let tb = tokens_of(b);
    let da = distinct(&ta);
    let db = distinct(&tb);
    let shared = count_held(&da, &db, true);
    let extra = count_held(&db, &da, false);
    proof {
        broadcast use vstd::seq_lib::group_filter_ensures;
        assert(char_views(da@).filter(|t: Seq<char>| char_views(db@).contains(t)).len() <= char_views(da@).len());
    }
    (shared as u128, da.len() as u128 + extra as u128)
}

/// The Jaccard similarity of two texts (see `jaccard`).
pub fn jaccard_similarity(a: &str, b: &str) -> (r: u32)
    ensures
        r == jaccard(a@, b@),
{
    let (i, u) = token_overlap(a, b);
    if u == 0 {
        0x3F80_0000
    } else {
        let x = f32_round_u128(i);
        let y = f32_round_u128(u);
        f32_bits_of_ratio(x, y)
    }
}

} // verus!
