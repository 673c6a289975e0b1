//! Splitting text: at a character, into lines, at the first occurrence of
//! a character; stripping a leading character.
use vstd::prelude::*;
use crate::seqs::lemma_take_all;
use crate::text::{chars_of, push_char};

verus! {

broadcast use vstd::string::group_string_axioms;

/// The pieces of `s` between occurrences of `c` (`str::split`): one more
/// piece than there are occurrences, empty pieces included.
pub open spec fn split_on(s: Seq<char>, c: char) -> Seq<Seq<char>>
    decreases s.len(),
{
    if s.len() == 0 {
        seq![Seq::empty()]
    } else {
        let p = split_on(s.drop_last(), c);
        if s.last() == c {
            p.push(Seq::empty())
        } else {
            p.update(p.len() - 1, p.last().push(s.last()))
        }
    }
}

proof fn lemma_split_nonempty(s: Seq<char>, c: char)
    ensures
        split_on(s, c).len() >= 1,
    decreases s.len(),
{
    if s.len() > 0 {
        lemma_split_nonempty(s.drop_last(), c);
    }
}

/// A line without the carriage return that ended it.
pub open spec fn strip_cr(l: Seq<char>) -> Seq<char> {
    if l.len() > 0 && l.last() == '\r' { l.drop_last() } else { l }
}

/// The lines of `s` (`str::lines`): the pieces between line feeds, a
/// carriage return before a line feed dropped, no line after a final line
/// feed (and none at all for empty text).
pub open spec fn lines_of(s: Seq<char>) -> Seq<Seq<char>> {
    let parts = split_on(s, '\n');
    let m = parts.len() as int;
    let n = if parts.last().len() == 0 { m - 1 } else { m };
    Seq::new(n as nat, |i: int| if i < m - 1 { strip_cr(parts[i]) } else { parts[i] })
}

/// Position of the first `c` in `s`.
pub open spec fn first_index(s: Seq<char>, c: char) -> Option<int> {
    if exists|i: int| 0 <= i < s.len() && s[i] == c {
        Some(choose|i: int| 0 <= i < s.len() && s[i] == c && forall|j: int| 0 <= j < i ==> s[j] != c)
    } else {
        None
    }
}

proof fn lemma_first_index(s: Seq<char>, c: char, i: int)
    requires
        0 <= i < s.len(),
        s[i] == c,
        forall|j: int| 0 <= j < i ==> s[j] != c,
    ensures
        first_index(s, c) == Some(i),
{
    let k = choose|k: int| 0 <= k < s.len() && s[k] == c && forall|j: int| 0 <= j < k ==> s[j] != c;
    assert(0 <= i < s.len() && s[i] == c && forall|j: int| 0 <= j < i ==> s[j] != c);
    if k > i {
        assert(s[i] != c);
    }
}

/// `str::split_once` at a character: the text before and after its first
/// occurrence.
pub open spec fn split_once(s: Seq<char>, c: char) -> Option<(Seq<char>, Seq<char>)> {
    match first_index(s, c) {
        Some(i) => Some((s.take(i), s.skip(i + 1))),
        None => None,
    }
}

/// `s` without its leading `c` characters (`str::trim_start_matches`).
pub open spec fn strip_leading(s: Seq<char>, c: char) -> Seq<char>
    decreases s.len(),
{
    if s.len() > 0 && s[0] == c { strip_leading(s.drop_first(), c) } else { s }
}

/// The views of strings.
pub open spec fn string_views(v: Seq<String>) -> Seq<Seq<char>> {
    v.map_values(|x: String| x@)
}

/// The pieces of `s` between occurrences of `c` (see `split_on`).
pub fn split_char(s: &str, c: char) -> (r: Vec<String>)
    ensures
        string_views(r@) == split_on(s@, c),
{
    let cs = chars_of(s);
    let ghost cv = cs@;
    let mut out: Vec<String> = Vec::new();
    out.push(String::new());
    proof {
        assert(string_views(out@) =~= split_on(cv.take(0), c));
    }
    let mut i: usize = 0;
    while i < cs.len()
        invariant
            i <= cs@.len(),
            cv == cs@,
            string_views(out@) == split_on(cv.take(i as int), c),
            out@.len() >= 1,
        decreases cs@.len() - i,
    {
        let x = cs[i];
        proof {
            assert(cv.take(i + 1).drop_last() =~= cv.take(i as int));
            assert(cv.take(i + 1).last() == x);
        }
        let ghost before = string_views(out@);
        if x == c {
            out.push(String::new());
            proof {
                assert(string_views(out@) =~= before.push(Seq::empty()));
            }
        } else {
            let mut last = out.pop().unwrap();
            push_char(&mut last, x);
            out.push(last);
            proof {
                assert(string_views(out@) =~= before.update(before.len() - 1, before.last().push(x)));
            }
        }
        i = i + 1;
    }
    proof {
        lemma_take_all(cv);
    }
    out
}

/// A copy of `l` without a final carriage return.
fn without_cr(l: &String) -> (r: String)
    ensures
        r@ == strip_cr(l@),
{
    let cs = chars_of(l.as_str());
    if cs.len() > 0 && cs[cs.len() - 1] == '\r' {
        let r = crate::text::string_from_range(&cs, 0, cs.len() - 1);
        assert(cs@.subrange(0, cs@.len() - 1) =~= l@.drop_last());
        r
    } else {
        l.clone()
    }
}

/// The lines of `s` (see `lines_of`).
pub fn lines(s: &str) -> (r: Vec<String>)
    ensures
        string_views(r@) == lines_of(s@),
{
    let parts = split_char(s, '\n');
    let ghost pv = split_on(s@, '\n');
    proof {
        lemma_split_nonempty(s@, '\n');
    }
    let m = parts.len();
    let n = if parts[m - 1].as_str().unicode_len() == 0 { m - 1 } else { m };
    proof {
        assert(parts@[m - 1]@ == pv.last());
    }
    let mut out: Vec<String> = Vec::new();
    let mut i: usize = 0;
    while i < n
        invariant
            m == parts@.len(),
            m >= 1,
            n <= m,
            i <= n,
            n == if pv.last().len() == 0 { m - 1 } else { m as int },
            pv == string_views(parts@),
            string_views(out@) == lines_of(s@).take(i as int),
            pv == split_on(s@, '\n'),
        decreases n - i,
    {
        let l = if i < m - 1 { without_cr(&parts[i]) } else { parts[i].clone() };
        proof {
            assert(parts@[i as int]@ == pv[i as int]);
            assert(lines_of(s@).len() == n);
            assert(lines_of(s@)[i as int] == l@);
        }
        let ghost before = string_views(out@);
        out.push(l);
        proof {
            assert(string_views(out@) =~= before.push(l@));
            assert(string_views(out@) =~= lines_of(s@).take(i + 1));
        }
        i = i + 1;
    }
    proof {
        assert(lines_of(s@).take(n as int) =~= lines_of(s@));
    }
    out
}

/// The text before and after the first `c` in `s` (see `split_once`).
pub fn split_once_char(s: &str, c: char) -> (r: Option<(String, String)>)
    ensures
        match split_once(s@, c) {
            Some((a, b)) => r matches Some(x) && x.0@ == a && x.1@ == b,
            None => r is None,
        },
{
    let cs = chars_of(s);
    let mut i: usize = 0;
    while i < cs.len()
        invariant
            i <= cs@.len(),
            cs@ == s@,
            forall|j: int| 0 <= j < i ==> cs@[j] != c,
        decreases cs@.len() - i,
    {
        if cs[i] == c {
            proof {
                lemma_first_index(s@, c, i as int);
            }
            let a = crate::text::string_from_range(&cs, 0, i);
            let b = crate::text::string_from_range(&cs, i + 1, cs.len());
            proof {
                assert(cs@.subrange(0, i as int) =~= s@.take(i as int));
                assert(cs@.subrange(i + 1, cs@.len() as int) =~= s@.skip(i + 1));
            }
            return Some((a, b));
        }
        i = i + 1;
    }
    None
}

/// `s` without its leading `c` characters (see `strip_leading`).
pub fn strip_leading_char(s: &str, c: char) -> (r: String)
    ensures
        r@ == strip_leading(s@, c),
{
    let cs = chars_of(s);
    let mut i: usize = 0;
    assert(s@.skip(0) =~= s@);
    while i < cs.len() && cs[i] == c
        invariant
            i <= cs@.len(),
            cs@ == s@,
            strip_leading(s@, c) == strip_leading(s@.skip(i as int), c),
        decreases cs@.len() - i,
    {
        proof {
            assert(s@.skip(i as int).drop_first() =~= s@.skip(i + 1));
        }
        i = i + 1;
    }
    let r = crate::text::string_from_range(&cs, i, cs.len());
    proof {
        assert(cs@.subrange(i as int, cs@.len() as int) =~= s@.skip(i as int));
    }
    r
}

} // verus!
