//! Splitting raw filter-rule text into newline-delimited lines.
//!
//! The engine is constructed from individual filter lines. A line ends at a
//! `'\n'`; a `'\r'` immediately before the `'\n'` is not part of the line. A
//! final fragment without a terminating `'\n'` is a line of its own, and a
//! trailing line terminator does not produce an empty final line.

use vstd::prelude::*;

verus! {

/// Index of the first `'\n'` in `s`, or `s.len()` if there is none.
pub open spec fn find_nl(s: Seq<char>) -> int
    decreases s.len(),
{
    if s.len() == 0 {
        0
    } else if s[0] == '\n' {
        0
    } else {
        1 + find_nl(s.drop_first())
    }
}

pub proof fn lemma_find_nl(s: Seq<char>)
    ensures
        0 <= find_nl(s) <= s.len(),
        forall|k: int| 0 <= k < find_nl(s) ==> s[k] != '\n',
        find_nl(s) < s.len() ==> s[find_nl(s)] == '\n',
    decreases s.len(),
{
    if s.len() != 0 && s[0] != '\n' {
        let t = s.drop_first();
        lemma_find_nl(t);
        assert forall|k: int| 0 <= k < find_nl(s) implies s[k] != '\n' by {
            if k > 0 {
                assert(t[k - 1] != '\n');
            }
        }
    }
}

/// A sequence with no `'\n'` is its own single line fragment.
pub proof fn lemma_find_nl_absent(s: Seq<char>)
    requires
        forall|k: int| 0 <= k < s.len() ==> s[k] != '\n',
    ensures
        find_nl(s) == s.len(),
    decreases s.len(),
{
    if s.len() != 0 {
        lemma_find_nl_absent(s.drop_first());
    }
}

/// The content of a `'\n'`-terminated segment: a `'\r'` just before the
/// terminator is dropped.
pub open spec fn strip_cr(l: Seq<char>) -> Seq<char> {
    if l.len() > 0 && l.last() == '\r' {
        l.drop_last()
    } else {
        l
    }
}

#[via_fn]
proof fn lines_of_decreases(s: Seq<char>) {
    lemma_find_nl(s);
}

/// The lines of `s`: segments delimited by `'\n'`, each with a `'\r'`
/// immediately preceding the delimiter removed, with no empty line for a
/// trailing delimiter.
pub open spec fn lines_of(s: Seq<char>) -> Seq<Seq<char>>
    decreases s.len() via lines_of_decreases
{
    if s.len() == 0 {
        seq![]
    } else {
        let i = find_nl(s);
        if i == s.len() {
            seq![s]
        } else {
            seq![strip_cr(s.take(i))] + lines_of(s.skip(i + 1))
        }
    }
}

/// Lines distribute over a prefix that ends in a delimiter.
pub proof fn lemma_lines_of_concat(a: Seq<char>, b: Seq<char>)
    requires
        a.len() == 0 || a.last() == '\n',
    ensures
        lines_of(a + b) == lines_of(a) + lines_of(b),
    decreases a.len(),
{
    if a.len() == 0 {
        assert(a + b =~= b);
        assert(lines_of(a) + lines_of(b) =~= lines_of(b));
    } else {
        lemma_find_nl(a);
        let i = find_nl(a);
        let ab = a + b;
        lemma_find_nl_concat(a, b);
        assert(find_nl(ab) == i);
        assert(i < a.len());
        assert(ab.take(i) =~= a.take(i));
        assert(ab.skip(i + 1) =~= a.skip(i + 1) + b);
        let a2 = a.skip(i + 1);
        if a2.len() > 0 {
            assert(a2.last() == a.last());
        }
        lemma_lines_of_concat(a2, b);
        if i + 1 == a.len() {
            assert(a2.len() == 0);
            assert(lines_of(a) =~= seq![strip_cr(a.take(i))]);
        }
        assert(lines_of(ab) =~= seq![strip_cr(a.take(i))] + (lines_of(a2) + lines_of(b)));
        assert(lines_of(a) =~= seq![strip_cr(a.take(i))] + lines_of(a2));
        assert(lines_of(ab) =~= lines_of(a) + lines_of(b));
    }
}

/// `find_nl` is determined by the position of the first delimiter.
pub proof fn lemma_find_nl_at(s: Seq<char>, m: int)
    requires
        0 <= m < s.len(),
        s[m] == '\n',
        forall|k: int| 0 <= k < m ==> s[k] != '\n',
    ensures
        find_nl(s) == m,
    decreases m,
{
    if m > 0 {
        let t = s.drop_first();
        assert(forall|k: int| 0 <= k < m - 1 ==> t[k] == s[k + 1] && t[k] != '\n');
        lemma_find_nl_at(t, m - 1);
    }
}

/// The first delimiter of a concatenation lies in a non-empty first part
/// that contains a delimiter.
pub proof fn lemma_find_nl_concat(a: Seq<char>, b: Seq<char>)
    requires
        find_nl(a) < a.len(),
    ensures
        find_nl(a + b) == find_nl(a),
    decreases a.len(),
{
    lemma_find_nl(a);
    if a.len() != 0 && a[0] != '\n' {
        assert((a + b).drop_first() =~= a.drop_first() + b);
        lemma_find_nl_concat(a.drop_first(), b);
    }
}

/// Splits rule text into its lines, as [`lines_of`] describes.
pub fn split_lines(s: &str) -> (r: Vec<String>)
    ensures
        r.deep_view() == lines_of(s@),
{
    let n = s.unicode_len();
    let mut r: Vec<String> = Vec::new();
    let mut start: usize = 0;
    let mut i: usize = 0;
    proof {
        assert(s@.take(0) =~= Seq::<char>::empty());
    }
    while i < n
        invariant
            start <= i <= n,
            n == s@.len(),
            r.deep_view() == lines_of(s@.take(start as int)),
            start == 0 || s@[start - 1] == '\n',
            forall|k: int| start <= k < i ==> s@[k] != '\n',
        decreases n - i,
    {
        let c = s.get_char(i);
        if c == '\n' {
            let end = if i > start && s.get_char(i - 1) == '\r' {
                i - 1
            } else {
                i
            };
            let line = s.substring_char(start, end).to_owned();
            r.push(line);
            proof {
                let prev = s@.take(start as int);
                let seg = s@.subrange(start as int, i as int);
                let segn = s@.subrange(start as int, i + 1);
                assert(s@.take(i + 1) =~= prev + segn);
                assert(segn =~= seg + seq!['\n']);
                assert(segn[seg.len() as int] == '\n');
                lemma_find_nl_at(segn, seg.len() as int);
                assert(find_nl(segn) == seg.len());
                assert(segn.take(seg.len() as int) =~= seg);
                assert(segn.skip(seg.len() as int + 1) =~= Seq::<char>::empty());
                assert(lines_of(Seq::<char>::empty()) =~= Seq::<Seq<char>>::empty());
                assert(lines_of(segn) =~= seq![strip_cr(segn.take(seg.len() as int))] + lines_of(
                    segn.skip(seg.len() as int + 1),
                ));
                assert(lines_of(segn) =~= seq![strip_cr(seg)]);
                assert(line@ =~= strip_cr(seg));
                lemma_lines_of_concat(prev, segn);
                assert(r.deep_view() =~= lines_of(prev) + seq![strip_cr(seg)]);
            }
            start = i + 1;
        }
        i += 1;
    }
    if start < n {
        let line = s.substring_char(start, n).to_owned();
        r.push(line);
        proof {
            let prev = s@.take(start as int);
            let seg = s@.subrange(start as int, n as int);
            assert(s@ =~= prev + seg);
            lemma_find_nl_absent(seg);
            assert(lines_of(seg) =~= seq![seg]);
            lemma_lines_of_concat(prev, seg);
            assert(r.deep_view() =~= lines_of(prev) + seq![seg]);
        }
    } else {
        proof {
            assert(s@.take(start as int) =~= s@);
        }
    }
    r
}

} // verus!
