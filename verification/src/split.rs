//! Splitting a character sequence into the runs between separators, with or
//! without regard to double quotes.

use vstd::prelude::*;
use crate::text::{chars_of, joined, lemma_joined_cons, texts, text_of};

verus! {

/// Whether position `i` of `s` lies inside a quoted span: an odd number of
/// double quotes stands before it.
pub open spec fn quoted_at(s: Seq<char>, i: int) -> bool
    decreases i,
{
    if i <= 0 {
        false
    } else {
        quoted_at(s, i - 1) != (s[i - 1] == '"')
    }
}

/// Whether the character at `i` separates two runs: it is `sep`, and where
/// `quotes` is set it does not lie inside a quoted span.
pub open spec fn breaks_at(s: Seq<char>, sep: char, quotes: bool, i: int) -> bool {
    s[i] == sep && !(quotes && quoted_at(s, i))
}

/// The run `s[start..end]` as a sequence of at most one element: an empty run
/// is no run.
pub open spec fn run(s: Seq<char>, start: int, end: int) -> Seq<Seq<char>> {
    if start < end {
        seq![s.subrange(start, end)]
    } else {
        Seq::empty()
    }
}

/// The runs of `s` from `start` on, where `s[start..i]` holds no separator.
pub open spec fn runs_from(s: Seq<char>, sep: char, quotes: bool, start: int, i: int) -> Seq<
    Seq<char>,
>
    decreases s.len() - i,
{
    if i >= s.len() {
        run(s, start, s.len() as int)
    } else if breaks_at(s, sep, quotes, i) {
        run(s, start, i) + runs_from(s, sep, quotes, i + 1, i + 1)
    } else {
        runs_from(s, sep, quotes, start, i + 1)
    }
}

/// The non-empty maximal runs of `s` between separators, in order.
pub open spec fn runs(s: Seq<char>, sep: char, quotes: bool) -> Seq<Seq<char>> {
    runs_from(s, sep, quotes, 0, 0)
}

/// The tokens of a line: split at spaces, except inside double quotes, which
/// stay in their token.
pub open spec fn tokens(s: Seq<char>) -> Seq<Seq<char>> {
    runs(s, ' ', true)
}

/// The non-empty segments of a slash-delimited address.
pub open spec fn segments(s: Seq<char>) -> Seq<Seq<char>> {
    runs(s, '/', false)
}

/// Splits `v` into its runs.
pub fn split_runs(v: &Vec<char>, sep: char, quotes: bool) -> (out: Vec<String>)
    ensures
        texts(out@) == runs(v@, sep, quotes),
        all_nonempty(texts(out@)),
{
    let mut out: Vec<String> = Vec::new();
    let mut start: usize = 0;
    let mut i: usize = 0;
    let mut in_quotes = false;
    assert(texts(out@) + runs(v@, sep, quotes) =~= runs(v@, sep, quotes));
    while i < v.len()
        invariant
            start <= i <= v.len(),
            in_quotes == quoted_at(v@, i as int),
            texts(out@) + runs_from(v@, sep, quotes, start as int, i as int) == runs(
                v@,
                sep,
                quotes,
            ),
        decreases v.len() - i,
    {
        let c = v[i];
        if c == sep && !(quotes && in_quotes) {
            if start < i {
                let ghost before = out@;
                out.push(text_of(v, start, i));
                assert(texts(out@) =~= texts(before) + run(v@, start as int, i as int));
            }
            assert(texts(out@) + runs_from(v@, sep, quotes, i + 1, i + 1) =~= runs(
                v@,
                sep,
                quotes,
            ));
            start = i + 1;
        }
        if c == '"' {
            in_quotes = !in_quotes;
        }
        i += 1;
    }
    if start < i {
        let ghost before = out@;
        out.push(text_of(v, start, i));
        assert(texts(out@) =~= texts(before) + run(v@, start as int, i as int));
    }
    proof {
        lemma_runs_nonempty(v@, sep, quotes, 0, 0);
    }
    out
}

/// Splits a line into its tokens: at spaces, except inside double quotes.
/// The quotes stay in their token; a quote without its partner keeps the
/// rest of the line, spaces included, in one token. No token is empty, and
/// an empty line has none.
pub fn split_respecting_quotes(s: &str) -> (out: Vec<String>)
    ensures
        texts(out@) == tokens(s@),
        all_nonempty(texts(out@)),
        s@.len() == 0 ==> out.len() == 0,
{
    let chars = chars_of(s);
    let out = split_runs(&chars, ' ', true);
    assert(texts(out@).len() == out.len());
    out
}

/// Whether every element of `r` is non-empty.
pub open spec fn all_nonempty(r: Seq<Seq<char>>) -> bool {
    forall|k: int| 0 <= k < r.len() ==> (#[trigger] r[k]).len() > 0
}

/// No run is empty.
pub proof fn lemma_runs_nonempty(s: Seq<char>, sep: char, quotes: bool, start: int, i: int)
    requires
        0 <= start <= i,
    ensures
        all_nonempty(runs_from(s, sep, quotes, start, i)),
    decreases s.len() - i,
{
    if i >= s.len() {
    } else if breaks_at(s, sep, quotes, i) {
        lemma_runs_nonempty(s, sep, quotes, i + 1, i + 1);
        let head = run(s, start, i);
        let tail = runs_from(s, sep, quotes, i + 1, i + 1);
        assert forall|k: int| 0 <= k < (head + tail).len() implies (#[trigger] (head + tail)[k]).len()
            > 0 by {
            if k >= head.len() {
                assert((head + tail)[k] == tail[k - head.len()]);
            }
        }
    } else {
        lemma_runs_nonempty(s, sep, quotes, start, i + 1);
    }
}

/// Scanning over characters that do not separate changes nothing.
pub proof fn lemma_runs_scan(s: Seq<char>, sep: char, quotes: bool, start: int, i: int, j: int)
    requires
        0 <= i <= j <= s.len(),
        forall|k: int| i <= k < j ==> !breaks_at(s, sep, quotes, k),
    ensures
        runs_from(s, sep, quotes, start, i) == runs_from(s, sep, quotes, start, j),
    decreases j - i,
{
    if i < j {
        lemma_runs_scan(s, sep, quotes, start, i + 1, j);
    }
}

/// Whether `s[start..]` is made of non-empty runs only: it is not empty,
/// neither starts nor ends with `sep`, and holds no two of them in a row.
pub open spec fn tight_from(s: Seq<char>, sep: char, start: int) -> bool {
    &&& 0 <= start < s.len()
    &&& s[start] != sep
    &&& s[s.len() - 1] != sep
    &&& forall|k: int| start <= k && k + 1 < s.len() ==> !(s[k] == sep && #[trigger] s[k + 1] == sep)
}

/// Joining the runs of a sequence that is made of non-empty runs only gives
/// the sequence back.
pub proof fn lemma_join_runs(s: Seq<char>, sep: char, start: int, i: int)
    requires
        tight_from(s, sep, start),
        start <= i <= s.len(),
        forall|k: int| start <= k < i ==> s[k] != sep,
    ensures
        runs_from(s, sep, false, start, i).len() > 0,
        joined(runs_from(s, sep, false, start, i), sep) == s.subrange(start, s.len() as int),
    decreases s.len() - i,
{
    if i >= s.len() {
    } else if breaks_at(s, sep, false, i) {
        assert(i > start);
        assert(i + 1 < s.len());
        assert(s[i + 1] != sep);
        lemma_join_runs(s, sep, i + 1, i + 1);
        let rest = runs_from(s, sep, false, i + 1, i + 1);
        lemma_joined_cons(s.subrange(start, i), rest, sep);
        assert(run(s, start, i) + rest =~= seq![s.subrange(start, i)] + rest);
        assert(s.subrange(start, i) + seq![sep] + s.subrange(i + 1, s.len() as int) =~= s.subrange(
            start,
            s.len() as int,
        ));
    } else {
        lemma_join_runs(s, sep, start, i + 1);
    }
}

} // verus!
