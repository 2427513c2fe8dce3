//! Cutting a stream of text into lines.
//!
//! A read from the stream ends anywhere, also in the middle of a line: what
//! stands behind the last newline waits for the next read.

use vstd::prelude::*;
use vstd::utf8::{decode_utf8, valid_utf8};
use crate::text::{chars_of, texts, text_of};

verus! {

/// The text that `String::from_utf8_lossy` makes of `bytes`.
pub uninterp spec fn lossy_text(bytes: Seq<u8>) -> Seq<char>;

/// `String::from_utf8_lossy` of std: the text that the bytes encode, with
/// U+FFFD in place of each sequence that is not valid UTF-8. Bytes that are
/// valid UTF-8 throughout are decoded as they stand.
#[verifier::external_body]
pub(crate) fn decode_lossy(bytes: &[u8]) -> (r: String)
    ensures
        r@ == lossy_text(bytes@),
        valid_utf8(bytes@) ==> r@ == decode_utf8(bytes@),
{
    String::from_utf8_lossy(bytes).into_owned()
}

/// The lines of `s` from `start` on that end in a newline, without it, where
/// `s[start..i]` holds no newline.
pub open spec fn lines_from(s: Seq<char>, start: int, i: int) -> Seq<Seq<char>>
    decreases s.len() - i,
{
    if i >= s.len() {
        Seq::empty()
    } else if s[i] == '\n' {
        seq![s.subrange(start, i)] + lines_from(s, i + 1, i + 1)
    } else {
        lines_from(s, start, i + 1)
    }
}

/// The complete lines of `s`: each stretch that a newline ends, without the
/// newline, empty ones too.
pub open spec fn lines_in(s: Seq<char>) -> Seq<Seq<char>> {
    lines_from(s, 0, 0)
}

/// The position behind the last newline before `j`; zero where there is
/// none.
pub open spec fn tail_start(s: Seq<char>, j: int) -> int
    decreases j,
{
    if 0 < j <= s.len() && s[j - 1] != '\n' {
        tail_start(s, j - 1)
    } else {
        j
    }
}

/// What stands behind the last newline of `s`: the start of a line that is
/// not complete yet.
pub open spec fn left_over(s: Seq<char>) -> Seq<char> {
    s.skip(tail_start(s, s.len() as int))
}

/// The lines `l` as they stand in a stream: each followed by a newline.
pub open spec fn unlines(l: Seq<Seq<char>>) -> Seq<char>
    decreases l.len(),
{
    if l.len() == 0 {
        Seq::empty()
    } else {
        l.first() + seq!['\n'] + unlines(l.drop_first())
    }
}

/// Whether none of the lines `l` holds a newline.
pub open spec fn single_lines(l: Seq<Seq<char>>) -> bool {
    forall|i: int| 0 <= i < l.len() ==> !(#[trigger] l[i]).contains('\n')
}

/// Where a line starts at `start` and no newline stands between `start` and
/// `j`, the last newline before `j` is the one before `start`.
pub proof fn lemma_tail_start(s: Seq<char>, start: int, j: int)
    requires
        0 <= start <= j <= s.len(),
        start == 0 || s[start - 1] == '\n',
        forall|k: int| start <= k < j ==> s[k] != '\n',
    ensures
        tail_start(s, j) == start,
    decreases j,
{
    if j > start {
        lemma_tail_start(s, start, j - 1);
    }
}

/// From a position where a line starts, the complete lines with their
/// newlines and then what is left over are the text itself; no line holds a
/// newline, and neither does what is left over.
pub proof fn lemma_lines_from(s: Seq<char>, start: int, i: int)
    requires
        0 <= start <= i <= s.len(),
        start == 0 || s[start - 1] == '\n',
        forall|k: int| start <= k < i ==> s[k] != '\n',
    ensures
        unlines(lines_from(s, start, i)) + left_over(s) == s.skip(start),
        single_lines(lines_from(s, start, i)),
        !left_over(s).contains('\n'),
        start <= tail_start(s, s.len() as int) <= s.len(),
    decreases s.len() - i,
{
    if i >= s.len() {
        lemma_tail_start(s, start, i);
        assert(unlines(lines_from(s, start, i)) + left_over(s) =~= s.skip(start));
    } else if s[i] == '\n' {
        lemma_lines_from(s, i + 1, i + 1);
        let line = s.subrange(start, i);
        let rest = lines_from(s, i + 1, i + 1);
        let all = seq![line] + rest;
        assert(all.first() == line);
        assert(all.drop_first() =~= rest);
        assert(line + seq!['\n'] + unlines(rest) + left_over(s) =~= line + seq!['\n'] + (unlines(
            rest,
        ) + left_over(s)));
        assert(line + seq!['\n'] + s.skip(i + 1) =~= s.skip(start));
        assert forall|k: int| 0 <= k < all.len() implies !(#[trigger] all[k]).contains('\n') by {
            if k > 0 {
                assert(all[k] == rest[k - 1]);
            }
        }
    } else {
        lemma_lines_from(s, start, i + 1);
    }
}

/// Nothing is lost and nothing comes twice: the complete lines of a text,
/// each with its newline, and then what is left over are the text itself; no
/// line holds a newline, and neither does what is left over.
pub proof fn law_framing(s: Seq<char>)
    ensures
        unlines(lines_in(s)) + left_over(s) == s,
        single_lines(lines_in(s)),
        !left_over(s).contains('\n'),
{
    lemma_lines_from(s, 0, 0);
    assert(s.skip(0) =~= s);
}

/// Lines one after the other in a stream are the first lines and then the
/// others.
pub proof fn lemma_unlines_concat(a: Seq<Seq<char>>, b: Seq<Seq<char>>)
    ensures
        unlines(a + b) == unlines(a) + unlines(b),
    decreases a.len(),
{
    if a.len() == 0 {
        assert(a + b =~= b);
        assert(unlines(a) + unlines(b) =~= unlines(b));
    } else {
        lemma_unlines_concat(a.drop_first(), b);
        assert((a + b).first() == a.first());
        assert((a + b).drop_first() =~= a.drop_first() + b);
        assert(a.first() + seq!['\n'] + (unlines(a.drop_first()) + unlines(b)) =~= a.first()
            + seq!['\n'] + unlines(a.drop_first()) + unlines(b));
    }
}

/// A text is cut into lines and a rest in one way only.
pub proof fn lemma_framing_unique(
    a: Seq<Seq<char>>,
    rest_a: Seq<char>,
    b: Seq<Seq<char>>,
    rest_b: Seq<char>,
)
    requires
        single_lines(a),
        single_lines(b),
        !rest_a.contains('\n'),
        !rest_b.contains('\n'),
        unlines(a) + rest_a == unlines(b) + rest_b,
    ensures
        a == b,
        rest_a == rest_b,
    decreases a.len() + b.len(),
{
    let whole = unlines(a) + rest_a;
    if a.len() == 0 && b.len() == 0 {
        assert(a =~= b);
        assert(unlines(a) + rest_a =~= rest_a);
        assert(unlines(b) + rest_b =~= rest_b);
    } else if a.len() == 0 {
        assert(unlines(a) + rest_a =~= rest_a);
        let k = b.first().len() as int;
        assert((unlines(b) + rest_b)[k] == '\n');
        assert(rest_a.contains(rest_a[k]));
    } else if b.len() == 0 {
        assert(unlines(b) + rest_b =~= rest_b);
        let k = a.first().len() as int;
        assert((unlines(a) + rest_a)[k] == '\n');
        assert(rest_b.contains(rest_b[k]));
    } else {
        let x = a.first();
        let y = b.first();
        let tail_a = unlines(a.drop_first()) + rest_a;
        let tail_b = unlines(b.drop_first()) + rest_b;
        assert(whole =~= x + seq!['\n'] + tail_a);
        assert(whole =~= y + seq!['\n'] + tail_b);
        assert(!x.contains('\n'));
        assert(!y.contains('\n'));
        if x.len() < y.len() {
            assert(whole[x.len() as int] == '\n');
            assert(whole[x.len() as int] == y[x.len() as int]);
            assert(y.contains(y[x.len() as int]));
        } else if y.len() < x.len() {
            assert(whole[y.len() as int] == '\n');
            assert(whole[y.len() as int] == x[y.len() as int]);
            assert(x.contains(x[y.len() as int]));
        }
        assert(x =~= whole.take(x.len() as int));
        assert(y =~= whole.take(y.len() as int));
        assert(tail_a =~= whole.skip(x.len() as int + 1));
        assert(tail_b =~= whole.skip(y.len() as int + 1));
        assert forall|k: int| 0 <= k < a.drop_first().len() implies !(#[trigger] a.drop_first()[k]).contains(
            '\n',
        ) by {
            assert(a.drop_first()[k] == a[k + 1]);
        }
        assert forall|k: int| 0 <= k < b.drop_first().len() implies !(#[trigger] b.drop_first()[k]).contains(
            '\n',
        ) by {
            assert(b.drop_first()[k] == b[k + 1]);
        }
        lemma_framing_unique(a.drop_first(), rest_a, b.drop_first(), rest_b);
        assert(a =~= seq![x] + a.drop_first());
        assert(b =~= seq![y] + b.drop_first());
    }
}

/// Where a text comes in two parts, the lines of the first part and then the
/// lines of what it left over followed by the second part are the lines of
/// the whole, and the same is left over: how a stream is cut into reads
/// changes nothing.
pub proof fn law_framing_across_reads(first: Seq<char>, second: Seq<char>)
    ensures
        lines_in(first) + lines_in(left_over(first) + second) == lines_in(first + second),
        left_over(left_over(first) + second) == left_over(first + second),
{
    let l1 = lines_in(first);
    let r1 = left_over(first);
    let l2 = lines_in(r1 + second);
    let r2 = left_over(r1 + second);
    law_framing(first);
    law_framing(r1 + second);
    law_framing(first + second);
    lemma_unlines_concat(l1, l2);
    assert(unlines(l1 + l2) + r2 =~= unlines(l1) + (unlines(l2) + r2));
    assert(unlines(l1) + (r1 + second) =~= (unlines(l1) + r1) + second);
    assert forall|k: int| 0 <= k < (l1 + l2).len() implies !(#[trigger] (l1 + l2)[k]).contains(
        '\n',
    ) by {
        if k < l1.len() {
            assert((l1 + l2)[k] == l1[k]);
        } else {
            assert((l1 + l2)[k] == l2[k - l1.len()]);
        }
    }
    lemma_framing_unique(l1 + l2, r2, lines_in(first + second), left_over(first + second));
}

/// Collects text and hands out the complete lines in it.
pub struct LineFramer {
    buffer: String,
}

impl LineFramer {
    #[verifier::type_invariant]
    spec fn inv(self) -> bool {
        !self.buffer@.contains('\n')
    }

    /// The text that waits for its newline.
    pub closed spec fn pending(&self) -> Seq<char> {
        self.buffer@
    }

    /// A framer that holds no text.
    pub fn new() -> (r: Self)
        ensures
            r.pending() == Seq::<char>::empty(),
    {
        let r = LineFramer { buffer: String::new() };
        assert(!r.buffer@.contains('\n'));
        r
    }

    /// The text that waits for its newline.
    pub fn pending_text(&self) -> (r: String)
        ensures
            r@ == self.pending(),
            !r@.contains('\n'),
    {
        proof {
            use_type_invariant(self);
        }
        self.buffer.clone()
    }

    /// Takes `text` in and hands out the lines that it completes, in order
    /// and without their newlines: the complete lines of the text that waited
    /// followed by `text`. What stands behind the last newline waits on.
    pub fn push_text(&mut self, text: &str) -> (lines: Vec<String>)
        ensures
            texts(lines@) == lines_in(old(self).pending() + text@),
            final(self).pending() == left_over(old(self).pending() + text@),
    {
        let mut all = chars_of(self.buffer.as_str());
        let mut added = chars_of(text);
        all.append(&mut added);
        let n = all.len();
        let mut lines: Vec<String> = Vec::new();
        let mut start: usize = 0;
        let mut i: usize = 0;
        assert(texts(lines@) + lines_in(all@) =~= lines_in(all@));
        while i < n
            invariant
                start <= i <= n,
                n == all.len(),
                texts(lines@) + lines_from(all@, start as int, i as int) == lines_in(all@),
                start == 0 || all@[start - 1] == '\n',
                forall|k: int| start <= k < i ==> all@[k] != '\n',
            decreases n - i,
        {
            if all[i] == '\n' {
                let ghost before = texts(lines@);
                let line = text_of(&all, start, i);
                lines.push(line);
                assert(texts(lines@) =~= before + seq![all@.subrange(start as int, i as int)]);
                assert(texts(lines@) + lines_from(all@, i + 1, i + 1) =~= lines_in(all@));
                start = i + 1;
            }
            i += 1;
        }
        let rest = text_of(&all, start, n);
        proof {
            lemma_tail_start(all@, start as int, n as int);
            assert(rest@ =~= left_over(all@));
            law_framing(all@);
            assert(texts(lines@) + lines_from(all@, start as int, n as int) =~= texts(lines@));
        }
        self.buffer = rest;
        lines
    }

    /// Takes the bytes of one read in, as text, and hands out the lines that
    /// they complete. Bytes that are valid UTF-8 are the text that they
    /// encode; in others, what is not valid becomes U+FFFD.
    pub fn push_bytes(&mut self, bytes: &[u8]) -> (lines: Vec<String>)
        ensures
            texts(lines@) == lines_in(old(self).pending() + lossy_text(bytes@)),
            final(self).pending() == left_over(old(self).pending() + lossy_text(bytes@)),
            valid_utf8(bytes@) ==> lossy_text(bytes@) == decode_utf8(bytes@),
    {
        let text = decode_lossy(bytes);
        self.push_text(text.as_str())
    }
}

} // verus!
