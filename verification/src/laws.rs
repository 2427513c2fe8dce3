//! What holds between the two directions of the translation.

use vstd::prelude::*;
use crate::error::TranslateError;
use crate::message::{
    address_of, infer_all, osc_to_rcp_spec, rcp_to_osc_spec, render_all, MessageView,
};
use crate::number::{
    all_digits, decimal, digits_end, digits_of, digits_value, has_sign, int_token, is_digit,
    is_float_literal, lower, spells, unsigned_part,
};
use crate::split::{
    breaks_at, lemma_join_runs, lemma_runs_nonempty, lemma_runs_scan, run, runs_from, segments,
    tight_from, tokens,
};
use crate::text::{joined, lemma_joined_cons, trimmed};
use crate::value::{infer, is_quoted, render, ValueView};

verus! {

/// The digits of a number are digits, at least one, and write that number.
pub proof fn lemma_digits_of(n: nat)
    ensures
        digits_of(n).len() > 0,
        all_digits(digits_of(n)),
        digits_value(digits_of(n)) == n,
    decreases n,
{
    if n < 10 {
        let s = digits_of(n);
        assert(s.drop_last() =~= Seq::<char>::empty());
        assert(digits_value(s.drop_last()) == 0);
    } else {
        lemma_digits_of(n / 10);
        let s = digits_of(n);
        let head = digits_of(n / 10);
        assert(s.drop_last() =~= head);
        assert forall|i: int| 0 <= i < s.len() implies is_digit(#[trigger] s[i]) by {
            if i < head.len() {
                assert(s[i] == head[i]);
            }
        }
    }
}

/// The decimal form of a 32-bit integer reads as that integer: what
/// `osc_to_rcp_arg` writes for an integer, `rcp_to_osc_type` reads back.
pub proof fn law_integer_reads_back(v: i32)
    ensures
        int_token(decimal(v as int)) == Some(v),
        infer(decimal(v as int)) == ValueView::Integer(v),
{
    let s = decimal(v as int);
    if v < 0 {
        let n = (-(v as int)) as nat;
        lemma_digits_of(n);
        assert(s[0] == '-');
        assert(unsigned_part(s) =~= digits_of(n));
    } else {
        let n = v as nat;
        lemma_digits_of(n);
        assert(is_digit(s[0]));
        assert(unsigned_part(s) =~= s);
    }
}

/// Whether the token `t` writes an integer in the one form in which integers
/// are written: no plus sign, no zero before its digits, no `-0`.
pub open spec fn canonical_int(t: Seq<char>) -> bool {
    match int_token(t) {
        Some(v) => decimal(v as int) == t,
        None => false,
    }
}

/// Whether the token `t` comes back as it stands when its value is written:
/// it is an integer in canonical form, or a floating-point literal that is
/// no 32-bit integer, or text between quotes.
pub open spec fn writes_itself(t: Seq<char>) -> bool {
    ||| canonical_int(t)
    ||| (int_token(t) is None && is_float_literal(t))
    ||| is_quoted(t)
}

/// A token that starts with a double quote is neither an integer nor a
/// floating-point literal.
pub proof fn lemma_quoted_is_text(t: Seq<char>)
    requires
        t.len() > 0,
        t[0] == '"',
    ensures
        int_token(t) is None,
        !is_float_literal(t),
        infer(t) == ValueView::Text(t),
{
    assert(!has_sign(t));
    assert(unsigned_part(t) == t);
    assert(!is_digit(t[0]));
    assert(t.skip(0) =~= t);
    reveal_strlit("inf");
    reveal_strlit("infinity");
    reveal_strlit("nan");
    assert(lower(t[0]) == '"');
    assert(!spells(t, "inf"@));
    assert(!spells(t, "infinity"@));
    assert(!spells(t, "nan"@));
    assert(digits_end(t, 0) == 0);
}

/// The tokens that come back as they stand are exactly those that
/// `writes_itself` names.
pub proof fn law_token_round_trip(t: Seq<char>)
    ensures
        render(infer(t)) == Ok::<Seq<char>, TranslateError>(t) <==> writes_itself(t),
{
    if is_quoted(t) {
        lemma_quoted_is_text(t);
    }
    if int_token(t) is None && !is_float_literal(t) && !is_quoted(t) {
        let q = seq!['"'] + t + seq!['"'];
        assert(q.len() == t.len() + 2);
    }
}

/// The values of tokens that write themselves are written as those tokens.
pub proof fn lemma_render_infer_all(t: Seq<Seq<char>>)
    requires
        forall|i: int| 0 <= i < t.len() ==> writes_itself(#[trigger] t[i]),
    ensures
        render_all(infer_all(t)) == Ok::<Seq<Seq<char>>, TranslateError>(t),
    decreases t.len(),
{
    if t.len() == 0 {
        assert(infer_all(t) =~= Seq::<ValueView>::empty());
        assert(t =~= Seq::<Seq<char>>::empty());
    } else {
        assert(infer_all(t).drop_last() =~= infer_all(t.drop_last()));
        lemma_render_infer_all(t.drop_last());
        assert(writes_itself(t[t.len() - 1]));
        law_token_round_trip(t.last());
        assert(t.drop_last().push(t.last()) =~= t);
    }
}

/// The segments of the address of a `NOTIFY` or `OK` line are its first path
/// token and the segments of its second, where the first holds no slash and
/// the second is made of non-empty segments only.
pub proof fn lemma_address_segments(first: Seq<char>, second: Seq<char>)
    requires
        first.len() > 0,
        !first.contains('/'),
        tight_from(second, '/', 0),
    ensures
        segments(address_of(first, second)).len() >= 2,
        segments(address_of(first, second))[0] == first,
        joined(segments(address_of(first, second)).skip(1), '/') == second,
{
    let s = address_of(first, second);
    let n = first.len() as int;
    assert(s.len() == n + 2 + second.len());
    assert(s[0] == '/');
    assert forall|k: int| 1 <= k < n + 1 implies !breaks_at(s, '/', false, k) by {
        assert(s[k] == first[k - 1]);
        assert(first.contains(first[k - 1]));
    }
    assert(s[n + 1] == '/');
    assert forall|k: int| n + 2 <= k < s.len() implies s[k] == second[k - n - 2] by {}
    lemma_runs_scan(s, '/', false, 1, 1, n + 1);
    assert(runs_from(s, '/', false, 0, 0) == run(s, 0, 0) + runs_from(s, '/', false, 1, 1));
    assert(runs_from(s, '/', false, 1, n + 1) == run(s, 1, n + 1) + runs_from(
        s,
        '/',
        false,
        n + 2,
        n + 2,
    ));
    let rest = runs_from(s, '/', false, n + 2, n + 2);
    assert(tight_from(s, '/', n + 2)) by {
        assert(s[n + 2] == second[0]);
        assert(s[s.len() - 1] == second[second.len() - 1]);
        assert forall|k: int| n + 2 <= k && k + 1 < s.len() implies !(s[k] == '/' && #[trigger] s[k
            + 1] == '/') by {
            assert(s[k] == second[k - n - 2]);
            assert(s[k + 1] == second[k - n - 2 + 1]);
        }
    }
    lemma_join_runs(s, '/', n + 2, n + 2);
    assert(s.subrange(n + 2, s.len() as int) =~= second);
    assert(s.subrange(1, n + 1) =~= first);
    let path = segments(s);
    assert(path =~= seq![first] + rest);
    assert(path.skip(1) =~= rest);
}

/// The address of a `NOTIFY` or `OK` line whose two path tokens hold no
/// slash has those two tokens as its segments.
pub proof fn law_address_of_plain_tokens(first: Seq<char>, second: Seq<char>)
    requires
        first.len() > 0,
        second.len() > 0,
        !first.contains('/'),
        !second.contains('/'),
    ensures
        segments(address_of(first, second)) == seq![first, second],
{
    let s = address_of(first, second);
    let n = first.len() as int;
    assert forall|k: int| 1 <= k < n + 1 implies !breaks_at(s, '/', false, k) by {
        assert(s[k] == first[k - 1]);
        assert(first.contains(first[k - 1]));
    }
    assert forall|k: int| n + 2 <= k < s.len() implies !breaks_at(s, '/', false, k) by {
        assert(s[k] == second[k - n - 2]);
        assert(second.contains(second[k - n - 2]));
    }
    lemma_runs_scan(s, '/', false, 1, 1, n + 1);
    lemma_runs_scan(s, '/', false, n + 2, n + 2, s.len() as int);
    assert(s[0] == '/');
    assert(s[n + 1] == '/');
    assert(runs_from(s, '/', false, 0, 0) == run(s, 0, 0) + runs_from(s, '/', false, 1, 1));
    assert(runs_from(s, '/', false, 1, n + 1) == run(s, 1, n + 1) + runs_from(
        s,
        '/',
        false,
        n + 2,
        n + 2,
    ));
    assert(s.subrange(1, n + 1) =~= first);
    assert(s.subrange(n + 2, s.len() as int) =~= second);
    assert(segments(s) =~= seq![first, second]);
}

/// A line without its verb: the tokens behind the first, with one space
/// between each two.
pub open spec fn normalized(line: Seq<char>) -> Seq<char> {
    joined(tokens(trimmed(line)).skip(1), ' ')
}

/// Whether a line comes back from the two translations: a `NOTIFY` or `OK`
/// line with at least one argument, whose first path token holds no slash,
/// whose second is made of non-empty segments only, and whose arguments all
/// write themselves.
pub open spec fn round_trips(line: Seq<char>) -> bool {
    let t = tokens(trimmed(line));
    &&& t.len() >= 4
    &&& (t[0] == "NOTIFY"@ || t[0] == "OK"@)
    &&& !t[1].contains('/')
    &&& tight_from(t[2], '/', 0)
    &&& forall|i: int| 3 <= i < t.len() ==> writes_itself(#[trigger] t[i])
}

/// Translating a line into a message and the message back into a line gives
/// the line without its verb, for every line that `round_trips` names.
pub proof fn law_round_trip(line: Seq<char>)
    requires
        round_trips(line),
    ensures
        rcp_to_osc_spec(line) is Ok,
        osc_to_rcp_spec(rcp_to_osc_spec(line)->Ok_0) == Ok::<Seq<char>, TranslateError>(
            normalized(line),
        ),
{
    let t = tokens(trimmed(line));
    let m = rcp_to_osc_spec(line)->Ok_0;
    assert(m == MessageView { addr: address_of(t[1], t[2]), args: infer_all(t.skip(3)) });
    lemma_runs_nonempty(trimmed(line), ' ', true, 0, 0);
    assert(t[1].len() > 0);
    lemma_address_segments(t[1], t[2]);
    let args = t.skip(3);
    assert forall|i: int| 0 <= i < args.len() implies writes_itself(#[trigger] args[i]) by {
        assert(args[i] == t[i + 3]);
    }
    lemma_render_infer_all(args);
    let path = segments(m.addr);
    assert(t.skip(1) =~= seq![t[1]] + (seq![t[2]] + args));
    lemma_joined_cons(t[2], args, ' ');
    lemma_joined_cons(t[1], seq![t[2]] + args, ' ');
    assert(t[1] + seq![' '] + (t[2] + seq![' '] + joined(args, ' ')) =~= t[1] + seq![' '] + t[2]
        + seq![' '] + joined(args, ' '));
}

} // verus!
