//! Decimal numbers as text: which tokens read as a 32-bit integer, which as a
//! floating-point literal, and how an integer is written.

use vstd::prelude::*;

verus! {

/// Whether `c` is one of the ASCII digits.
pub open spec fn is_digit(c: char) -> bool {
    '0' <= c <= '9'
}

/// The value of the digit `c`.
pub open spec fn digit_value(c: char) -> int {
    c as int - '0' as int
}

/// The digit whose value is `d`.
pub open spec fn digit_char(d: int) -> char {
    (d + '0' as int) as char
}

/// Whether `s` holds digits only.
pub open spec fn all_digits(s: Seq<char>) -> bool {
    forall|i: int| 0 <= i < s.len() ==> is_digit(#[trigger] s[i])
}

/// The number that the digits `s` write in base ten; the empty sequence
/// writes zero.
pub open spec fn digits_value(s: Seq<char>) -> int
    decreases s.len(),
{
    if s.len() == 0 {
        0
    } else {
        digits_value(s.drop_last()) * 10 + digit_value(s.last())
    }
}

/// Whether `s` starts with a plus or a minus sign.
pub open spec fn has_sign(s: Seq<char>) -> bool {
    s.len() > 0 && (s[0] == '+' || s[0] == '-')
}

/// `s` without its sign, if it has one.
pub open spec fn unsigned_part(s: Seq<char>) -> Seq<char> {
    if has_sign(s) {
        s.skip(1)
    } else {
        s
    }
}

/// The integer that the token `s` writes: an optional sign, then one digit or
/// more, and nothing else. `None` for every other token.
pub open spec fn int_literal(s: Seq<char>) -> Option<int> {
    let body = unsigned_part(s);
    if body.len() > 0 && all_digits(body) {
        if s[0] == '-' {
            Some(-digits_value(body))
        } else {
            Some(digits_value(body))
        }
    } else {
        None
    }
}

/// The 32-bit integer that the token `s` writes, if it writes an integer and
/// that integer fits.
pub open spec fn int_token(s: Seq<char>) -> Option<i32> {
    match int_literal(s) {
        Some(v) => if i32::MIN <= v <= i32::MAX {
            Some(v as i32)
        } else {
            None
        },
        None => None,
    }
}

/// The digits of `n` in base ten, most significant first, without leading
/// zeros; zero is the single digit `0`.
pub open spec fn digits_of(n: nat) -> Seq<char>
    decreases n,
{
    if n < 10 {
        seq![digit_char(n as int)]
    } else {
        digits_of(n / 10).push(digit_char((n % 10) as int))
    }
}

/// The decimal form of `v`: its digits, behind a minus sign where it is
/// negative.
pub open spec fn decimal(v: int) -> Seq<char> {
    if v < 0 {
        seq!['-'] + digits_of((-v) as nat)
    } else {
        digits_of(v as nat)
    }
}

/// The value of a digit sequence does not shrink when digits are appended.
pub proof fn lemma_digits_value_grows(s: Seq<char>, k: int)
    requires
        all_digits(s),
        0 <= k <= s.len(),
    ensures
        0 <= digits_value(s.take(k)) <= digits_value(s),
    decreases s.len(),
{
    if s.len() == 0 {
        assert(s.take(k) =~= s);
    } else if k == s.len() {
        assert(s.take(k) =~= s);
        lemma_digits_value_grows(s.drop_last(), k - 1);
        assert(is_digit(s[s.len() - 1]));
    } else {
        lemma_digits_value_grows(s.drop_last(), k);
        assert(s.drop_last().take(k) =~= s.take(k));
        assert(is_digit(s[s.len() - 1]));
    }
}

/// Reads the token `v` as a 32-bit integer.
pub fn parse_int(v: &Vec<char>) -> (r: Option<i32>)
    ensures
        r == int_token(v@),
{
    let n = v.len();
    if n == 0 {
        return None;
    }
    let negative = v[0] == '-';
    let first: usize = if v[0] == '-' || v[0] == '+' {
        1
    } else {
        0
    };
    if first == n {
        return None;
    }
    let ghost body = unsigned_part(v@);
    let mut acc: i64 = 0;
    let mut i: usize = first;
    assert(body.take(0) =~= Seq::<char>::empty());
    while i < n
        invariant
            first <= i <= n,
            n == v.len(),
            first <= 1,
            body == unsigned_part(v@),
            body.len() == n - first,
            forall|j: int| 0 <= j < body.len() ==> body[j] == v@[j + first],
            all_digits(body.take(i - first)),
            acc == digits_value(body.take(i - first)),
            0 <= acc <= 2147483648,
        decreases n - i,
    {
        let c = v[i];
        if !(c >= '0' && c <= '9') {
            assert(!is_digit(body[i - first]));
            return None;
        }
        let d: i64 = (c as u32 - '0' as u32) as i64;
        proof {
            let next = body.take(i - first + 1);
            assert(next.drop_last() =~= body.take(i - first));
            assert(next.last() == c);
            assert forall|j: int| 0 <= j < next.len() implies is_digit(#[trigger] next[j]) by {
                if j < i - first {
                    assert(next[j] == body.take(i - first)[j]);
                }
            }
        }
        acc = acc * 10 + d;
        i += 1;
        if acc > 2147483648 {
            proof {
                if all_digits(body) {
                    lemma_digits_value_grows(body, i - first);
                }
            }
            return None;
        }
    }
    assert(body.take(i - first) =~= body);
    if negative {
        Some((0 - acc) as i32)
    } else if acc > 2147483647 {
        None
    } else {
        Some(acc as i32)
    }
}

/// `s` read from its last element to its first.
pub open spec fn backwards(s: Seq<char>) -> Seq<char> {
    Seq::new(s.len(), |j: int| s[s.len() - 1 - j])
}

/// Writes `x` in decimal.
pub fn int_text(x: i32) -> (r: String)
    ensures
        r@ == decimal(x as int),
{
    let mut m: u32 = if x < 0 {
        (0 - (x as i64)) as u32
    } else {
        x as u32
    };
    let ghost whole = m;
    let mut low_first: Vec<char> = Vec::new();
    assert(digits_of(m as nat) + backwards(low_first@) =~= digits_of(whole as nat));
    while m >= 10
        invariant
            digits_of(whole as nat) == digits_of(m as nat) + backwards(low_first@),
        decreases m,
    {
        let d: u8 = (m % 10) as u8;
        let ghost before = low_first@;
        low_first.push((48u8 + d) as char);
        assert(backwards(low_first@) =~= seq![digit_char(d as int)] + backwards(before));
        assert(digits_of(m as nat) == digits_of((m / 10) as nat).push(digit_char(d as int)));
        assert(digits_of((m / 10) as nat).push(digit_char(d as int)) + backwards(before)
            =~= digits_of((m / 10) as nat) + backwards(low_first@));
        m = m / 10;
    }
    let ghost before = low_first@;
    low_first.push((48u8 + (m as u8)) as char);
    assert(backwards(low_first@) =~= digits_of(m as nat) + backwards(before));
    let mut out = String::new();
    if x < 0 {
        out.push('-');
    }
    let ghost sign = out@;
    let n = low_first.len();
    let mut i: usize = n;
    while i > 0
        invariant
            i <= n,
            n == low_first.len(),
            out@ == sign + backwards(low_first@).take(n - i),
        decreases i,
    {
        i -= 1;
        out.push(low_first[i]);
        assert(out@ =~= sign + backwards(low_first@).take(n - i));
    }
    assert(backwards(low_first@).take(n as int) =~= backwards(low_first@));
    out
}

/// The ASCII lower-case form of `c`; every other character is its own.
pub open spec fn lower(c: char) -> char {
    if 'A' <= c <= 'Z' {
        (c as int + 32) as char
    } else {
        c
    }
}

/// Whether `s` spells `word` when ASCII letters are read without regard to
/// case.
pub open spec fn spells(s: Seq<char>, word: Seq<char>) -> bool {
    s.len() == word.len() && forall|i: int| 0 <= i < s.len() ==> lower(#[trigger] s[i]) == word[i]
}

/// The first position at or after `i` that holds no digit.
pub open spec fn digits_end(s: Seq<char>, i: int) -> int
    decreases s.len() - i,
{
    if 0 <= i < s.len() && is_digit(s[i]) {
        digits_end(s, i + 1)
    } else {
        i
    }
}

/// Whether `s[p..]` is an exponent: the letter `e` in either case, an
/// optional sign, then one digit or more up to the end of `s`.
pub open spec fn exponent_at(s: Seq<char>, p: int) -> bool {
    let q = if p + 1 < s.len() && (s[p + 1] == '+' || s[p + 1] == '-') {
        p + 2
    } else {
        p + 1
    };
    &&& 0 <= p < s.len()
    &&& (s[p] == 'e' || s[p] == 'E')
    &&& q < s.len()
    &&& digits_end(s, q) == s.len()
}

/// Whether `s[start..]` is a decimal number: digits with at most one point
/// among them, at least one digit in all, then nothing or an exponent.
pub open spec fn number_at(s: Seq<char>, start: int) -> bool {
    let a = digits_end(s, start);
    let pointed = a < s.len() && s[a] == '.';
    let b = if pointed {
        digits_end(s, a + 1)
    } else {
        a
    };
    let count = if pointed {
        b - start - 1
    } else {
        b - start
    };
    count >= 1 && (b == s.len() || exponent_at(s, b))
}

/// Whether the token `s` is a floating-point literal: an optional sign, then
/// `inf`, `infinity` or `nan` in any case, or a decimal number.
pub open spec fn is_float_literal(s: Seq<char>) -> bool {
    let start: int = if has_sign(s) {
        1
    } else {
        0
    };
    let rest = s.skip(start);
    spells(rest, "inf"@) || spells(rest, "infinity"@) || spells(rest, "nan"@) || number_at(
        s,
        start,
    )
}

fn lower_char(c: char) -> (r: char)
    ensures
        r == lower(c),
{
    if c >= 'A' && c <= 'Z' {
        ((c as u8) + 32) as char
    } else {
        c
    }
}

fn spells_word(v: &Vec<char>, from: usize, word: &str) -> (r: bool)
    requires
        from <= v.len(),
    ensures
        r == spells(v@.skip(from as int), word@),
{
    let w = crate::text::chars_of(word);
    if v.len() - from != w.len() {
        return false;
    }
    let ghost rest = v@.skip(from as int);
    let mut i: usize = 0;
    while i < w.len()
        invariant
            i <= w.len(),
            from <= v.len(),
            v.len() - from == w.len(),
            rest == v@.skip(from as int),
            w@ == word@,
            forall|j: int| 0 <= j < i ==> lower(#[trigger] rest[j]) == w@[j],
        decreases w.len() - i,
    {
        if lower_char(v[from + i]) != w[i] {
            assert(lower(rest[i as int]) != w@[i as int]);
            return false;
        }
        i += 1;
    }
    true
}

fn skip_digits(v: &Vec<char>, from: usize) -> (r: usize)
    requires
        from <= v.len(),
    ensures
        from <= r <= v.len(),
        r == digits_end(v@, from as int),
{
    let mut i: usize = from;
    while i < v.len() && v[i] >= '0' && v[i] <= '9'
        invariant
            from <= i <= v.len(),
            digits_end(v@, from as int) == digits_end(v@, i as int),
        decreases v.len() - i,
    {
        i += 1;
    }
    i
}

fn is_exponent(v: &Vec<char>, p: usize) -> (r: bool)
    requires
        p < v.len(),
    ensures
        r == exponent_at(v@, p as int),
{
    if v[p] != 'e' && v[p] != 'E' {
        return false;
    }
    let q: usize = if p + 1 < v.len() && (v[p + 1] == '+' || v[p + 1] == '-') {
        p + 2
    } else {
        p + 1
    };
    q < v.len() && skip_digits(v, q) == v.len()
}

/// Whether the token `v` is a floating-point literal.
pub fn is_float_text(v: &Vec<char>) -> (r: bool)
    ensures
        r == is_float_literal(v@),
{
    let start: usize = if v.len() > 0 && (v[0] == '+' || v[0] == '-') {
        1
    } else {
        0
    };
    if spells_word(v, start, "inf") || spells_word(v, start, "infinity") || spells_word(
        v,
        start,
        "nan",
    ) {
        return true;
    }
    let a = skip_digits(v, start);
    let pointed = a < v.len() && v[a] == '.';
    let b = if pointed {
        skip_digits(v, a + 1)
    } else {
        a
    };
    let count = if pointed {
        b - start - 1
    } else {
        b - start
    };
    count >= 1 && (b == v.len() || is_exponent(v, b))
}

} // verus!
