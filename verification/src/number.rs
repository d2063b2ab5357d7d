//! Which texts are decimal numbers: the texts that the credits of a course
//! may be written as.

use crate::text::to_chars;
use vstd::prelude::*;

verus! {

/// One of the ten digits.
pub open spec fn is_digit(c: char) -> bool {
    0x30 <= c as u32 <= 0x39
}

/// The number of digits at the start of `s`.
pub open spec fn digits_len(s: Seq<char>) -> nat
    decreases s.len(),
{
    if s.len() == 0 || !is_digit(s[0]) {
        0
    } else {
        1 + digits_len(s.skip(1))
    }
}

/// `s` without the sign that it may start with.
pub open spec fn without_sign(s: Seq<char>) -> Seq<char> {
    if s.len() > 0 && (s[0] == '+' || s[0] == '-') {
        s.skip(1)
    } else {
        s
    }
}

/// `s` is `word`, each letter in small or in capital writing.
pub open spec fn spells(s: Seq<char>, small: Seq<char>, capital: Seq<char>) -> bool {
    &&& s.len() == small.len()
    &&& forall|i: int| 0 <= i < s.len() ==> s[i] == small[i] || s[i] == capital[i]
}

/// One of the three words that stand for what is no finite number.
pub open spec fn is_special(s: Seq<char>) -> bool {
    ||| spells(s, "inf"@, "INF"@)
    ||| spells(s, "infinity"@, "INFINITY"@)
    ||| spells(s, "nan"@, "NAN"@)
}

/// What may follow the `e` of a number: digits, at least one, behind a sign
/// or without one.
pub open spec fn is_exponent(s: Seq<char>) -> bool {
    let digits = without_sign(s);
    digits.len() > 0 && digits_len(digits) == digits.len()
}

/// Digits with at most one point among them, before them or behind them, at
/// least one digit in all; then, if anything, `e` or `E` and an exponent.
pub open spec fn is_decimal(s: Seq<char>) -> bool {
    let whole = digits_len(s);
    let rest = s.skip(whole as int);
    let pointed = rest.len() > 0 && rest[0] == '.';
    let fraction = if pointed {
        digits_len(rest.skip(1))
    } else {
        0
    };
    let tail = if pointed {
        rest.skip(1 + fraction as int)
    } else {
        rest
    };
    &&& whole + fraction > 0
    &&& tail.len() == 0 || ((tail[0] == 'e' || tail[0] == 'E') && is_exponent(tail.skip(1)))
}

/// The texts that are read as numbers: behind a sign or without one, a
/// decimal number or one of the three words. Nothing may stand before or
/// behind, white space neither.
pub open spec fn is_number(s: Seq<char>) -> bool {
    is_special(without_sign(s)) || is_decimal(without_sign(s))
}

/// Whether `c` is one of the ten digits.
pub fn digit(c: char) -> (r: bool)
    ensures
        r == is_digit(c),
{
    let n: u32 = c as u32;
    0x30 <= n && n <= 0x39
}

/// The index behind the digits that start at index `start` of `s`.
pub fn skip_digits(s: &Vec<char>, start: usize) -> (end: usize)
    requires
        start <= s.len(),
    ensures
        start <= end <= s.len(),
        end - start == digits_len(s@.skip(start as int)),
{
    let mut end: usize = start;
    while end < s.len() && digit(s[end])
        invariant
            start <= end <= s.len(),
            digits_len(s@.skip(start as int)) == (end - start) + digits_len(s@.skip(end as int)),
        decreases s.len() - end,
    {
        assert(s@.skip(end as int).skip(1) =~= s@.skip(end + 1));
        end += 1;
    }
    end
}

/// Whether what stands in `s` from index `start` on is `word`, each letter in
/// small or in capital writing.
fn spelled(s: &Vec<char>, start: usize, small: &str, capital: &str) -> (r: bool)
    requires
        start <= s.len(),
        small@.len() == capital@.len(),
    ensures
        r == spells(s@.skip(start as int), small@, capital@),
{
    let small_letters = to_chars(small);
    let capital_letters = to_chars(capital);
    let ghost rest = s@.skip(start as int);
    if s.len() - start != small_letters.len() {
        return false;
    }
    let mut i: usize = 0;
    while i < small_letters.len()
        invariant
            i <= small_letters.len(),
            start + small_letters.len() == s.len(),
            small_letters@ == small@,
            capital_letters@ == capital@,
            small@.len() == capital@.len(),
            rest == s@.skip(start as int),
            forall|k: int| 0 <= k < i ==> rest[k] == small_letters@[k] || rest[k] == capital_letters@[k],
        decreases small_letters.len() - i,
    {
        let c = s[start + i];
        assert(rest[i as int] == c);
        if c != small_letters[i] && c != capital_letters[i] {
            return false;
        }
        i += 1;
    }
    true
}

/// Whether what stands in `s` from index `start` on is one of the three
/// words.
pub fn special_at(s: &Vec<char>, start: usize) -> (r: bool)
    requires
        start <= s.len(),
    ensures
        r == is_special(s@.skip(start as int)),
{
    proof {
        reveal_strlit("inf");
        reveal_strlit("INF");
        reveal_strlit("infinity");
        reveal_strlit("INFINITY");
        reveal_strlit("nan");
        reveal_strlit("NAN");
    }
    spelled(s, start, "inf", "INF") || spelled(s, start, "infinity", "INFINITY") || spelled(
        s,
        start,
        "nan",
        "NAN",
    )
}

/// Whether what stands in `s` from index `start` on is an exponent.
pub fn exponent_at(s: &Vec<char>, start: usize) -> (r: bool)
    requires
        start <= s.len(),
    ensures
        r == is_exponent(s@.skip(start as int)),
{
    let ghost exponent = s@.skip(start as int);
    let signed = start < s.len() && (s[start] == '+' || s[start] == '-');
    assert(exponent.len() > 0 ==> exponent[0] == s@[start as int]);
    let digits_start: usize = if signed {
        start + 1
    } else {
        start
    };
    assert(without_sign(exponent) =~= s@.skip(digits_start as int));
    let end = skip_digits(s, digits_start);
    digits_start < s.len() && end == s.len()
}

/// Whether what stands in `s` from index `start` on is a decimal number.
pub fn decimal_at(s: &Vec<char>, start: usize) -> (r: bool)
    requires
        start <= s.len(),
    ensures
        r == is_decimal(s@.skip(start as int)),
{
    let ghost body = s@.skip(start as int);
    let whole_end = skip_digits(s, start);
    let ghost whole = digits_len(body);
    let ghost rest = body.skip(whole as int);
    assert(rest =~= s@.skip(whole_end as int));
    let pointed = whole_end < s.len() && s[whole_end] == '.';
    assert(rest.len() > 0 ==> rest[0] == s@[whole_end as int]);
    if pointed {
        assert(rest.skip(1) =~= s@.skip(whole_end + 1));
        let fraction_end = skip_digits(s, whole_end + 1);
        let ghost fraction = digits_len(rest.skip(1));
        assert(rest.skip(1 + fraction as int) =~= s@.skip(fraction_end as int));
        decimal_tail(s, fraction_end, fraction_end - start - 1)
    } else {
        decimal_tail(s, whole_end, whole_end - start)
    }
}

/// Whether a decimal number of `digits` digits may end with what stands in
/// `s` from index `start` on: it must have a digit, and what follows is
/// nothing, or `e` or `E` and an exponent.
fn decimal_tail(s: &Vec<char>, start: usize, digits: usize) -> (r: bool)
    requires
        start <= s.len(),
    ensures
        r == {
            let tail = s@.skip(start as int);
            &&& digits > 0
            &&& tail.len() == 0 || ((tail[0] == 'e' || tail[0] == 'E') && is_exponent(
                tail.skip(1),
            ))
        },
{
    let ghost tail = s@.skip(start as int);
    if digits == 0 {
        return false;
    }
    if start == s.len() {
        return true;
    }
    assert(tail[0] == s@[start as int]);
    if s[start] != 'e' && s[start] != 'E' {
        return false;
    }
    assert(tail.skip(1) =~= s@.skip(start + 1));
    exponent_at(s, start + 1)
}

/// Whether `s` is read as a number.
pub fn number_text(s: &Vec<char>) -> (r: bool)
    ensures
        r == is_number(s@),
{
    let start: usize = if s.len() > 0 && (s[0] == '+' || s[0] == '-') {
        1
    } else {
        0
    };
    assert(without_sign(s@) =~= s@.skip(start as int));
    special_at(s, start) || decimal_at(s, start)
}

} // verus!
