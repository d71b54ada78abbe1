//! Numerals: the decimal form of a count, and the texts that are read as a
//! floating-point number.

use vstd::prelude::*;
use crate::text::{chars_of, find_first, first_of, slice};

verus! {

/// The character of a decimal digit.
pub open spec fn digit(d: nat) -> char {
    if d == 0 {
        '0'
    } else if d == 1 {
        '1'
    } else if d == 2 {
        '2'
    } else if d == 3 {
        '3'
    } else if d == 4 {
        '4'
    } else if d == 5 {
        '5'
    } else if d == 6 {
        '6'
    } else if d == 7 {
        '7'
    } else if d == 8 {
        '8'
    } else {
        '9'
    }
}

/// `n` written in base ten, without leading zeros.
pub open spec fn decimal(n: nat) -> Seq<char>
    decreases n,
{
    if n < 10 {
        seq![digit(n)]
    } else {
        decimal(n / 10).push(digit(n % 10))
    }
}

/// The character of the digit `d`.
fn digit_char(d: usize) -> (c: char)
    requires
        d < 10,
    ensures
        c == digit(d as nat),
{
    if d == 0 {
        '0'
    } else if d == 1 {
        '1'
    } else if d == 2 {
        '2'
    } else if d == 3 {
        '3'
    } else if d == 4 {
        '4'
    } else if d == 5 {
        '5'
    } else if d == 6 {
        '6'
    } else if d == 7 {
        '7'
    } else if d == 8 {
        '8'
    } else {
        '9'
    }
}

/// Writes `n` in base ten.
pub fn decimal_digits(n: usize) -> (r: Vec<char>)
    ensures
        r@ == decimal(n as nat),
    decreases n,
{
    if n < 10 {
        let mut r: Vec<char> = Vec::new();
        r.push(digit_char(n));
        r
    } else {
        let mut r = decimal_digits(n / 10);
        r.push(digit_char(n % 10));
        r
    }
}

/// The decimal form of a number is made of digits, at least one.
pub proof fn lemma_decimal_is_digits(n: nat)
    ensures
        decimal(n).len() >= 1,
        forall|i: int| 0 <= i < decimal(n).len() ==> is_digit(#[trigger] decimal(n)[i]),
    decreases n,
{
    if n >= 10 {
        lemma_decimal_is_digits(n / 10);
    }
}

/// Two numbers with one decimal form are one number.
pub proof fn lemma_decimal_is_injective(a: nat, b: nat)
    requires
        decimal(a) == decimal(b),
    ensures
        a == b,
    decreases a,
{
    lemma_decimal_is_digits(a / 10);
    lemma_decimal_is_digits(b / 10);
    if a < 10 && b < 10 {
        assert(decimal(a)[0] == digit(a) && decimal(b)[0] == digit(b));
    } else if a >= 10 && b >= 10 {
        assert(decimal(a).last() == digit(a % 10) && decimal(b).last() == digit(b % 10));
        assert(decimal(a).drop_last() == decimal(a / 10));
        assert(decimal(b).drop_last() == decimal(b / 10));
        lemma_decimal_is_injective(a / 10, b / 10);
        assert(a % 10 == b % 10);
        assert(a == 10 * (a / 10) + a % 10 && b == 10 * (b / 10) + b % 10);
    } else {
        assert(decimal(a).len() != decimal(b).len());
    }
}

/// Whether `c` is a decimal digit.
pub open spec fn is_digit(c: char) -> bool {
    '0' <= c <= '9'
}

/// Whether `s` is made of decimal digits only.
pub open spec fn all_digits(s: Seq<char>) -> bool {
    forall|i: int| 0 <= i < s.len() ==> is_digit(#[trigger] s[i])
}

/// Whether `c` is a sign.
pub open spec fn is_sign(c: char) -> bool {
    c == '+' || c == '-'
}

/// `s` without the sign it may begin with.
pub open spec fn unsigned(s: Seq<char>) -> Seq<char> {
    if s.len() > 0 && is_sign(s[0]) {
        s.skip(1)
    } else {
        s
    }
}

/// Whether `s` spells a word in letters of either case: `small` is the word
/// in small letters, `capital` in capitals.
pub open spec fn spells(s: Seq<char>, small: Seq<char>, capital: Seq<char>) -> bool {
    s.len() == small.len() && forall|i: int|
        0 <= i < s.len() ==> #[trigger] s[i] == small[i] || s[i] == capital[i]
}

/// Whether `s` is a mantissa: digits with at most one point among them, and
/// at least one digit.
pub open spec fn is_mantissa(s: Seq<char>) -> bool {
    let point = first_of(s, '.', '.');
    if point == s.len() {
        s.len() > 0 && all_digits(s)
    } else {
        s.len() > 1 && all_digits(s.take(point)) && all_digits(s.skip(point + 1))
    }
}

/// Whether `s` is what follows the letter of an exponent: digits, at least
/// one, after an optional sign.
pub open spec fn is_exponent(s: Seq<char>) -> bool {
    unsigned(s).len() > 0 && all_digits(unsigned(s))
}

/// Whether `s` is a decimal number: a mantissa, and after it an optional
/// exponent that begins with `e` or `E`.
pub open spec fn is_number(s: Seq<char>) -> bool {
    let letter = first_of(s, 'e', 'E');
    if letter == s.len() {
        is_mantissa(s)
    } else {
        is_mantissa(s.take(letter)) && is_exponent(s.skip(letter + 1))
    }
}

/// Whether `s` is read as a floating-point number: after an optional sign, a
/// decimal number or one of the words `inf`, `infinity` and `nan`, in letters
/// of either case.
pub open spec fn is_float_literal(s: Seq<char>) -> bool {
    let body = unsigned(s);
    ||| spells(body, "inf"@, "INF"@)
    ||| spells(body, "infinity"@, "INFINITY"@)
    ||| spells(body, "nan"@, "NAN"@)
    ||| is_number(body)
}

/// Whether `s` is made of decimal digits only.
fn only_digits(s: &Vec<char>) -> (r: bool)
    ensures
        r == all_digits(s@),
{
    let mut i: usize = 0;
    while i < s.len()
        invariant
            i <= s.len(),
            forall|j: int| 0 <= j < i ==> is_digit(#[trigger] s@[j]),
        decreases s.len() - i,
    {
        if !('0' <= s[i] && s[i] <= '9') {
            return false;
        }
        i += 1;
    }
    true
}

/// `s` without the sign it may begin with.
fn without_sign(s: &Vec<char>) -> (r: Vec<char>)
    ensures
        r@ == unsigned(s@),
{
    if s.len() > 0 && (s[0] == '+' || s[0] == '-') {
        slice(s, 1, s.len())
    } else {
        assert(s@.subrange(0, s.len() as int) == s@);
        slice(s, 0, s.len())
    }
}

/// Whether `s` spells the word that `small` and `capital` are the two
/// writings of.
fn spells_word(s: &Vec<char>, small: &str, capital: &str) -> (r: bool)
    requires
        small@.len() == capital@.len(),
    ensures
        r == spells(s@, small@, capital@),
{
    let low = chars_of(small);
    let high = chars_of(capital);
    if s.len() != low.len() {
        return false;
    }
    let mut i: usize = 0;
    while i < s.len()
        invariant
            i <= s.len(),
            s.len() == low.len(),
            s.len() == high.len(),
            low@ == small@,
            high@ == capital@,
            forall|j: int| 0 <= j < i ==> #[trigger] s@[j] == low@[j] || s@[j] == high@[j],
        decreases s.len() - i,
    {
        if s[i] != low[i] && s[i] != high[i] {
            return false;
        }
        i += 1;
    }
    true
}

/// Whether `s` is a mantissa.
fn mantissa(s: &Vec<char>) -> (r: bool)
    ensures
        r == is_mantissa(s@),
{
    let point = find_first(s, '.', '.');
    if point == s.len() {
        s.len() > 0 && only_digits(s)
    } else {
        let whole = slice(s, 0, point);
        let fraction = slice(s, point + 1, s.len());
        s.len() > 1 && only_digits(&whole) && only_digits(&fraction)
    }
}

/// Whether `s` is a decimal number.
fn number(s: &Vec<char>) -> (r: bool)
    ensures
        r == is_number(s@),
{
    let letter = find_first(s, 'e', 'E');
    if letter == s.len() {
        mantissa(s)
    } else {
        let head = slice(s, 0, letter);
        let tail = without_sign(&slice(s, letter + 1, s.len()));
        mantissa(&head) && tail.len() > 0 && only_digits(&tail)
    }
}

/// Whether `s` is read as a floating-point number.
pub fn is_numeric(s: &Vec<char>) -> (r: bool)
    ensures
        r == is_float_literal(s@),
{
    let body = without_sign(s);
    proof {
        reveal_strlit("inf");
        reveal_strlit("INF");
        reveal_strlit("infinity");
        reveal_strlit("INFINITY");
        reveal_strlit("nan");
        reveal_strlit("NAN");
    }
    spells_word(&body, "inf", "INF") || spells_word(&body, "infinity", "INFINITY") || spells_word(
        &body,
        "nan",
        "NAN",
    ) || number(&body)
}

} // verus!
