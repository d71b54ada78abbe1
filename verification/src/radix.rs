//! Whole numbers in the bases two to thirty-six: reading them and writing
//! them.

use vstd::prelude::*;
use crate::text::{chars_of, slice, starts_with, string_of};

verus! {

/// The character of a digit: `0` to `9`, then `a` to `z`.
pub open spec fn digit_of(d: nat) -> char {
    if d < 10 {
        ((48 + d) as u8) as char
    } else if d < 36 {
        ((87 + d) as u8) as char
    } else {
        '?'
    }
}

/// What a character counts for as a digit in base `base`: `0` to `9`, then
/// the letters, small or capital, from ten on; nothing for what is no digit
/// of the base.
pub open spec fn digit_value(c: char, base: nat) -> Option<nat> {
    let value: int = if '0' <= c <= '9' {
        c as int - 48
    } else if 'a' <= c <= 'z' {
        c as int - 87
    } else if 'A' <= c <= 'Z' {
        c as int - 55
    } else {
        36
    };
    if value < base {
        Some(value as nat)
    } else {
        None
    }
}

/// The number that digits stand for in base `base`; nothing where one of
/// the characters is no digit of the base.
pub open spec fn digits_value(s: Seq<char>, base: nat) -> Option<nat>
    decreases s.len(),
{
    if s.len() == 0 {
        Some(0)
    } else {
        match (digits_value(s.drop_last(), base), digit_value(s.last(), base)) {
            (Some(high), Some(low)) => Some(high * base + low),
            _ => None,
        }
    }
}

/// The whole number that `s` stands for in base `base`: digits, at least
/// one, after an optional sign.
pub open spec fn integer(s: Seq<char>, base: nat) -> Option<int> {
    if s.len() > 0 && s[0] == '-' {
        match digits_value(s.skip(1), base) {
            Some(value) if s.len() > 1 => Some(-(value as int)),
            _ => None,
        }
    } else if s.len() > 0 && s[0] == '+' {
        match digits_value(s.skip(1), base) {
            Some(value) if s.len() > 1 => Some(value as int),
            _ => None,
        }
    } else {
        match digits_value(s, base) {
            Some(value) if s.len() > 0 => Some(value as int),
            _ => None,
        }
    }
}

/// `isize::from_str_radix`: the number that `text` stands for in base
/// `base`, where the text is digits of the base after an optional sign and
/// the number is one that the machine's `isize` holds; `None` for any other
/// text.
#[verifier::external_body]
pub(crate) fn from_str_radix(text: &str, base: u32) -> (r: Option<isize>)
    requires
        2 <= base <= 36,
    ensures
        match r {
            Some(n) => integer(text@, base as nat) == Some(n as int),
            None => match integer(text@, base as nat) {
                Some(value) => value < isize::MIN || value > isize::MAX,
                None => true,
            },
        },
{
    isize::from_str_radix(text, base).ok()
}

/// The digits of `value` in base `base`, without leading zeros.
pub open spec fn digits(value: nat, base: nat) -> Seq<char>
    decreases value,
    when base >= 2
    via digits_decreases
{
    if value < base {
        seq![digit_of(value)]
    } else {
        digits(value / base, base).push(digit_of(value % base))
    }
}

#[via_fn]
proof fn digits_decreases(value: nat, base: nat) {
    if value >= base {
        assert(value / base < value) by (nonlinear_arith)
            requires
                value >= base,
                base >= 2,
        ;
    }
}

/// How a whole number of the machine's word size is written in base
/// `base`. In base ten a negative number has a minus sign before its digits;
/// in any other base it is written as its two's complement.
pub open spec fn written(n: int, base: nat) -> Seq<char> {
    if n >= 0 {
        digits(n as nat, base)
    } else if base == 10 {
        seq!['-'] + digits((-n) as nat, base)
    } else {
        digits((n + usize::MAX + 1) as nat, base)
    }
}

/// `radix_fmt::radix`, and the text that its result is shown as: `n` in
/// base `base`, with small letters for the digits from ten on.
#[verifier::external_body]
pub(crate) fn in_base(n: isize, base: u8) -> (r: String)
    requires
        2 <= base <= 36,
    ensures
        r@ == written(n as int, base as nat),
{
    radix_fmt::radix(n, base).to_string()
}

/// What `str::to_lowercase` makes of a text.
pub uninterp spec fn lowercase(text: Seq<char>) -> Seq<char>;

/// `str::to_lowercase`: the text in lower case.
#[verifier::external_body]
pub(crate) fn to_lowercase(text: &str) -> (r: String)
    ensures
        r@ == lowercase(text@),
{
    text.to_lowercase()
}

/// The capital of a small ASCII letter; any other character as it is.
pub open spec fn capital(c: char) -> char {
    if 'a' <= c <= 'z' {
        ((c as int - 32) as u8) as char
    } else {
        c
    }
}

/// `s` with its small ASCII letters made capitals.
pub open spec fn capitals(s: Seq<char>) -> Seq<char> {
    Seq::new(s.len(), |i: int| capital(s[i]))
}

/// Makes the small ASCII letters of `s` capitals.
pub fn to_capitals(s: &Vec<char>) -> (r: Vec<char>)
    ensures
        r@ == capitals(s@),
{
    let mut r: Vec<char> = Vec::new();
    let mut i: usize = 0;
    while i < s.len()
        invariant
            i <= s.len(),
            r@.len() == i,
            forall|j: int| 0 <= j < i ==> r@[j] == capital(s@[j]),
        decreases s.len() - i,
    {
        let c = s[i];
        if 'a' <= c && c <= 'z' {
            r.push(((c as u8) - 32) as char);
        } else {
            r.push(c);
        }
        i += 1;
    }
    assert(r@ =~= capitals(s@));
    r
}

/// Whether `c` is one of the letters that are digits in base sixteen.
pub open spec fn is_hex_letter(c: char) -> bool {
    'a' <= c <= 'f'
}

/// The base that a number is written in, and whether that is a guess: what
/// its prefix says, `0b`, `0o` or `0x`; without a prefix sixteen if it holds
/// one of the letters `a` to `f`, else ten.
pub open spec fn number_base(text: Seq<char>) -> (nat, bool) {
    if "0b"@.is_prefix_of(text) {
        (2, false)
    } else if "0o"@.is_prefix_of(text) {
        (8, false)
    } else if "0x"@.is_prefix_of(text) {
        (16, false)
    } else if exists|i: int| 0 <= i < text.len() && is_hex_letter(#[trigger] text[i]) {
        (16, true)
    } else {
        (10, true)
    }
}

/// The part of a number that is read as its digits: all of it in base ten,
/// in any other base what follows its first two characters.
pub open spec fn number_digits(text: Seq<char>) -> Seq<char> {
    if number_base(text).0 == 10 {
        text
    } else if text.len() >= 2 {
        text.skip(2)
    } else {
        Seq::empty()
    }
}

/// What the conversion of a number came to.
#[derive(Debug, PartialEq, Eq)]
pub enum Conversion {
    /// No number was given.
    Missing,
    /// The number could not be read in its base.
    Unreadable { base: u32, assumed: bool },
    /// The number, written in each of the bases two, eight, ten and
    /// sixteen but the one it was given in.
    Converted {
        base: u32,
        assumed: bool,
        binary: Option<String>,
        octal: Option<String>,
        decimal: Option<String>,
        hexadecimal: Option<String>,
    },
}

/// A `Conversion`, with its texts as sequences of characters.
pub ghost enum ConversionView {
    Missing,
    Unreadable { base: nat, assumed: bool },
    Converted {
        base: nat,
        assumed: bool,
        binary: Option<Seq<char>>,
        octal: Option<Seq<char>>,
        decimal: Option<Seq<char>>,
        hexadecimal: Option<Seq<char>>,
    },
}

/// The view of a text that may be missing.
pub open spec fn text_view(text: Option<String>) -> Option<Seq<char>> {
    match text {
        Some(text) => Some(text@),
        None => None,
    }
}

impl View for Conversion {
    type V = ConversionView;

    open spec fn view(&self) -> ConversionView {
        match *self {
            Conversion::Missing => ConversionView::Missing,
            Conversion::Unreadable { base, assumed } => ConversionView::Unreadable {
                base: base as nat,
                assumed,
            },
            Conversion::Converted { base, assumed, binary, octal, decimal, hexadecimal } => {
                ConversionView::Converted {
                    base: base as nat,
                    assumed,
                    binary: text_view(binary),
                    octal: text_view(octal),
                    decimal: text_view(decimal),
                    hexadecimal: text_view(hexadecimal),
                }
            },
        }
    }
}

/// `n` written in base `to`, unless that is the base it was given in.
/// In base sixteen the letters are capitals.
pub open spec fn rendering(n: int, from: nat, to: nat) -> Option<Seq<char>> {
    if from == to {
        None
    } else if to == 16 {
        Some(capitals(written(n, to)))
    } else {
        Some(written(n, to))
    }
}

/// What the conversion of a number in small letters comes to.
pub open spec fn conversion(text: Seq<char>) -> ConversionView {
    let (base, assumed) = number_base(text);
    if text.len() == 0 {
        ConversionView::Missing
    } else {
        match integer(number_digits(text), base) {
            Some(n) if isize::MIN <= n <= isize::MAX => ConversionView::Converted {
                base,
                assumed,
                binary: rendering(n, base, 2),
                octal: rendering(n, base, 8),
                decimal: rendering(n, base, 10),
                hexadecimal: rendering(n, base, 16),
            },
            _ => ConversionView::Unreadable { base, assumed },
        }
    }
}

/// Whether `text` holds one of the letters `a` to `f`.
fn has_hex_letter(text: &Vec<char>) -> (r: bool)
    ensures
        r == exists|i: int| 0 <= i < text@.len() && is_hex_letter(#[trigger] text@[i]),
{
    let mut i: usize = 0;
    while i < text.len()
        invariant
            i <= text.len(),
            forall|j: int| 0 <= j < i ==> !is_hex_letter(#[trigger] text@[j]),
        decreases text.len() - i,
    {
        if 'a' <= text[i] && text[i] <= 'f' {
            return true;
        }
        i += 1;
    }
    false
}

/// `n` written in base `to`, unless that is the base it was given in.
fn render(n: isize, from: u32, to: u8) -> (r: Option<String>)
    requires
        2 <= to <= 36,
    ensures
        text_view(r) == rendering(n as int, from as nat, to as nat),
{
    if from == to as u32 {
        None
    } else if to == 16 {
        let small = in_base(n, to);
        Some(string_of(&to_capitals(&chars_of(small.as_str()))))
    } else {
        Some(in_base(n, to))
    }
}

/// Converts a number, given in small letters, to the bases two, eight, ten
/// and sixteen.
pub fn convert_lowercase(number: &str) -> (r: Conversion)
    ensures
        r@ == conversion(number@),
{
    let text = chars_of(number);
    if text.len() == 0 {
        return Conversion::Missing;
    }
    proof {
        reveal_strlit("0b");
        reveal_strlit("0o");
        reveal_strlit("0x");
    }
    let (base, assumed): (u32, bool) = if starts_with(&text, &chars_of("0b")) {
        (2, false)
    } else if starts_with(&text, &chars_of("0o")) {
        (8, false)
    } else if starts_with(&text, &chars_of("0x")) {
        (16, false)
    } else if has_hex_letter(&text) {
        (16, true)
    } else {
        (10, true)
    };
    let digits = if base == 10 {
        assert(text@.subrange(0, text.len() as int) == text@);
        slice(&text, 0, text.len())
    } else if text.len() >= 2 {
        slice(&text, 2, text.len())
    } else {
        Vec::new()
    };
    match from_str_radix(string_of(&digits).as_str(), base) {
        Some(n) => Conversion::Converted {
            base,
            assumed,
            binary: render(n, base, 2),
            octal: render(n, base, 8),
            decimal: render(n, base, 10),
            hexadecimal: render(n, base, 16),
        },
        None => Conversion::Unreadable { base, assumed },
    }
}

} // verus!
