//! Number parsing done by outside code: `parse_int::parse` for the assembler's
//! numbers, `str::parse::<u16>` for the tokenizer, and `str::to_lowercase`.
use vstd::prelude::*;

verus! {

/// Why a string did not parse as an integer, after `std::num::IntErrorKind`.
#[derive(Debug, Clone, Copy, PartialEq, Eq, Structural)]
pub enum IntErrorKind {
    Empty,
    InvalidDigit,
    PosOverflow,
    NegOverflow,
    Zero,
    Other,
}

/// Whether `s`, with white space trimmed, begins with `-`.
pub open spec fn leading_minus(s: Seq<char>) -> bool {
    let t = crate::text::trim(s, 0, s.len() as int);
    t.0 < t.1 && s[t.0] == '-'
}

/// Whether the text `s[a..b]` begins with `-` once trimmed.
pub fn leading_minus_in(s: &Vec<char>, a: usize, b: usize) -> (r: bool)
    requires
        a <= b <= s@.len(),
    ensures
        r == leading_minus(s@.subrange(a as int, b as int)),
{
    let (ta, te) = crate::text::trim_range(s, a, b);
    proof {
        crate::text::lemma_trim_shift(s@, a as int, b as int);
    }
    ta < te && s[ta] == '-'
}

/// What `parse_int::parse::<u16>` returns for a string.
pub uninterp spec fn parse_int_u16(s: Seq<char>) -> Result<u16, IntErrorKind>;

/// Whether `s` is one or more ASCII digits and nothing else.
pub open spec fn is_plain_decimal(s: Seq<char>) -> bool {
    s.len() > 0 && forall|i: int| 0 <= i < s.len() ==> '0' <= #[trigger] s[i] <= '9'
}

/// The value of hexadecimal digit `c`, if it is one.
pub open spec fn hex_digit(c: char) -> Option<nat> {
    if '0' <= c <= '9' {
        Some((c as u32 - '0' as u32) as nat)
    } else if 'a' <= c <= 'f' {
        Some((c as u32 - 'a' as u32 + 10) as nat)
    } else if 'A' <= c <= 'F' {
        Some((c as u32 - 'A' as u32 + 10) as nat)
    } else {
        None
    }
}

/// Whether `s` is `0x` or `0X` and then one or more hexadecimal digits.
pub open spec fn is_hex_numeral(s: Seq<char>) -> bool {
    &&& s.len() > 2
    &&& s[0] == '0'
    &&& (s[1] == 'x' || s[1] == 'X')
    &&& forall|i: int| 2 <= i < s.len() ==> #[trigger] hex_digit(s[i]) is Some
}

/// The value of a run of hexadecimal digits.
pub open spec fn hex_value(d: Seq<char>) -> nat
    decreases d.len(),
{
    if d.len() == 0 {
        0
    } else {
        hex_value(d.drop_last()) * 16 + match hex_digit(d.last()) {
            Some(v) => v,
            None => 0,
        }
    }
}

/// What the assembler's numbers read as: a plain decimal numeral, and `0x`
/// followed by hexadecimal digits, read as their value, or as `PosOverflow`
/// above 65535; the empty text as `Empty`; any other text as what
/// `parse_int::parse::<u16>` returns for it.
pub open spec fn parsed_number(s: Seq<char>) -> Result<u16, IntErrorKind> {
    if is_plain_decimal(s) {
        if digits_value(s) <= 65535 {
            Ok(digits_value(s) as u16)
        } else {
            Err(IntErrorKind::PosOverflow)
        }
    } else if is_hex_numeral(s) {
        if hex_value(s.subrange(2, s.len() as int)) <= 65535 {
            Ok(hex_value(s.subrange(2, s.len() as int)) as u16)
        } else {
            Err(IntErrorKind::PosOverflow)
        }
    } else if s.len() == 0 {
        Err(IntErrorKind::Empty)
    } else {
        parse_int_u16(s)
    }
}

/// Calls `parse_int::parse::<u16>`, which trims the string, reads an optional
/// `0x`, `0b` or `0o` prefix, drops `_` and parses the rest in that base with
/// `u16::from_str_radix` (the crate's `implicit-octal` feature, which would
/// read a leading `0` as octal, is off). The contract states the result for
/// plain decimal numerals (base 10) and for `0x` or `0X` followed by
/// hexadecimal digits (base 16): the value, or `PosOverflow` past 65535; and
/// for the empty string (`Empty`). It names the result for any other string
/// (binary and octal prefixes, `_`, white space, signs).
/// Strings that begin with `-` after trimming are left out: on those the crate
/// negates an unsigned number, which panics when overflow checks are on.
#[verifier::external_body]
pub(crate) fn parse_prefixed_u16(s: &str) -> (r: Result<u16, IntErrorKind>)
    requires
        !leading_minus(s@),
    ensures
        r == parsed_number(s@),
        !is_plain_decimal(s@) && !is_hex_numeral(s@) && s@.len() > 0 ==> r == parse_int_u16(s@),
{
    match parse_int::parse::<u16>(s) {
        Ok(v) => Ok(v),
        Err(e) => Err(match e.kind() {
            std::num::IntErrorKind::Empty => IntErrorKind::Empty,
            std::num::IntErrorKind::InvalidDigit => IntErrorKind::InvalidDigit,
            std::num::IntErrorKind::PosOverflow => IntErrorKind::PosOverflow,
            std::num::IntErrorKind::NegOverflow => IntErrorKind::NegOverflow,
            std::num::IntErrorKind::Zero => IntErrorKind::Zero,
            _ => IntErrorKind::Other,
        }),
    }
}

/// Whether `s` is the decimal numeral that `u16::from_str` accepts: an
/// optional `+` and then one or more ASCII digits.
pub open spec fn is_decimal_numeral(s: Seq<char>) -> bool {
    let d = if s.len() > 0 && s[0] == '+' {
        s.drop_first()
    } else {
        s
    };
    d.len() > 0 && forall|i: int| 0 <= i < d.len() ==> '0' <= #[trigger] d[i] <= '9'
}

/// The value of a run of ASCII digits.
pub open spec fn digits_value(d: Seq<char>) -> nat
    decreases d.len(),
{
    if d.len() == 0 {
        0
    } else {
        digits_value(d.drop_last()) * 10 + ((d.last() as u32 - '0' as u32) as nat)
    }
}

pub open spec fn numeral_value(s: Seq<char>) -> nat {
    if s.len() > 0 && s[0] == '+' {
        digits_value(s.drop_first())
    } else {
        digits_value(s)
    }
}

/// Calls `str::parse::<u16>`. Its documentation says that it reads an optional
/// sign and decimal digits, that it fails on an empty string (`Empty`), on any
/// other character (`InvalidDigit`) and on a value above `u16::MAX`
/// (`PosOverflow`). The contract says that it succeeds exactly on the decimal
/// numerals whose value fits, with that value; which error kind comes on the
/// other strings is not stated.
#[verifier::external_body]
pub(crate) fn parse_decimal_u16(s: &str) -> (r: Result<u16, IntErrorKind>)
    ensures
        r.is_ok() == (is_decimal_numeral(s@) && numeral_value(s@) <= u16::MAX),
        r.is_ok() ==> r.unwrap() == numeral_value(s@),
        s@.len() == 0 ==> r.is_err() && r.unwrap_err() == IntErrorKind::Empty,
{
    match s.parse::<u16>() {
        Ok(v) => Ok(v),
        Err(e) => Err(match e.kind() {
            std::num::IntErrorKind::Empty => IntErrorKind::Empty,
            std::num::IntErrorKind::InvalidDigit => IntErrorKind::InvalidDigit,
            std::num::IntErrorKind::PosOverflow => IntErrorKind::PosOverflow,
            std::num::IntErrorKind::NegOverflow => IntErrorKind::NegOverflow,
            std::num::IntErrorKind::Zero => IntErrorKind::Zero,
            _ => IntErrorKind::Other,
        }),
    }
}

/// What `str::to_lowercase` returns for a string.
pub uninterp spec fn lowercase(s: Seq<char>) -> Seq<char>;

/// Whether every character of `s` is ASCII.
pub open spec fn all_ascii(s: Seq<char>) -> bool {
    forall|i: int| 0 <= i < s.len() ==> (#[trigger] s[i] as u32) < 128
}

/// `s` with each ASCII capital letter replaced by its small letter.
pub open spec fn ascii_lower(s: Seq<char>) -> Seq<char> {
    s.map_values(
        |c: char|
            if 'A' <= c <= 'Z' {
                (c as u32 + 32) as char
            } else {
                c
            },
    )
}

/// What `str::to_lowercase` gives for `s`: for all-ASCII text each capital
/// letter replaced by its small letter, and otherwise what the name says.
pub open spec fn lowered(s: Seq<char>) -> Seq<char> {
    if all_ascii(s) {
        ascii_lower(s)
    } else {
        lowercase(s)
    }
}

/// Calls `str::to_lowercase`, which maps each character to its lowercase form
/// after Unicode's `Lowercase` property. The contract names the result, and
/// states it for all-ASCII text, where each capital letter becomes its small
/// letter and every other character stays; outside ASCII (where a character
/// may become several) it is only named.
#[verifier::external_body]
pub(crate) fn to_lowercase(s: &str) -> (r: String)
    ensures
        r@ == lowercase(s@),
        all_ascii(s@) ==> r@ == ascii_lower(s@),
{
    s.to_lowercase()
}

} // verus!
