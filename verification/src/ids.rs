//! Identifiers and timestamps from outside crates: UUIDs (`uuid`) and the
//! current time (`chrono`). Each function here is trusted.
use vstd::prelude::*;

verus! {

/// Whether `uuid::Uuid::parse_str` accepts the text.
pub uninterp spec fn uuid_accepts(s: Seq<char>) -> bool;

/// `Uuid::parse_str(s).is_ok()`: the answer is named `uuid_accepts`.
#[verifier::external_body]
pub(crate) fn uuid_parses(s: &str) -> (res: bool)
    ensures
        res == uuid_accepts(s@),
{
    uuid::Uuid::parse_str(s).is_ok()
}

/// Whether a character is a lower-case hex digit or a hyphen.
pub open spec fn is_hyphenated_char(c: char) -> bool {
    ('0' <= c && c <= '9') || ('a' <= c && c <= 'f') || c == '-'
}

/// Whether a hyphenated UUID text is marked as version 4 (RFC 4122 variant):
/// a `4` opens its third group and one of `8`, `9`, `a`, `b` its fourth.
pub open spec fn is_v4_text(s: Seq<char>) -> bool {
    &&& s.len() == 36
    &&& s[14] == '4'
    &&& (s[19] == '8' || s[19] == '9' || s[19] == 'a' || s[19] == 'b')
}

/// `Uuid::new_v4().to_string()`: a random UUID. The crate writes it in the
/// hyphenated form (36 characters of lower-case hex digits and hyphens) with
/// the version 4 and RFC 4122 variant bits set, and its parser accepts every
/// form the crate writes. Which UUID comes out is not stated: it is random.
#[verifier::external_body]
pub(crate) fn new_uuid_v4() -> (res: String)
    ensures
        uuid_accepts(res@),
        res@.len() == 36,
        is_v4_text(res@),
        forall|i: int| 0 <= i < res@.len() ==> is_hyphenated_char(#[trigger] res@[i]),
{
    uuid::Uuid::new_v4().to_string()
}

/// Whether a character is a decimal digit.
pub open spec fn is_dec_digit(c: char) -> bool {
    '0' <= c && c <= '9'
}

/// Whether every character of a text is a decimal digit.
pub open spec fn all_dec_digits(s: Seq<char>) -> bool {
    forall|i: int| 0 <= i < s.len() ==> is_dec_digit(#[trigger] s[i])
}

/// The year of a stamp: four digits, or (outside 0 to 9999) a sign and at
/// least four digits.
pub open spec fn year_text(y: Seq<char>) -> bool {
    (y.len() == 4 && all_dec_digits(y)) || (y.len() >= 5 && (y[0] == '+' || y[0] == '-') && all_dec_digits(
        y.skip(1),
    ))
}

/// The part of a stamp after the year: `-MM-DDTHH:MM:SS`.
pub open spec fn clock_text(m: Seq<char>) -> bool {
    &&& m.len() == 15
    &&& m[0] == '-' && m[3] == '-' && m[6] == 'T' && m[9] == ':' && m[12] == ':'
    &&& is_dec_digit(m[1]) && is_dec_digit(m[2]) && is_dec_digit(m[4]) && is_dec_digit(m[5])
    &&& is_dec_digit(m[7]) && is_dec_digit(m[8]) && is_dec_digit(m[10]) && is_dec_digit(m[11])
    &&& is_dec_digit(m[13]) && is_dec_digit(m[14])
}

/// The fraction of a second of a stamp: none, or a dot and 3, 6 or 9 digits.
pub open spec fn fraction_text(f: Seq<char>) -> bool {
    f.len() == 0 || (f[0] == '.' && (f.len() == 4 || f.len() == 7 || f.len() == 10) && all_dec_digits(
        f.skip(1),
    ))
}

/// Whether a text is an RFC 3339 stamp in UTC as chrono writes one:
/// year, `-MM-DDTHH:MM:SS`, an optional fraction, and `+00:00`.
pub open spec fn is_stamp(s: Seq<char>) -> bool {
    exists|y: Seq<char>, m: Seq<char>, f: Seq<char>|
        year_text(y) && clock_text(m) && fraction_text(f) && s == #[trigger] stamp_of(y, m, f)
}

/// A stamp put together from its year, its clock part and its fraction.
pub open spec fn stamp_of(y: Seq<char>, m: Seq<char>, f: Seq<char>) -> Seq<char> {
    y + m + f + "+00:00"@
}

/// `chrono::Utc::now().to_rfc3339()`: the current time as an RFC 3339 stamp
/// in UTC: the year (four digits, or a sign and more outside 0 to 9999),
/// `-MM-DDTHH:MM:SS`, a fraction of 3, 6 or 9 digits where the nanoseconds
/// are not zero, and the offset `+00:00` (chrono's writer, with `Z` not
/// chosen). Which time is not stated: it depends on the clock.
#[verifier::external_body]
pub(crate) fn now_rfc3339() -> (res: String)
    ensures
        is_stamp(res@),
{
    chrono::Utc::now().to_rfc3339()
}

} // verus!
