//! Keys and timestamps for new records.

use vstd::prelude::*;

verus! {

/// A lower-case hexadecimal digit.
pub open spec fn is_hex_digit(c: char) -> bool {
    ('0' <= c && c <= '9') || ('a' <= c && c <= 'f')
}

/// The text of a random UUID in hyphenated form, such as
/// `67e55044-10b1-426f-9247-bb680e5fe0c8`: thirty-six characters,
/// hyphens after the eighth, twelfth, sixteenth and twentieth digit,
/// lower-case hexadecimal digits elsewhere, the version digit `4` and a
/// variant digit from `8` to `b`.
pub open spec fn is_random_uuid(s: Seq<char>) -> bool {
    &&& s.len() == 36
    &&& forall|i: int|
        0 <= i < 36 ==> if i == 8 || i == 13 || i == 18 || i == 23 {
            #[trigger] s[i] == '-'
        } else {
            is_hex_digit(s[i])
        }
    &&& s[14] == '4'
    &&& (s[19] == '8' || s[19] == '9' || s[19] == 'a' || s[19] == 'b')
}

/// The characters of `s` from `from` up to `to` are decimal digits.
pub open spec fn are_digits(s: Seq<char>, from: int, to: int) -> bool {
    forall|i: int| from <= i < to ==> '0' <= #[trigger] s[i] && s[i] <= '9'
}

/// `s` is a time in UTC written as RFC 3339 has it, such as
/// `2025-07-21T09:30:00.250+00:00`, where the year ends before `p` and
/// the fraction of the second takes `f` characters with its point. The
/// year has four digits, or a plus sign and five digits or more. The
/// second has no fraction, or one of three, six or nine digits. The
/// offset is always `+00:00`.
pub open spec fn is_utc_timestamp_at(s: Seq<char>, p: int, f: int) -> bool {
    &&& (p == 4 && are_digits(s, 0, 4)) || (p >= 6 && s[0] == '+' && are_digits(s, 1, p))
    &&& f == 0 || f == 4 || f == 7 || f == 10
    &&& s.len() == p + 21 + f
    &&& s[p] == '-' && are_digits(s, p + 1, p + 3)
    &&& s[p + 3] == '-' && are_digits(s, p + 4, p + 6)
    &&& s[p + 6] == 'T' && are_digits(s, p + 7, p + 9)
    &&& s[p + 9] == ':' && are_digits(s, p + 10, p + 12)
    &&& s[p + 12] == ':' && are_digits(s, p + 13, p + 15)
    &&& f > 0 ==> s[p + 15] == '.' && are_digits(s, p + 16, p + 15 + f)
    &&& s.subrange(p + 15 + f, p + 21 + f) == seq!['+', '0', '0', ':', '0', '0']
}

/// `s` is a time in UTC written as RFC 3339 has it.
pub open spec fn is_utc_timestamp(s: Seq<char>) -> bool {
    exists|p: int, f: int| is_utc_timestamp_at(s, p, f)
}

/// A key for a new record. Trusted: the body is `uuid::Uuid::new_v4`
/// followed by the formatting of the result, which `uuid` writes in
/// hyphenated lower-case form with the version and variant bits of a
/// random UUID. Which key comes back is left open: two calls need not
/// agree. `uuid` panics where the system has no source of randomness.
#[verifier::external_body]
pub(crate) fn fresh_id() -> (r: String)
    ensures
        is_random_uuid(r@),
{
    uuid::Uuid::new_v4().to_string()
}

/// The present time in UTC as an RFC 3339 string. Trusted: the body is
/// `chrono::Utc::now` followed by `to_rfc3339`, which writes the date,
/// `T`, the time with as many digits of the second's fraction as it
/// takes in steps of three, and the offset `+00:00`. Which time comes
/// back is left open. `chrono` panics where the system clock is set
/// before 1970.
#[verifier::external_body]
pub(crate) fn now_rfc3339() -> (r: String)
    ensures
        is_utc_timestamp(r@),
{
    chrono::Utc::now().to_rfc3339()
}

} // verus!
