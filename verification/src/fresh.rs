//! Fresh values that the lobby takes from outside: identifiers, the time
//! and session numbers. Each is a trusted item; nothing here is proved.
use vstd::prelude::*;

verus! {

/// A lower-case hexadecimal digit.
pub open spec fn is_hex_digit(c: char) -> bool {
    ('0' <= c && c <= '9') || ('a' <= c && c <= 'f')
}

/// The text of a random (version 4) UUID in hyphenated lower-case form,
/// such as `67e55044-10b1-426f-9247-bb680e5fe0c8`.
pub open spec fn is_v4_uuid_text(s: Seq<char>) -> bool {
    &&& s.len() == 36
    &&& forall|i: int|
        0 <= i < 36 ==> if i == 8 || i == 13 || i == 18 || i == 23 {
            #[trigger] s[i] == '-'
        } else {
            is_hex_digit(s[i])
        }
    &&& s[14] == '4'
    &&& (s[19] == '8' || s[19] == '9' || s[19] == 'a' || s[19] == 'b')
}

/// A UTC timestamp in RFC 3339 form, such as `2024-05-06T07:08:09.123+00:00`:
/// at least 25 characters, ending in the offset `+00:00`.
pub open spec fn is_utc_rfc3339_text(s: Seq<char>) -> bool {
    &&& s.len() >= 25
    &&& s[s.len() - 6] == '+'
    &&& s[s.len() - 5] == '0'
    &&& s[s.len() - 4] == '0'
    &&& s[s.len() - 3] == ':'
    &&& s[s.len() - 2] == '0'
    &&& s[s.len() - 1] == '0'
}

/// A new random identifier: `uuid::Uuid::new_v4()` written with its
/// `Display` impl. The uuid crate sets the version nibble to 4 and the
/// variant bits to `10`, and writes the 32 hexadecimal digits in lower case
/// in groups of 8, 4, 4, 4 and 12 separated by hyphens; the contract says
/// that of the text. Which identifier comes back is chance and is not
/// stated: two calls may give the same text.
#[verifier::external_body]
pub(crate) fn new_uuid_text() -> (r: String)
    ensures
        is_v4_uuid_text(r@),
{
    uuid::Uuid::new_v4().to_string()
}

/// The current time: `SystemTime::now()` converted to `chrono::DateTime<Utc>`
/// and written with `to_rfc3339`. chrono writes a UTC time as date, `T`,
/// time, optional fraction and the offset `+00:00`; the contract says only
/// that. Which time comes back is not stated.
#[verifier::external_body]
pub(crate) fn iso_date() -> (r: String)
    ensures
        is_utc_rfc3339_text(r@),
{
    let now: chrono::DateTime<chrono::Utc> = std::time::SystemTime::now().into();
    now.to_rfc3339()
}

/// A random session number: `rand::random::<usize>()`, which draws from the
/// thread-local generator. Any number may come back; nothing is stated.
#[verifier::external_body]
pub(crate) fn random_session_id() -> (r: usize) {
    rand::random::<usize>()
}

} // verus!
