//! Device identifiers (UUIDs), held as 128-bit integers and rendered or parsed by the `uuid` crate.

use vstd::prelude::*;

verus! {

/// The lowercase hexadecimal digit for `d` (`d < 16`).
pub open spec fn hex_digit(d: nat) -> char {
    if d < 10 {
        crate::text::digit_char(d)
    } else if d == 10 { 'a' } else if d == 11 { 'b' } else if d == 12 { 'c' } else if d == 13 { 'd' }
    else if d == 14 { 'e' } else { 'f' }
}

/// The 32 lowercase hexadecimal digits of `u`, most significant first.
pub open spec fn uuid_hex(u: u128) -> Seq<char> {
    Seq::new(32, |i: int| hex_digit(((u as nat) / vstd::arithmetic::power::pow(16, (31 - i) as nat) as nat) % 16))
}

/// The hyphenated form of a UUID: its hexadecimal digits in groups of 8, 4, 4, 4 and 12,
/// separated by '-'.
pub open spec fn hyphenated(u: u128) -> Seq<char> {
    let h = uuid_hex(u);
    h.subrange(0, 8) + seq!['-'] + h.subrange(8, 12) + seq!['-'] + h.subrange(12, 16) + seq!['-']
        + h.subrange(16, 20) + seq!['-'] + h.subrange(20, 32)
}

/// What `uuid::Uuid::parse_str` accepts, as the 128-bit value it denotes.
pub uninterp spec fn uuid_parse(s: Seq<char>) -> Option<u128>;

/// `uuid::Uuid::from_u128(u).hyphenated().to_string()`: the lowercase hyphenated form.
#[verifier::external_body]
pub(crate) fn uuid_hyphenated(u: u128) -> (s: String)
    ensures
        s@ == hyphenated(u),
{
    uuid::Uuid::from_u128(u).hyphenated().to_string()
}

/// `uuid::Uuid::parse_str`: the UUID a text denotes (hyphenated, simple, braced or URN form).
#[verifier::external_body]
pub(crate) fn parse_uuid(s: &str) -> (r: Option<u128>)
    ensures
        r == uuid_parse(s@),
{
    match uuid::Uuid::parse_str(s) {
        Ok(u) => Some(u.as_u128()),
        Err(_) => None,
    }
}

/// `uuid::Uuid::new_v4`: a random UUID. Whatever value comes back carries version 4 in bits
/// 76..80 and the RFC 4122 variant (binary 10) in bits 62..64.
#[verifier::external_body]
pub(crate) fn random_uuid() -> (u: u128)
    ensures
        (u as nat / 0x1_0000_0000_0000_0000_000) % 16 == 4,
        (u as nat / 0x4000_0000_0000_0000) % 4 == 2,
{
    uuid::Uuid::new_v4().as_u128()
}

} // verus!
