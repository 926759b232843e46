//! Identifiers: UUIDs, held as their 128-bit value.
//!
//! Formatting and parsing are the `uuid` crate's.

use uuid::Uuid;
use vstd::prelude::*;

use crate::clock::string_result;
use crate::text::{chars_of, slice_vec, string_of};

verus! {

/// Lowercase hexadecimal digit of `n < 16`.
pub open spec fn hex_digit(n: int) -> char {
    if n < 10 {
        (48 + n) as char
    } else {
        (87 + n) as char
    }
}

/// The last `n` hexadecimal digits of `v`, most significant first.
pub open spec fn hex_digits(v: nat, n: nat) -> Seq<char>
    decreases n,
{
    if n == 0 {
        Seq::empty()
    } else {
        hex_digits(v / 16, (n - 1) as nat).push(hex_digit((v % 16) as int))
    }
}

/// Simple form: 32 lowercase hexadecimal digits.
pub open spec fn uuid_simple(id: u128) -> Seq<char> {
    hex_digits(id as nat, 32)
}

/// Hyphenated form: `8-4-4-4-12` lowercase hexadecimal digits.
pub open spec fn uuid_hyphenated(id: u128) -> Seq<char> {
    let h = uuid_simple(id);
    h.subrange(0, 8) + seq!['-'] + h.subrange(8, 12) + seq!['-'] + h.subrange(12, 16) + seq!['-']
        + h.subrange(16, 20) + seq!['-'] + h.subrange(20, 32)
}

/// First eight characters of the simple form.
pub open spec fn short_id_of(id: u128) -> Seq<char> {
    uuid_simple(id).subrange(0, 8)
}

/// What `Uuid::parse_str` gives: the value, or the `Display` text of the error.
pub uninterp spec fn uuid_parse_str(s: Seq<char>) -> Result<u128, Seq<char>>;

/// Whether `Uuid::parse_str` reads `s` as `id`.
pub open spec fn reads_as(s: Seq<char>, id: u128) -> bool {
    uuid_parse_str(s) == Ok::<u128, Seq<char>>(id)
}

pub proof fn lemma_hex_digits_len(v: nat, n: nat)
    ensures
        hex_digits(v, n).len() == n,
    decreases n,
{
    if n > 0 {
        lemma_hex_digits_len(v / 16, (n - 1) as nat);
    }
}

/// `Uuid::hyphenated().to_string()`: the hyphenated form of the value's
/// big-endian bytes, which `Uuid::parse_str` reads back as the same value.
#[verifier::external_body]
fn hyphenated_text(id: u128) -> (r: String)
    ensures
        r@ == uuid_hyphenated(id),
        reads_as(r@, id),
{
    Uuid::from_u128(id).hyphenated().to_string()
}

/// `Uuid::simple().to_string()`.
#[verifier::external_body]
fn simple_text(id: u128) -> (r: String)
    ensures
        r@ == uuid_simple(id),
{
    Uuid::from_u128(id).simple().to_string()
}

/// `Uuid::parse_str`, as the 128-bit value.
#[verifier::external_body]
fn uuid_from_str(s: &str) -> (r: Result<u128, String>)
    ensures
        string_result(r) == uuid_parse_str(s@),
{
    match Uuid::parse_str(s) {
        Ok(u) => Ok(u.as_u128()),
        Err(e) => Err(e.to_string()),
    }
}

/// A version 4, RFC 4122 variant UUID: version nibble 4, variant bits `10`.
pub open spec fn is_v4(id: u128) -> bool {
    (id >> 76u32) & 0xfu128 == 4u128 && (id >> 62u32) & 0x3u128 == 2u128
}

/// `Uuid::new_v4`: a random UUID. Its other bits are random; `new_v4`
/// masks in the version and variant bits.
#[verifier::external_body]
fn random_uuid() -> (r: u128)
    ensures
        is_v4(r),
{
    Uuid::new_v4().as_u128()
}

/// The hyphenated form of `id`.
pub fn hyphenated(id: u128) -> (r: String)
    ensures
        r@ == uuid_hyphenated(id),
        reads_as(r@, id),
{
    hyphenated_text(id)
}

/// Reads a UUID; the error is the `uuid` crate's message.
pub fn parse_uuid(s: &str) -> (r: Result<u128, String>)
    ensures
        string_result(r) == uuid_parse_str(s@),
{
    uuid_from_str(s)
}

/// A new random (version 4) UUID.
pub fn new_uuid() -> (r: u128)
    ensures
        is_v4(r),
{
    random_uuid()
}

/// First 8 characters of the UUID in simple (hyphen-less, lowercase hex)
/// form. Full UUIDs are kept internally; the short form is only for display
/// and file names.
pub fn short_id(id: u128) -> (r: String)
    ensures
        r@ == short_id_of(id),
{
    let s = simple_text(id);
    let v = chars_of(s.as_str());
    proof {
        lemma_hex_digits_len(id as nat, 32);
    }
    string_of(&slice_vec(&v, 0, 8))
}

} // verus!
