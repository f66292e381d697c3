//! The few values this library takes from outside crates: random identifier
//! material, a v4 UUID, the clock, and MD5 digests for SIP digest
//! authentication.  Each wrapper's contract states only what the callee's
//! source shows of every outcome.

use md5::{Digest, Md5};
use vstd::prelude::*;

verus! {

/// An ASCII letter or digit.
pub open spec fn is_alnum_char(c: char) -> bool {
    ('a' <= c && c <= 'z') || ('A' <= c && c <= 'Z') || ('0' <= c && c <= '9')
}

pub open spec fn all_alnum(s: Seq<char>) -> bool {
    forall|j: int| 0 <= j < s.len() ==> is_alnum_char(#[trigger] s[j])
}

/// Relies on rand's `Alphanumeric` distribution: every sampled byte is one
/// of the 62 ASCII letters and digits, and `take(len)` yields `len` of them.
#[verifier::external_body]
pub(crate) fn rand_alnum_chars(len: usize) -> (r: Vec<char>)
    ensures
        r@.len() == len,
        all_alnum(r@),
{
    rand::Rng::sample_iter(rand::rng(), rand::distr::Alphanumeric)
        .take(len)
        .map(char::from)
        .collect()
}

/// Relies on uuid's `Uuid::new_v4` and its hyphenated `Display` form:
/// 36 characters, each a lowercase hex digit or `-`.
#[verifier::external_body]
pub(crate) fn new_uuid_chars() -> (r: Vec<char>)
    ensures
        r@.len() == 36,
        forall|j: int|
            0 <= j < r@.len() ==> (is_alnum_char(#[trigger] r@[j]) || r@[j] == '-'),
{
    uuid::Uuid::new_v4().to_string().chars().collect()
}

/// Relies on `std::time::SystemTime`: milliseconds since the Unix epoch, or
/// zero on a clock before it.  Nothing is promised of the value.
#[verifier::external_body]
pub(crate) fn ms_since_epoch() -> (r: u64)
{
    std::time::SystemTime::now()
        .duration_since(std::time::UNIX_EPOCH)
        .map(|d| d.as_millis() as u64)
        .unwrap_or(0)
}

/// Relies on `std::time::SystemTime`: microseconds since the Unix epoch, or
/// zero on a clock before it.  Nothing is promised of the value.
#[verifier::external_body]
pub(crate) fn micros_since_epoch() -> (r: u64)
{
    std::time::SystemTime::now()
        .duration_since(std::time::UNIX_EPOCH)
        .map(|d| d.as_micros() as u64)
        .unwrap_or(0)
}

/// The MD5 digest of a character sequence's UTF-8 bytes, as 32 lowercase
/// hex characters.  A function of its input alone.
pub uninterp spec fn md5_hex(s: Seq<char>) -> Seq<char>;

/// Relies on the md-5 crate's `Md5` digest and `{:x}` formatting: the
/// digest of the input alone, 16 bytes printed as 32 lowercase hex
/// characters (so letters and digits only).
#[verifier::external_body]
pub(crate) fn md5_hex_chars(s: &Vec<char>) -> (r: Vec<char>)
    ensures
        r@ == md5_hex(s@),
        r@.len() == 32,
        all_alnum(r@),
{
    let text: String = s.iter().collect();
    let mut hasher = Md5::new();
    hasher.update(text.as_bytes());
    format!("{:x}", hasher.finalize()).chars().collect()
}

} // verus!
