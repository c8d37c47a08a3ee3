//! Calls into std and outside crates whose results Verus cannot compute.
//!
//! Each item states only what the called function's documentation or source
//! shows; everything built on top of them is verified.

use vstd::prelude::*;
use vstd::utf8::*;

verus! {

/// The SHA-1 digest of a byte sequence, as computed by the `sha1` crate.
pub uninterp spec fn sha1_digest_of(data: Seq<u8>) -> Seq<u8>;

/// Computes SHA-1 over `data` with `sha1::Sha1` (`Digest::digest`).
/// Claimed: the result is the digest of exactly these bytes (a pure function
/// of them) and has the 20 bytes of `Sha1`'s `OutputSize` (`U20`).
#[verifier::external_body]
pub fn sha1_digest(data: &[u8]) -> (r: Vec<u8>)
    ensures
        r@ == sha1_digest_of(data@),
        r@.len() == 20,
{
    <sha1::Sha1 as sha1::Digest>::digest(data).to_vec()
}

/// Fills `dest` with bytes from the operating system's random source through
/// `getrandom::getrandom`. Claimed: the length of `dest` is unchanged. Which
/// bytes arrive, and whether the call fails, is left open.
#[verifier::external_body]
pub fn fill_random(dest: &mut Vec<u8>) -> (r: Result<(), getrandom::Error>)
    ensures
        final(dest)@.len() == old(dest)@.len(),
{
    getrandom::getrandom(dest.as_mut_slice())
}

/// Builds a `String` from bytes that are valid UTF-8 (`String::from_utf8`).
/// Claimed: the characters are the UTF-8 decoding of the bytes.
#[verifier::external_body]
pub fn string_from_utf8(bytes: Vec<u8>) -> (s: String)
    requires
        valid_utf8(bytes@),
    ensures
        s@ == decode_utf8(bytes@),
{
    match String::from_utf8(bytes) {
        Ok(s) => s,
        Err(_) => String::new(),
    }
}

/// `getrandom::Error`, the failure of the operating system's random source.
#[verifier::external_type_specification]
#[verifier::external_body]
pub struct ExGetrandomError(getrandom::Error);

} // verus!
