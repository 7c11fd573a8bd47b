//! Content fingerprints: SHA-256 truncated to 160 bits, base-32 encoded in
//! lower case. The digest itself is named, not restated; everything else
//! about keys is proved over those names.
use vstd::prelude::*;

use data_encoding::BASE32_NOPAD;
use sha2::{Digest, Sha256};

verus! {

/// A printable content fingerprint; equality is exact string equality.
#[derive(Debug, Clone, PartialEq, Eq)]
pub struct Hash(pub String);

pub uninterp spec fn digest_of_bytes(b: Seq<u8>) -> Seq<char>;

pub uninterp spec fn digest_of_chars(s: Seq<char>) -> Seq<char>;

/// Relies on sha2's `Sha256` and data_encoding's `BASE32_NOPAD`: the hash of
/// the input bytes, truncated to 20 bytes and encoded as 32 lower-case
/// base-32 characters, is a function of the input bytes alone.
#[verifier::external_body]
fn sha256_base32_of_bytes(b: &Vec<u8>) -> (r: String)
    ensures
        r@ == digest_of_bytes(b@),
        r@.len() == 32,
{
    let mut generator = Sha256::new();
    generator.update(b.as_slice());
    let raw_hash = generator.finalize();
    BASE32_NOPAD.encode(&raw_hash[..20]).to_lowercase()
}

/// Relies on sha2's `Sha256` and data_encoding's `BASE32_NOPAD`, applied to
/// the UTF-8 bytes of the input: the 32-character encoded digest is a
/// function of the input characters alone.
#[verifier::external_body]
fn sha256_base32_of_str(s: &str) -> (r: String)
    ensures
        r@ == digest_of_chars(s@),
        r@.len() == 32,
{
    let mut generator = Sha256::new();
    generator.update(s.as_bytes());
    let raw_hash = generator.finalize();
    BASE32_NOPAD.encode(&raw_hash[..20]).to_lowercase()
}

/// Fingerprint of raw bytes, e.g. lockfile contents.
pub fn generate_hash_bytes(bytes: &Vec<u8>) -> (r: Hash)
    ensures
        r.0@ == digest_of_bytes(bytes@),
        r.0@.len() == 32,
{
    Hash(sha256_base32_of_bytes(bytes))
}

/// Fingerprint of a text document, e.g. the canonical fingerprint
/// serialization.
pub fn generate_hash_str(s: &str) -> (r: Hash)
    ensures
        r.0@ == digest_of_chars(s@),
        r.0@.len() == 32,
{
    Hash(sha256_base32_of_str(s))
}

} // verus!
