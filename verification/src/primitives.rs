//! Hashing, signature checking and text encodings, as the crates that
//! implement them provide them, and small helpers on byte strings.

use vstd::prelude::*;
use vstd::arithmetic::power2::pow2;
use data_encoding::HEXLOWER;
use num::bigint::Sign;
use num::BigInt;
use ring::signature::ECDSA_P256_SHA256_FIXED;

verus! {

/// The SHA-256 digest of a byte string.
pub uninterp spec fn sha256_digest(data: Seq<u8>) -> Seq<u8>;

/// Whether `signature` is a valid fixed-length ECDSA P-256 / SHA-256 signature
/// of `message` under `public_key`.
pub uninterp spec fn ecdsa_p256_valid(public_key: Seq<u8>, signature: Seq<u8>, message: Seq<u8>) -> bool;

/// The bytes that a Base58 text stands for, where it is one.
pub uninterp spec fn base58_payload(text: Seq<char>) -> Option<Seq<u8>>;

/// Number of bytes in a digest.
pub const DIGEST_LEN: usize = 32;

/// The lowercase hexadecimal digit of a value below sixteen.
pub open spec fn hex_digit(n: int) -> char {
    seq!['0', '1', '2', '3', '4', '5', '6', '7', '8', '9', 'a', 'b', 'c', 'd', 'e', 'f'][n]
}

/// Lowercase hexadecimal text of a byte string: two digits per byte, the high
/// half first.
pub open spec fn hex_text(bytes: Seq<u8>) -> Seq<char> {
    Seq::new(
        2 * bytes.len(),
        |i: int| hex_digit(if i % 2 == 0 { bytes[i / 2] as int / 16 } else { bytes[i / 2] as int % 16 }),
    )
}

/// The number that a byte string denotes, most significant byte first.
pub open spec fn be_value(bytes: Seq<u8>) -> nat
    decreases bytes.len(),
{
    if bytes.len() == 0 {
        0
    } else {
        be_value(bytes.drop_last()) * 256 + bytes.last() as nat
    }
}

/// Calls `sha256::digest` on the bytes and turns the hexadecimal text that it
/// returns back into bytes with `data_encoding::HEXLOWER.decode`. The contract
/// names the result and states that a digest has 32 bytes.
#[verifier::external_body]
pub(crate) fn sha256(data: &[u8]) -> (digest: Vec<u8>)
    ensures
        digest@ == sha256_digest(data@),
        digest@.len() == DIGEST_LEN,
{
    let text = sha256::digest(data);
    match HEXLOWER.decode(text.as_bytes()) {
        Ok(bytes) => bytes,
        Err(_) => Vec::new(),
    }
}

/// Calls `data_encoding::HEXLOWER.encode`: the result is the lowercase
/// hexadecimal text of the input, two digits per byte.
#[verifier::external_body]
pub(crate) fn hex_encode(bytes: &[u8]) -> (text: String)
    ensures
        text@ == hex_text(bytes@),
{
    HEXLOWER.encode(bytes)
}

/// Calls `ring::signature::UnparsedPublicKey::verify` with the algorithm
/// `ECDSA_P256_SHA256_FIXED`. The result depends on the three byte strings
/// alone; the contract names it.
#[verifier::external_body]
pub fn ecdsa_p256_sha256_sign_verify(public_key: &[u8], signature: &[u8], message: &[u8]) -> (valid: bool)
    ensures
        valid == ecdsa_p256_valid(public_key@, signature@, message@),
{
    let peer_public_key = ring::signature::UnparsedPublicKey::new(&ECDSA_P256_SHA256_FIXED, public_key);
    peer_public_key.verify(message, signature).is_ok()
}

/// Calls `bs58::decode(..).into_vec()` with the default alphabet. A text that
/// is no Base58 gives `None`; the contract names the outcome.
#[verifier::external_body]
pub fn base58_decode(data: &str) -> (payload: Option<Vec<u8>>)
    ensures
        payload.is_some() == base58_payload(data@).is_some(),
        payload.is_some() ==> payload.unwrap()@ == base58_payload(data@).unwrap(),
{
    match bs58::decode(data).into_vec() {
        Ok(bytes) => Some(bytes),
        Err(_) => None,
    }
}

/// Builds two `num::BigInt` values, one from the bytes with
/// `BigInt::from_bytes_be` and the power of two by shifting one to the left,
/// and compares them with `<`.
#[verifier::external_body]
pub(crate) fn below_power_of_two(bytes: &[u8], exponent: u32) -> (below: bool)
    ensures
        below == (be_value(bytes@) < pow2(exponent as nat)),
{
    BigInt::from_bytes_be(Sign::Plus, bytes) < (BigInt::from(1) << exponent)
}

/// Calls `uuid::Uuid::new_v4` and returns its sixteen bytes. They are random:
/// only their number is known.
#[verifier::external_body]
pub(crate) fn random_uuid_bytes() -> (bytes: Vec<u8>)
    ensures
        bytes@.len() == 16,
{
    uuid::Uuid::new_v4().as_bytes().to_vec()
}

/// Whether two byte strings are equal.
pub fn bytes_eq(a: &[u8], b: &[u8]) -> (equal: bool)
    ensures
        equal == (a@ == b@),
{
    if a.len() != b.len() {
        return false;
    }
    let mut i: usize = 0;
    while i < a.len()
        invariant
            a@.len() == b@.len(),
            i <= a@.len(),
            forall|k: int| 0 <= k < i ==> a@[k] == b@[k],
        decreases a@.len() - i,
    {
        if a[i] != b[i] {
            return false;
        }
        i += 1;
    }
    assert(a@ =~= b@);
    true
}

/// A copy of a byte string.
pub fn copy_bytes(bytes: &[u8]) -> (copy: Vec<u8>)
    ensures
        copy@ == bytes@,
{
    vstd::slice::slice_to_vec(bytes)
}

} // verus!
