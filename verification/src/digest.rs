//! Hashes and what is derived from them: the digest by which the session
//! server knows a login, and the identifier of a player who logs in offline.

use crate::text::signed_hex;
use num::BigInt;
use sha1::{Digest, Sha1};
use sha2::Sha256;
use vstd::prelude::*;
use vstd::utf8::encode_utf8;

verus! {

/// The SHA-1 hash of `data`: twenty bytes.
pub uninterp spec fn sha1_hash(data: Seq<u8>) -> Seq<u8>;

/// The SHA-256 hash of `data`: thirty-two bytes.
pub uninterp spec fn sha256_hash(data: Seq<u8>) -> Seq<u8>;

/// The number that `bytes` stand for when they are read as one unsigned number
/// in base 256, most significant byte first.
pub open spec fn be_value(bytes: Seq<u8>) -> int
    decreases bytes.len(),
{
    if bytes.len() == 0 {
        0
    } else {
        be_value(bytes.drop_last()) * 256 + bytes.last()
    }
}

/// 256 to the power `exponent`.
pub open spec fn pow256(exponent: nat) -> int
    decreases exponent,
{
    if exponent == 0 {
        1
    } else {
        256 * pow256((exponent - 1) as nat)
    }
}

/// The number that `bytes` stand for in two's complement, most significant
/// byte first: negative where the top bit of the first byte is set.
pub open spec fn twos_complement_value(bytes: Seq<u8>) -> int {
    if bytes.len() > 0 && bytes[0] >= 128 {
        be_value(bytes) - pow256(bytes.len())
    } else {
        be_value(bytes)
    }
}

/// The digest of a login: the SHA-1 hash of the server's identifier, the shared
/// secret and the server's public key, read as a number in two's complement
/// and written in hexadecimal with its sign.
pub open spec fn session_digest_of(
    server_id: Seq<u8>,
    shared_secret: Seq<u8>,
    public_key: Seq<u8>,
) -> Seq<char> {
    signed_hex(twos_complement_value(sha1_hash(server_id + shared_secret + public_key)))
}

/// The identifier of a player who logs in offline as `username`: the first
/// sixteen bytes of the SHA-256 hash of the name in UTF-8.
pub open spec fn offline_uuid_of(username: Seq<char>) -> int {
    be_value(sha256_hash(encode_utf8(username)).take(16))
}

/// Hashes `data` with `sha1::Sha1::digest`. The result is named, not described.
#[verifier::external_body]
fn sha1(data: &[u8]) -> (hash: [u8; 20])
    ensures
        hash@ == sha1_hash(data@),
{
    Sha1::digest(data).into()
}

/// Hashes `data` with `sha2::Sha256::digest`. The result is named, not
/// described.
#[verifier::external_body]
fn sha256(data: &[u8]) -> (hash: [u8; 32])
    ensures
        hash@ == sha256_hash(data@),
{
    Sha256::digest(data).into()
}

/// Reads `bytes` with `num::BigInt::from_signed_bytes_be` and writes the number
/// with `to_str_radix(16)`. Claimed, as the two are documented: the bytes are
/// read in two's complement, most significant first, and the number is written
/// in lower-case hexadecimal without leading zeros, behind a minus sign where
/// it is negative.
#[verifier::external_body]
fn signed_hex_string(bytes: &[u8]) -> (hex: String)
    ensures
        hex@ == signed_hex(twos_complement_value(bytes@)),
{
    BigInt::from_signed_bytes_be(bytes).to_str_radix(16)
}

/// The digest by which the session server knows a login.
pub fn session_digest(server_id: &[u8], shared_secret: &[u8], public_key: &[u8]) -> (digest: String)
    ensures
        digest@ == session_digest_of(server_id@, shared_secret@, public_key@),
{
    let mut input: Vec<u8> = Vec::new();
    input.extend_from_slice(server_id);
    input.extend_from_slice(shared_secret);
    input.extend_from_slice(public_key);
    assert(input@ =~= server_id@ + shared_secret@ + public_key@);
    let hash = sha1(input.as_slice());
    signed_hex_string(hash.as_slice())
}

/// The number that the first `count` bytes of `bytes` stand for.
fn be_number(bytes: &[u8], count: usize) -> (value: u128)
    requires
        count <= 16,
        count <= bytes@.len(),
    ensures
        value == be_value(bytes@.take(count as int)),
{
    let mut value: u128 = 0;
    let mut i: usize = 0;
    assert(bytes@.take(0) =~= Seq::<u8>::empty());
    while i < count
        invariant
            i <= count <= 16,
            count <= bytes@.len(),
            value == be_value(bytes@.take(i as int)),
            value < pow256(i as nat),
        decreases count - i,
    {
        proof {
            lemma_pow256_bound(i as nat);
            assert(bytes@.take(i + 1).drop_last() =~= bytes@.take(i as int));
            assert(bytes@.take(i + 1).last() == bytes@[i as int]);
        }
        value = value * 256 + bytes[i] as u128;
        i = i + 1;
    }
    value
}

/// Powers of 256 up to the sixteenth stay within 128 bits.
proof fn lemma_pow256_bound(exponent: nat)
    requires
        exponent < 16,
    ensures
        0 < pow256(exponent) <= 0x100_0000_0000_0000_0000_0000_0000_0000,
        pow256(exponent + 1) == 256 * pow256(exponent),
    decreases exponent,
{
    reveal_with_fuel(pow256, 17);
}

/// The identifier of a player who logs in offline as `username`.
pub fn offline_uuid(username: &str) -> (uuid: u128)
    ensures
        uuid == offline_uuid_of(username@),
{
    let hash = sha256(username.as_bytes());
    be_number(hash.as_slice(), 16)
}

} // verus!
