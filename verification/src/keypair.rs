//! The key pair with which the proxy receives shared secrets.

use rand::rngs::OsRng;
use rsa::{Pkcs1v15Encrypt, PublicKeyParts, RsaPrivateKey};
use vstd::prelude::*;

verus! {

#[verifier::external_type_specification]
#[verifier::external_body]
pub struct ExRsaPrivateKey(RsaPrivateKey);

/// The number of bits of the keys that the proxy makes.
pub const KEY_BITS: usize = 1024;

/// The DER form of the public key that is made of the byte strings `modulus`
/// and `exponent`, each the bytes of a number with the most significant first.
pub uninterp spec fn public_key_der(modulus: Seq<u8>, exponent: Seq<u8>) -> Seq<u8>;

/// The weight of the topmost bit, within its byte, of a number of `bits` bits.
pub open spec fn top_bit_weight(bits: int) -> int {
    let place = (bits - 1) % 8;
    if place == 0 {
        1
    } else if place == 1 {
        2
    } else if place == 2 {
        4
    } else if place == 3 {
        8
    } else if place == 4 {
        16
    } else if place == 5 {
        32
    } else if place == 6 {
        64
    } else {
        128
    }
}

/// Whether the number that `bytes` are, most significant byte first and without
/// leading zero bytes, has exactly `bits` bits.
pub open spec fn has_bits(bytes: Seq<u8>, bits: int) -> bool {
    &&& bits > 0
    &&& bytes.len() == (bits + 7) / 8
    &&& top_bit_weight(bits) <= bytes[0] < 2 * top_bit_weight(bits)
}

/// The modulus of `key`, most significant byte first.
pub uninterp spec fn rsa_modulus(key: RsaPrivateKey) -> Seq<u8>;

/// The public exponent of `key`, most significant byte first.
pub uninterp spec fn rsa_exponent(key: RsaPrivateKey) -> Seq<u8>;

/// What `ciphertext` decrypts to under `key` with the padding of PKCS#1 v1.5,
/// `None` where it does not decrypt.
pub uninterp spec fn rsa_decrypted(key: RsaPrivateKey, ciphertext: Seq<u8>) -> Option<Seq<u8>>;

/// Makes a private key of `bits` bits with `RsaPrivateKey::new` on the
/// operating system's random numbers. Which key comes back, and whether one
/// does, is not claimed. Claimed, as the source shows: the making ends only
/// with a modulus of exactly the bits asked for. Sizes below 64 bits, for which
/// the crate first estimates whether there are primes enough, are left out.
#[verifier::external_body]
fn generate_private_key(bits: usize) -> (key: Option<RsaPrivateKey>)
    requires
        bits >= 64,
    ensures
        key matches Some(k) ==> has_bits(rsa_modulus(k), bits as int),
{
    RsaPrivateKey::new(&mut OsRng, bits).ok()
}

/// The modulus of `key`, most significant byte first: `n().to_bytes_be()`.
/// The result is named, not described.
#[verifier::external_body]
fn modulus_bytes(key: &RsaPrivateKey) -> (bytes: Vec<u8>)
    ensures
        bytes@ == rsa_modulus(*key),
{
    key.n().to_bytes_be()
}

/// The public exponent of `key`, most significant byte first:
/// `e().to_bytes_be()`. The result is named, not described.
#[verifier::external_body]
fn exponent_bytes(key: &RsaPrivateKey) -> (bytes: Vec<u8>)
    ensures
        bytes@ == rsa_exponent(*key),
{
    key.e().to_bytes_be()
}

/// Encodes a public key with `rsa_der::public_key_to_der`. The result is named,
/// not described.
#[verifier::external_body]
fn der_of(modulus: &[u8], exponent: &[u8]) -> (der: Vec<u8>)
    ensures
        der@ == public_key_der(modulus@, exponent@),
{
    rsa_der::public_key_to_der(modulus, exponent)
}

/// Decrypts `ciphertext` with `RsaPrivateKey::decrypt` and PKCS#1 v1.5 padding.
/// `None` where the key does not decrypt it. The call hands the key no random
/// numbers, so that what comes back depends on the key and the ciphertext
/// alone. It is named, not described.
#[verifier::external_body]
fn rsa_decrypt(key: &RsaPrivateKey, ciphertext: &[u8]) -> (plain: Option<Vec<u8>>)
    ensures
        plain matches Some(p) ==> rsa_decrypted(*key, ciphertext@) == Some(p@),
        plain is None ==> rsa_decrypted(*key, ciphertext@) is None,
{
    key.decrypt(Pkcs1v15Encrypt, ciphertext).ok()
}

/// A private key and the DER form of its public key.
#[derive(Debug)]
pub struct KeyPair {
    pub private_key: RsaPrivateKey,
    pub public_key: Vec<u8>,
}

impl KeyPair {
    /// Whether the public key is the DER form of the private key's modulus and
    /// exponent.
    pub open spec fn matched(&self) -> bool {
        self.public_key@ == public_key_der(
            rsa_modulus(self.private_key),
            rsa_exponent(self.private_key),
        )
    }

    /// Makes a key pair of what the making of a private key gave: `None` where
    /// no key was made, else the pair of that key, whose public key is the DER
    /// form of the key's modulus and exponent.
    pub fn from_generated(generated: Option<RsaPrivateKey>) -> (pair: Option<KeyPair>)
        ensures
            match generated {
                Some(key) => pair matches Some(p) && p.private_key == key && p.matched(),
                None => pair is None,
            },
    {
        match generated {
            None => None,
            Some(private_key) => {
                let modulus = modulus_bytes(&private_key);
                let exponent = exponent_bytes(&private_key);
                let public_key = der_of(modulus.as_slice(), exponent.as_slice());
                Some(KeyPair { private_key, public_key })
            },
        }
    }

    /// Whether the modulus of the private key has exactly `KEY_BITS` bits: it
    /// fills `KEY_BITS / 8` bytes and the top bit of the first is set.
    pub open spec fn sized(&self) -> bool {
        has_bits(rsa_modulus(self.private_key), KEY_BITS as int)
    }

    /// Makes a key pair of `KEY_BITS` bits. `None` where no key could be made.
    /// The modulus of the private key has exactly `KEY_BITS` bits, and the
    /// public key is the DER form of the private key's modulus and exponent.
    pub fn new() -> (pair: Option<KeyPair>)
        ensures
            pair matches Some(p) ==> p.matched() && p.sized() && rsa_modulus(p.private_key).len()
                == KEY_BITS / 8,
    {
        KeyPair::from_generated(generate_private_key(KEY_BITS))
    }

    /// Decrypts what a client encrypted under the public key. `None` where it
    /// cannot be decrypted.
    pub(crate) fn decrypt(&self, ciphertext: &[u8]) -> (plain: Option<Vec<u8>>)
        ensures
            plain matches Some(p) ==> rsa_decrypted(self.private_key, ciphertext@) == Some(p@),
            plain is None ==> rsa_decrypted(self.private_key, ciphertext@) is None,
    {
        rsa_decrypt(&self.private_key, ciphertext)
    }
}

} // verus!
