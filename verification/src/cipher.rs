//! The stream cipher of an encrypted connection: AES-128 in 8-bit cipher
//! feedback mode.
//!
//! The cipher keeps a register of sixteen bytes. For each byte it encrypts the
//! register with AES, combines the first byte of that block with the data byte,
//! and shifts the ciphertext byte into the register. The feedback mode is
//! written and proved here; the block cipher itself is the `aes` crate's.

use aes::cipher::generic_array::GenericArray;
use aes::{Aes128, BlockEncrypt, NewBlockCipher};
use vstd::prelude::*;

verus! {

/// The block that AES-128 makes of `block` under `key`, both sixteen bytes.
pub uninterp spec fn aes128_block(key: Seq<u8>, block: Seq<u8>) -> Seq<u8>;

/// The byte that is combined with the next data byte.
pub open spec fn keystream(key: Seq<u8>, register: Seq<u8>) -> u8 {
    aes128_block(key, register)[0]
}

/// The register after `byte` of ciphertext has been shifted into it.
pub open spec fn shifted(register: Seq<u8>, byte: u8) -> Seq<u8> {
    register.skip(1).push(byte)
}

/// The ciphertext of `plain` when the register starts as `register`.
pub open spec fn encrypted(key: Seq<u8>, register: Seq<u8>, plain: Seq<u8>) -> Seq<u8>
    decreases plain.len(),
{
    if plain.len() == 0 {
        Seq::empty()
    } else {
        let c = plain[0] ^ keystream(key, register);
        seq![c] + encrypted(key, shifted(register, c), plain.skip(1))
    }
}

/// The plaintext of `ciphertext` when the register starts as `register`.
pub open spec fn decrypted(key: Seq<u8>, register: Seq<u8>, ciphertext: Seq<u8>) -> Seq<u8>
    decreases ciphertext.len(),
{
    if ciphertext.len() == 0 {
        Seq::empty()
    } else {
        seq![ciphertext[0] ^ keystream(key, register)] + decrypted(
            key,
            shifted(register, ciphertext[0]),
            ciphertext.skip(1),
        )
    }
}

/// The register after all of `ciphertext` has passed through it.
pub open spec fn register_after(register: Seq<u8>, ciphertext: Seq<u8>) -> Seq<u8>
    decreases ciphertext.len(),
{
    if ciphertext.len() == 0 {
        register
    } else {
        register_after(shifted(register, ciphertext[0]), ciphertext.skip(1))
    }
}

/// What a cipher is, as plain values.
pub struct CipherState {
    pub key: Seq<u8>,
    pub register: Seq<u8>,
}

/// One direction of an encrypted stream.
#[derive(Clone, Copy, Debug)]
pub struct Cipher {
    key: [u8; 16],
    register: [u8; 16],
}

impl View for Cipher {
    type V = CipherState;

    closed spec fn view(&self) -> CipherState {
        CipherState { key: self.key@, register: self.register@ }
    }
}

/// Encrypts one block with AES-128: `Aes128::new` on the key, then
/// `encrypt_block`. The result is the block that AES-128 makes of `block` under
/// `key`; nothing more is claimed of it.
#[verifier::external_body]
fn aes128_encrypt_block(key: &[u8; 16], block: &[u8; 16]) -> (out: [u8; 16])
    ensures
        out@ == aes128_block(key@, block@),
{
    let cipher = Aes128::new(GenericArray::from_slice(key));
    let mut buffer = GenericArray::clone_from_slice(block);
    cipher.encrypt_block(&mut buffer);
    buffer.into()
}

impl Cipher {
    /// A cipher whose key and whose first register are both `key`.
    pub fn new(key: &[u8; 16]) -> (cipher: Cipher)
        ensures
            cipher@.key == key@,
            cipher@.register == key@,
    {
        Cipher { key: *key, register: *key }
    }

    fn shift_in(&mut self, byte: u8)
        ensures
            final(self)@.key == old(self)@.key,
            final(self)@.register == shifted(old(self)@.register, byte),
    {
        let mut next: [u8; 16] = [0u8; 16];
        let mut i: usize = 0;
        while i < 15
            invariant
                i <= 15,
                forall|j: int| 0 <= j < i ==> next@[j] == self.register@[j + 1],
            decreases 15 - i,
        {
            next[i] = self.register[i + 1];
            i = i + 1;
        }
        next[15] = byte;
        assert(next@ =~= shifted(self.register@, byte));
        self.register = next;
    }

    /// Encrypts one byte and moves the register on.
    pub fn encrypt_byte(&mut self, plain: u8) -> (c: u8)
        ensures
            c == plain ^ keystream(old(self)@.key, old(self)@.register),
            final(self)@.key == old(self)@.key,
            final(self)@.register == shifted(old(self)@.register, c),
    {
        let block = aes128_encrypt_block(&self.key, &self.register);
        let c = plain ^ block[0];
        self.shift_in(c);
        c
    }

    /// Decrypts one byte and moves the register on.
    pub fn decrypt_byte(&mut self, c: u8) -> (plain: u8)
        ensures
            plain == c ^ keystream(old(self)@.key, old(self)@.register),
            final(self)@.key == old(self)@.key,
            final(self)@.register == shifted(old(self)@.register, c),
    {
        let block = aes128_encrypt_block(&self.key, &self.register);
        let plain = c ^ block[0];
        self.shift_in(c);
        plain
    }

    /// Appends the ciphertext of `data` to `out`.
    pub fn encrypt_into(&mut self, data: &[u8], out: &mut Vec<u8>)
        ensures
            final(out)@ == old(out)@ + encrypted(old(self)@.key, old(self)@.register, data@),
            final(self)@.key == old(self)@.key,
            final(self)@.register == register_after(
                old(self)@.register,
                encrypted(old(self)@.key, old(self)@.register, data@),
            ),
    {
        let ghost key = self@.key;
        let ghost start = self@.register;
        let mut i: usize = 0;
        assert(data@.skip(0) =~= data@);
        while i < data.len()
            invariant
                i <= data@.len(),
                self@.key == key,
                out@ + encrypted(key, self@.register, data@.skip(i as int)) == old(out)@
                    + encrypted(key, start, data@),
                register_after(
                    self@.register,
                    encrypted(key, self@.register, data@.skip(i as int)),
                ) == register_after(start, encrypted(key, start, data@)),
            decreases data@.len() - i,
        {
            let ghost register = self@.register;
            let ghost before = out@;
            let ghost tail = data@.skip(i as int);
            let c = self.encrypt_byte(data[i]);
            out.push(c);
            proof {
                assert(tail.skip(1) =~= data@.skip(i + 1));
                let rest = encrypted(key, shifted(register, c), tail.skip(1));
                assert(encrypted(key, register, tail) == seq![c] + rest);
                assert(out@ + rest =~= before + (seq![c] + rest));
                assert((seq![c] + rest).skip(1) =~= rest);
            }
            i = i + 1;
        }
        proof {
            assert(data@.skip(i as int) =~= Seq::<u8>::empty());
            assert(out@ + Seq::<u8>::empty() =~= out@);
        }
    }

    /// Appends the plaintext of `data` to `out`.
    pub fn decrypt_into(&mut self, data: &[u8], out: &mut Vec<u8>)
        ensures
            final(out)@ == old(out)@ + decrypted(old(self)@.key, old(self)@.register, data@),
            final(self)@.key == old(self)@.key,
            final(self)@.register == register_after(old(self)@.register, data@),
    {
        let ghost key = self@.key;
        let ghost start = self@.register;
        let mut i: usize = 0;
        assert(data@.skip(0) =~= data@);
        while i < data.len()
            invariant
                i <= data@.len(),
                self@.key == key,
                out@ + decrypted(key, self@.register, data@.skip(i as int)) == old(out)@
                    + decrypted(key, start, data@),
                register_after(self@.register, data@.skip(i as int)) == register_after(
                    start,
                    data@,
                ),
            decreases data@.len() - i,
        {
            let ghost register = self@.register;
            let ghost before = out@;
            let ghost tail = data@.skip(i as int);
            let p = self.decrypt_byte(data[i]);
            out.push(p);
            proof {
                assert(tail.skip(1) =~= data@.skip(i + 1));
                let rest = decrypted(key, shifted(register, data@[i as int]), tail.skip(1));
                assert(decrypted(key, register, tail) == seq![p] + rest);
                assert(out@ + rest =~= before + (seq![p] + rest));
            }
            i = i + 1;
        }
        proof {
            assert(data@.skip(i as int) =~= Seq::<u8>::empty());
            assert(out@ + Seq::<u8>::empty() =~= out@);
        }
    }
}

/// The plain value of a cipher that may not be there.
pub open spec fn cipher_state(cipher: Option<Cipher>) -> Option<CipherState> {
    match cipher {
        Some(c) => Some(c@),
        None => None,
    }
}

/// What leaves a sender for `plain`: its ciphertext where the sender has a
/// cipher, else `plain` itself.
pub open spec fn sealed(cipher: Option<CipherState>, plain: Seq<u8>) -> Seq<u8> {
    match cipher {
        Some(c) => encrypted(c.key, c.register, plain),
        None => plain,
    }
}

/// What a receiver makes of `received`: its plaintext where the receiver has a
/// cipher, else `received` itself.
pub open spec fn opened(cipher: Option<CipherState>, received: Seq<u8>) -> Seq<u8> {
    match cipher {
        Some(c) => decrypted(c.key, c.register, received),
        None => received,
    }
}

/// The cipher once `ciphertext` has passed through it: the same key, and the
/// register moved on by `ciphertext`.
pub open spec fn moved(cipher: Option<CipherState>, ciphertext: Seq<u8>) -> Option<CipherState> {
    match cipher {
        Some(c) => Some(
            CipherState { key: c.key, register: register_after(c.register, ciphertext) },
        ),
        None => None,
    }
}

/// The cipher of a connection on which encryption is turned on with `key`.
pub open spec fn keyed(key: Seq<u8>) -> Option<CipherState> {
    Some(CipherState { key, register: key })
}

/// Ciphertext is as long as its plaintext.
pub proof fn lemma_encrypted_len(key: Seq<u8>, register: Seq<u8>, plain: Seq<u8>)
    ensures
        encrypted(key, register, plain).len() == plain.len(),
    decreases plain.len(),
{
    if plain.len() > 0 {
        let c = plain[0] ^ keystream(key, register);
        lemma_encrypted_len(key, shifted(register, c), plain.skip(1));
    }
}

proof fn lemma_xor_twice(a: u8, k: u8)
    ensures
        (a ^ k) ^ k == a,
{
    assert((a ^ k) ^ k == a) by (bit_vector);
}

/// A decryptor that starts from the register the encryptor started from gives
/// the plaintext back, whatever the key and the register are.
pub proof fn lemma_decrypt_encrypt(key: Seq<u8>, register: Seq<u8>, plain: Seq<u8>)
    ensures
        decrypted(key, register, encrypted(key, register, plain)) == plain,
    decreases plain.len(),
{
    let e = encrypted(key, register, plain);
    if plain.len() == 0 {
        assert(decrypted(key, register, e) =~= plain);
    } else {
        let k = keystream(key, register);
        let c = plain[0] ^ k;
        let rest = encrypted(key, shifted(register, c), plain.skip(1));
        assert(e == seq![c] + rest);
        assert(e[0] == c);
        assert(e.skip(1) =~= rest);
        lemma_decrypt_encrypt(key, shifted(register, c), plain.skip(1));
        lemma_xor_twice(plain[0], k);
        assert(decrypted(key, register, e) =~= seq![plain[0]] + plain.skip(1));
        assert(seq![plain[0]] + plain.skip(1) =~= plain);
    }
}

/// The register after two pieces of ciphertext is the register after their
/// concatenation.
pub proof fn lemma_register_after_concat(register: Seq<u8>, a: Seq<u8>, b: Seq<u8>)
    ensures
        register_after(register, a + b) == register_after(register_after(register, a), b),
    decreases a.len(),
{
    if a.len() == 0 {
        assert(a + b =~= b);
    } else {
        assert((a + b)[0] == a[0]);
        assert((a + b).skip(1) =~= a.skip(1) + b);
        lemma_register_after_concat(shifted(register, a[0]), a.skip(1), b);
    }
}

/// Encrypting in two pieces gives the ciphertext of the whole: the second piece
/// starts from the register that the first one left.
pub proof fn lemma_encrypted_concat(key: Seq<u8>, register: Seq<u8>, a: Seq<u8>, b: Seq<u8>)
    ensures
        encrypted(key, register, a + b) == encrypted(key, register, a) + encrypted(
            key,
            register_after(register, encrypted(key, register, a)),
            b,
        ),
    decreases a.len(),
{
    if a.len() == 0 {
        assert(a + b =~= b);
        assert(encrypted(key, register, a) =~= Seq::<u8>::empty());
        assert(Seq::<u8>::empty() + encrypted(key, register, b) =~= encrypted(key, register, b));
    } else {
        let c = a[0] ^ keystream(key, register);
        let next = shifted(register, c);
        assert((a + b)[0] == a[0]);
        assert((a + b).skip(1) =~= a.skip(1) + b);
        lemma_encrypted_concat(key, next, a.skip(1), b);
        let ea = encrypted(key, register, a);
        let tail = encrypted(key, next, a.skip(1));
        assert(ea == seq![c] + tail);
        assert(ea[0] == c);
        assert(ea.skip(1) =~= tail);
        assert(register_after(register, ea) == register_after(next, tail));
        assert(encrypted(key, register, a + b) =~= ea + encrypted(
            key,
            register_after(register, ea),
            b,
        ));
    }
}

/// Decrypting in two pieces gives the plaintext of the whole: the second piece
/// starts from the register that the first one left.
pub proof fn lemma_decrypted_concat(key: Seq<u8>, register: Seq<u8>, a: Seq<u8>, b: Seq<u8>)
    ensures
        decrypted(key, register, a + b) == decrypted(key, register, a) + decrypted(
            key,
            register_after(register, a),
            b,
        ),
    decreases a.len(),
{
    if a.len() == 0 {
        assert(a + b =~= b);
        assert(decrypted(key, register, a) =~= Seq::<u8>::empty());
        assert(Seq::<u8>::empty() + decrypted(key, register, b) =~= decrypted(key, register, b));
    } else {
        let next = shifted(register, a[0]);
        assert((a + b)[0] == a[0]);
        assert((a + b).skip(1) =~= a.skip(1) + b);
        lemma_decrypted_concat(key, next, a.skip(1), b);
        assert(decrypted(key, register, a + b) =~= decrypted(key, register, a) + decrypted(
            key,
            register_after(register, a),
            b,
        ));
    }
}

/// A receiver whose cipher is as the sender's reads what the sender sends for
/// `plain` as `plain`. Both ciphers are moved on by the same ciphertext, so
/// that they are alike again and the same holds of every piece that follows.
pub proof fn lemma_opened_sealed(cipher: Option<CipherState>, plain: Seq<u8>)
    ensures
        opened(cipher, sealed(cipher, plain)) == plain,
        sealed(cipher, plain).len() == plain.len(),
{
    match cipher {
        Some(c) => {
            lemma_decrypt_encrypt(c.key, c.register, plain);
            lemma_encrypted_len(c.key, c.register, plain);
        },
        None => {},
    }
}

/// Turning encryption on where nothing is queued changes nothing of what was
/// received before: only what arrives afterwards runs through the cipher, which
/// starts from the key.
pub proof fn lemma_keyed_with_nothing_queued(key: Seq<u8>)
    ensures
        opened(keyed(key), Seq::empty()) == Seq::<u8>::empty(),
        moved(keyed(key), Seq::empty()) == keyed(key),
{
}

/// A receiver reads the same from what arrives in two pieces as from the whole,
/// and its cipher ends in the same state.
pub proof fn lemma_opened_concat(cipher: Option<CipherState>, first: Seq<u8>, second: Seq<u8>)
    ensures
        opened(cipher, first + second) == opened(cipher, first) + opened(
            moved(cipher, first),
            second,
        ),
        moved(cipher, first + second) == moved(moved(cipher, first), second),
{
    match cipher {
        Some(c) => {
            lemma_decrypted_concat(c.key, c.register, first, second);
            lemma_register_after_concat(c.register, first, second);
        },
        None => {},
    }
}

/// A sender sends the same for two pieces as for the whole, and its cipher
/// ends in the same state.
pub proof fn lemma_sealed_concat(cipher: Option<CipherState>, first: Seq<u8>, second: Seq<u8>)
    ensures
        sealed(cipher, first + second) == sealed(cipher, first) + sealed(
            moved(cipher, sealed(cipher, first)),
            second,
        ),
        moved(cipher, sealed(cipher, first + second)) == moved(
            moved(cipher, sealed(cipher, first)),
            sealed(moved(cipher, sealed(cipher, first)), second),
        ),
{
    match cipher {
        Some(c) => {
            lemma_encrypted_concat(c.key, c.register, first, second);
            lemma_register_after_concat(
                c.register,
                encrypted(c.key, c.register, first),
                encrypted(
                    c.key,
                    register_after(c.register, encrypted(c.key, c.register, first)),
                    second,
                ),
            );
        },
        None => {},
    }
}

/// The bytes of `pieces` one behind another.
pub open spec fn all_of(pieces: Seq<Seq<u8>>) -> Seq<u8>
    decreases pieces.len(),
{
    if pieces.len() == 0 {
        Seq::empty()
    } else {
        pieces[0] + all_of(pieces.skip(1))
    }
}

/// What leaves a sender for each of `pieces` in turn: each is sealed by the
/// cipher as the pieces before it have left it.
pub open spec fn sealed_pieces(cipher: Option<CipherState>, pieces: Seq<Seq<u8>>) -> Seq<Seq<u8>>
    decreases pieces.len(),
{
    if pieces.len() == 0 {
        Seq::empty()
    } else {
        seq![sealed(cipher, pieces[0])] + sealed_pieces(
            moved(cipher, sealed(cipher, pieces[0])),
            pieces.skip(1),
        )
    }
}

/// What a receiver makes of each of `pieces` in turn: each is opened by the
/// cipher as the pieces before it have left it.
pub open spec fn opened_pieces(cipher: Option<CipherState>, pieces: Seq<Seq<u8>>) -> Seq<Seq<u8>>
    decreases pieces.len(),
{
    if pieces.len() == 0 {
        Seq::empty()
    } else {
        seq![opened(cipher, pieces[0])] + opened_pieces(
            moved(cipher, pieces[0]),
            pieces.skip(1),
        )
    }
}

/// Sealing piece by piece gives, all in all, what sealing the whole gives,
/// however many pieces there are and wherever they are cut.
pub proof fn lemma_sealed_pieces(cipher: Option<CipherState>, pieces: Seq<Seq<u8>>)
    ensures
        all_of(sealed_pieces(cipher, pieces)) == sealed(cipher, all_of(pieces)),
    decreases pieces.len(),
{
    if pieces.len() == 0 {
        assert(sealed(cipher, Seq::<u8>::empty()) =~= Seq::<u8>::empty());
    } else {
        let first = sealed(cipher, pieces[0]);
        let next = moved(cipher, first);
        let later = sealed_pieces(next, pieces.skip(1));
        let whole = sealed_pieces(cipher, pieces);
        assert(whole[0] == first);
        assert(whole.skip(1) =~= later);
        lemma_sealed_pieces(next, pieces.skip(1));
        lemma_sealed_concat(cipher, pieces[0], all_of(pieces.skip(1)));
    }
}

/// Opening piece by piece gives, all in all, what opening the whole gives,
/// however many pieces there are and wherever they are cut.
pub proof fn lemma_opened_pieces(cipher: Option<CipherState>, pieces: Seq<Seq<u8>>)
    ensures
        all_of(opened_pieces(cipher, pieces)) == opened(cipher, all_of(pieces)),
    decreases pieces.len(),
{
    if pieces.len() == 0 {
        assert(opened(cipher, Seq::<u8>::empty()) =~= Seq::<u8>::empty());
    } else {
        let first = opened(cipher, pieces[0]);
        let next = moved(cipher, pieces[0]);
        let later = opened_pieces(next, pieces.skip(1));
        let whole = opened_pieces(cipher, pieces);
        assert(whole[0] == first);
        assert(whole.skip(1) =~= later);
        lemma_opened_pieces(next, pieces.skip(1));
        lemma_opened_concat(cipher, pieces[0], all_of(pieces.skip(1)));
    }
}

} // verus!
