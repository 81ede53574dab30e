//! Keystream cipher wrapper.
//!
//! A `Crypto` instance owns one stream-cipher state built from a key and an
//! initialization vector. The cipher is modeled by an uninterpreted keystream:
//! applying the cipher to a byte block XORs each byte with the keystream byte
//! at the instance's current position, and advances the position. From that
//! model the self-inverse (round-trip) property of the transform is proved.

use vstd::prelude::*;

use salsa20::cipher::KeyIvInit;
use salsa20::cipher::StreamCipher;

verus! {

/// Required key length in bytes.
pub const KEY_LEN: usize = 32;
/// Required initialization-vector length in bytes.
pub const IV_LEN: usize = 8;

/// The stream cipher's keystream: an unbounded byte sequence determined by
/// the key and the initialization vector alone. Its values are not stated
/// here; everything proved about the cipher holds for any keystream.
pub uninterp spec fn keystream_byte(key: Seq<u8>, iv: Seq<u8>, pos: int) -> u8;

/// The in-place keystream transform: byte `i` of the result is byte `i` of
/// `data` XORed with the keystream byte at position `pos + i`.
pub open spec fn xor_stream(key: Seq<u8>, iv: Seq<u8>, pos: int, data: Seq<u8>) -> Seq<u8> {
    Seq::new(data.len(), |i: int| data[i] ^ keystream_byte(key, iv, pos + i))
}

/// Holds the outside stream-cipher state (`salsa20::Salsa20`). That type
/// cannot be declared to Verus (its bounds name traits Verus does not see),
/// so it is held opaquely; all reasoning about the cipher goes through the
/// ghost key, iv and position that `Crypto` carries beside it.
#[verifier::external_body]
struct CipherState {
    inner: salsa20::Salsa20,
}

/// Construction failure: the key or the initialization vector has the wrong
/// length.
#[derive(Clone, Copy, PartialEq, Eq, Structural, Debug)]
pub enum CryptoError {
    InvalidKeyOrIvLength,
}

/// One cipher instance plus the buffer holding the last frame it processed.
///
/// The ghost fields model the cipher state: `key` and `iv` are the values the
/// instance was built from, `pos` is how many keystream bytes it has consumed.
/// A fresh instance starts at position zero.
pub struct Crypto {
    cipher: CipherState,
    buffer: Vec<u8>,
    key: Ghost<Seq<u8>>,
    iv: Ghost<Seq<u8>>,
    pos: Ghost<nat>,
}

/// Relies on `salsa20::Salsa20` via `cipher::KeyIvInit::new_from_slices`: a
/// cipher built from a 32-byte key and an 8-byte nonce begins its keystream
/// at position zero. With valid lengths the constructor cannot fail.
#[verifier::external_body]
fn salsa_new(key: &[u8], iv: &[u8]) -> (c: CipherState)
    requires
        key@.len() == KEY_LEN,
        iv@.len() == IV_LEN,
{
    CipherState { inner: salsa20::Salsa20::new_from_slices(key, iv).unwrap() }
}

impl Crypto {
    /// The key this instance was built from.
    pub closed spec fn key(&self) -> Seq<u8> {
        self.key@
    }

    /// The initialization vector this instance was built from.
    pub closed spec fn iv(&self) -> Seq<u8> {
        self.iv@
    }

    /// How many keystream bytes this instance has consumed so far.
    pub closed spec fn pos(&self) -> nat {
        self.pos@
    }

    /// The bytes the last `read` or `write` call produced.
    pub closed spec fn buf(&self) -> Seq<u8> {
        self.buffer@
    }

    /// Builds a fresh cipher instance. Succeeds exactly when the key is 32
    /// bytes and the initialization vector 8 bytes long; the new instance
    /// starts at keystream position zero with an empty frame buffer.
    pub fn new(key: &[u8], iv: &[u8]) -> (r: Result<Crypto, CryptoError>)
        ensures
            r is Ok <==> (key@.len() == KEY_LEN && iv@.len() == IV_LEN),
            r is Err ==> r == Err::<Crypto, CryptoError>(CryptoError::InvalidKeyOrIvLength),
            r matches Ok(c) ==> c.key() == key@ && c.iv() == iv@ && c.pos() == 0 && c.buf()
                == Seq::<u8>::empty(),
    {
        if key.len() == KEY_LEN && iv.len() == IV_LEN {
            let cipher = salsa_new(key, iv);
            Ok(
                Crypto {
                    cipher,
                    buffer: Vec::new(),
                    key: Ghost(key@),
                    iv: Ghost(iv@),
                    pos: Ghost(0nat),
                },
            )
        } else {
            Err(CryptoError::InvalidKeyOrIvLength)
        }
    }

    /// Relies on `cipher::StreamCipher::apply_keystream` for
    /// `salsa20::Salsa20`: XORs the block in place with the next
    /// `data.len()` keystream bytes, advancing the cipher state by that
    /// many. The keystream is a function of key, nonce and position alone.
    /// The call panics only at the end of the keystream, which the position
    /// bound leaves out (the keystream is longer than `u64::MAX` bytes).
    #[verifier::external_body]
    pub(crate) fn apply(&mut self, data: &mut Vec<u8>)
        requires
            old(self).pos() + old(data)@.len() <= u64::MAX,
        ensures
            final (data)@.len() == old(data)@.len(),
            forall|i: int|
                0 <= i < old(data)@.len() ==> final (data)@[i] == (old(data)@[i] ^ keystream_byte(
                    old(self).key(),
                    old(self).iv(),
                    old(self).pos() + i,
                )),
            final (data)@ == xor_stream(
                old(self).key(),
                old(self).iv(),
                old(self).pos() as int,
                old(data)@,
            ),
            final (self).key() == old(self).key(),
            final (self).iv() == old(self).iv(),
            final (self).pos() == old(self).pos() + old(data)@.len(),
            final (self).buf() == old(self).buf(),
    {
        self.cipher.inner.apply_keystream(data.as_mut_slice());
    }

    /// The bytes the last `read` or `write` call produced: the ciphered (or
    /// deciphered — the transform is the same) copy of its input.
    pub fn buffer(&self) -> (r: &[u8])
        ensures
            r@ == self.buf(),
    {
        self.buffer.as_slice()
    }

    /// Enciphers `data` at the current keystream position into the internal
    /// frame buffer, leaving `data` itself unchanged. Returns the number of
    /// bytes processed.
    pub fn write(&mut self, data: &[u8]) -> (n: usize)
        requires
            old(self).pos() + data@.len() <= u64::MAX,
        ensures
            n == data@.len(),
            final (self).buf() == xor_stream(
                old(self).key(),
                old(self).iv(),
                old(self).pos() as int,
                data@,
            ),
            final (self).key() == old(self).key(),
            final (self).iv() == old(self).iv(),
            final (self).pos() == old(self).pos() + data@.len(),
    {
        let mut block = vstd::slice::slice_to_vec(data);
        self.apply(&mut block);
        self.buffer = block;
        data.len()
    }

    /// Deciphers `data` at the current keystream position into the internal
    /// frame buffer, leaving `data` itself unchanged. The transform is the
    /// same as `write`'s; the two names mirror the two directions of use.
    pub fn read(&mut self, data: &[u8]) -> (n: usize)
        requires
            old(self).pos() + data@.len() <= u64::MAX,
        ensures
            n == data@.len(),
            final (self).buf() == xor_stream(
                old(self).key(),
                old(self).iv(),
                old(self).pos() as int,
                data@,
            ),
            final (self).key() == old(self).key(),
            final (self).iv() == old(self).iv(),
            final (self).pos() == old(self).pos() + data@.len(),
    {
        let mut block = vstd::slice::slice_to_vec(data);
        self.apply(&mut block);
        self.buffer = block;
        data.len()
    }
}

/// Round trip of one block: applying the keystream transform twice at the
/// same position gives the block back (XOR is self-inverse).
pub proof fn lemma_xor_stream_roundtrip(key: Seq<u8>, iv: Seq<u8>, pos: int, data: Seq<u8>)
    ensures
        xor_stream(key, iv, pos, xor_stream(key, iv, pos, data)) == data,
{
    let once = xor_stream(key, iv, pos, data);
    let twice = xor_stream(key, iv, pos, once);
    assert forall|i: int| 0 <= i < data.len() implies twice[i] == data[i] by {
        let k = keystream_byte(key, iv, pos + i);
        let d = data[i];
        assert((d ^ k) ^ k == d) by (bit_vector);
    }
    assert(twice =~= data);
}

} // verus!
