use trsh::cipher::{Crypto, CryptoError};

use salsa20::cipher::{KeyIvInit, StreamCipher};

const KEY: &[u8] = b"Fahm9Oruet8zahcoFahm9Oruet8zahco";
const IV: &[u8] = b"biTh0eoY";

#[test]
fn new_accepts_valid_lengths() {
    assert!(Crypto::new(KEY, IV).is_ok());
}

#[test]
fn new_rejects_short_key() {
    let r = Crypto::new(b"short", IV);
    assert!(matches!(r, Err(CryptoError::InvalidKeyOrIvLength)));
}

#[test]
fn new_rejects_long_key() {
    let r = Crypto::new(b"Fahm9Oruet8zahcoFahm9Oruet8zahcoX", IV);
    assert!(matches!(r, Err(CryptoError::InvalidKeyOrIvLength)));
}

#[test]
fn new_rejects_bad_iv() {
    let r = Crypto::new(KEY, b"biTh0eo");
    assert!(matches!(r, Err(CryptoError::InvalidKeyOrIvLength)));
}

#[test]
fn round_trip_two_instances() {
    let msg = b"any byte sequence \x00\xff\x7f at all";
    let mut enc = Crypto::new(KEY, IV).unwrap();
    enc.write(msg);
    let wire = enc.buffer().to_vec();

    let mut dec = Crypto::new(KEY, IV).unwrap();
    dec.read(&wire);
    assert_eq!(dec.buffer(), msg.as_slice());
}

#[test]
fn ciphertext_differs_from_plaintext() {
    let msg = b"identity check";
    let mut enc = Crypto::new(KEY, IV).unwrap();
    enc.write(msg);
    assert_ne!(enc.buffer(), msg.as_slice());
}

#[test]
fn cipher_matches_outside_crate() {
    let msg = b"cross-check against the stream cipher itself";
    let mut enc = Crypto::new(KEY, IV).unwrap();
    enc.write(msg);

    let mut raw = salsa20::Salsa20::new_from_slices(KEY, IV).unwrap();
    let mut expected = msg.to_vec();
    raw.apply_keystream(&mut expected);

    assert_eq!(enc.buffer(), expected.as_slice());
}

#[test]
fn keystream_position_advances_across_writes() {
    let first = b"first block";
    let second = b"and the second";
    let mut split = Crypto::new(KEY, IV).unwrap();
    split.write(first);
    let mut wire = split.buffer().to_vec();
    split.write(second);
    wire.extend_from_slice(split.buffer());

    let mut whole = Crypto::new(KEY, IV).unwrap();
    let mut msg = first.to_vec();
    msg.extend_from_slice(second);
    whole.write(&msg);

    assert_eq!(wire, whole.buffer().to_vec());
}
