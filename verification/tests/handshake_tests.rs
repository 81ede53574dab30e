use trsh::cipher::Crypto;
use trsh::handshake::{auth_and_make_frame, decode_command_frame, hello_frame, AuthError, FrameError};
use trsh::protocol::{Command, ParseError};

const KEY: &[u8] = b"Fahm9Oruet8zahcoFahm9Oruet8zahco";
const IV: &[u8] = b"biTh0eoY";
const ID: &[u8] = b"ohpie2naiwoo1lah6aeteexi5beiRas7";

#[test]
fn matching_identity_yields_a_command_frame() {
    let hello = hello_frame(KEY, IV, ID).unwrap();
    let frame = auth_and_make_frame(KEY, IV, &hello, ID, b"w").unwrap();

    // The frame the controller answers with deciphers to the command.
    let mut dec = Crypto::new(KEY, IV).unwrap();
    dec.read(&frame);
    assert_eq!(dec.buffer(), b"w".as_slice());
}

#[test]
fn mismatched_identity_is_refused() {
    let hello = hello_frame(KEY, IV, b"someone else entirely").unwrap();
    let r = auth_and_make_frame(KEY, IV, &hello, ID, b"w");
    assert_eq!(r, Err(AuthError::IdentityMismatch));
}

#[test]
fn garbage_hello_is_refused() {
    let r = auth_and_make_frame(KEY, IV, b"not a ciphered identity", ID, b"w");
    assert_eq!(r, Err(AuthError::IdentityMismatch));
}

#[test]
fn issued_command_survives_the_wire() {
    // Controller side: handshake plus the command frame for a GET.
    let hello = hello_frame(KEY, IV, ID).unwrap();
    let frame = auth_and_make_frame(KEY, IV, &hello, ID, b"GET|/etc/hostname").unwrap();

    // Agent side: decode the frame into the operation to run.
    let op = decode_command_frame(KEY, IV, &frame).unwrap();
    assert_eq!(op, Command::Get(b"/etc/hostname".to_vec()));
}

#[test]
fn malformed_frame_is_a_typed_error() {
    let frame = auth_and_make_frame(
        KEY,
        IV,
        &hello_frame(KEY, IV, ID).unwrap(),
        ID,
        b"SHELL|eighty|24",
    )
    .unwrap();
    let r = decode_command_frame(KEY, IV, &frame);
    assert_eq!(r, Err(FrameError::Malformed(ParseError::InvalidNumber)));
}

#[test]
fn invalid_key_is_refused_on_both_sides() {
    assert!(hello_frame(b"short", IV, ID).is_err());
    let hello = hello_frame(KEY, IV, ID).unwrap();
    let r = auth_and_make_frame(KEY, b"bad", &hello, ID, b"w");
    assert_eq!(r, Err(AuthError::InvalidKeyOrIv));
    let r = decode_command_frame(b"short", IV, b"anything");
    assert_eq!(r, Err(FrameError::InvalidKeyOrIv));
}
