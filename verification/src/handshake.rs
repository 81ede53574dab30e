//! Authentication handshake.
//!
//! On connect the agent sends the keystream-enciphered copy of its identity
//! string. The controller deciphers what arrived with a fresh cipher
//! instance and compares it to its own identity constant: on a match it
//! answers with the enciphered command frame for this session; on a mismatch
//! it answers nothing and the session is fatal.

use vstd::prelude::*;

use crate::cipher::{xor_stream, Crypto, CryptoError, IV_LEN, KEY_LEN};
use crate::protocol::{parse_command, spec_parse, Command, CommandModel, ParseError};

verus! {

/// Why no command could be decoded from the wire.
#[derive(Clone, Copy, PartialEq, Eq, Structural, Debug)]
pub enum FrameError {
    /// The cipher could not be built: wrong key or iv length.
    InvalidKeyOrIv,
    /// The frame deciphered, but does not parse as a command.
    Malformed(ParseError),
}

/// Why the controller refused to issue a command.
#[derive(Clone, Copy, PartialEq, Eq, Structural, Debug)]
pub enum AuthError {
    /// The cipher could not be built: wrong key or iv length.
    InvalidKeyOrIv,
    /// What the peer sent does not decipher to the expected identity.
    IdentityMismatch,
}

/// The two byte strings are equal.
fn bytes_eq(a: &[u8], b: &[u8]) -> (r: bool)
    ensures
        r == (a@ == b@),
{
    if a.len() != b.len() {
        return false;
    }
    let mut i: usize = 0;
    while i < a.len()
        invariant
            a@.len() == b@.len(),
            0 <= i <= a@.len(),
            forall|k: int| 0 <= k < i ==> a@[k] == b@[k],
        decreases a@.len() - i,
    {
        if a[i] != b[i] {
            return false;
        }
        i = i + 1;
    }
    proof {
        assert(a@ =~= b@);
    }
    true
}

/// The agent's opening frame: its identity string enciphered by a fresh
/// instance from keystream position zero. Fails exactly when the key or iv
/// length is invalid — a fatal configuration error.
pub fn hello_frame(key: &[u8], iv: &[u8], id: &[u8]) -> (r: Result<Vec<u8>, CryptoError>)
    ensures
        r is Ok <==> (key@.len() == KEY_LEN && iv@.len() == IV_LEN),
        r matches Ok(f) ==> f@ == xor_stream(key@, iv@, 0, id@),
{
    let mut cr = match Crypto::new(key, iv) {
        Ok(c) => c,
        Err(e) => {
            return Err(e);
        },
    };
    let n = id.len();
    proof {
        assert(id@.len() == n <= u64::MAX);
    }
    cr.write(id);
    Ok(vstd::slice::slice_to_vec(cr.buffer()))
}

/// The controller's half of the handshake, and the dispatch that follows
/// it: deciphers the received opening frame with a fresh instance, compares
/// it to the expected identity, and on a match enciphers the command frame
/// to answer with — with a fresh instance again, from position zero.
/// Refuses exactly the mismatching frames (and the invalid key or iv
/// lengths); no command frame exists for a refused handshake.
pub fn auth_and_make_frame(key: &[u8], iv: &[u8], received: &[u8], id: &[u8], command: &[u8]) -> (r:
    Result<Vec<u8>, AuthError>)
    ensures
        r is Ok <==> (key@.len() == KEY_LEN && iv@.len() == IV_LEN && xor_stream(
            key@,
            iv@,
            0,
            received@,
        ) == id@),
        r matches Ok(f) ==> f@ == xor_stream(key@, iv@, 0, command@),
        !(key@.len() == KEY_LEN && iv@.len() == IV_LEN) ==> r == Err::<Vec<u8>, AuthError>(
            AuthError::InvalidKeyOrIv,
        ),
        (key@.len() == KEY_LEN && iv@.len() == IV_LEN && xor_stream(key@, iv@, 0, received@)
            != id@) ==> r == Err::<Vec<u8>, AuthError>(AuthError::IdentityMismatch),
{
    let mut cr = match Crypto::new(key, iv) {
        Ok(c) => c,
        Err(_) => {
            return Err(AuthError::InvalidKeyOrIv);
        },
    };
    let n = received.len();
    proof {
        assert(received@.len() == n <= u64::MAX);
    }
    cr.read(received);
    if !bytes_eq(cr.buffer(), id) {
        return Err(AuthError::IdentityMismatch);
    }
    let mut cw = match Crypto::new(key, iv) {
        Ok(c) => c,
        Err(_) => {
            proof {
                assert(false);
            }
            return Err(AuthError::InvalidKeyOrIv);
        },
    };
    let m = command.len();
    proof {
        assert(command@.len() == m <= u64::MAX);
    }
    cw.write(command);
    Ok(vstd::slice::slice_to_vec(cw.buffer()))
}

/// The agent's dispatch step: deciphers the received command frame with a
/// fresh instance from keystream position zero and parses the result into
/// the operation to run. The command decoded is exactly the parse of the
/// deciphered bytes; parse failures are typed and end the session.
pub fn decode_command_frame(key: &[u8], iv: &[u8], wire: &[u8]) -> (r: Result<Command, FrameError>)
    ensures
        !(key@.len() == KEY_LEN && iv@.len() == IV_LEN) ==> r == Err::<Command, FrameError>(
            FrameError::InvalidKeyOrIv,
        ),
        (key@.len() == KEY_LEN && iv@.len() == IV_LEN) ==> match r {
            Ok(c) => spec_parse(xor_stream(key@, iv@, 0, wire@)) == Ok::<CommandModel, ParseError>(
                c@,
            ),
            Err(FrameError::Malformed(e)) => spec_parse(xor_stream(key@, iv@, 0, wire@)) == Err::<
                CommandModel,
                ParseError,
            >(e),
            Err(FrameError::InvalidKeyOrIv) => false,
        },
{
    let mut cr = match Crypto::new(key, iv) {
        Ok(c) => c,
        Err(_) => {
            return Err(FrameError::InvalidKeyOrIv);
        },
    };
    let n = wire.len();
    proof {
        assert(wire@.len() == n <= u64::MAX);
    }
    cr.read(wire);
    match parse_command(cr.buffer()) {
        Ok(c) => Ok(c),
        Err(e) => Err(FrameError::Malformed(e)),
    }
}

/// Handshake law: an opening frame built from some agent identity deciphers
/// on the controller to its own identity exactly when the two identities are
/// equal. With `auth_and_make_frame`'s contract: matching identities are
/// accepted and answered with a command frame, any mismatch is refused.
pub proof fn lemma_handshake(key: Seq<u8>, iv: Seq<u8>, agent_id: Seq<u8>, controller_id: Seq<u8>)
    ensures
        (xor_stream(key, iv, 0, xor_stream(key, iv, 0, agent_id)) == controller_id) <==> (agent_id
            == controller_id),
{
    crate::cipher::lemma_xor_stream_roundtrip(key, iv, 0, agent_id);
}

} // verus!
