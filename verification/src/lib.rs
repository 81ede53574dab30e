//! Session protocol engine of a reverse-connecting remote command channel.
//!
//! An agent dials out to a controller, authenticates itself with an encrypted
//! identity string, receives one command frame, and services it: run a shell
//! command, transfer a file, or bridge an interactive pseudo-terminal. All
//! traffic is obscured by a keystream cipher; every logical frame and every
//! copy direction uses a fresh cipher instance starting at keystream position
//! zero.
//!
//! This crate holds the verified core: the cipher wrapper and its keystream
//! model, the wire-frame builders and the command parser, the handshake
//! decision, the encrypted copy engine, the backconnect retry step, and the
//! pseudo-terminal session state machine. The unverified shell around it
//! (sockets, files, processes, terminals) drives these functions.

pub mod backconnect;
pub mod cipher;
pub mod copy;
pub mod handshake;
pub mod paths;
pub mod protocol;
pub mod pty;
