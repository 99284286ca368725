//! The errors of the library.

use vstd::prelude::*;

verus! {

/// Errors during parsing of an enode.
#[derive(Debug, PartialEq, Eq)]
pub enum EnodeParseError {
    /// The enode holds no `@`.
    InvalidRecipientEnode,
    /// The part before `@` is too short to hold the `enode://` prefix.
    InvalidRecipientUserName(String),
    /// The host name holds no `:`.
    InvalidRecipientHostName(String),
}

/// Errors of the command line parser.
#[derive(Debug, PartialEq, Eq)]
pub enum CliError {
    /// The enode holds no `@`.
    InvalidRecipientEnode,
    /// The part before `@` is too short to hold the `enode://` prefix.
    InvalidRecipientUserName(String),
}

/// Connection errors.
#[derive(Debug, PartialEq, Eq)]
pub enum ConnError {
    /// The transport could not be opened or failed while in use.
    TcpStreamError(String),
    /// The connection or the handshake did not complete in time.
    TimeoutError(String),
}

/// Input errors that occur during dialing.
#[derive(Debug, PartialEq, Eq)]
pub enum DialError {
    /// The recipient's enode is malformed.
    EnodeParseError(EnodeParseError),
    /// The recipient could not be reached.
    ConnectionError(ConnError),
    /// The recipient's node id is no public key (found before any network
    /// activity).
    InvalidRecipient(HandshakeError),
}

/// Errors of the handshake procedure.
///
/// The protocol errors are deliberately coarse: a peer learns nothing of
/// which check failed.
#[derive(Debug, PartialEq, Eq)]
pub enum HandshakeError {
    /// The peer's node id is not a hex string (input error).
    HexDecodeError(String),
    /// The peer's node id does not encode a point of the curve (input error).
    Sec1Error(String),
    /// The auth message could not be sealed to the peer.
    EciesEncryptError,
    /// The peer's message is malformed, fails its authentication or was
    /// sent by a peer that speaks another version of the protocol.
    ProtocolError,
    /// The random source or the local key material failed.
    KeyError,
    /// The transport failed while the handshake used it.
    IOError(String),
}

/// A byte string that is not the encoding of a list of byte strings.
#[derive(Debug, Clone, Copy, PartialEq, Eq)]
pub struct DecodeError;

/// Errors of an established session.
#[derive(Debug, Clone, Copy, PartialEq, Eq)]
pub enum SessionError {
    /// A frame failed its authentication; the session is closed for good.
    MacMismatch,
    /// An authenticated frame is malformed; the session is closed for good.
    Malformed,
    /// The bytes at hand are fewer than the frame needs; read more.
    Truncated,
    /// The session was closed by an earlier failure.
    Closed,
    /// The payload is too large for a single frame.
    TooLarge,
}

} // verus!
