//! Constants shared by the library and the application around it.

use vstd::prelude::*;

verus! {

/// Default timeout, in milliseconds, of the connection and of the handshake.
pub const TIMEOUT: u64 = 1000;

/// Version number carried by the auth and auth-ack bodies.
pub const AUTH_VERSION: u64 = 5;

/// Length of an uncompressed SEC1 public key: the tag byte and two coordinates.
pub const PUBLIC_KEY_UNCOMPRESSED_LEN: usize = 65;

/// Largest sealed handshake message that the two-byte length prefix can announce.
pub const MAX_MESSAGE_LEN: usize = 65535;

} // verus!
