//! The RLPx transport handshake between two peers, and the framing of the
//! traffic that follows it.
//!
//! - `input` and `cli`: the recipients' enodes as the user gives them
//! - `codec`: the list encoding of the handshake bodies
//! - `crypto`: the primitives the handshake relies on, over plain bytes
//! - `handshake`: key material, the auth and auth-ack messages, the key schedule
//! - `frame`: the encrypted and authenticated frames of an established session
//!
//! Networking, argument handling and logging live in the application around
//! the library.

pub mod cli;
pub mod codec;
pub mod constants;
pub mod crypto;
pub mod errors;
pub mod frame;
pub mod handshake;
pub mod input;
