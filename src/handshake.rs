//! The handshake: the auth and auth-ack messages, and the key schedule.
//!
//! The initiator seals an auth body to the recipient's static key; the
//! recipient answers with an auth-ack body sealed to the initiator's static
//! key. Each message travels behind a two-byte big-endian length. Both sides
//! then derive the session secrets from the Diffie-Hellman secret of their
//! ephemeral keys, both nonces and both messages as sent.
//!
//! The randomness and the sealing are drawn by `initiate` and `respond`;
//! everything they decide from it is done by functions that take it as
//! arguments and state their result exactly.

use vstd::prelude::*;
use vstd::string::*;

use crate::codec::{
    be_bytes, be_value, copy_range, decode_list, decode_uint, encode_list, encode_uint,
    field_seqs, is_canonical_uint, list_encoding, push_all, starts_with_list,
};
use crate::constants::{AUTH_VERSION, MAX_MESSAGE_LEN, PUBLIC_KEY_UNCOMPRESSED_LEN};
use crate::crypto::{
    is_seal_overhead,
    decode_hex, ecdh, hex_digit_value, is_hex_digit, is_hex_of, is_hex_text, keccak256, keccak_of,
    open, public_key, public_key_of, random_bytes, recover, seal, shared_x_of, sign, signature_of,
    signer_of, wipe,
};
use crate::errors::HandshakeError;
use crate::frame::{FrameKeys, FrameState, Session};

verus! {

/// The SEC1 encoding of a node id: the `0x04` tag, then the id.
pub open spec fn sec1_of(id: Seq<u8>) -> Seq<u8> {
    seq![4u8] + id
}

/// The node id of an uncompressed SEC1 public key: the key without its tag.
pub open spec fn node_id_of(public: Seq<u8>) -> Seq<u8> {
    public.skip(1)
}

/// The byte-wise XOR of two strings of one length.
pub open spec fn xor_bytes(a: Seq<u8>, b: Seq<u8>) -> Seq<u8> {
    Seq::new(a.len(), |i: int| a[i] ^ b[i])
}

/// The bytes that a text of hex digit pairs stands for.
pub open spec fn hex_bytes(text: Seq<u8>) -> Seq<u8> {
    Seq::new(
        text.len() / 2,
        |i: int| (hex_digit_value(text[2 * i]) * 16 + hex_digit_value(text[2 * i + 1])) as u8,
    )
}

/// A node id in hex: 128 hex digits.
pub open spec fn is_node_id_text(text: Seq<u8>) -> bool {
    is_hex_text(text) && text.len() == 128
}

/// The public key that a node id in hex names.
pub open spec fn remote_key_of(text: Seq<u8>) -> Seq<u8> {
    sec1_of(hex_bytes(text))
}

/// A message behind its two-byte big-endian length.
pub open spec fn with_length_prefix(m: Seq<u8>) -> Seq<u8> {
    seq![(m.len() / 256) as u8, (m.len() % 256) as u8] + m
}

/// A single message behind a two-byte length that announces exactly it.
pub open spec fn is_prefixed_message(wire: Seq<u8>) -> bool {
    exists|sealed: Seq<u8>|
        sealed.len() <= MAX_MESSAGE_LEN && wire == #[trigger] with_length_prefix(sealed)
}

/// The fields of an auth body.
pub open spec fn auth_fields(signature: Seq<u8>, id: Seq<u8>, nonce: Seq<u8>) -> Seq<Seq<u8>> {
    seq![signature, id, nonce, be_bytes(AUTH_VERSION as nat)]
}

/// The fields of an auth-ack body.
pub open spec fn ack_fields(id: Seq<u8>, nonce: Seq<u8>) -> Seq<Seq<u8>> {
    seq![id, nonce, be_bytes(AUTH_VERSION as nat)]
}

/// The auth body of an initiator: the 65-byte signature, by its ephemeral
/// key, of the static shared secret XOR its nonce; its node id; its nonce; the
/// version.
pub open spec fn auth_body_of(
    secret: Seq<u8>,
    public: Seq<u8>,
    remote: Seq<u8>,
    ephemeral: Seq<u8>,
    nonce: Seq<u8>,
) -> Option<Seq<u8>> {
    match shared_x_of(secret, remote) {
        None => None,
        Some(x) => match signature_of(ephemeral, xor_bytes(x, nonce)) {
            None => None,
            Some(sig) => if sig.len() == 65 {
                Some(list_encoding(auth_fields(sig, node_id_of(public), nonce)))
            } else {
                None
            },
        },
    }
}

/// A version that this implementation speaks: canonical, and not older
/// than its own.
pub open spec fn is_supported_version(v: Seq<u8>) -> bool {
    is_canonical_uint(v) && be_value(v) >= AUTH_VERSION
}

/// Fields that make an auth body; fields after the fourth are ignored.
pub open spec fn is_auth_fields(fs: Seq<Seq<u8>>) -> bool {
    &&& fs.len() >= 4
    &&& fs[0].len() == 65
    &&& fs[1].len() == 64
    &&& fs[2].len() == 32
    &&& is_supported_version(fs[3])
}

/// Fields that make an auth-ack body; fields after the third are ignored.
pub open spec fn is_ack_fields(fs: Seq<Seq<u8>>) -> bool {
    &&& fs.len() >= 3
    &&& fs[0].len() == 64
    &&& fs[1].len() == 32
    &&& is_supported_version(fs[2])
}

/// The fields of the auth body that `plain` starts with.
pub open spec fn auth_contents(plain: Seq<u8>) -> Option<Seq<Seq<u8>>> {
    if exists|fs: Seq<Seq<u8>>| starts_with_list(plain, fs) && is_auth_fields(fs) {
        Some(choose|fs: Seq<Seq<u8>>| starts_with_list(plain, fs) && is_auth_fields(fs))
    } else {
        None
    }
}

/// The fields of the auth-ack body that `plain` starts with.
pub open spec fn ack_contents(plain: Seq<u8>) -> Option<Seq<Seq<u8>>> {
    if exists|fs: Seq<Seq<u8>>| starts_with_list(plain, fs) && is_ack_fields(fs) {
        Some(choose|fs: Seq<Seq<u8>>| starts_with_list(plain, fs) && is_ack_fields(fs))
    } else {
        None
    }
}

/// The side of a handshake.
#[derive(Debug, Clone, Copy, PartialEq, Eq)]
pub enum Role {
    Initiator,
    Recipient,
}

/// The shared secret: the ephemeral secret and the digest of both nonces.
pub open spec fn shared_secret_of(x: Seq<u8>, ni: Seq<u8>, nr: Seq<u8>) -> Seq<u8> {
    keccak_of(x + keccak_of(nr + ni))
}

/// The AES secret, from which the key of each direction is derived.
pub open spec fn aes_secret_of(x: Seq<u8>, ni: Seq<u8>, nr: Seq<u8>) -> Seq<u8> {
    keccak_of(x + shared_secret_of(x, ni, nr))
}

/// The MAC secret, which seeds the MAC state of each direction.
pub open spec fn mac_secret_of(x: Seq<u8>, ni: Seq<u8>, nr: Seq<u8>) -> Seq<u8> {
    keccak_of(x + aes_secret_of(x, ni, nr))
}

/// The state of the direction from initiator to recipient: its key, and a
/// MAC state seeded with the recipient's nonce and the auth message.
pub open spec fn outbound_keys(
    x: Seq<u8>,
    ni: Seq<u8>,
    nr: Seq<u8>,
    auth: Seq<u8>,
) -> FrameKeys {
    FrameKeys {
        key: keccak_of(aes_secret_of(x, ni, nr) + seq![1u8]),
        mac: keccak_of(xor_bytes(mac_secret_of(x, ni, nr), nr) + auth),
        offset: 0,
    }
}

/// The state of the direction from recipient to initiator: its key, and a
/// MAC state seeded with the initiator's nonce and the auth-ack message.
pub open spec fn inbound_keys(x: Seq<u8>, ni: Seq<u8>, nr: Seq<u8>, ack: Seq<u8>) -> FrameKeys {
    FrameKeys {
        key: keccak_of(aes_secret_of(x, ni, nr) + seq![2u8]),
        mac: keccak_of(xor_bytes(mac_secret_of(x, ni, nr), ni) + ack),
        offset: 0,
    }
}

/// The egress and ingress states of a side, from the ephemeral secret `x`,
/// the initiator's nonce `ni`, the recipient's nonce `nr` and both messages.
pub open spec fn session_keys(
    role: Role,
    x: Seq<u8>,
    ni: Seq<u8>,
    nr: Seq<u8>,
    auth: Seq<u8>,
    ack: Seq<u8>,
) -> (FrameKeys, FrameKeys) {
    match role {
        Role::Initiator => (outbound_keys(x, ni, nr, auth), inbound_keys(x, ni, nr, ack)),
        Role::Recipient => (inbound_keys(x, ni, nr, ack), outbound_keys(x, ni, nr, auth)),
    }
}

/// The states of a session as the initiator derives them from the opened
/// auth-ack body `plain`.
pub open spec fn initiator_keys(
    ephemeral: Seq<u8>,
    nonce: Seq<u8>,
    auth: Seq<u8>,
    ack: Seq<u8>,
    plain: Seq<u8>,
) -> Option<(FrameKeys, FrameKeys)> {
    match ack_contents(plain) {
        None => None,
        Some(fs) => match shared_x_of(ephemeral, sec1_of(fs[0])) {
            None => None,
            Some(x) => Some(session_keys(Role::Initiator, x, nonce, fs[1], auth, ack)),
        },
    }
}

/// Whatever the randomness, the two sides of a handshake that reach one
/// ephemeral secret, with the same nonces and messages, derive mirrored
/// states: what one sends with, the other receives with.
pub proof fn lemma_sessions_mirror(
    x: Seq<u8>,
    ni: Seq<u8>,
    nr: Seq<u8>,
    auth: Seq<u8>,
    ack: Seq<u8>,
)
    ensures
        session_keys(Role::Initiator, x, ni, nr, auth, ack).0 == session_keys(
            Role::Recipient,
            x,
            ni,
            nr,
            auth,
            ack,
        ).1,
        session_keys(Role::Initiator, x, ni, nr, auth, ack).1 == session_keys(
            Role::Recipient,
            x,
            ni,
            nr,
            auth,
            ack,
        ).0,
{
}

/// `a` followed by `b`.
fn concat(a: &[u8], b: &[u8]) -> (r: Vec<u8>)
    ensures
        r@ == a@ + b@,
{
    let mut out: Vec<u8> = Vec::new();
    push_all(&mut out, a);
    push_all(&mut out, b);
    out
}

/// The byte-wise XOR of two strings of one length.
fn xor(a: &[u8], b: &[u8]) -> (r: Vec<u8>)
    requires
        a@.len() == b@.len(),
    ensures
        r@ == xor_bytes(a@, b@),
{
    let mut out: Vec<u8> = Vec::new();
    let mut i: usize = 0;
    while i < a.len()
        invariant
            a@.len() == b@.len(),
            i <= a@.len(),
            out@ == xor_bytes(a@, b@).take(i as int),
        decreases a@.len() - i,
    {
        out.push(a[i] ^ b[i]);
        i = i + 1;
        assert(out@ == xor_bytes(a@, b@).take(i as int));
    }
    assert(xor_bytes(a@, b@).take(i as int) == xor_bytes(a@, b@));
    out
}

/// Puts a message behind its two-byte big-endian length; `None` where it is
/// too long for it.
pub fn prefix_length(m: &[u8]) -> (r: Option<Vec<u8>>)
    ensures
        match r {
            Some(w) => m@.len() <= MAX_MESSAGE_LEN && w@ == with_length_prefix(m@),
            None => m@.len() > MAX_MESSAGE_LEN,
        },
{
    if m.len() > MAX_MESSAGE_LEN {
        return None;
    }
    let mut out: Vec<u8> = Vec::new();
    out.push((m.len() / 256) as u8);
    out.push((m.len() % 256) as u8);
    push_all(&mut out, m);
    Some(out)
}

/// The length that a two-byte big-endian prefix announces.
pub fn message_len(prefix: &[u8]) -> (r: usize)
    requires
        prefix@.len() >= 2,
    ensures
        r == prefix@[0] * 256 + prefix@[1],
{
    prefix[0] as usize * 256 + prefix[1] as usize
}

/// The sealed message behind a length prefix that announces exactly the
/// bytes that follow it.
fn strip_length_prefix(wire: &[u8]) -> (r: Option<Vec<u8>>)
    ensures
        match r {
            Some(m) => m@.len() <= MAX_MESSAGE_LEN && wire@ == with_length_prefix(m@),
            None => !exists|m: Seq<u8>|
                m.len() <= MAX_MESSAGE_LEN && wire@ == #[trigger] with_length_prefix(m),
        },
{
    if wire.len() < 2 || message_len(wire) != wire.len() - 2 {
        proof {
            assert forall|m: Seq<u8>|
                m.len() <= MAX_MESSAGE_LEN implies wire@ != #[trigger] with_length_prefix(m) by {
                if wire@ == with_length_prefix(m) {
                    let n = m.len();
                    assert(wire@[0] == (n / 256) as u8 && wire@[1] == (n % 256) as u8);
                    assert(wire@[0] * 256 + wire@[1] == n) by (nonlinear_arith)
                        requires
                            n <= 65535,
                            wire@[0] == (n / 256) as u8,
                            wire@[1] == (n % 256) as u8,
                    ;
                }
            }
        }
        return None;
    }
    let m = copy_range(wire, 2, wire.len() - 2);
    proof {
        let n = m@.len();
        assert(wire@[0] == (n / 256) as u8 && wire@[1] == (n % 256) as u8) by (nonlinear_arith)
            requires
                n == wire@[0] * 256 + wire@[1],
                wire@[0] < 256,
                wire@[1] < 256,
        ;
        assert(wire@ == with_length_prefix(m@));
    }
    Some(m)
}

/// Seals `message` to the holder of the secret key of `public` and puts it
/// behind its two-byte length, as it goes on the wire.
pub fn seal_message(public: &[u8], message: &[u8]) -> (r: Result<Vec<u8>, HandshakeError>)
    ensures
        match r {
            Ok(wire) => {
                &&& exists|sealed: Seq<u8>|
                    sealed.len() <= MAX_MESSAGE_LEN && wire@ == #[trigger] with_length_prefix(
                        sealed,
                    )
                &&& is_seal_overhead(wire@.len() - 2 - message@.len())
            },
            Err(e) => e == HandshakeError::EciesEncryptError || e == HandshakeError::ProtocolError,
        },
{
    let sealed = match seal(public, message) {
        Some(s) => s,
        None => {
            return Err(HandshakeError::EciesEncryptError);
        },
    };
    match prefix_length(sealed.as_slice()) {
        Some(wire) => Ok(wire),
        None => Err(HandshakeError::ProtocolError),
    }
}

/// Opens a message as read from the wire, behind its two-byte length, with
/// the secret key it was sealed to.
pub fn open_message(secret: &[u8], wire: &[u8]) -> (r: Result<Vec<u8>, HandshakeError>)
    ensures
        match r {
            Ok(plain) => {
                &&& is_prefixed_message(wire@)
                &&& is_seal_overhead(wire@.len() - 2 - plain@.len())
            },
            Err(e) => e == HandshakeError::ProtocolError,
        },
        !is_prefixed_message(wire@) ==> r is Err,
{
    let sealed = match strip_length_prefix(wire) {
        Some(s) => s,
        None => {
            return Err(HandshakeError::ProtocolError);
        },
    };
    match open(secret, sealed.as_slice()) {
        Some(plain) => Ok(plain),
        None => Err(HandshakeError::ProtocolError),
    }
}

/// Long-term identity of the local node: a secret scalar and the
/// uncompressed SEC1 encoding of its public key.
pub struct StaticKeyPair {
    pub secret: Vec<u8>,
    pub public: Vec<u8>,
}

impl StaticKeyPair {
    /// The public key is the one of the secret.
    pub open spec fn wf(&self) -> bool {
        &&& self.secret@.len() == 32
        &&& public_key_of(self.secret@) == Some(self.public@)
        &&& self.public@.len() == PUBLIC_KEY_UNCOMPRESSED_LEN
        &&& self.public@[0] == 4
    }

    /// The key pair of a secret scalar; `None` where the bytes are none.
    pub fn from_secret(secret: Vec<u8>) -> (r: Option<Self>)
        ensures
            match r {
                Some(k) => k.wf() && k.secret@ == secret@,
                None => secret@.len() != 32 || public_key_of(secret@) is None,
            },
    {
        if secret.len() != 32 {
            return None;
        }
        match public_key(secret.as_slice()) {
            Some(public) => Some(StaticKeyPair { secret, public }),
            None => None,
        }
    }

    /// A fresh key pair from the operating system's random source.
    pub fn generate() -> (r: Result<Self, HandshakeError>)
        ensures
            match r {
                Ok(k) => k.wf(),
                Err(e) => e == HandshakeError::KeyError,
            },
    {
        let mut attempt: usize = 0;
        while attempt < 8
            decreases 8 - attempt,
        {
            match random_bytes(32) {
                None => {
                    return Err(HandshakeError::KeyError);
                },
                Some(mut secret) => {
                    if let Some(public) = public_key(secret.as_slice()) {
                        return Ok(StaticKeyPair { secret, public });
                    }
                    wipe(&mut secret);
                },
            }
            attempt = attempt + 1;
        }
        Err(HandshakeError::KeyError)
    }

    /// The node id: the public key without its tag.
    pub fn node_id(&self) -> (r: Vec<u8>)
        requires
            self.wf(),
        ensures
            r@ == node_id_of(self.public@),
            r@.len() == 64,
    {
        copy_range(self.public.as_slice(), 1, 64)
    }
}

proof fn lemma_hex_bytes(text: Seq<u8>, v: Seq<u8>)
    requires
        is_hex_text(text),
        is_hex_of(text, v),
    ensures
        v == hex_bytes(text),
{
    assert forall|i: int| 0 <= i < v.len() implies v[i] == hex_bytes(text)[i] by {
        assert(is_hex_digit(text[2 * i]) && is_hex_digit(text[2 * i + 1]));
    }
    assert(v =~= hex_bytes(text));
}

/// The public key of a peer, from its node id in hex; the key is checked
/// to be a point of the curve by a Diffie-Hellman exchange with the local
/// secret.
pub fn remote_public_key(keys: &StaticKeyPair, remote_id: &str) -> (r: Result<
    Vec<u8>,
    HandshakeError,
>)
    requires
        keys.wf(),
    ensures
        match r {
            Ok(p) => {
                &&& is_node_id_text(remote_id.spec_bytes())
                &&& p@ == remote_key_of(remote_id.spec_bytes())
                &&& shared_x_of(keys.secret@, p@) is Some
            },
            Err(HandshakeError::HexDecodeError(t)) => {
                &&& !is_hex_text(remote_id.spec_bytes())
                &&& t@ == remote_id@
            },
            Err(HandshakeError::Sec1Error(t)) => {
                &&& is_hex_text(remote_id.spec_bytes())
                &&& (remote_id.spec_bytes().len() != 128 || shared_x_of(
                    keys.secret@,
                    remote_key_of(remote_id.spec_bytes()),
                ) is None)
                &&& t@ == remote_id@
            },
            Err(_) => false,
        },
{
    let id = match decode_hex(remote_id.as_bytes()) {
        Ok(id) => id,
        Err(_) => {
            return Err(HandshakeError::HexDecodeError(remote_id.to_owned()));
        },
    };
    proof {
        lemma_hex_bytes(remote_id.spec_bytes(), id@);
    }
    if id.len() != 64 {
        return Err(HandshakeError::Sec1Error(remote_id.to_owned()));
    }
    let mut public: Vec<u8> = Vec::new();
    public.push(4u8);
    push_all(&mut public, id.as_slice());
    match ecdh(keys.secret.as_slice(), public.as_slice()) {
        Some(mut shared) => {
            wipe(&mut shared);
            Ok(public)
        },
        None => Err(HandshakeError::Sec1Error(remote_id.to_owned())),
    }
}

/// The auth body that an initiator with the given ephemeral secret and
/// nonce sends to the holder of `remote`.
pub fn auth_body(keys: &StaticKeyPair, remote: &[u8], ephemeral_secret: &[u8], nonce: &[u8]) -> (r:
    Result<Vec<u8>, HandshakeError>)
    requires
        keys.wf(),
        ephemeral_secret@.len() == 32,
        nonce@.len() == 32,
    ensures
        match r {
            Ok(body) => auth_body_of(
                keys.secret@,
                keys.public@,
                remote@,
                ephemeral_secret@,
                nonce@,
            ) == Some(body@),
            Err(e) => e == HandshakeError::KeyError && auth_body_of(
                keys.secret@,
                keys.public@,
                remote@,
                ephemeral_secret@,
                nonce@,
            ) is None,
        },
{
    let mut shared = match ecdh(keys.secret.as_slice(), remote) {
        Some(x) => x,
        None => {
            return Err(HandshakeError::KeyError);
        },
    };
    let mut message = xor(shared.as_slice(), nonce);
    let signed = sign(ephemeral_secret, message.as_slice());
    wipe(&mut shared);
    wipe(&mut message);
    let signature = match signed {
        Some(s) => s,
        None => {
            return Err(HandshakeError::KeyError);
        },
    };
    let mut fields: Vec<Vec<u8>> = Vec::new();
    fields.push(signature);
    fields.push(keys.node_id());
    fields.push(copy_range(nonce, 0, nonce.len()));
    fields.push(encode_uint(AUTH_VERSION));
    proof {
        assert(nonce@.subrange(0, nonce@.len() as int) == nonce@);
        assert(field_seqs(fields@) == auth_fields(
            fields@[0]@,
            node_id_of(keys.public@),
            nonce@,
        ));
    }
    Ok(encode_list(&fields))
}

/// Derives the states of a session from the ephemeral secret `x`, the
/// initiator's nonce `ni`, the recipient's nonce `nr` and both messages as
/// sent; every intermediate secret is wiped.
fn derive_session(
    role: Role,
    x: &[u8],
    ni: &[u8],
    nr: &[u8],
    auth: &[u8],
    ack: &[u8],
) -> (r: Session)
    requires
        x@.len() == 32,
        ni@.len() == 32,
        nr@.len() == 32,
    ensures
        (r.egress@, r.ingress@) == session_keys(role, x@, ni@, nr@, auth@, ack@),
        !r.closed,
        r.wf(),
{
    let mut nonces = concat(nr, ni);
    let mut nonce_digest = keccak256(nonces.as_slice());
    let mut input = concat(x, nonce_digest.as_slice());
    let mut shared = keccak256(input.as_slice());
    wipe(&mut input);
    let mut input = concat(x, shared.as_slice());
    let mut aes = keccak256(input.as_slice());
    wipe(&mut input);
    let mut input = concat(x, aes.as_slice());
    let mut mac = keccak256(input.as_slice());
    wipe(&mut input);
    let mut one: Vec<u8> = Vec::new();
    one.push(1u8);
    let mut two: Vec<u8> = Vec::new();
    two.push(2u8);
    let mut input = concat(aes.as_slice(), one.as_slice());
    let outbound_key = keccak256(input.as_slice());
    wipe(&mut input);
    let mut input = concat(aes.as_slice(), two.as_slice());
    let inbound_key = keccak256(input.as_slice());
    wipe(&mut input);
    let mut seed = xor(mac.as_slice(), nr);
    let mut input = concat(seed.as_slice(), auth);
    let outbound_mac = keccak256(input.as_slice());
    wipe(&mut input);
    wipe(&mut seed);
    let mut seed = xor(mac.as_slice(), ni);
    let mut input = concat(seed.as_slice(), ack);
    let inbound_mac = keccak256(input.as_slice());
    wipe(&mut input);
    wipe(&mut seed);
    wipe(&mut nonces);
    wipe(&mut nonce_digest);
    wipe(&mut shared);
    wipe(&mut aes);
    wipe(&mut mac);
    assert(seq![1u8] == one@ && seq![2u8] == two@);
    let outbound = FrameState { key: outbound_key, mac: outbound_mac, offset: 0 };
    let inbound = FrameState { key: inbound_key, mac: inbound_mac, offset: 0 };
    match role {
        Role::Initiator => Session { egress: outbound, ingress: inbound, closed: false },
        Role::Recipient => Session { egress: inbound, ingress: outbound, closed: false },
    }
}

/// An initiator that sent its auth message and waits for the auth-ack.
pub struct Initiator {
    /// The recipient's static public key.
    pub remote: Vec<u8>,
    /// The ephemeral secret of this attempt.
    pub ephemeral_secret: Vec<u8>,
    /// The nonce of this attempt.
    pub nonce: Vec<u8>,
    /// The auth message as sent, with its length prefix.
    pub auth: Vec<u8>,
}

impl Initiator {
    pub open spec fn wf(&self) -> bool {
        &&& self.ephemeral_secret@.len() == 32
        &&& public_key_of(self.ephemeral_secret@) is Some
        &&& self.nonce@.len() == 32
    }
}

/// Starts a handshake with the node whose id is `remote_id`, in hex: draws
/// a fresh ephemeral key and nonce and builds the auth message to send.
///
/// The node id is checked before anything else: an input error comes
/// before any randomness is drawn and any byte is sent.
pub fn initiate(keys: &StaticKeyPair, remote_id: &str) -> (r: Result<
    (Initiator, Vec<u8>),
    HandshakeError,
>)
    requires
        keys.wf(),
    ensures
        match r {
            Ok((st, wire)) => {
                &&& st.wf()
                &&& is_node_id_text(remote_id.spec_bytes())
                &&& st.remote@ == remote_key_of(remote_id.spec_bytes())
                &&& wire@ == st.auth@
                &&& auth_body_of(
                    keys.secret@,
                    keys.public@,
                    st.remote@,
                    st.ephemeral_secret@,
                    st.nonce@,
                ) is Some
                &&& exists|sealed: Seq<u8>|
                    sealed.len() <= MAX_MESSAGE_LEN && wire@ == #[trigger] with_length_prefix(
                        sealed,
                    )
            },
            Err(HandshakeError::HexDecodeError(t)) => {
                &&& !is_hex_text(remote_id.spec_bytes())
                &&& t@ == remote_id@
            },
            Err(HandshakeError::Sec1Error(t)) => {
                &&& is_hex_text(remote_id.spec_bytes())
                &&& (remote_id.spec_bytes().len() != 128 || shared_x_of(
                    keys.secret@,
                    remote_key_of(remote_id.spec_bytes()),
                ) is None)
                &&& t@ == remote_id@
            },
            Err(_) => {
                &&& is_node_id_text(remote_id.spec_bytes())
                &&& shared_x_of(keys.secret@, remote_key_of(remote_id.spec_bytes())) is Some
            },
        },
{
    let remote = remote_public_key(keys, remote_id)?;
    let ephemeral = StaticKeyPair::generate()?;
    let mut nonce = match random_bytes(32) {
        Some(n) => n,
        None => {
            return Err(HandshakeError::KeyError);
        },
    };
    let mut ephemeral_secret = ephemeral.secret;
    let body = match auth_body(keys, remote.as_slice(), ephemeral_secret.as_slice(), nonce.as_slice()) {
        Ok(b) => b,
        Err(e) => {
            wipe(&mut ephemeral_secret);
            wipe(&mut nonce);
            return Err(e);
        },
    };
    let wire = match seal_message(remote.as_slice(), body.as_slice()) {
        Ok(w) => w,
        Err(e) => {
            wipe(&mut ephemeral_secret);
            wipe(&mut nonce);
            return Err(e);
        },
    };
    let auth = copy_range(wire.as_slice(), 0, wire.len());
    assert(wire@.subrange(0, wire@.len() as int) == wire@);
    Ok((Initiator { remote, ephemeral_secret, nonce, auth }, wire))
}

/// Reads the fields of an auth-ack body; `None` where `plain` does not
/// start with one.
fn read_ack_fields(plain: &[u8]) -> (r: Option<Vec<Vec<u8>>>)
    ensures
        match r {
            Some(v) => ack_contents(plain@) == Some(field_seqs(v@)),
            None => ack_contents(plain@) is None,
        },
{
    let fields = match decode_list(plain) {
        Ok(f) => f,
        Err(_) => {
            return None;
        },
    };
    if fields.len() < 3 || fields[0].len() != 64 || fields[1].len() != 32 {
        return None;
    }
    match decode_uint(fields[2].as_slice()) {
        Some(v) => {
            if v < AUTH_VERSION {
                return None;
            }
        },
        None => {
            return None;
        },
    }
    proof {
        let fs = field_seqs(fields@);
        assert(is_ack_fields(fs));
        assert(starts_with_list(plain@, fs) && is_ack_fields(fs));
    }
    Some(fields)
}

/// Reads the fields of an auth body; `None` where `plain` does not start
/// with one.
fn read_auth_fields(plain: &[u8]) -> (r: Option<Vec<Vec<u8>>>)
    ensures
        match r {
            Some(v) => auth_contents(plain@) == Some(field_seqs(v@)),
            None => auth_contents(plain@) is None,
        },
{
    let fields = match decode_list(plain) {
        Ok(f) => f,
        Err(_) => {
            return None;
        },
    };
    if fields.len() < 4 || fields[0].len() != 65 || fields[1].len() != 64 || fields[2].len()
        != 32 {
        return None;
    }
    match decode_uint(fields[3].as_slice()) {
        Some(v) => {
            if v < AUTH_VERSION {
                return None;
            }
        },
        None => {
            return None;
        },
    }
    proof {
        let fs = field_seqs(fields@);
        assert(is_auth_fields(fs));
        assert(starts_with_list(plain@, fs) && is_auth_fields(fs));
    }
    Some(fields)
}

/// The SEC1 public key of a node id.
fn sec1_key(id: &[u8]) -> (r: Vec<u8>)
    ensures
        r@ == sec1_of(id@),
{
    let mut out: Vec<u8> = Vec::new();
    out.push(4u8);
    push_all(&mut out, id);
    out
}

/// Completes the initiator's side from the opened auth-ack body `plain` of
/// the auth-ack message `ack`: derives the session states.
pub fn accept_ack(st: &Initiator, ack: &[u8], plain: &[u8]) -> (r: Result<Session, HandshakeError>)
    requires
        st.wf(),
    ensures
        match r {
            Ok(s) => {
                &&& initiator_keys(st.ephemeral_secret@, st.nonce@, st.auth@, ack@, plain@)
                    == Some((s.egress@, s.ingress@))
                &&& !s.closed
                &&& s.wf()
            },
            Err(e) => {
                &&& e == HandshakeError::ProtocolError
                &&& initiator_keys(st.ephemeral_secret@, st.nonce@, st.auth@, ack@, plain@) is None
            },
        },
{
    let fields = match read_ack_fields(plain) {
        Some(f) => f,
        None => {
            return Err(HandshakeError::ProtocolError);
        },
    };
    let remote_ephemeral = sec1_key(fields[0].as_slice());
    let mut x = match ecdh(st.ephemeral_secret.as_slice(), remote_ephemeral.as_slice()) {
        Some(x) => x,
        None => {
            return Err(HandshakeError::ProtocolError);
        },
    };
    let session = derive_session(
        Role::Initiator,
        x.as_slice(),
        st.nonce.as_slice(),
        fields[1].as_slice(),
        st.auth.as_slice(),
        ack,
    );
    wipe(&mut x);
    Ok(session)
}

/// Completes the initiator's side with the auth-ack message `ack`, as read
/// with its length prefix: opens it with the static secret and derives the
/// session states. The ephemeral secret and the nonce are wiped whatever
/// the outcome.
pub fn finish(st: Initiator, keys: &StaticKeyPair, ack: &[u8]) -> (r: Result<
    Session,
    HandshakeError,
>)
    requires
        st.wf(),
        keys.wf(),
    ensures
        match r {
            Ok(s) => {
                &&& is_prefixed_message(ack@)
                &&& !s.closed
                &&& s.wf()
                &&& exists|plain: Seq<u8>|
                    initiator_keys(st.ephemeral_secret@, st.nonce@, st.auth@, ack@, plain)
                        == Some((s.egress@, s.ingress@))
            },
            Err(e) => e == HandshakeError::ProtocolError,
        },
        !is_prefixed_message(ack@) ==> r is Err,
{
    let mut st = st;
    let r = match open_message(keys.secret.as_slice(), ack) {
        Err(e) => Err(e),
        Ok(mut plain) => {
            let r = accept_ack(&st, ack, plain.as_slice());
            wipe(&mut plain);
            r
        },
    };
    wipe(&mut st.ephemeral_secret);
    wipe(&mut st.nonce);
    r
}

/// What a recipient learns from an auth body: the initiator's static and
/// ephemeral public keys and its nonce.
pub struct AuthInfo {
    pub remote_static: Vec<u8>,
    pub remote_ephemeral: Vec<u8>,
    pub remote_nonce: Vec<u8>,
}

/// What a recipient with static secret `secret` learns from the opened auth
/// body `plain`: the ephemeral key is recovered from the signature of the
/// static shared secret XOR the nonce.
pub open spec fn auth_info_of(secret: Seq<u8>, plain: Seq<u8>) -> Option<
    (Seq<u8>, Seq<u8>, Seq<u8>),
> {
    match auth_contents(plain) {
        None => None,
        Some(fs) => match shared_x_of(secret, sec1_of(fs[1])) {
            None => None,
            Some(x) => match signer_of(fs[0], xor_bytes(x, fs[2])) {
                None => None,
                Some(ephemeral) => Some((sec1_of(fs[1]), ephemeral, fs[2])),
            },
        },
    }
}

/// The states of a session as a recipient with static secret `secret`
/// derives them from the opened auth body `plain`, with its ephemeral
/// secret and nonce.
pub open spec fn recipient_keys(
    secret: Seq<u8>,
    plain: Seq<u8>,
    ephemeral: Seq<u8>,
    nonce: Seq<u8>,
    auth: Seq<u8>,
    ack: Seq<u8>,
) -> Option<(FrameKeys, FrameKeys)> {
    match auth_info_of(secret, plain) {
        None => None,
        Some(info) => match shared_x_of(ephemeral, info.1) {
            None => None,
            Some(x) => Some(session_keys(Role::Recipient, x, info.2, nonce, auth, ack)),
        },
    }
}

/// The two sides of a handshake derive mirrored states: what one sends
/// with, the other receives with. This holds where each side read what the
/// other sent (the recipient's ephemeral key and nonce in the auth-ack, the
/// initiator's nonce in the auth) and the two Diffie-Hellman exchanges of
/// the ephemeral keys agree.
pub proof fn lemma_handshake_mirror(
    initiator_ephemeral: Seq<u8>,
    ni: Seq<u8>,
    plain_ack: Seq<u8>,
    secret: Seq<u8>,
    plain_auth: Seq<u8>,
    recipient_ephemeral: Seq<u8>,
    nr: Seq<u8>,
    auth: Seq<u8>,
    ack: Seq<u8>,
)
    requires
        ack_contents(plain_ack) is Some,
        auth_info_of(secret, plain_auth) is Some,
        ack_contents(plain_ack)->Some_0[1] == nr,
        auth_info_of(secret, plain_auth)->Some_0.2 == ni,
        shared_x_of(initiator_ephemeral, sec1_of(ack_contents(plain_ack)->Some_0[0])) is Some,
        shared_x_of(initiator_ephemeral, sec1_of(ack_contents(plain_ack)->Some_0[0]))
            == shared_x_of(recipient_ephemeral, auth_info_of(secret, plain_auth)->Some_0.1),
    ensures
        initiator_keys(initiator_ephemeral, ni, auth, ack, plain_ack) is Some,
        recipient_keys(secret, plain_auth, recipient_ephemeral, nr, auth, ack) is Some,
        initiator_keys(initiator_ephemeral, ni, auth, ack, plain_ack)->Some_0.0 == recipient_keys(
            secret,
            plain_auth,
            recipient_ephemeral,
            nr,
            auth,
            ack,
        )->Some_0.1,
        initiator_keys(initiator_ephemeral, ni, auth, ack, plain_ack)->Some_0.1 == recipient_keys(
            secret,
            plain_auth,
            recipient_ephemeral,
            nr,
            auth,
            ack,
        )->Some_0.0,
{
}

/// Reads an opened auth body on the recipient's side.
pub fn accept_auth(keys: &StaticKeyPair, plain: &[u8]) -> (r: Result<AuthInfo, HandshakeError>)
    requires
        keys.wf(),
    ensures
        match r {
            Ok(a) => {
                &&& auth_info_of(keys.secret@, plain@) == Some(
                    (a.remote_static@, a.remote_ephemeral@, a.remote_nonce@),
                )
                &&& a.remote_nonce@.len() == 32
            },
            Err(e) => e == HandshakeError::ProtocolError && auth_info_of(keys.secret@, plain@) is None,
        },
{
    let fields = match read_auth_fields(plain) {
        Some(f) => f,
        None => {
            return Err(HandshakeError::ProtocolError);
        },
    };
    let remote_static = sec1_key(fields[1].as_slice());
    let mut x = match ecdh(keys.secret.as_slice(), remote_static.as_slice()) {
        Some(x) => x,
        None => {
            return Err(HandshakeError::ProtocolError);
        },
    };
    let mut message = xor(x.as_slice(), fields[2].as_slice());
    let recovered = recover(fields[0].as_slice(), message.as_slice());
    wipe(&mut x);
    wipe(&mut message);
    match recovered {
        Some(remote_ephemeral) => Ok(
            AuthInfo {
                remote_static,
                remote_ephemeral,
                remote_nonce: copy_range(fields[2].as_slice(), 0, 32),
            },
        ),
        None => Err(HandshakeError::ProtocolError),
    }
}

/// The auth-ack body of a recipient with the given ephemeral node id and
/// nonce.
pub fn ack_body(ephemeral_id: &[u8], nonce: &[u8]) -> (r: Vec<u8>)
    ensures
        r@ == list_encoding(ack_fields(ephemeral_id@, nonce@)),
{
    let mut fields: Vec<Vec<u8>> = Vec::new();
    fields.push(copy_range(ephemeral_id, 0, ephemeral_id.len()));
    fields.push(copy_range(nonce, 0, nonce.len()));
    fields.push(encode_uint(AUTH_VERSION));
    proof {
        assert(ephemeral_id@.subrange(0, ephemeral_id@.len() as int) == ephemeral_id@);
        assert(nonce@.subrange(0, nonce@.len() as int) == nonce@);
        assert(field_seqs(fields@) == ack_fields(ephemeral_id@, nonce@));
    }
    encode_list(&fields)
}

/// Completes the recipient's side: derives the session states from what
/// the auth body gave, the recipient's ephemeral secret and nonce, and both
/// messages as sent.
pub fn recipient_session(
    info: &AuthInfo,
    ephemeral_secret: &[u8],
    nonce: &[u8],
    auth: &[u8],
    ack: &[u8],
) -> (r: Result<Session, HandshakeError>)
    requires
        ephemeral_secret@.len() == 32,
        nonce@.len() == 32,
        info.remote_nonce@.len() == 32,
    ensures
        match r {
            Ok(s) => {
                &&& shared_x_of(ephemeral_secret@, info.remote_ephemeral@) matches Some(x)
                    && (s.egress@, s.ingress@) == session_keys(
                    Role::Recipient,
                    x,
                    info.remote_nonce@,
                    nonce@,
                    auth@,
                    ack@,
                )
                &&& !s.closed
                &&& s.wf()
            },
            Err(e) => {
                &&& e == HandshakeError::ProtocolError
                &&& shared_x_of(ephemeral_secret@, info.remote_ephemeral@) is None
            },
        },
{
    let mut x = match ecdh(ephemeral_secret, info.remote_ephemeral.as_slice()) {
        Some(x) => x,
        None => {
            return Err(HandshakeError::ProtocolError);
        },
    };
    let session = derive_session(
        Role::Recipient,
        x.as_slice(),
        info.remote_nonce.as_slice(),
        nonce,
        auth,
        ack,
    );
    wipe(&mut x);
    Ok(session)
}

/// Answers an auth message, as read with its length prefix, on the
/// recipient's side with the given ephemeral key pair and nonce: opens and
/// checks it, seals the auth-ack, and gives the session with the auth-ack
/// message to send. The ephemeral secret and the nonce are wiped whatever
/// the outcome.
pub fn respond_with(
    keys: &StaticKeyPair,
    auth: &[u8],
    ephemeral: StaticKeyPair,
    nonce: Vec<u8>,
) -> (r: Result<(Session, Vec<u8>), HandshakeError>)
    requires
        keys.wf(),
        ephemeral.wf(),
        nonce@.len() == 32,
    ensures
        match r {
            Ok((s, ack)) => {
                &&& is_prefixed_message(auth@)
                &&& is_prefixed_message(ack@)
                &&& !s.closed
                &&& s.wf()
                &&& exists|plain: Seq<u8>|
                    recipient_keys(keys.secret@, plain, ephemeral.secret@, nonce@, auth@, ack@)
                        == Some((s.egress@, s.ingress@))
            },
            Err(e) => e == HandshakeError::ProtocolError || e == HandshakeError::EciesEncryptError,
        },
        !is_prefixed_message(auth@) ==> r == Err::<(Session, Vec<u8>), _>(
            HandshakeError::ProtocolError,
        ),
{
    let mut ephemeral = ephemeral;
    let mut nonce = nonce;
    let mut plain = match open_message(keys.secret.as_slice(), auth) {
        Ok(p) => p,
        Err(e) => {
            wipe(&mut ephemeral.secret);
            wipe(&mut nonce);
            return Err(e);
        },
    };
    let info = accept_auth(keys, plain.as_slice());
    let ghost opened = plain@;
    wipe(&mut plain);
    let mut info = match info {
        Ok(i) => i,
        Err(e) => {
            wipe(&mut ephemeral.secret);
            wipe(&mut nonce);
            return Err(e);
        },
    };
    let id = ephemeral.node_id();
    let body = ack_body(id.as_slice(), nonce.as_slice());
    let r = match seal_message(info.remote_static.as_slice(), body.as_slice()) {
        Err(e) => Err(e),
        Ok(ack) => match recipient_session(
            &info,
            ephemeral.secret.as_slice(),
            nonce.as_slice(),
            auth,
            ack.as_slice(),
        ) {
            Ok(session) => {
                proof {
                    assert(recipient_keys(
                        keys.secret@,
                        opened,
                        ephemeral.secret@,
                        nonce@,
                        auth@,
                        ack@,
                    ) == Some((session.egress@, session.ingress@)));
                }
                Ok((session, ack))
            },
            Err(e) => Err(e),
        },
    };
    wipe(&mut ephemeral.secret);
    wipe(&mut nonce);
    wipe(&mut info.remote_nonce);
    r
}

/// Answers an auth message on the recipient's side: checks its length
/// prefix, draws a fresh ephemeral key pair and nonce, and answers with
/// them as `respond_with` does.
pub fn respond(keys: &StaticKeyPair, auth: &[u8]) -> (r: Result<(Session, Vec<u8>), HandshakeError>)
    requires
        keys.wf(),
    ensures
        match r {
            Ok((s, ack)) => {
                &&& is_prefixed_message(auth@)
                &&& is_prefixed_message(ack@)
                &&& !s.closed
                &&& s.wf()
                &&& exists|plain: Seq<u8>, ephemeral: Seq<u8>, nonce: Seq<u8>|
                    recipient_keys(keys.secret@, plain, ephemeral, nonce, auth@, ack@) == Some(
                        (s.egress@, s.ingress@),
                    )
            },
            Err(e) => e == HandshakeError::ProtocolError || e == HandshakeError::KeyError || e
                == HandshakeError::EciesEncryptError,
        },
        !is_prefixed_message(auth@) ==> r == Err::<(Session, Vec<u8>), _>(
            HandshakeError::ProtocolError,
        ),
{
    if strip_length_prefix(auth).is_none() {
        return Err(HandshakeError::ProtocolError);
    }
    let mut ephemeral = StaticKeyPair::generate()?;
    let nonce = match random_bytes(32) {
        Some(n) => n,
        None => {
            wipe(&mut ephemeral.secret);
            return Err(HandshakeError::KeyError);
        },
    };
    respond_with(keys, auth, ephemeral, nonce)
}

} // verus!
