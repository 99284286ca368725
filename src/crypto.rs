//! The cryptographic primitives of the handshake, over plain bytes.
//!
//! Each function here hands its arguments to an outside crate and states
//! what that crate documents of the result. Where the result takes pages to
//! state but depends on the arguments alone, it is given a name.

use vstd::prelude::*;

use aes::cipher::{KeyIvInit, StreamCipher, StreamCipherSeek};
use k256::elliptic_curve::sec1::ToEncodedPoint;
use rand_core::RngCore;
use sha3::Digest;

verus! {

/// The uncompressed SEC1 encoding of the public key of a 32-byte secret
/// scalar; `None` where the bytes are no valid scalar.
pub uninterp spec fn public_key_of(secret: Seq<u8>) -> Option<Seq<u8>>;

/// The x-coordinate of the Diffie-Hellman point of a secret scalar and a
/// SEC1-encoded public key; `None` where either does not parse.
pub uninterp spec fn shared_x_of(secret: Seq<u8>, public: Seq<u8>) -> Option<Seq<u8>>;

/// The deterministic recoverable ECDSA signature of a 32-byte digest.
pub uninterp spec fn signature_of(secret: Seq<u8>, digest: Seq<u8>) -> Option<Seq<u8>>;

/// The uncompressed SEC1 encoding of the key that made a recoverable
/// signature of a digest; `None` where no key can be recovered.
pub uninterp spec fn signer_of(signature: Seq<u8>, digest: Seq<u8>) -> Option<Seq<u8>>;

/// The Keccak-256 digest.
pub uninterp spec fn keccak_of(data: Seq<u8>) -> Seq<u8>;

/// `data` XORed with the AES-256-CTR keystream of `key` (zero IV) from byte
/// `offset` on.
pub uninterp spec fn keystream_xor(key: Seq<u8>, offset: u64, data: Seq<u8>) -> Seq<u8>;

/// Whether a byte is a hex digit of either case.
pub open spec fn is_hex_digit(c: u8) -> bool {
    (0x30 <= c <= 0x39) || (0x61 <= c <= 0x66) || (0x41 <= c <= 0x46)
}

/// The value of a hex digit.
pub open spec fn hex_digit_value(c: u8) -> nat {
    if c <= 0x39 {
        (c - 0x30) as nat
    } else if c >= 0x61 {
        (c - 0x61 + 10) as nat
    } else {
        (c - 0x41 + 10) as nat
    }
}

/// A text of hex digit pairs.
pub open spec fn is_hex_text(text: Seq<u8>) -> bool {
    &&& text.len() % 2 == 0
    &&& forall|i: int| 0 <= i < text.len() ==> is_hex_digit(#[trigger] text[i])
}

/// `bytes` is what the hex digit pairs of `text` stand for.
pub open spec fn is_hex_of(text: Seq<u8>, bytes: Seq<u8>) -> bool {
    &&& text.len() == 2 * bytes.len()
    &&& forall|i: int|
        0 <= i < bytes.len() ==> #[trigger] bytes[i] == hex_digit_value(text[2 * i]) * 16
            + hex_digit_value(text[2 * i + 1])
}

#[verifier::external_type_specification]
#[verifier::external_body]
pub struct ExFromHexError(hex::FromHexError);

/// Relies on hex's `decode`: each pair of hex digits, of either case, makes
/// a byte; an odd length or any other character is an error.
#[verifier::external_body]
pub(crate) fn decode_hex(text: &[u8]) -> (r: Result<Vec<u8>, hex::FromHexError>)
    ensures
        match r {
            Ok(v) => is_hex_text(text@) && is_hex_of(text@, v@),
            Err(_) => !is_hex_text(text@),
        },
{
    hex::decode(text)
}

/// Relies on rand_core's `OsRng::try_fill_bytes`: `len` bytes from the
/// operating system's random source, or `None` where it failed.
#[verifier::external_body]
pub(crate) fn random_bytes(len: usize) -> (r: Option<Vec<u8>>)
    ensures
        r matches Some(v) ==> v@.len() == len,
{
    let mut out = vec![0u8; len];
    rand_core::OsRng.try_fill_bytes(&mut out).ok()?;
    Some(out)
}

/// Relies on k256's `SecretKey::from_slice` and `PublicKey::to_encoded_point`:
/// the uncompressed SEC1 encoding, a `0x04` tag and two 32-byte coordinates.
#[verifier::external_body]
pub(crate) fn public_key(secret: &[u8]) -> (r: Option<Vec<u8>>)
    requires
        secret@.len() == 32,
    ensures
        match r {
            Some(p) => public_key_of(secret@) == Some(p@) && p@.len() == 65 && p@[0] == 4,
            None => public_key_of(secret@) is None,
        },
{
    let key = k256::SecretKey::from_slice(secret).ok()?;
    Some(key.public_key().to_encoded_point(false).as_bytes().to_vec())
}

/// Relies on k256's `ecdh::diffie_hellman`, with the keys parsed by
/// `SecretKey::from_slice` and `PublicKey::from_sec1_bytes`: the 32-byte
/// x-coordinate of the shared point.
#[verifier::external_body]
pub(crate) fn ecdh(secret: &[u8], public: &[u8]) -> (r: Option<Vec<u8>>)
    requires
        secret@.len() == 32,
    ensures
        match r {
            Some(x) => shared_x_of(secret@, public@) == Some(x@) && x@.len() == 32,
            None => shared_x_of(secret@, public@) is None,
        },
{
    let key = k256::SecretKey::from_slice(secret).ok()?;
    let point = k256::PublicKey::from_sec1_bytes(public).ok()?;
    let shared = k256::elliptic_curve::ecdh::diffie_hellman(
        key.to_nonzero_scalar(),
        point.as_affine(),
    );
    Some(shared.raw_secret_bytes().to_vec())
}

/// Relies on k256's `SigningKey::sign_prehash_recoverable` (RFC 6979, so
/// deterministic): the 64 bytes of `r` and `s`, then the recovery id.
#[verifier::external_body]
pub(crate) fn sign(secret: &[u8], digest: &[u8]) -> (r: Option<Vec<u8>>)
    requires
        secret@.len() == 32,
        digest@.len() == 32,
    ensures
        match r {
            Some(s) => signature_of(secret@, digest@) == Some(s@) && s@.len() == 65,
            None => signature_of(secret@, digest@) is None,
        },
{
    let key = k256::ecdsa::SigningKey::from_slice(secret).ok()?;
    let (signature, id) = key.sign_prehash_recoverable(digest).ok()?;
    let mut out = signature.to_bytes().to_vec();
    out.push(id.to_byte());
    Some(out)
}

/// Relies on k256's `VerifyingKey::recover_from_prehash`: the uncompressed
/// SEC1 encoding of the key that made a recoverable signature.
#[verifier::external_body]
pub(crate) fn recover(signature: &[u8], digest: &[u8]) -> (r: Option<Vec<u8>>)
    requires
        signature@.len() == 65,
        digest@.len() == 32,
    ensures
        match r {
            Some(p) => signer_of(signature@, digest@) == Some(p@) && p@.len() == 65 && p@[0]
                == 4,
            None => signer_of(signature@, digest@) is None,
        },
{
    let parsed = k256::ecdsa::Signature::from_slice(&signature[..64]).ok()?;
    let id = k256::ecdsa::RecoveryId::from_byte(signature[64])?;
    let key = k256::ecdsa::VerifyingKey::recover_from_prehash(digest, &parsed, id).ok()?;
    Some(key.to_encoded_point(false).as_bytes().to_vec())
}

/// Relies on sha3's `Keccak256`: the 32-byte digest.
#[verifier::external_body]
pub(crate) fn keccak256(data: &[u8]) -> (r: Vec<u8>)
    ensures
        r@ == keccak_of(data@),
        r@.len() == 32,
{
    sha3::Keccak256::digest(data).to_vec()
}

/// Relies on ctr's `Ctr128BE<Aes256>` with a zero IV, sought to `offset`:
/// `data` XORed with the keystream. XOR with a fixed keystream is its own
/// inverse: the same call on the result gives `data` back, and the result
/// is the only string that the call maps to `data`.
#[verifier::external_body]
pub(crate) fn apply_keystream(key: &[u8], offset: u64, data: &[u8]) -> (r: Vec<u8>)
    requires
        key@.len() == 32,
    ensures
        r@ == keystream_xor(key@, offset, data@),
        r@.len() == data@.len(),
        keystream_xor(key@, offset, r@) == data@,
        forall|d: Seq<u8>| #[trigger] keystream_xor(key@, offset, d) == data@ ==> d == r@,
{
    let mut cipher = ctr::Ctr128BE::<aes::Aes256>::new(key.into(), &[0u8; 16].into());
    cipher.seek(offset);
    let mut out = data.to_vec();
    cipher.apply_keystream(&mut out);
    out
}

/// What a sealed message holds beyond its ciphertext, which is as long as
/// the message: the one-time public key (65 bytes uncompressed, 33
/// compressed, as ecies's process-wide configuration says), a 16-byte nonce
/// and a 16-byte tag.
pub open spec fn is_seal_overhead(n: int) -> bool {
    n == 97 || n == 65
}

/// Relies on ecies's `encrypt`: the message sealed to the holder of the
/// secret key of `public` under a fresh one-time key, or `None` where
/// `public` does not parse. AES-256-GCM keeps the length of the message.
/// The one-time key comes from the operating system's random source, and
/// `encrypt` panics where that fails.
#[verifier::external_body]
pub(crate) fn seal(public: &[u8], message: &[u8]) -> (r: Option<Vec<u8>>)
    ensures
        r matches Some(s) ==> is_seal_overhead(s@.len() - message@.len()),
{
    ecies::encrypt(public, message).ok()
}

/// Relies on ecies's `decrypt`: the message, or `None` where the sealed
/// bytes are malformed or fail their authentication. AES-256-GCM keeps the
/// length of the ciphertext.
#[verifier::external_body]
pub(crate) fn open(secret: &[u8], sealed: &[u8]) -> (r: Option<Vec<u8>>)
    ensures
        r matches Some(p) ==> is_seal_overhead(sealed@.len() - p@.len()),
{
    ecies::decrypt(secret, sealed).ok()
}

/// Relies on zeroize's `Zeroize` for `Vec`, as secrecy re-exports it: the
/// bytes are overwritten with zeros and the vector is emptied.
#[verifier::external_body]
pub(crate) fn wipe(buf: &mut Vec<u8>)
    ensures
        final(buf)@.len() == 0,
{
    secrecy::zeroize::Zeroize::zeroize(buf)
}

} // verus!
