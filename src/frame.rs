//! The frame codec of an established session.
//!
//! Each direction has its own cipher key, keystream position and running MAC
//! state. A frame is laid out as
//!
//! `header ciphertext (16) ‖ header tag (16) ‖ body ciphertext ‖ frame tag (16)`
//!
//! where the header holds the payload length in three big-endian bytes and
//! zeros, the body holds the payload padded with zeros to a multiple of 16
//! bytes, and each tag is the first 16 bytes of the MAC state after it
//! absorbed the ciphertext before it: the new state is the Keccak-256 digest
//! of the old state followed by that ciphertext. Since each tag depends on
//! every frame before it, a frame that is dropped, repeated or moved fails
//! its tag.

use vstd::prelude::*;

use crate::codec::{copy_range, push_all};
use crate::crypto::{apply_keystream, keccak256, keccak_of, keystream_xor, wipe};
use crate::errors::SessionError;

verus! {

/// The state of one direction of a session.
pub struct FrameKeys {
    pub key: Seq<u8>,
    pub mac: Seq<u8>,
    pub offset: u64,
}

/// The state of one direction: cipher key, running MAC state, keystream position.
pub struct FrameState {
    pub key: Vec<u8>,
    pub mac: Vec<u8>,
    pub offset: u64,
}

impl View for FrameState {
    type V = FrameKeys;

    open spec fn view(&self) -> FrameKeys {
        FrameKeys { key: self.key@, mac: self.mac@, offset: self.offset }
    }
}

/// An established session: the state of each direction, and whether a
/// failure closed it.
pub struct Session {
    pub egress: FrameState,
    pub ingress: FrameState,
    pub closed: bool,
}

impl Session {
    /// Both directions hold a 32-byte key and a 32-byte MAC state.
    pub open spec fn wf(&self) -> bool {
        &&& self.egress.key@.len() == 32
        &&& self.egress.mac@.len() == 32
        &&& self.ingress.key@.len() == 32
        &&& self.ingress.mac@.len() == 32
    }

    /// An open session holds its keys; a closed one may have wiped them.
    pub open spec fn inv(&self) -> bool {
        self.closed || self.wf()
    }

    /// All key material is wiped.
    pub open spec fn is_wiped(&self) -> bool {
        &&& self.egress.key@.len() == 0
        &&& self.egress.mac@.len() == 0
        &&& self.ingress.key@.len() == 0
        &&& self.ingress.mac@.len() == 0
    }
}

/// The length of a body: the payload padded to a multiple of 16 bytes.
pub open spec fn padded_len(n: nat) -> nat {
    ((n + 15) / 16) * 16
}

/// `n` zero bytes.
pub open spec fn zeros(n: nat) -> Seq<u8> {
    Seq::new(n, |i: int| 0u8)
}

/// The plain header of a frame with `n` payload bytes: `n` in three
/// big-endian bytes, then zeros.
pub open spec fn header_plain(n: nat) -> Seq<u8> {
    seq![(n / 65536) as u8, ((n / 256) % 256) as u8, (n % 256) as u8] + zeros(13)
}

/// The plain body of a frame: the payload and its padding.
pub open spec fn body_plain(payload: Seq<u8>) -> Seq<u8> {
    payload + zeros((padded_len(payload.len()) - payload.len()) as nat)
}

/// The encrypted header of a frame of `n` payload bytes from state `s`.
pub open spec fn header_cipher(s: FrameKeys, n: nat) -> Seq<u8> {
    keystream_xor(s.key, s.offset, header_plain(n))
}

/// The encrypted body of a frame of `payload` from state `s`.
pub open spec fn body_cipher(s: FrameKeys, payload: Seq<u8>) -> Seq<u8> {
    keystream_xor(s.key, (s.offset + 16) as u64, body_plain(payload))
}

/// The MAC state after the header of a frame of `n` payload bytes.
pub open spec fn header_mac(s: FrameKeys, n: nat) -> Seq<u8> {
    keccak_of(s.mac + header_cipher(s, n))
}

/// The MAC state after a frame of `payload`.
pub open spec fn body_mac(s: FrameKeys, payload: Seq<u8>) -> Seq<u8> {
    keccak_of(header_mac(s, payload.len()) + body_cipher(s, payload))
}

/// A payload that a frame from state `s` can carry: its length fits in the
/// header and the keystream positions fit in 64 bits.
pub open spec fn fits_frame(s: FrameKeys, n: nat) -> bool {
    n < 0x100_0000 && s.offset + 16 + padded_len(n) <= u64::MAX
}

/// The parts of a frame have their sizes: each ciphertext the length of
/// its plaintext, each MAC state 32 bytes.
pub open spec fn parts_sized(s: FrameKeys, payload: Seq<u8>) -> bool {
    &&& header_cipher(s, payload.len()).len() == 16
    &&& body_cipher(s, payload).len() == padded_len(payload.len())
    &&& header_mac(s, payload.len()).len() == 32
    &&& body_mac(s, payload).len() == 32
}

/// The bytes of the frame of `payload` from state `s`.
pub open spec fn frame_bytes(s: FrameKeys, payload: Seq<u8>) -> Seq<u8> {
    header_cipher(s, payload.len()) + header_mac(s, payload.len()).take(16) + body_cipher(
        s,
        payload,
    ) + body_mac(s, payload).take(16)
}

/// The state after the frame of `payload` from state `s`.
pub open spec fn state_after(s: FrameKeys, payload: Seq<u8>) -> FrameKeys {
    FrameKeys {
        key: s.key,
        mac: body_mac(s, payload),
        offset: (s.offset + 16 + padded_len(payload.len())) as u64,
    }
}

/// `buf` starts with a frame of `payload` from state `s`.
pub open spec fn starts_with_frame(s: FrameKeys, payload: Seq<u8>, buf: Seq<u8>) -> bool {
    &&& fits_frame(s, payload.len())
    &&& parts_sized(s, payload)
    &&& frame_bytes(s, payload).is_prefix_of(buf)
}

/// What one side writes from a state, the other side reads back from the
/// same state: the frame of a payload, followed by anything at all, starts
/// with a frame of that payload, so that the reader gives it back and both
/// sides move to the same state.
pub proof fn lemma_frame_round_trip(s: FrameKeys, payload: Seq<u8>, rest: Seq<u8>)
    requires
        fits_frame(s, payload.len()),
        parts_sized(s, payload),
    ensures
        starts_with_frame(s, payload, frame_bytes(s, payload) + rest),
{
    let f = frame_bytes(s, payload);
    assert((f + rest).subrange(0, f.len() as int) == f);
}

proof fn lemma_frame_parts(s: FrameKeys, p: Seq<u8>, buf: Seq<u8>)
    requires
        starts_with_frame(s, p, buf),
    ensures
        ({
            let n = p.len();
            let e = padded_len(n) as int;
            &&& buf.len() >= 48 + e
            &&& buf.subrange(0, 16) == header_cipher(s, n)
            &&& buf.subrange(16, 32) == header_mac(s, n).take(16)
            &&& buf.subrange(32, 32 + e) == body_cipher(s, p)
            &&& buf.subrange(32 + e, 48 + e) == body_mac(s, p).take(16)
        }),
{
    let n = p.len();
    let e = padded_len(n) as int;
    let f = frame_bytes(s, p);
    assert(f.len() == 48 + e);
    assert(buf.subrange(0, f.len() as int) == f);
    assert(buf.subrange(0, 16) == f.subrange(0, 16));
    assert(buf.subrange(16, 32) == f.subrange(16, 32));
    assert(buf.subrange(32, 32 + e) == f.subrange(32, 32 + e));
    assert(buf.subrange(32 + e, 48 + e) == f.subrange(32 + e, 48 + e));
}

/// Whether two 16-byte tags are equal, looking at every byte whatever the
/// first difference.
fn tags_equal(a: &[u8], b: &[u8]) -> (r: bool)
    requires
        a@.len() == 16,
        b@.len() == 16,
    ensures
        r == (a@ == b@),
{
    let mut diff: u8 = 0;
    let mut i: usize = 0;
    assert(a@.take(0) =~= b@.take(0));
    while i < 16
        invariant
            a@.len() == 16,
            b@.len() == 16,
            i <= 16,
            (diff == 0) == (a@.take(i as int) == b@.take(i as int)),
        decreases 16 - i,
    {
        let x = a[i];
        let y = b[i];
        assert((diff | (x ^ y)) == 0 <==> (diff == 0 && x == y)) by (bit_vector);
        diff = diff | (x ^ y);
        proof {
            let (ta, tb) = (a@.take(i + 1), b@.take(i + 1));
            assert(ta == a@.take(i as int).push(x) && tb == b@.take(i as int).push(y));
            if ta == tb {
                assert(ta.drop_last() == a@.take(i as int) && tb.drop_last() == b@.take(i as int));
                assert(ta.last() == x && tb.last() == y);
            }
        }
        i = i + 1;
    }
    assert(a@.take(16) == a@ && b@.take(16) == b@);
    diff == 0
}

/// `n` zero bytes.
fn zero_bytes(n: usize) -> (r: Vec<u8>)
    ensures
        r@ == zeros(n as nat),
{
    let mut out: Vec<u8> = Vec::new();
    let mut i: usize = 0;
    while i < n
        invariant
            i <= n,
            out@ == zeros(i as nat),
        decreases n - i,
    {
        out.push(0u8);
        i = i + 1;
        assert(out@ == zeros(i as nat));
    }
    out
}

/// The first sixteen bytes of a MAC state.
fn tag_of(mac: &[u8]) -> (r: Vec<u8>)
    requires
        mac@.len() == 32,
    ensures
        r@ == mac@.take(16),
{
    copy_range(mac, 0, 16)
}

/// The MAC state after absorbing `data`.
fn absorb(mac: &[u8], data: &[u8]) -> (r: Vec<u8>)
    ensures
        r@ == keccak_of(mac@ + data@),
        r@.len() == 32,
{
    let mut input: Vec<u8> = Vec::new();
    push_all(&mut input, mac);
    push_all(&mut input, data);
    keccak256(input.as_slice())
}

proof fn lemma_header_plain(n: nat, h: Seq<u8>)
    requires
        n < 0x100_0000,
        h.len() == 16,
        n == h[0] * 65536 + h[1] * 256 + h[2],
        h.subrange(3, 16) == zeros(13),
    ensures
        h == header_plain(n),
{
    assert((n / 65536) as u8 == h[0] && ((n / 256) % 256) as u8 == h[1] && (n % 256) as u8 == h[2])
        by (nonlinear_arith)
        requires
            n == h[0] * 65536 + h[1] * 256 + h[2],
            h[0] < 256,
            h[1] < 256,
            h[2] < 256,
    ;
    assert(h =~= header_plain(n));
}

proof fn lemma_padded_len(n: nat)
    ensures
        n <= padded_len(n) < n + 16,
{
    assert(n <= ((n + 15) / 16) * 16 < n + 16) by (nonlinear_arith);
}

impl Session {
    /// Closes the session: its keys and MAC states are wiped.
    pub fn close(&mut self)
        ensures
            final(self).closed,
            final(self).is_wiped(),
    {
        wipe(&mut self.egress.key);
        wipe(&mut self.egress.mac);
        wipe(&mut self.ingress.key);
        wipe(&mut self.ingress.mac);
        self.closed = true;
    }

    /// Wraps `payload` into a frame for the peer.
    pub fn write_frame(&mut self, payload: &[u8]) -> (r: Result<Vec<u8>, SessionError>)
        requires
            old(self).inv(),
        ensures
            final(self).inv(),
            final(self).ingress == old(self).ingress,
            final(self).closed == old(self).closed,
            match r {
                Ok(f) => {
                    &&& !old(self).closed
                    &&& fits_frame(old(self).egress@, payload@.len())
                    &&& parts_sized(old(self).egress@, payload@)
                    &&& f@ == frame_bytes(old(self).egress@, payload@)
                    &&& final(self).egress@ == state_after(old(self).egress@, payload@)
                },
                Err(SessionError::Closed) => old(self).closed && final(self).egress == old(
                    self,
                ).egress,
                Err(SessionError::TooLarge) => {
                    &&& !old(self).closed
                    &&& !fits_frame(old(self).egress@, payload@.len())
                    &&& final(self).egress == old(self).egress
                },
                Err(_) => false,
            },
    {
        if self.closed {
            return Err(SessionError::Closed);
        }
        let n = payload.len();
        if n >= 0x100_0000 {
            return Err(SessionError::TooLarge);
        }
        let padded = (n + 15) / 16 * 16;
        proof {
            lemma_padded_len(n as nat);
        }
        if self.egress.offset > u64::MAX - 16 - padded as u64 {
            return Err(SessionError::TooLarge);
        }
        let ghost s = self.egress@;
        let mut header: Vec<u8> = Vec::new();
        header.push((n / 65536) as u8);
        header.push(((n / 256) % 256) as u8);
        header.push((n % 256) as u8);
        push_all(&mut header, zero_bytes(13).as_slice());
        assert(header@ == header_plain(n as nat));
        let mut body: Vec<u8> = Vec::new();
        push_all(&mut body, payload);
        push_all(&mut body, zero_bytes(padded - n).as_slice());
        assert(body@ == body_plain(payload@));
        let header_ct = apply_keystream(self.egress.key.as_slice(), self.egress.offset, header.as_slice());
        let mac1 = absorb(self.egress.mac.as_slice(), header_ct.as_slice());
        let body_ct = apply_keystream(
            self.egress.key.as_slice(),
            self.egress.offset + 16,
            body.as_slice(),
        );
        let mac2 = absorb(mac1.as_slice(), body_ct.as_slice());
        let mut frame: Vec<u8> = Vec::new();
        push_all(&mut frame, header_ct.as_slice());
        push_all(&mut frame, tag_of(mac1.as_slice()).as_slice());
        push_all(&mut frame, body_ct.as_slice());
        push_all(&mut frame, tag_of(mac2.as_slice()).as_slice());
        self.egress.mac = mac2;
        self.egress.offset = self.egress.offset + 16 + padded as u64;
        Ok(frame)
    }

    /// Reads the frame from the peer at the start of `buf`; gives its
    /// payload and the number of bytes it took.
    ///
    /// A frame that fails its tag, or is malformed behind a valid tag,
    /// closes the session for good and wipes its keys. Where `buf` holds
    /// fewer bytes than the frame needs, nothing changes: read more and call
    /// again.
    pub fn read_frame(&mut self, buf: &[u8]) -> (r: Result<(Vec<u8>, usize), SessionError>)
        requires
            old(self).inv(),
        ensures
            final(self).inv(),
            match r {
                Ok((p, used)) => {
                    &&& final(self).egress == old(self).egress
                    &&& !old(self).closed
                    &&& !final(self).closed
                    &&& starts_with_frame(old(self).ingress@, p@, buf@)
                    &&& forall|q: Seq<u8>| #[trigger]
                        starts_with_frame(old(self).ingress@, q, buf@) ==> q == p@
                    &&& used == frame_bytes(old(self).ingress@, p@).len()
                    &&& final(self).ingress@ == state_after(old(self).ingress@, p@)
                },
                Err(SessionError::Closed) => *final(self) == *old(self) && old(self).closed,
                Err(SessionError::Truncated) => {
                    &&& final(self).egress == old(self).egress
                    &&& !old(self).closed
                    &&& !final(self).closed
                    &&& final(self).ingress == old(self).ingress
                    &&& forall|q: Seq<u8>| !#[trigger] starts_with_frame(old(self).ingress@, q, buf@)
                },
                Err(SessionError::TooLarge) => false,
                Err(_) => {
                    &&& !old(self).closed
                    &&& final(self).closed
                    &&& final(self).is_wiped()
                    &&& forall|q: Seq<u8>| !#[trigger] starts_with_frame(old(self).ingress@, q, buf@)
                },
            },
    {
        if self.closed {
            return Err(SessionError::Closed);
        }
        let ghost s = self.ingress@;
        if buf.len() < 32 {
            proof {
                assert forall|q: Seq<u8>| !#[trigger] starts_with_frame(s, q, buf@) by {
                    if starts_with_frame(s, q, buf@) {
                        lemma_frame_parts(s, q, buf@);
                    }
                }
            }
            return Err(SessionError::Truncated);
        }
        let header_ct = copy_range(buf, 0, 16);
        let mac1 = absorb(self.ingress.mac.as_slice(), header_ct.as_slice());
        let given1 = copy_range(buf, 16, 16);
        let tag1 = tag_of(mac1.as_slice());
        if !tags_equal(tag1.as_slice(), given1.as_slice()) {
            proof {
                assert forall|q: Seq<u8>| !#[trigger] starts_with_frame(s, q, buf@) by {
                    if starts_with_frame(s, q, buf@) {
                        lemma_frame_parts(s, q, buf@);
                    }
                }
            }
            self.close();
            return Err(SessionError::MacMismatch);
        }
        let header = apply_keystream(self.ingress.key.as_slice(), self.ingress.offset, header_ct.as_slice());
        proof {
            assert forall|q: Seq<u8>| #[trigger] starts_with_frame(s, q, buf@) implies header@
                == header_plain(q.len()) by {
                lemma_frame_parts(s, q, buf@);
                assert(keystream_xor(s.key, s.offset, header_plain(q.len())) == header_ct@);
            }
        }
        if !all_zero(header.as_slice(), 3, 16) {
            proof {
                assert forall|q: Seq<u8>| !#[trigger] starts_with_frame(s, q, buf@) by {
                    if starts_with_frame(s, q, buf@) {
                        assert(header@.subrange(3, 16) =~= zeros(13));
                    }
                }
            }
            self.close();
            return Err(SessionError::Malformed);
        }
        let n = header[0] as usize * 65536 + header[1] as usize * 256 + header[2] as usize;
        proof {
            assert(header@.subrange(3, 16) =~= zeros(13));
            lemma_header_plain(n as nat, header@);
            assert forall|q: Seq<u8>| #[trigger] starts_with_frame(s, q, buf@) implies q.len()
                == n by {
                lemma_header_value(q.len());
            }
            lemma_padded_len(n as nat);
        }
        let padded = (n + 15) / 16 * 16;
        if self.ingress.offset > u64::MAX - 16 - padded as u64 {
            self.close();
            return Err(SessionError::Malformed);
        }
        if buf.len() < 48 || buf.len() - 48 < padded {
            proof {
                assert forall|q: Seq<u8>| !#[trigger] starts_with_frame(s, q, buf@) by {
                    if starts_with_frame(s, q, buf@) {
                        lemma_frame_parts(s, q, buf@);
                    }
                }
            }
            return Err(SessionError::Truncated);
        }
        let body_ct = copy_range(buf, 32, padded);
        let mac2 = absorb(mac1.as_slice(), body_ct.as_slice());
        let given2 = copy_range(buf, 32 + padded, 16);
        let tag2 = tag_of(mac2.as_slice());
        if !tags_equal(tag2.as_slice(), given2.as_slice()) {
            proof {
                assert forall|q: Seq<u8>| !#[trigger] starts_with_frame(s, q, buf@) by {
                    if starts_with_frame(s, q, buf@) {
                        lemma_frame_parts(s, q, buf@);
                    }
                }
            }
            self.close();
            return Err(SessionError::MacMismatch);
        }
        let body = apply_keystream(
            self.ingress.key.as_slice(),
            self.ingress.offset + 16,
            body_ct.as_slice(),
        );
        proof {
            assert forall|q: Seq<u8>| #[trigger] starts_with_frame(s, q, buf@) implies body@
                == body_plain(q) by {
                lemma_frame_parts(s, q, buf@);
                assert(keystream_xor(s.key, (s.offset + 16) as u64, body_plain(q)) == body_ct@);
            }
        }
        if !all_zero(body.as_slice(), n, padded) {
            proof {
                assert forall|q: Seq<u8>| !#[trigger] starts_with_frame(s, q, buf@) by {
                    if starts_with_frame(s, q, buf@) {
                        assert(body@.subrange(n as int, padded as int) =~= zeros(
                            (padded - n) as nat,
                        ));
                    }
                }
            }
            self.close();
            return Err(SessionError::Malformed);
        }
        let payload = copy_range(body.as_slice(), 0, n);
        proof {
            assert(body@.subrange(n as int, padded as int) =~= zeros((padded - n) as nat));
            assert(body@ =~= body_plain(payload@));
            assert(buf@.subrange(0, 48 + padded) =~= frame_bytes(s, payload@));
            assert forall|q: Seq<u8>| #[trigger] starts_with_frame(s, q, buf@) implies q
                == payload@ by {
                assert(q =~= body_plain(q).take(q.len() as int));
            }
        }
        self.ingress.mac = mac2;
        self.ingress.offset = self.ingress.offset + 16 + padded as u64;
        Ok((payload, 48 + padded))
    }
}

/// Whether the bytes of `b` from `start` up to `end` are all zero.
fn all_zero(b: &[u8], start: usize, end: usize) -> (r: bool)
    requires
        start <= end <= b@.len(),
    ensures
        r == (b@.subrange(start as int, end as int) == zeros((end - start) as nat)),
{
    let mut i: usize = start;
    while i < end
        invariant
            start <= i <= end <= b@.len(),
            b@.subrange(start as int, i as int) == zeros((i - start) as nat),
        decreases end - i,
    {
        if b[i] != 0 {
            assert(b@.subrange(start as int, end as int)[i - start] != zeros(
                (end - start) as nat,
            )[i - start]);
            return false;
        }
        i = i + 1;
        assert(b@.subrange(start as int, i as int) =~= zeros((i - start) as nat));
    }
    true
}

proof fn lemma_header_value(m: nat)
    requires
        m < 0x100_0000,
    ensures
        m == header_plain(m)[0] * 65536 + header_plain(m)[1] * 256 + header_plain(m)[2],
{
    assert(m == ((m / 65536) as u8) * 65536 + (((m / 256) % 256) as u8) * 256 + ((m % 256) as u8))
        by (nonlinear_arith)
        requires
            m < 0x100_0000,
    ;
}

} // verus!
