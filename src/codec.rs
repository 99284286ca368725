//! The list codec of the handshake bodies.
//!
//! A body is a flat list of byte strings in the recursive length-prefix
//! encoding: each string carries a prefix that gives its length, and the
//! list carries a prefix that gives the length of all the encoded strings.
//! Unsigned integers travel as their big-endian bytes without leading zeros.

use vstd::prelude::*;

use crate::errors::DecodeError;

verus! {

/// The big-endian bytes of `n`, without leading zeros; empty for zero.
pub open spec fn be_bytes(n: nat) -> Seq<u8>
    decreases n,
{
    if n == 0 {
        Seq::empty()
    } else {
        be_bytes(n / 256).push((n % 256) as u8)
    }
}

/// The number that big-endian bytes stand for.
pub open spec fn be_value(b: Seq<u8>) -> nat
    decreases b.len(),
{
    if b.len() == 0 {
        0
    } else {
        be_value(b.drop_last()) * 256 + b.last() as nat
    }
}

/// `256` to the power `k`.
pub open spec fn pow256(k: nat) -> nat
    decreases k,
{
    if k == 0 {
        1
    } else {
        256 * pow256((k - 1) as nat)
    }
}

/// The prefix that announces `len` bytes of payload: the single byte
/// `offset + len` up to 55 bytes, else the byte `offset + 55 + k` followed by
/// the `k` big-endian bytes of `len`.
pub open spec fn length_prefix(offset: u8, len: nat) -> Seq<u8> {
    if len <= 55 {
        seq![(offset + len) as u8]
    } else {
        seq![(offset + 55 + be_bytes(len).len()) as u8] + be_bytes(len)
    }
}

/// The encoding of one byte string: a single byte below `0x80` stands for
/// itself, any other string follows its length prefix.
pub open spec fn bytes_encoding(x: Seq<u8>) -> Seq<u8> {
    if x.len() == 1 && x[0] < 0x80 {
        x
    } else {
        length_prefix(0x80, x.len()) + x
    }
}

/// The encodings of the fields, one after the other.
pub open spec fn items_encoding(fs: Seq<Seq<u8>>) -> Seq<u8>
    decreases fs.len(),
{
    if fs.len() == 0 {
        Seq::empty()
    } else {
        items_encoding(fs.drop_last()) + bytes_encoding(fs.last())
    }
}

/// The encoding of a list of fields: the list prefix, then the fields.
pub open spec fn list_encoding(fs: Seq<Seq<u8>>) -> Seq<u8> {
    length_prefix(0xc0, items_encoding(fs).len()) + items_encoding(fs)
}

/// `b` starts with the encoding of the list `fs`.
pub open spec fn starts_with_list(b: Seq<u8>, fs: Seq<Seq<u8>>) -> bool {
    list_encoding(fs).is_prefix_of(b)
}

/// The contents of a vector of byte vectors.
pub open spec fn field_seqs(v: Seq<Vec<u8>>) -> Seq<Seq<u8>> {
    v.map_values(|f: Vec<u8>| f@)
}

/// A big-endian number in canonical form: at most eight bytes, no leading zero.
pub open spec fn is_canonical_uint(b: Seq<u8>) -> bool {
    b.len() <= 8 && (b.len() == 0 || b[0] != 0)
}

proof fn lemma_be_round_trip(n: nat)
    ensures
        be_value(be_bytes(n)) == n,
    decreases n,
{
    if n > 0 {
        lemma_be_round_trip(n / 256);
        let b = be_bytes(n);
        assert(b.drop_last() == be_bytes(n / 256));
    }
}

proof fn lemma_be_bytes_len(n: nat, k: nat)
    requires
        n < pow256(k),
    ensures
        be_bytes(n).len() <= k,
        n > 0 ==> be_bytes(n).len() >= 1 && be_bytes(n)[0] != 0,
    decreases n,
{
    if n > 0 {
        assert(k > 0);
        assert(n / 256 < pow256((k - 1) as nat)) by (nonlinear_arith)
            requires
                n < 256 * pow256((k - 1) as nat),
        ;
        lemma_be_bytes_len(n / 256, (k - 1) as nat);
        if n / 256 == 0 {
            assert(n % 256 == n);
        }
    }
}

proof fn lemma_pow256_8()
    ensures
        pow256(8) == 0x1_0000_0000_0000_0000,
{
    reveal_with_fuel(pow256, 9);
}

proof fn lemma_be_value_bound(b: Seq<u8>)
    ensures
        be_value(b) < pow256(b.len()),
    decreases b.len(),
{
    if b.len() > 0 {
        lemma_be_value_bound(b.drop_last());
        let v = be_value(b.drop_last());
        let p = pow256((b.len() - 1) as nat);
        assert(v * 256 + b.last() < 256 * p) by (nonlinear_arith)
            requires
                v < p,
                b.last() < 256,
        ;
    }
}

proof fn lemma_be_value_positive(b: Seq<u8>)
    requires
        b.len() > 0,
        b[0] != 0,
    ensures
        be_value(b) > 0,
    decreases b.len(),
{
    if b.len() > 1 {
        lemma_be_value_positive(b.drop_last());
    }
}

proof fn lemma_be_canonical(b: Seq<u8>)
    requires
        b.len() > 0,
        b[0] != 0,
    ensures
        be_bytes(be_value(b)) == b,
    decreases b.len(),
{
    lemma_be_value_positive(b);
    let v = be_value(b);
    let w = be_value(b.drop_last());
    assert(v / 256 == w && v % 256 == b.last()) by (nonlinear_arith)
        requires
            v == w * 256 + b.last() as nat,
            b.last() < 256,
    ;
    if b.len() > 1 {
        lemma_be_canonical(b.drop_last());
    }
    assert(be_bytes(v) == be_bytes(w).push(b.last()));
    assert(b == b.drop_last().push(b.last()));
}

/// The length prefix of `len` bytes, `len` below 2^64, starts with a byte of
/// its kind and is at most nine bytes long.
proof fn lemma_length_prefix_shape(offset: u8, len: nat)
    requires
        offset == 0x80 || offset == 0xc0,
        len < 0x1_0000_0000_0000_0000,
    ensures
        1 <= length_prefix(offset, len).len() <= 9,
        offset <= length_prefix(offset, len)[0] <= offset + 63,
        len > 55 ==> 1 <= be_bytes(len).len() <= 8 && be_bytes(len)[0] != 0,
{
    if len > 55 {
        lemma_pow256_8();
        lemma_be_bytes_len(len, 8);
    }
}

proof fn lemma_items_take(fs: Seq<Seq<u8>>, k: int)
    requires
        0 <= k < fs.len(),
    ensures
        items_encoding(fs.take(k + 1)) == items_encoding(fs.take(k)) + bytes_encoding(fs[k]),
{
    assert(fs.take(k + 1).drop_last() == fs.take(k));
}

proof fn lemma_items_prefix(fs: Seq<Seq<u8>>, k: int)
    requires
        0 <= k <= fs.len(),
    ensures
        items_encoding(fs.take(k)).is_prefix_of(items_encoding(fs)),
    decreases fs.len(),
{
    if k == fs.len() {
        assert(fs.take(k) == fs);
    } else {
        lemma_items_prefix(fs.drop_last(), k);
        assert(fs.drop_last().take(k) == fs.take(k));
    }
}

/// The big-endian bytes of `n`, without leading zeros.
pub fn encode_uint(n: u64) -> (r: Vec<u8>)
    ensures
        r@ == be_bytes(n as nat),
    decreases n,
{
    if n == 0 {
        Vec::new()
    } else {
        let mut v = encode_uint(n / 256);
        v.push((n % 256) as u8);
        v
    }
}

/// The number that canonical big-endian bytes stand for; `None` for more
/// than eight bytes or a leading zero.
pub fn decode_uint(b: &[u8]) -> (r: Option<u64>)
    ensures
        match r {
            Some(n) => is_canonical_uint(b@) && n as nat == be_value(b@),
            None => !is_canonical_uint(b@),
        },
{
    if b.len() > 8 || (b.len() > 0 && b[0] == 0) {
        return None;
    }
    let n = read_be(b, 0, b.len());
    assert(b@.subrange(0, b@.len() as int) == b@);
    Some(n)
}

/// The number that `count` big-endian bytes of `b` from `start` stand for.
fn read_be(b: &[u8], start: usize, count: usize) -> (r: u64)
    requires
        start + count <= b@.len(),
        count <= 8,
    ensures
        r as nat == be_value(b@.subrange(start as int, start + count)),
{
    let mut v: u64 = 0;
    let mut i: usize = 0;
    while i < count
        invariant
            start + count <= b.len(),
            count <= 8,
            i <= count,
            v as nat == be_value(b@.subrange(start as int, start + i)),
        decreases count - i,
    {
        proof {
            lemma_be_value_bound(b@.subrange(start as int, start + i));
            lemma_pow256_8();
            assert(pow256(i as nat) <= pow256(7)) by {
                reveal_with_fuel(pow256, 8);
            }
            assert(v as nat * 256 + 255 < 0x1_0000_0000_0000_0000) by (nonlinear_arith)
                requires
                    v < pow256(i as nat),
                    pow256(i as nat) <= pow256(7),
                    pow256(7) == 0x1_0000_0000_0000_00,
            ;
            let next = b@.subrange(start as int, start + i + 1);
            assert(next.drop_last() == b@.subrange(start as int, start + i));
        }
        v = v * 256 + b[start + i] as u64;
        i = i + 1;
    }
    v
}

/// Appends the bytes of `x` to `out`.
pub(crate) fn push_all(out: &mut Vec<u8>, x: &[u8])
    ensures
        final(out)@ == old(out)@ + x@,
{
    let mut i: usize = 0;
    while i < x.len()
        invariant
            i <= x@.len(),
            out@ == old(out)@ + x@.take(i as int),
        decreases x@.len() - i,
    {
        out.push(x[i]);
        i = i + 1;
        assert(x@.take(i as int) == x@.take(i - 1).push(x@[i - 1]));
    }
    assert(x@.take(x@.len() as int) == x@);
}

/// Appends the prefix that announces `len` bytes of payload.
fn push_length_prefix(out: &mut Vec<u8>, offset: u8, len: usize)
    requires
        offset == 0x80 || offset == 0xc0,
    ensures
        final(out)@ == old(out)@ + length_prefix(offset, len as nat),
{
    if len <= 55 {
        out.push(offset + len as u8);
        assert(out@ == old(out)@ + length_prefix(offset, len as nat));
    } else {
        let b = encode_uint(len as u64);
        proof {
            lemma_length_prefix_shape(offset, len as nat);
        }
        out.push(offset + 55 + b.len() as u8);
        push_all(out, b.as_slice());
        assert(out@ == old(out)@ + length_prefix(offset, len as nat));
    }
}

/// Appends the encoding of the byte string `x`.
fn push_encoded_bytes(out: &mut Vec<u8>, x: &[u8])
    ensures
        final(out)@ == old(out)@ + bytes_encoding(x@),
{
    if x.len() == 1 && x[0] < 0x80 {
        out.push(x[0]);
        assert(x@ == seq![x@[0]]);
    } else {
        push_length_prefix(out, 0x80, x.len());
        push_all(out, x);
    }
}

/// Encodes a list of byte strings.
pub fn encode_list(fields: &Vec<Vec<u8>>) -> (r: Vec<u8>)
    ensures
        r@ == list_encoding(field_seqs(fields@)),
{
    let ghost fs = field_seqs(fields@);
    let mut payload: Vec<u8> = Vec::new();
    let mut i: usize = 0;
    while i < fields.len()
        invariant
            fs == field_seqs(fields@),
            i <= fields@.len(),
            payload@ == items_encoding(fs.take(i as int)),
        decreases fields@.len() - i,
    {
        proof {
            lemma_items_take(fs, i as int);
        }
        push_encoded_bytes(&mut payload, fields[i].as_slice());
        i = i + 1;
    }
    assert(fs.take(i as int) == fs);
    let mut out: Vec<u8> = Vec::new();
    push_length_prefix(&mut out, 0xc0, payload.len());
    push_all(&mut out, payload.as_slice());
    out
}

/// Reads a length prefix of the kind `offset` at `pos`; gives the start and
/// the length of the payload, which must end by `end`.
fn read_length_prefix(b: &[u8], pos: usize, end: usize, offset: u8) -> (r: Option<(usize, usize)>)
    requires
        pos < end <= b@.len(),
        offset == 0x80 || offset == 0xc0,
        offset <= b@[pos as int] <= offset + 63,
    ensures
        match r {
            Some((start, len)) => {
                &&& pos < start
                &&& start + len <= end
                &&& b@.subrange(pos as int, start as int) == length_prefix(offset, len as nat)
            },
            None => true,
        },
        forall|len: nat|
            #![trigger length_prefix(offset, len)]
            pos + length_prefix(offset, len).len() + len <= end && b@.subrange(
                pos as int,
                pos + length_prefix(offset, len).len(),
            ) == length_prefix(offset, len) ==> r == Some(
                ((pos + length_prefix(offset, len).len()) as usize, len as usize),
            ),
{
    let k = b[pos] - offset;
    if k <= 55 {
        if k as usize <= end - pos - 1 {
            proof {
                assert forall|len: nat|
                    #![trigger length_prefix(offset, len)]
                    pos + length_prefix(offset, len).len() + len <= end && b@.subrange(
                        pos as int,
                        pos + length_prefix(offset, len).len(),
                    ) == length_prefix(offset, len) implies len == k && length_prefix(
                        offset,
                        len,
                    ).len() == 1 by {
                    lemma_length_prefix_shape(offset, len);
                    assert(b@.subrange(pos as int, pos + length_prefix(offset, len).len())[0]
                        == b@[pos as int]);
                }
            }
            assert(b@.subrange(pos as int, pos + 1) == seq![b@[pos as int]]);
            Some((pos + 1, k as usize))
        } else {
            proof {
                assert forall|len: nat|
                    #![trigger length_prefix(offset, len)]
                    pos + length_prefix(offset, len).len() + len <= end && b@.subrange(
                        pos as int,
                        pos + length_prefix(offset, len).len(),
                    ) == length_prefix(offset, len) implies false by {
                    lemma_length_prefix_shape(offset, len);
                    assert(b@.subrange(pos as int, pos + length_prefix(offset, len).len())[0]
                        == b@[pos as int]);
                }
            }
            None
        }
    } else {
        let count = (k - 55) as usize;
        proof {
            assert forall|len: nat|
                #![trigger length_prefix(offset, len)]
                pos + length_prefix(offset, len).len() + len <= end && b@.subrange(
                    pos as int,
                    pos + length_prefix(offset, len).len(),
                ) == length_prefix(offset, len) implies {
                &&& len > 55
                &&& be_bytes(len).len() == count
                &&& b@.subrange(pos + 1, pos + 1 + count) == be_bytes(len)
                &&& b@[pos + 1] != 0
            } by {
                lemma_length_prefix_shape(offset, len);
                let lp = length_prefix(offset, len);
                assert(b@.subrange(pos as int, pos + lp.len())[0] == b@[pos as int]);
                if len > 55 {
                    assert(b@.subrange(pos + 1, pos + 1 + count) == lp.subrange(1, lp.len() as int));
                    assert(b@.subrange(pos as int, pos + lp.len())[1] == b@[pos + 1]);
                }
            }
        }
        if count > end - pos - 1 {
            return None;
        }
        if b[pos + 1] == 0 {
            return None;
        }
        let v = read_be(b, pos + 1, count);
        if v <= 55 || v > (end - pos - 1 - count) as u64 {
            proof {
                assert forall|len: nat|
                    #![trigger length_prefix(offset, len)]
                    pos + length_prefix(offset, len).len() + len <= end && b@.subrange(
                        pos as int,
                        pos + length_prefix(offset, len).len(),
                    ) == length_prefix(offset, len) implies false by {
                    lemma_be_round_trip(len);
                    lemma_length_prefix_shape(offset, len);
                }
            }
            return None;
        }
        proof {
            let digits = b@.subrange(pos + 1, pos + 1 + count);
            lemma_be_canonical(digits);
            assert(length_prefix(offset, v as nat) == seq![b@[pos as int]] + digits);
            assert(b@.subrange(pos as int, pos + 1 + count) == seq![b@[pos as int]] + digits);
            assert forall|len: nat|
                #![trigger length_prefix(offset, len)]
                pos + length_prefix(offset, len).len() + len <= end && b@.subrange(
                    pos as int,
                    pos + length_prefix(offset, len).len(),
                ) == length_prefix(offset, len) implies len == v by {
                lemma_be_round_trip(len);
            }
        }
        Some((pos + 1 + count, v as usize))
    }
}

/// `b` holds at `pos` the encoding of `x`, ending by `end`.
pub open spec fn bytes_at(b: Seq<u8>, pos: int, end: int, x: Seq<u8>) -> bool {
    &&& pos + bytes_encoding(x).len() <= end
    &&& b.subrange(pos, pos + bytes_encoding(x).len()) == bytes_encoding(x)
}

/// Copies `len` bytes of `b` from `start`.
pub(crate) fn copy_range(b: &[u8], start: usize, len: usize) -> (r: Vec<u8>)
    requires
        start + len <= b@.len(),
    ensures
        r@ == b@.subrange(start as int, start + len),
{
    let mut out: Vec<u8> = Vec::new();
    let mut i: usize = 0;
    while i < len
        invariant
            start + len <= b.len(),
            i <= len,
            out@ == b@.subrange(start as int, start + i),
        decreases len - i,
    {
        out.push(b[start + i]);
        i = i + 1;
        assert(out@ == b@.subrange(start as int, start + i));
    }
    out
}

/// Decodes the byte string whose encoding starts at `pos` and ends by `end`;
/// gives it with the position after it.
fn decode_item(b: &[u8], pos: usize, end: usize) -> (r: Option<(Vec<u8>, usize)>)
    requires
        pos < end <= b@.len(),
    ensures
        match r {
            Some((x, next)) => {
                &&& pos < next <= end
                &&& b@.subrange(pos as int, next as int) == bytes_encoding(x@)
            },
            None => true,
        },
        forall|x: Seq<u8>|
            #![trigger bytes_encoding(x)]
            bytes_at(b@, pos as int, end as int, x) ==> (r matches Some((y, next)) && y@ == x
                && next == pos + bytes_encoding(x).len()),
{
    let b0 = b[pos];
    if b0 < 0x80 {
        let mut x: Vec<u8> = Vec::new();
        x.push(b0);
        proof {
            assert(b@.subrange(pos as int, pos + 1) == x@);
            assert forall|z: Seq<u8>|
                #![trigger bytes_encoding(z)]
                bytes_at(b@, pos as int, end as int, z) implies z == x@ by {
                let e = bytes_encoding(z);
                assert(b@.subrange(pos as int, pos + e.len())[0] == b0);
                if !(z.len() == 1 && z[0] < 0x80) {
                    lemma_length_prefix_shape(0x80, z.len());
                    assert(e[0] == length_prefix(0x80, z.len())[0]);
                }
                assert(z == seq![b0]);
            }
        }
        return Some((x, pos + 1));
    }
    if b0 >= 0xc0 {
        proof {
            assert forall|z: Seq<u8>|
                #![trigger bytes_encoding(z)]
                bytes_at(b@, pos as int, end as int, z) implies false by {
                let e = bytes_encoding(z);
                assert(b@.subrange(pos as int, pos + e.len())[0] == b0);
                if !(z.len() == 1 && z[0] < 0x80) {
                    lemma_length_prefix_shape(0x80, z.len());
                    assert(e[0] == length_prefix(0x80, z.len())[0]);
                }
            }
        }
        return None;
    }
    proof {
        assert forall|z: Seq<u8>|
            #![trigger bytes_encoding(z)]
            bytes_at(b@, pos as int, end as int, z) implies {
            &&& !(z.len() == 1 && z[0] < 0x80)
            &&& pos + length_prefix(0x80, z.len()).len() + z.len() <= end
            &&& b@.subrange(pos as int, pos + length_prefix(0x80, z.len()).len()) == length_prefix(
                0x80,
                z.len(),
            )
            &&& b@.subrange(
                pos + length_prefix(0x80, z.len()).len(),
                pos + length_prefix(0x80, z.len()).len() + z.len(),
            ) == z
        } by {
            let e = bytes_encoding(z);
            assert(b@.subrange(pos as int, pos + e.len())[0] == b0);
            let lp = length_prefix(0x80, z.len());
            assert(b@.subrange(pos as int, pos + lp.len()) == e.subrange(0, lp.len() as int));
            assert(b@.subrange(pos + lp.len(), pos + lp.len() + z.len()) == e.subrange(
                lp.len() as int,
                e.len() as int,
            ));
        }
    }
    match read_length_prefix(b, pos, end, 0x80) {
        None => None,
        Some((start, len)) => {
            if len == 1 && b[start] < 0x80 {
                return None;
            }
            let x = copy_range(b, start, len);
            proof {
                assert(b@.subrange(pos as int, start + len) == b@.subrange(pos as int, start as int)
                    + x@);
            }
            Some((x, start + len))
        },
    }
}

/// Decodes the list whose encoding starts `b`; what follows the list is
/// left alone.
///
/// Succeeds exactly when `b` starts with the encoding of a list of byte
/// strings, and then gives that list, the only one whose encoding starts `b`.
pub fn decode_list(b: &[u8]) -> (r: Result<Vec<Vec<u8>>, DecodeError>)
    ensures
        match r {
            Ok(v) => {
                &&& starts_with_list(b@, field_seqs(v@))
                &&& forall|fs: Seq<Seq<u8>>| #[trigger]
                    starts_with_list(b@, fs) ==> fs == field_seqs(v@)
            },
            Err(_) => forall|fs: Seq<Seq<u8>>| !#[trigger] starts_with_list(b@, fs),
        },
{
    if b.len() == 0 || b[0] < 0xc0 {
        proof {
            assert forall|fs: Seq<Seq<u8>>| !#[trigger] starts_with_list(b@, fs) by {
                if starts_with_list(b@, fs) {
                    lemma_length_prefix_shape(0xc0, items_encoding(fs).len());
                    assert(list_encoding(fs)[0] == b@[0]);
                }
            }
        }
        return Err(DecodeError);
    }
    proof {
        assert forall|fs: Seq<Seq<u8>>| #[trigger] starts_with_list(b@, fs) implies {
            let lp = length_prefix(0xc0, items_encoding(fs).len());
            &&& b@.subrange(0, lp.len() as int) == lp
            &&& lp.len() + items_encoding(fs).len() <= b@.len()
        } by {
            let lp = length_prefix(0xc0, items_encoding(fs).len());
            let e = list_encoding(fs);
            assert(b@.subrange(0, lp.len() as int) == e.subrange(0, lp.len() as int));
        }
    }
    let (start, len) = match read_length_prefix(b, 0, b.len(), 0xc0) {
        Some(p) => p,
        None => {
            return Err(DecodeError);
        },
    };
    let end = start + len;
    proof {
        assert forall|fs: Seq<Seq<u8>>| #[trigger] starts_with_list(b@, fs) implies b@.subrange(
            start as int,
            end as int,
        ) == items_encoding(fs) by {
            let lp = length_prefix(0xc0, items_encoding(fs).len());
            assert(lp == length_prefix(0xc0, items_encoding(fs).len() as nat));
            assert(start == lp.len() && len == items_encoding(fs).len());
            let e = list_encoding(fs);
            assert(b@.subrange(start as int, end as int) == e.subrange(
                start as int,
                e.len() as int,
            ));
        }
    }
    let mut out: Vec<Vec<u8>> = Vec::new();
    let mut pos = start;
    while pos < end
        invariant
            start <= pos <= end <= b@.len(),
            b@.subrange(0, start as int) == length_prefix(0xc0, len as nat),
            end == start + len,
            b@.subrange(start as int, pos as int) == items_encoding(field_seqs(out@)),
            forall|fs: Seq<Seq<u8>>| #[trigger]
                starts_with_list(b@, fs) ==> {
                    &&& b@.subrange(start as int, end as int) == items_encoding(fs)
                    &&& out@.len() <= fs.len()
                    &&& field_seqs(out@) == fs.take(out@.len() as int)
                },
        decreases end - pos,
    {
        let ghost k = out@.len() as int;
        proof {
            assert forall|fs: Seq<Seq<u8>>| #[trigger] starts_with_list(b@, fs) implies k < fs.len()
                && bytes_at(b@, pos as int, end as int, fs[k]) by {
                if k == fs.len() {
                    assert(fs.take(k) == fs);
                }
                lemma_items_prefix(fs, k + 1);
                lemma_items_take(fs, k);
                let done = items_encoding(fs.take(k));
                let item = bytes_encoding(fs[k]);
                let all = items_encoding(fs);
                assert(all.subrange(0, (done.len() + item.len()) as int) == done + item);
                assert(all.subrange(done.len() as int, (done.len() + item.len()) as int) == (done
                    + item).subrange(done.len() as int, (done.len() + item.len()) as int));
                assert((done + item).subrange(done.len() as int, (done.len() + item.len()) as int)
                    == item);
                assert(b@.subrange(pos as int, pos + item.len()) == item);
            }
        }
        let (x, next) = match decode_item(b, pos, end) {
            Some(p) => p,
            None => {
                proof {
                    assert forall|fs: Seq<Seq<u8>>| !#[trigger] starts_with_list(b@, fs) by {
                        if starts_with_list(b@, fs) {
                            assert(bytes_at(b@, pos as int, end as int, fs[k]));
                        }
                    }
                }
                return Err(DecodeError);
            },
        };
        let ghost before = out@;
        out.push(x);
        proof {
            assert(field_seqs(out@).drop_last() == field_seqs(before));
            assert(b@.subrange(start as int, next as int) == b@.subrange(start as int, pos as int)
                + b@.subrange(pos as int, next as int));
            assert forall|fs: Seq<Seq<u8>>| #[trigger] starts_with_list(b@, fs) implies field_seqs(
                out@,
            ) == fs.take(k + 1) by {
                assert(bytes_at(b@, pos as int, end as int, fs[k]));
                assert(fs.take(k + 1).drop_last() == fs.take(k));
            }
        }
        pos = next;
    }
    proof {
        assert(b@.subrange(0, end as int) == b@.subrange(0, start as int) + b@.subrange(
            start as int,
            end as int,
        ));
        assert(starts_with_list(b@, field_seqs(out@)));
        assert forall|fs: Seq<Seq<u8>>| #[trigger] starts_with_list(b@, fs) implies fs
            == field_seqs(out@) by {
            let k = out@.len() as int;
            if k < fs.len() {
                lemma_items_prefix(fs, k + 1);
                lemma_items_take(fs, k);
                assert(items_encoding(fs.take(k + 1)).len() <= items_encoding(fs).len());
            }
            assert(fs.take(k) == fs);
        }
    }
    Ok(out)
}

/// Decoding reads back what encoding wrote: the encoding of a list,
/// followed by any bytes at all, starts with that list, so that the decoder
/// gives it back.
pub proof fn lemma_list_round_trip(fs: Seq<Seq<u8>>, rest: Seq<u8>)
    ensures
        starts_with_list(list_encoding(fs) + rest, fs),
{
    let b = list_encoding(fs) + rest;
    assert(b.subrange(0, list_encoding(fs).len() as int) == list_encoding(fs));
}

} // verus!
