//! XDR primitives: big-endian integers, variable-length opaques and
//! strings padded to a four-byte boundary, and fixed-length opaques.
//!
//! Every wire item has a specification-level encoder (a function from the
//! abstract value to the byte sequence it puts on the wire) and a
//! specification-level decoder (a function from a byte sequence to the
//! value and the remaining suffix). The executable functions are proved
//! to agree with them exactly, and round-trip lemmas show that decoding
//! an encoding yields the value back, whatever bytes follow it.

use vstd::prelude::*;
use vstd::assert_seqs_equal;
use vstd::utf8::{encode_utf8, decode_utf8, valid_utf8, encode_utf8_valid_utf8, encode_utf8_decode_utf8};

verus! {

/// The one decoding failure: a truncated buffer, a declared length that
/// overruns the remaining bytes, a discriminant outside the enumerated
/// arms, or string bytes that are not UTF-8.
#[derive(Debug, Clone, Copy, PartialEq, Eq, Structural)]
pub enum XdrError {
    BadEncoding,
}

// ---------------------------------------------------------------------------
// Specification-level encoders
// ---------------------------------------------------------------------------

/// The number of zero bytes that pad a field of `n` bytes to a
/// four-byte boundary.
pub open spec fn pad_len(n: int) -> int {
    (4 - n % 4) % 4
}

pub open spec fn zero_bytes(n: int) -> Seq<u8> {
    Seq::new(n as nat, |i: int| 0u8)
}

/// A 32-bit integer in big-endian byte order.
pub open spec fn enc_u32(x: u32) -> Seq<u8> {
    seq![
        (x / 0x1000000 % 0x100) as u8,
        (x / 0x10000 % 0x100) as u8,
        (x / 0x100 % 0x100) as u8,
        (x % 0x100) as u8,
    ]
}

/// A 64-bit integer in big-endian byte order.
pub open spec fn enc_u64(x: u64) -> Seq<u8> {
    seq![
        (x / 0x100000000000000 % 0x100) as u8,
        (x / 0x1000000000000 % 0x100) as u8,
        (x / 0x10000000000 % 0x100) as u8,
        (x / 0x100000000 % 0x100) as u8,
        (x / 0x1000000 % 0x100) as u8,
        (x / 0x10000 % 0x100) as u8,
        (x / 0x100 % 0x100) as u8,
        (x % 0x100) as u8,
    ]
}

/// A variable-length opaque: its 32-bit byte length, the bytes, and
/// zero padding to a four-byte boundary.
pub open spec fn enc_opaque(b: Seq<u8>) -> Seq<u8> {
    enc_u32(b.len() as u32) + b + zero_bytes(pad_len(b.len() as int))
}

/// A string: the variable-length opaque of its UTF-8 bytes.
pub open spec fn enc_string(s: Seq<char>) -> Seq<u8> {
    enc_opaque(encode_utf8(s))
}

// ---------------------------------------------------------------------------
// Specification-level decoders
// ---------------------------------------------------------------------------

/// The 32-bit value the four bytes spell in big-endian order.
pub open spec fn be32(b0: u8, b1: u8, b2: u8, b3: u8) -> u32 {
    (b0 as int * 0x1000000 + b1 as int * 0x10000 + b2 as int * 0x100 + b3 as int) as u32
}

pub open spec fn be64(s: Seq<u8>) -> u64
    recommends
        s.len() == 8,
{
    (s[0] as int * 0x100000000000000
        + s[1] as int * 0x1000000000000
        + s[2] as int * 0x10000000000
        + s[3] as int * 0x100000000
        + s[4] as int * 0x1000000
        + s[5] as int * 0x10000
        + s[6] as int * 0x100
        + s[7] as int) as u64
}

pub open spec fn dec_u32(s: Seq<u8>) -> Option<(u32, Seq<u8>)> {
    if s.len() >= 4 {
        Some((be32(s[0], s[1], s[2], s[3]), s.skip(4)))
    } else {
        None
    }
}

pub open spec fn dec_u64(s: Seq<u8>) -> Option<(u64, Seq<u8>)> {
    if s.len() >= 8 {
        Some((be64(s.take(8)), s.skip(8)))
    } else {
        None
    }
}

pub open spec fn dec_opaque(s: Seq<u8>) -> Option<(Seq<u8>, Seq<u8>)> {
    match dec_u32(s) {
        None => None,
        Some((n, r)) => {
            let total = n as int + pad_len(n as int);
            if r.len() >= total {
                Some((r.take(n as int), r.skip(total)))
            } else {
                None
            }
        },
    }
}

pub open spec fn dec_string(s: Seq<u8>) -> Option<(Seq<char>, Seq<u8>)> {
    match dec_opaque(s) {
        None => None,
        Some((b, r)) => {
            if valid_utf8(b) {
                Some((decode_utf8(b), r))
            } else {
                None
            }
        },
    }
}

/// A fixed-length opaque of `n` bytes: the bytes themselves, unprefixed.
pub open spec fn dec_fixed(s: Seq<u8>, n: int) -> Option<(Seq<u8>, Seq<u8>)> {
    if s.len() >= n >= 0 {
        Some((s.take(n), s.skip(n)))
    } else {
        None
    }
}

// ---------------------------------------------------------------------------
// Sequence helpers
// ---------------------------------------------------------------------------

/// Concatenation associates.
pub proof fn seq_assoc<A>(a: Seq<A>, b: Seq<A>, c: Seq<A>)
    ensures
        (a + b) + c == a + (b + c),
{
    assert_seqs_equal!((a + b) + c == a + (b + c));
}

pub proof fn lemma_concat_skip<A>(a: Seq<A>, b: Seq<A>)
    ensures
        (a + b).skip(a.len() as int) == b,
{
    assert_seqs_equal!((a + b).skip(a.len() as int) == b);
}

pub proof fn lemma_skip_skip<A>(s: Seq<A>, m: int, n: int)
    requires
        0 <= m,
        0 <= n,
        m + n <= s.len(),
    ensures
        s.skip(m).skip(n) == s.skip(m + n),
{
    assert_seqs_equal!(s.skip(m).skip(n) == s.skip(m + n));
}

// ---------------------------------------------------------------------------
// Round-trip lemmas: decoding an encoding yields the value back
// ---------------------------------------------------------------------------

pub proof fn lemma_rt_u32(x: u32, rest: Seq<u8>)
    ensures
        dec_u32(enc_u32(x) + rest) == Some((x, rest)),
{
    let s = enc_u32(x) + rest;
    assert(s[0] == (x / 0x1000000 % 0x100) as u8);
    assert(s[1] == (x / 0x10000 % 0x100) as u8);
    assert(s[2] == (x / 0x100 % 0x100) as u8);
    assert(s[3] == (x % 0x100) as u8);
    assert(x / 0x1000000 % 0x100 * 0x1000000 + x / 0x10000 % 0x100 * 0x10000 + x / 0x100 % 0x100
        * 0x100 + x % 0x100 == x) by (bit_vector);
    lemma_concat_skip(enc_u32(x), rest);
}

pub proof fn lemma_rt_u64(x: u64, rest: Seq<u8>)
    ensures
        dec_u64(enc_u64(x) + rest) == Some((x, rest)),
{
    let s = enc_u64(x) + rest;
    assert_seqs_equal!(s.take(8) == enc_u64(x));
    assert(x / 0x100000000000000 % 0x100 * 0x100000000000000 + x / 0x1000000000000 % 0x100
        * 0x1000000000000 + x / 0x10000000000 % 0x100 * 0x10000000000 + x / 0x100000000 % 0x100
        * 0x100000000 + x / 0x1000000 % 0x100 * 0x1000000 + x / 0x10000 % 0x100 * 0x10000 + x
        / 0x100 % 0x100 * 0x100 + x % 0x100 == x) by (bit_vector);
    assert(be64(s.take(8)) == x);
    lemma_concat_skip(enc_u64(x), rest);
}

pub proof fn lemma_rt_opaque(b: Seq<u8>, rest: Seq<u8>)
    requires
        b.len() <= u32::MAX,
    ensures
        dec_opaque(enc_opaque(b) + rest) == Some((b, rest)),
{
    let n = b.len() as u32;
    let tail = b + zero_bytes(pad_len(b.len() as int));
    assert(enc_opaque(b) + rest == enc_u32(n) + (tail + rest)) by {
        assert_seqs_equal!(enc_opaque(b) + rest == enc_u32(n) + (tail + rest));
    }
    lemma_rt_u32(n, tail + rest);
    let total = n as int + pad_len(n as int);
    assert((tail + rest).len() == total + rest.len());
    assert_seqs_equal!((tail + rest).take(n as int) == b);
    assert_seqs_equal!((tail + rest).skip(total) == rest);
}

pub proof fn lemma_rt_string(s: Seq<char>, rest: Seq<u8>)
    requires
        encode_utf8(s).len() <= u32::MAX,
    ensures
        dec_string(enc_string(s) + rest) == Some((s, rest)),
{
    lemma_rt_opaque(encode_utf8(s), rest);
    encode_utf8_valid_utf8(s);
    encode_utf8_decode_utf8(s);
}

pub proof fn lemma_rt_fixed(b: Seq<u8>, rest: Seq<u8>)
    ensures
        dec_fixed(b + rest, b.len() as int) == Some((b, rest)),
{
    assert_seqs_equal!((b + rest).take(b.len() as int) == b);
    lemma_concat_skip(b, rest);
}

// ---------------------------------------------------------------------------
// Executable encoders
// ---------------------------------------------------------------------------

pub fn encode_u32(out: &mut Vec<u8>, x: u32)
    ensures
        final(out)@ == old(out)@ + enc_u32(x),
{
    out.push((x / 0x1000000 % 0x100) as u8);
    out.push((x / 0x10000 % 0x100) as u8);
    out.push((x / 0x100 % 0x100) as u8);
    out.push((x % 0x100) as u8);
    proof { assert_seqs_equal!(out@ == old(out)@ + enc_u32(x)); }
}

pub fn encode_u64(out: &mut Vec<u8>, x: u64)
    ensures
        final(out)@ == old(out)@ + enc_u64(x),
{
    out.push((x / 0x100000000000000 % 0x100) as u8);
    out.push((x / 0x1000000000000 % 0x100) as u8);
    out.push((x / 0x10000000000 % 0x100) as u8);
    out.push((x / 0x100000000 % 0x100) as u8);
    out.push((x / 0x1000000 % 0x100) as u8);
    out.push((x / 0x10000 % 0x100) as u8);
    out.push((x / 0x100 % 0x100) as u8);
    out.push((x % 0x100) as u8);
    proof { assert_seqs_equal!(out@ == old(out)@ + enc_u64(x)); }
}

/// Appends the bytes of a slice.
pub fn push_bytes(out: &mut Vec<u8>, b: &[u8])
    ensures
        final(out)@ == old(out)@ + b@,
{
    let mut i: usize = 0;
    while i < b.len()
        invariant
            i <= b@.len(),
            out@ == old(out)@ + b@.take(i as int),
        decreases b@.len() - i,
    {
        out.push(b[i]);
        i = i + 1;
        proof { assert_seqs_equal!(out@ == old(out)@ + b@.take(i as int)); }
    }
    proof { assert_seqs_equal!(out@ == old(out)@ + b@); }
}

/// Appends `n` zero bytes.
pub fn push_zeros(out: &mut Vec<u8>, n: usize)
    ensures
        final(out)@ == old(out)@ + zero_bytes(n as int),
{
    let mut i: usize = 0;
    while i < n
        invariant
            i <= n,
            out@ == old(out)@ + zero_bytes(i as int),
        decreases n - i,
    {
        out.push(0u8);
        i = i + 1;
        proof { assert_seqs_equal!(out@ == old(out)@ + zero_bytes(i as int)); }
    }
}

pub fn encode_opaque(out: &mut Vec<u8>, b: &[u8])
    requires
        b@.len() <= u32::MAX,
    ensures
        final(out)@ == old(out)@ + enc_opaque(b@),
{
    let n: usize = b.len();
    encode_u32(out, n as u32);
    push_bytes(out, b);
    let pad: usize = (4 - n % 4) % 4;
    push_zeros(out, pad);
    proof { assert_seqs_equal!(out@ == old(out)@ + enc_opaque(b@)); }
}

pub fn encode_string(out: &mut Vec<u8>, s: &str)
    requires
        encode_utf8(s@).len() <= u32::MAX,
    ensures
        final(out)@ == old(out)@ + enc_string(s@),
{
    let b = s.as_bytes();
    encode_opaque(out, b);
}

// ---------------------------------------------------------------------------
// Executable decoders
// ---------------------------------------------------------------------------

/// Copies `buf[from..to]` out as a fresh vector.
pub fn copy_range(buf: &Vec<u8>, from: usize, to: usize) -> (r: Vec<u8>)
    requires
        from <= to <= buf@.len(),
    ensures
        r@ == buf@.subrange(from as int, to as int),
{
    let mut r: Vec<u8> = Vec::new();
    let mut i: usize = from;
    while i < to
        invariant
            from <= i <= to <= buf@.len(),
            r@ == buf@.subrange(from as int, i as int),
        decreases to - i,
    {
        r.push(buf[i]);
        i = i + 1;
        proof { assert_seqs_equal!(r@ == buf@.subrange(from as int, i as int)); }
    }
    r
}

/// Relies on `String::from_utf8`: it succeeds exactly on valid UTF-8
/// input and returns the string those bytes encode.
#[verifier::external_body]
fn bytes_to_string(b: Vec<u8>) -> (r: Option<String>)
    ensures
        r is Some <==> valid_utf8(b@),
        r is Some ==> encode_utf8(r->0@) == b@ && r->0@ == decode_utf8(b@),
{
    match String::from_utf8(b) {
        Ok(s) => Some(s),
        Err(_) => None,
    }
}

pub fn decode_u32(buf: &Vec<u8>, pos: usize) -> (r: Result<(u32, usize), XdrError>)
    requires
        pos <= buf@.len(),
    ensures
        match r {
            Ok((v, end)) => pos <= end <= buf@.len() && dec_u32(buf@.skip(pos as int)) == Some(
                (v, buf@.skip(end as int)),
            ),
            Err(_) => dec_u32(buf@.skip(pos as int)) is None,
        },
{
    let s = Ghost(buf@.skip(pos as int));
    if buf.len() - pos >= 4 {
        let b0 = buf[pos];
        let b1 = buf[pos + 1];
        let b2 = buf[pos + 2];
        let b3 = buf[pos + 3];
        let v: u32 = (b0 as u32) * 0x1000000 + (b1 as u32) * 0x10000 + (b2 as u32) * 0x100 + (
        b3 as u32);
        proof {
            assert(s@[0] == b0 && s@[1] == b1 && s@[2] == b2 && s@[3] == b3);
            lemma_skip_skip(buf@, pos as int, 4);
        }
        Ok((v, pos + 4))
    } else {
        Err(XdrError::BadEncoding)
    }
}

pub fn decode_u64(buf: &Vec<u8>, pos: usize) -> (r: Result<(u64, usize), XdrError>)
    requires
        pos <= buf@.len(),
    ensures
        match r {
            Ok((v, end)) => pos <= end <= buf@.len() && dec_u64(buf@.skip(pos as int)) == Some(
                (v, buf@.skip(end as int)),
            ),
            Err(_) => dec_u64(buf@.skip(pos as int)) is None,
        },
{
    let s = Ghost(buf@.skip(pos as int));
    if buf.len() - pos >= 8 {
        let b0 = buf[pos];
        let b1 = buf[pos + 1];
        let b2 = buf[pos + 2];
        let b3 = buf[pos + 3];
        let b4 = buf[pos + 4];
        let b5 = buf[pos + 5];
        let b6 = buf[pos + 6];
        let b7 = buf[pos + 7];
        let v: u64 = (b0 as u64) * 0x100000000000000 + (b1 as u64) * 0x1000000000000 + (b2 as u64)
            * 0x10000000000 + (b3 as u64) * 0x100000000 + (b4 as u64) * 0x1000000 + (b5 as u64)
            * 0x10000 + (b6 as u64) * 0x100 + (b7 as u64);
        proof {
            assert(forall|i: int| 0 <= i < 8 ==> s@[i] == buf@[pos + i]);
            assert(s@.take(8) == seq![b0, b1, b2, b3, b4, b5, b6, b7]) by {
                assert_seqs_equal!(s@.take(8) == seq![b0, b1, b2, b3, b4, b5, b6, b7]);
            }
            lemma_skip_skip(buf@, pos as int, 8);
        }
        Ok((v, pos + 8))
    } else {
        Err(XdrError::BadEncoding)
    }
}

pub fn decode_opaque(buf: &Vec<u8>, pos: usize) -> (r: Result<(Vec<u8>, usize), XdrError>)
    requires
        pos <= buf@.len(),
    ensures
        match r {
            Ok((v, end)) => pos <= end <= buf@.len() && dec_opaque(buf@.skip(pos as int)) == Some(
                (v@, buf@.skip(end as int)),
            ),
            Err(_) => dec_opaque(buf@.skip(pos as int)) is None,
        },
{
    let (n, p1) = decode_u32(buf, pos)?;
    let pad: u32 = (4 - n % 4) % 4;
    let rem: usize = buf.len() - p1;
    if (rem as u64) < (n as u64) + (pad as u64) {
        return Err(XdrError::BadEncoding);
    }
    let data_end: usize = p1 + (n as usize);
    let end: usize = data_end + (pad as usize);
    let v = copy_range(buf, p1, data_end);
    proof {
        let s = buf@.skip(pos as int);
        let r1 = buf@.skip(p1 as int);
        assert(dec_u32(s) == Some((n, r1)));
        let total = n as int + pad_len(n as int);
        assert(r1.len() >= total);
        assert_seqs_equal!(r1.take(n as int) == buf@.subrange(p1 as int, data_end as int));
        lemma_skip_skip(buf@, p1 as int, total);
    }
    Ok((v, end))
}

pub fn decode_string(buf: &Vec<u8>, pos: usize) -> (r: Result<(String, usize), XdrError>)
    requires
        pos <= buf@.len(),
    ensures
        match r {
            Ok((v, end)) => pos <= end <= buf@.len() && dec_string(buf@.skip(pos as int)) == Some(
                (v@, buf@.skip(end as int)),
            ),
            Err(_) => dec_string(buf@.skip(pos as int)) is None,
        },
{
    let (b, end) = decode_opaque(buf, pos)?;
    match bytes_to_string(b) {
        Some(s) => Ok((s, end)),
        None => Err(XdrError::BadEncoding),
    }
}

/// Decodes a fixed 16-byte opaque, as stateids are carried.
pub fn decode_bytes16(buf: &Vec<u8>, pos: usize) -> (r: Result<([u8; 16], usize), XdrError>)
    requires
        pos <= buf@.len(),
    ensures
        match r {
            Ok((v, end)) => pos <= end <= buf@.len() && dec_fixed(buf@.skip(pos as int), 16)
                == Some((v@, buf@.skip(end as int))),
            Err(_) => dec_fixed(buf@.skip(pos as int), 16) is None,
        },
{
    if buf.len() - pos >= 16 {
        let v: [u8; 16] = [
            buf[pos],
            buf[pos + 1],
            buf[pos + 2],
            buf[pos + 3],
            buf[pos + 4],
            buf[pos + 5],
            buf[pos + 6],
            buf[pos + 7],
            buf[pos + 8],
            buf[pos + 9],
            buf[pos + 10],
            buf[pos + 11],
            buf[pos + 12],
            buf[pos + 13],
            buf[pos + 14],
            buf[pos + 15],
        ];
        let end = pos + 16;
        proof {
            let s = buf@.skip(pos as int);
            assert_seqs_equal!(s.take(16) == v@);
            lemma_skip_skip(buf@, pos as int, 16);
        }
        Ok((v, end))
    } else {
        Err(XdrError::BadEncoding)
    }
}

/// Appends a fixed 16-byte opaque.
pub fn encode_bytes16(out: &mut Vec<u8>, b: &[u8; 16])
    ensures
        final(out)@ == old(out)@ + b@,
{
    push_bytes(out, b.as_slice());
}

} // verus!
