//! Little-endian encoding of integers in byte sequences, and the byte
//! conversions of strings.
use vstd::prelude::*;
use vstd::utf8::{decode_utf8, valid_utf8};

verus! {

/// The `u16` stored little-endian at `bs[off..off + 2]`.
pub open spec fn le_u16(bs: Seq<u8>, off: int) -> u16 {
    ((bs[off] as u16) | ((bs[off + 1] as u16) << 8u16)) as u16
}

/// The `u32` stored little-endian at `bs[off..off + 4]`.
pub open spec fn le_u32(bs: Seq<u8>, off: int) -> u32 {
    ((bs[off] as u32) | ((bs[off + 1] as u32) << 8u32) | ((bs[off + 2] as u32) << 16u32) | ((
    bs[off + 3] as u32) << 24u32)) as u32
}

/// The `u64` stored little-endian at `bs[off..off + 8]`.
pub open spec fn le_u64(bs: Seq<u8>, off: int) -> u64 {
    ((le_u32(bs, off) as u64) | ((le_u32(bs, off + 4) as u64) << 32u64)) as u64
}

/// The little-endian bytes of a `u16`.
pub open spec fn u16_bytes(x: u16) -> Seq<u8> {
    seq![(x & 0xff) as u8, ((x >> 8u16) & 0xff) as u8]
}

/// The little-endian bytes of a `u32`.
pub open spec fn u32_bytes(x: u32) -> Seq<u8> {
    seq![(x & 0xff) as u8, ((x >> 8u32) & 0xff) as u8, ((x >> 16u32) & 0xff) as u8, ((x >> 24u32) & 0xff) as u8]
}

/// The little-endian bytes of a `u64`.
pub open spec fn u64_bytes(x: u64) -> Seq<u8> {
    u32_bytes((x & 0xffff_ffff) as u32) + u32_bytes((x >> 32u64) as u32)
}

pub proof fn lemma_u16_round_trip(x: u16)
    ensures
        le_u16(u16_bytes(x), 0) == x,
{
    let b0 = (x & 0xff) as u8;
    let b1 = ((x >> 8u16) & 0xff) as u8;
    assert(((x & 0xff) as u8) as u16 == x & 0xff) by (bit_vector);
    assert((((x >> 8u16) & 0xff) as u8) as u16 == (x >> 8u16) & 0xff) by (bit_vector);
    assert(x == ((x & 0xff) | (((x >> 8u16) & 0xff) << 8u16))) by (bit_vector);
}

pub proof fn lemma_u32_round_trip(x: u32)
    ensures
        le_u32(u32_bytes(x), 0) == x,
{
    assert(((x & 0xff) as u8) as u32 == x & 0xff) by (bit_vector);
    assert((((x >> 8u32) & 0xff) as u8) as u32 == (x >> 8u32) & 0xff) by (bit_vector);
    assert((((x >> 16u32) & 0xff) as u8) as u32 == (x >> 16u32) & 0xff) by (bit_vector);
    assert((((x >> 24u32) & 0xff) as u8) as u32 == (x >> 24u32) & 0xff) by (bit_vector);
    assert(x == ((x & 0xff) | (((x >> 8u32) & 0xff) << 8u32) | (((x >> 16u32) & 0xff) << 16u32) | (((x >> 24u32) & 0xff) << 24u32))) by (bit_vector);
}

pub proof fn lemma_u64_round_trip(x: u64)
    ensures
        le_u64(u64_bytes(x), 0) == x,
{
    let lo = (x & 0xffff_ffff) as u32;
    let hi = (x >> 32u64) as u32;
    lemma_u32_round_trip(lo);
    lemma_u32_round_trip(hi);
    assert(u64_bytes(x).subrange(4, 8) =~= u32_bytes(hi));
    assert(le_u32(u64_bytes(x), 4) == le_u32(u32_bytes(hi), 0));
    assert(le_u32(u64_bytes(x), 0) == le_u32(u32_bytes(lo), 0));
    assert(x == ((((x & 0xffff_ffff) as u32) as u64) | ((((x >> 32u64) as u32) as u64) << 32u64))) by (bit_vector);
}

/// Reading a `u16` at `off` where the encoding of `x` stands gives `x`.
pub proof fn lemma_le_u16_at(bs: Seq<u8>, off: int, x: u16)
    requires
        0 <= off,
        off + 2 <= bs.len(),
        bs.subrange(off, off + 2) == u16_bytes(x),
    ensures
        le_u16(bs, off) == x,
{
    lemma_u16_round_trip(x);
    assert(bs[off] == bs.subrange(off, off + 2)[0]);
    assert(bs[off + 1] == bs.subrange(off, off + 2)[1]);
}

/// Reading a `u32` at `off` where the encoding of `x` stands gives `x`.
pub proof fn lemma_le_u32_at(bs: Seq<u8>, off: int, x: u32)
    requires
        0 <= off,
        off + 4 <= bs.len(),
        bs.subrange(off, off + 4) == u32_bytes(x),
    ensures
        le_u32(bs, off) == x,
{
    lemma_u32_round_trip(x);
    let w = bs.subrange(off, off + 4);
    assert(bs[off] == w[0] && bs[off + 1] == w[1] && bs[off + 2] == w[2] && bs[off + 3] == w[3]);
}

/// Reading a `u64` at `off` where the encoding of `x` stands gives `x`.
pub proof fn lemma_le_u64_at(bs: Seq<u8>, off: int, x: u64)
    requires
        0 <= off,
        off + 8 <= bs.len(),
        bs.subrange(off, off + 8) == u64_bytes(x),
    ensures
        le_u64(bs, off) == x,
{
    lemma_u64_round_trip(x);
    let w = bs.subrange(off, off + 8);
    let e = u64_bytes(x);
    assert forall|i: int| 0 <= i < 8 implies bs[off + i] == e[i] by {
        assert(bs[off + i] == w[i]);
    }
    assert(le_u32(bs, off) == le_u32(e, 0));
    assert(le_u32(bs, off + 4) == le_u32(e, 4));
}

/// The encoding of the `u16` read at `off` is the bytes it was read from.
pub proof fn lemma_u16_bytes_of_le(bs: Seq<u8>, off: int)
    requires
        0 <= off,
        off + 2 <= bs.len(),
    ensures
        u16_bytes(le_u16(bs, off)) == bs.subrange(off, off + 2),
{
    let (b0, b1) = (bs[off], bs[off + 1]);
    let x = ((b0 as u16) | ((b1 as u16) << 8u16)) as u16;
    assert((x & 0xff) as u8 == b0 && ((x >> 8u16) & 0xff) as u8 == b1) by (bit_vector)
        requires
            x == ((b0 as u16) | ((b1 as u16) << 8u16)) as u16,
    ;
    assert(u16_bytes(x) =~= bs.subrange(off, off + 2));
}

/// The encoding of the `u32` read at `off` is the bytes it was read from.
pub proof fn lemma_u32_bytes_of_le(bs: Seq<u8>, off: int)
    requires
        0 <= off,
        off + 4 <= bs.len(),
    ensures
        u32_bytes(le_u32(bs, off)) == bs.subrange(off, off + 4),
{
    let (b0, b1, b2, b3) = (bs[off], bs[off + 1], bs[off + 2], bs[off + 3]);
    let x = ((b0 as u32) | ((b1 as u32) << 8u32) | ((b2 as u32) << 16u32) | ((b3 as u32) << 24u32)) as u32;
    assert((x & 0xff) as u8 == b0 && ((x >> 8u32) & 0xff) as u8 == b1 && ((x >> 16u32) & 0xff) as u8 == b2
        && ((x >> 24u32) & 0xff) as u8 == b3) by (bit_vector)
        requires
            x == ((b0 as u32) | ((b1 as u32) << 8u32) | ((b2 as u32) << 16u32) | ((b3 as u32) << 24u32)) as u32,
    ;
    assert(u32_bytes(x) =~= bs.subrange(off, off + 4));
}

/// The encoding of the `u64` read at `off` is the bytes it was read from.
pub proof fn lemma_u64_bytes_of_le(bs: Seq<u8>, off: int)
    requires
        0 <= off,
        off + 8 <= bs.len(),
    ensures
        u64_bytes(le_u64(bs, off)) == bs.subrange(off, off + 8),
{
    let lo = le_u32(bs, off);
    let hi = le_u32(bs, off + 4);
    let x = le_u64(bs, off);
    assert(x == ((lo as u64) | ((hi as u64) << 32u64)) as u64);
    assert((x & 0xffff_ffff) as u32 == lo && (x >> 32u64) as u32 == hi) by (bit_vector)
        requires
            x == ((lo as u64) | ((hi as u64) << 32u64)) as u64,
    ;
    lemma_u32_bytes_of_le(bs, off);
    lemma_u32_bytes_of_le(bs, off + 4);
    assert(u64_bytes(x) =~= bs.subrange(off, off + 8));
}

pub fn read_u16(bs: &[u8], off: usize) -> (r: u16)
    requires
        off + 2 <= bs@.len(),
    ensures
        r == le_u16(bs@, off as int),
{
    (bs[off] as u16) | ((bs[off + 1] as u16) << 8)
}

pub fn read_u32(bs: &[u8], off: usize) -> (r: u32)
    requires
        off + 4 <= bs@.len(),
    ensures
        r == le_u32(bs@, off as int),
{
    (bs[off] as u32) | ((bs[off + 1] as u32) << 8) | ((bs[off + 2] as u32) << 16) | ((bs[off + 3] as u32) << 24)
}

pub fn read_u64(bs: &[u8], off: usize) -> (r: u64)
    requires
        off + 8 <= bs@.len(),
    ensures
        r == le_u64(bs@, off as int),
{
    let n = bs.len();
    assert(off + 4 <= n);
    let lo = read_u32(bs, off) as u64;
    let hi = read_u32(bs, off + 4) as u64;
    lo | (hi << 32)
}

pub fn push_u16(v: &mut Vec<u8>, x: u16)
    ensures
        final(v)@ == old(v)@ + u16_bytes(x),
{
    v.push((x & 0xff) as u8);
    v.push(((x >> 8) & 0xff) as u8);
    assert(final(v)@ =~= old(v)@ + u16_bytes(x));
}

pub fn push_u32(v: &mut Vec<u8>, x: u32)
    ensures
        final(v)@ == old(v)@ + u32_bytes(x),
{
    v.push((x & 0xff) as u8);
    v.push(((x >> 8) & 0xff) as u8);
    v.push(((x >> 16) & 0xff) as u8);
    v.push(((x >> 24) & 0xff) as u8);
    assert(final(v)@ =~= old(v)@ + u32_bytes(x));
}

pub fn push_u64(v: &mut Vec<u8>, x: u64)
    ensures
        final(v)@ == old(v)@ + u64_bytes(x),
{
    push_u32(v, (x & 0xffff_ffff) as u32);
    push_u32(v, (x >> 32) as u32);
    assert(final(v)@ =~= old(v)@ + u64_bytes(x));
}

/// `v` with `bs[off..off + 4]` set to the little-endian bytes of `x`.
pub fn write_u32_at(v: &mut Vec<u8>, off: usize, x: u32)
    requires
        off + 4 <= old(v).len(),
    ensures
        final(v)@ == old(v)@.subrange(0, off as int) + u32_bytes(x) + old(v)@.subrange(off + 4, old(v)@.len() as int),
{
    assert(off + 4 <= v@.len());
    v.set(off, (x & 0xff) as u8);
    v.set(off + 1, ((x >> 8) & 0xff) as u8);
    v.set(off + 2, ((x >> 16) & 0xff) as u8);
    v.set(off + 3, ((x >> 24) & 0xff) as u8);
    assert(final(v)@ =~= old(v)@.subrange(0, off as int) + u32_bytes(x) + old(v)@.subrange(off + 4, old(v)@.len() as int));
}

/// `s` with the character `c` appended (`String::push`).
#[verifier::external_body]
pub fn push_char(s: &mut String, c: char)
    ensures
        final(s)@ == old(s)@.push(c),
{
    s.push(c);
}

/// `n` zero bytes appended to `v`.
pub fn push_zeros(v: &mut Vec<u8>, n: usize)
    ensures
        final(v)@ == old(v)@ + Seq::new(n as nat, |i: int| 0u8),
{
    let mut k: usize = 0;
    while k < n
        invariant
            k <= n,
            v@ == old(v)@ + Seq::new(k as nat, |i: int| 0u8),
        decreases n - k,
    {
        v.push(0);
        k += 1;
        assert(v@ =~= old(v)@ + Seq::new(k as nat, |i: int| 0u8));
    }
}

/// A vector of `n` zero bytes.
pub fn zeros(n: usize) -> (r: Vec<u8>)
    ensures
        r@ == Seq::new(n as nat, |i: int| 0u8),
{
    let mut v: Vec<u8> = Vec::new();
    push_zeros(&mut v, n);
    assert(v@ =~= Seq::new(n as nat, |i: int| 0u8));
    v
}

/// A copy of `bs[start..end]`.
pub fn copy_range(bs: &[u8], start: usize, end: usize) -> (r: Vec<u8>)
    requires
        start <= end <= bs@.len(),
    ensures
        r@ == bs@.subrange(start as int, end as int),
{
    let mut v: Vec<u8> = Vec::new();
    let mut k = start;
    while k < end
        invariant
            start <= k <= end <= bs@.len(),
            v@ == bs@.subrange(start as int, k as int),
        decreases end - k,
    {
        v.push(bs[k]);
        k = k + 1;
        assert(v@ =~= bs@.subrange(start as int, k as int));
    }
    v
}

/// The `N` bytes `bs[off..off + N]` as an array.
pub fn array_at<const N: usize>(bs: &[u8], off: usize) -> (r: [u8; N])
    requires
        off + N <= bs@.len(),
    ensures
        r@ == bs@.subrange(off as int, off + N),
{
    let mut a: [u8; N] = [0u8; N];
    let n = bs.len();
    let mut k: usize = 0;
    while k < N
        invariant
            k <= N,
            n == bs@.len(),
            off + N <= bs@.len(),
            a@.len() == N,
            forall|i: int| 0 <= i < k ==> a@[i] == bs@[off + i],
        decreases N - k,
    {
        a[k] = bs[off + k];
        k += 1;
    }
    assert(a@ =~= bs@.subrange(off as int, off + N));
    a
}

/// `bs` with the bytes of `a` pushed at its end.
pub fn push_array<const N: usize>(v: &mut Vec<u8>, a: &[u8; N])
    ensures
        final(v)@ == old(v)@ + a@,
{
    let mut k: usize = 0;
    while k < N
        invariant
            k <= N,
            a@.len() == N,
            v@ == old(v)@ + a@.subrange(0, k as int),
        decreases N - k,
    {
        v.push(a[k]);
        k += 1;
        assert(v@ =~= old(v)@ + a@.subrange(0, k as int));
    }
    assert(a@.subrange(0, N as int) =~= a@);
}

/// The string that the UTF-8 bytes `bytes` encode, if they are valid UTF-8
/// (`std::str::from_utf8`).
#[verifier::external_body]
pub fn utf8_to_string(bytes: &[u8]) -> (r: Option<String>)
    ensures
        match r {
            Some(s) => valid_utf8(bytes@) && s@ == decode_utf8(bytes@),
            None => !valid_utf8(bytes@),
        },
{
    match std::str::from_utf8(bytes) {
        Ok(s) => Some(s.to_string()),
        Err(_) => None,
    }
}

/// What `String::from_utf8_lossy` makes of `bytes`: each invalid sequence
/// becomes U+FFFD.
pub uninterp spec fn lossy_utf8(bytes: Seq<u8>) -> Seq<char>;

/// `String::from_utf8_lossy`: the text of the bytes, invalid sequences
/// replaced by U+FFFD. Valid UTF-8 is decoded as it is.
#[verifier::external_body]
pub fn utf8_lossy(bytes: &[u8]) -> (r: String)
    ensures
        r@ == lossy_utf8(bytes@),
        valid_utf8(bytes@) ==> r@ == decode_utf8(bytes@),
{
    String::from_utf8_lossy(bytes).to_string()
}


proof fn lemma_le_arith(b0: u8, b1: u8, b2: u8, b3: u8, lo: u32, hi: u32)
    by (bit_vector)
    ensures
        ((b0 as u16) | ((b1 as u16) << 8u16)) as u16 == b0 + 256 * b1,
        ((b0 as u32) | ((b1 as u32) << 8u32) | ((b2 as u32) << 16u32) | ((b3 as u32) << 24u32)) as u32 == b0 + 256 * b1 + 65536
            * b2 + 16777216 * b3,
        ((lo as u64) | ((hi as u64) << 32u64)) as u64 == lo + 4294967296 * hi,
{
}

/// Little-endian numbers: the bytes at `off` are the base-256 digits of
/// the number read there, the first byte the lowest.
pub proof fn law_little_endian_value(bs: Seq<u8>, off: int)
    requires
        0 <= off,
    ensures
        off + 2 <= bs.len() ==> le_u16(bs, off) == bs[off] + 256 * bs[off + 1],
        off + 4 <= bs.len() ==> le_u32(bs, off) == bs[off] + 256 * bs[off + 1] + 65536 * bs[off + 2] + 16777216 * bs[off + 3],
        off + 8 <= bs.len() ==> le_u64(bs, off) == bs[off] + 256 * bs[off + 1] + 65536 * bs[off + 2] + 16777216 * bs[off + 3] + 4294967296 * (
        bs[off + 4] + 256 * bs[off + 5] + 65536 * bs[off + 6] + 16777216 * bs[off + 7]),
{
    lemma_le_arith(bs[off], bs[off + 1], bs[off + 2], bs[off + 3], le_u32(bs, off), le_u32(bs, off + 4));
    lemma_le_arith(bs[off + 4], bs[off + 5], bs[off + 6], bs[off + 7], 0, 0);
}

} // verus!
