//! Big-endian integer fields and XOR masking: the bit-level vocabulary the
//! packet formats are written in.

use vstd::prelude::*;

verus! {

/// The two bytes of `x` in network (big-endian) order.
pub open spec fn spec_be16(x: u16) -> Seq<u8> {
    seq![(x / 0x100) as u8, (x % 0x100) as u8]
}

/// The four bytes of `x` in network (big-endian) order.
pub open spec fn spec_be32(x: u32) -> Seq<u8> {
    seq![
        (x / 0x1000000) as u8,
        ((x / 0x10000) % 0x100) as u8,
        ((x / 0x100) % 0x100) as u8,
        (x % 0x100) as u8,
    ]
}

/// The eight bytes of `x` in network (big-endian) order.
pub open spec fn spec_be64(x: u64) -> Seq<u8> {
    seq![
        (x / 0x100000000000000) as u8,
        ((x / 0x1000000000000) % 0x100) as u8,
        ((x / 0x10000000000) % 0x100) as u8,
        ((x / 0x100000000) % 0x100) as u8,
        ((x / 0x1000000) % 0x100) as u8,
        ((x / 0x10000) % 0x100) as u8,
        ((x / 0x100) % 0x100) as u8,
        (x % 0x100) as u8,
    ]
}

/// The `u16` denoted by two big-endian bytes.
pub open spec fn spec_u16_from_be(s: Seq<u8>) -> u16
    recommends
        s.len() == 2,
{
    (s[0] as u16 * 0x100 + s[1] as u16) as u16
}

/// The `u32` denoted by four big-endian bytes.
pub open spec fn spec_u32_from_be(s: Seq<u8>) -> u32
    recommends
        s.len() == 4,
{
    (s[0] as u32 * 0x1000000 + s[1] as u32 * 0x10000 + s[2] as u32 * 0x100 + s[3] as u32) as u32
}

/// The `u64` denoted by eight big-endian bytes.
pub open spec fn spec_u64_from_be(s: Seq<u8>) -> u64
    recommends
        s.len() == 8,
{
    (s[0] as u64 * 0x100000000000000 + s[1] as u64 * 0x1000000000000 + s[2] as u64 * 0x10000000000
        + s[3] as u64 * 0x100000000 + s[4] as u64 * 0x1000000 + s[5] as u64 * 0x10000
        + s[6] as u64 * 0x100 + s[7] as u64) as u64
}

/// Reading back the bytes of `spec_be16` yields the value again.
pub proof fn lemma_be16_round_trip(x: u16)
    ensures
        spec_u16_from_be(spec_be16(x)) == x,
{
}

/// Reading back the bytes of `spec_be32` yields the value again.
pub proof fn lemma_be32_round_trip(x: u32)
    ensures
        spec_u32_from_be(spec_be32(x)) == x,
{
}

/// Append the two big-endian bytes of `x` to `out`.
pub fn put_be16(out: &mut Vec<u8>, x: u16)
    ensures
        final(out)@ == old(out)@ + spec_be16(x),
{
    out.push((x / 0x100) as u8);
    out.push((x % 0x100) as u8);
    assert(out@ =~= old(out)@ + spec_be16(x));
}

/// Append the four big-endian bytes of `x` to `out`.
pub fn put_be32(out: &mut Vec<u8>, x: u32)
    ensures
        final(out)@ == old(out)@ + spec_be32(x),
{
    out.push((x / 0x1000000) as u8);
    out.push(((x / 0x10000) % 0x100) as u8);
    out.push(((x / 0x100) % 0x100) as u8);
    out.push((x % 0x100) as u8);
    assert(out@ =~= old(out)@ + spec_be32(x));
}

/// Append the eight big-endian bytes of `x` to `out`.
pub fn put_be64(out: &mut Vec<u8>, x: u64)
    ensures
        final(out)@ == old(out)@ + spec_be64(x),
{
    out.push((x / 0x100000000000000) as u8);
    out.push(((x / 0x1000000000000) % 0x100) as u8);
    out.push(((x / 0x10000000000) % 0x100) as u8);
    out.push(((x / 0x100000000) % 0x100) as u8);
    out.push(((x / 0x1000000) % 0x100) as u8);
    out.push(((x / 0x10000) % 0x100) as u8);
    out.push(((x / 0x100) % 0x100) as u8);
    out.push((x % 0x100) as u8);
    assert(out@ =~= old(out)@ + spec_be64(x));
}

/// Read a big-endian `u16` at `at`.
pub fn get_be16(buf: &Vec<u8>, at: usize) -> (r: u16)
    requires
        at + 2 <= buf@.len(),
    ensures
        r == spec_u16_from_be(buf@.subrange(at as int, at + 2)),
{
    let _bound: usize = buf.len();
    let r: u16 = buf[at] as u16 * 0x100 + buf[at + 1] as u16;
    proof {
        let s = buf@.subrange(at as int, at + 2);
        assert(s[0] == buf@[at as int] && s[1] == buf@[at + 1]);
    }
    r
}

/// Read a big-endian `u32` at `at`.
pub fn get_be32(buf: &Vec<u8>, at: usize) -> (r: u32)
    requires
        at + 4 <= buf@.len(),
    ensures
        r == spec_u32_from_be(buf@.subrange(at as int, at + 4)),
{
    let _bound: usize = buf.len();
    let r: u32 = buf[at] as u32 * 0x1000000 + buf[at + 1] as u32 * 0x10000 + buf[at + 2] as u32
        * 0x100 + buf[at + 3] as u32;
    proof {
        let s = buf@.subrange(at as int, at + 4);
        assert(s[0] == buf@[at as int] && s[1] == buf@[at + 1] && s[2] == buf@[at + 2] && s[3]
            == buf@[at + 3]);
    }
    r
}

/// Read a big-endian `u64` at `at`.
pub fn get_be64(buf: &Vec<u8>, at: usize) -> (r: u64)
    requires
        at + 8 <= buf@.len(),
    ensures
        r == spec_u64_from_be(buf@.subrange(at as int, at + 8)),
{
    let _bound: usize = buf.len();
    let r: u64 = buf[at] as u64 * 0x100000000000000 + buf[at + 1] as u64 * 0x1000000000000 + buf[at
        + 2] as u64 * 0x10000000000 + buf[at + 3] as u64 * 0x100000000 + buf[at + 4] as u64
        * 0x1000000 + buf[at + 5] as u64 * 0x10000 + buf[at + 6] as u64 * 0x100 + buf[at + 7] as u64;
    proof {
        let s = buf@.subrange(at as int, at + 8);
        assert(s[0] == buf@[at as int] && s[1] == buf@[at + 1] && s[2] == buf@[at + 2] && s[3]
            == buf@[at + 3] && s[4] == buf@[at + 4] && s[5] == buf@[at + 5] && s[6] == buf@[at + 6]
            && s[7] == buf@[at + 7]);
    }
    r
}

/// Append a copy of `src` to `out`.
pub fn push_all(out: &mut Vec<u8>, src: &Vec<u8>)
    ensures
        final(out)@ == old(out)@ + src@,
{
    let n: usize = src.len();
    let mut k: usize = 0;
    while k < n
        invariant
            k <= n,
            n == src@.len(),
            out@ == old(out)@ + src@.subrange(0, k as int),
        decreases n - k,
    {
        out.push(src[k]);
        assert(out@ =~= old(out)@ + src@.subrange(0, k + 1));
        k = k + 1;
    }
    assert(out@ =~= old(out)@ + src@);
}

/// A copy of `buf[from..to]`.
pub fn sub_vec(buf: &Vec<u8>, from: usize, to: usize) -> (r: Vec<u8>)
    requires
        from <= to,
        to <= buf@.len(),
    ensures
        r@ == buf@.subrange(from as int, to as int),
{
    let mut r: Vec<u8> = Vec::new();
    let mut k: usize = from;
    while k < to
        invariant
            from <= k <= to,
            to <= buf@.len(),
            r@ == buf@.subrange(from as int, k as int),
        decreases to - k,
    {
        r.push(buf[k]);
        assert(r@ =~= buf@.subrange(from as int, k + 1));
        k = k + 1;
    }
    r
}

/// XOR is its own inverse, byte by byte.
pub proof fn lemma_xor_involution(a: u8, m: u8)
    ensures
        (a ^ m) ^ m == a,
{
    assert((a ^ m) ^ m == a) by (bit_vector);
}

/// XOR the `n` bytes of `buf` starting at `at` with the first `n` bytes of
/// `mask`.
pub fn xor_in_place(buf: &mut Vec<u8>, at: usize, mask: &Vec<u8>, n: usize)
    requires
        at + n <= old(buf)@.len(),
        n <= mask@.len(),
    ensures
        final(buf)@.len() == old(buf)@.len(),
        forall|i: int|
            0 <= i < final(buf)@.len() ==> final(buf)@[i] == if at <= i < at + n {
                old(buf)@[i] ^ mask@[i - at]
            } else {
                old(buf)@[i]
            },
{
    let len: usize = buf.len();
    let mut k: usize = 0;
    while k < n
        invariant
            k <= n,
            at + n <= len,
            len == buf@.len(),
            n <= mask@.len(),
            buf@.len() == old(buf)@.len(),
            forall|i: int|
                0 <= i < buf@.len() ==> buf@[i] == if at <= i < at + k {
                    old(buf)@[i] ^ mask@[i - at]
                } else {
                    old(buf)@[i]
                },
        decreases n - k,
    {
        let b = buf[at + k] ^ mask[k];
        buf.set(at + k, b);
        k = k + 1;
    }
}

} // verus!
