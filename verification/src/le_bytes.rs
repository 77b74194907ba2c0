use vstd::prelude::*;

verus! {

/// The integer a 4-byte little-endian sequence denotes.
pub open spec fn u32_of_le(b: Seq<u8>) -> int
    recommends
        b.len() == 4,
{
    b[0] + 256 * (b[1] + 256 * (b[2] + 256 * b[3]))
}

/// The 4-byte little-endian encoding of an integer in `[0, 2^32)`.
pub open spec fn le4(x: int) -> Seq<u8> {
    seq![
        (x % 256) as u8,
        ((x / 256) % 256) as u8,
        ((x / 65536) % 256) as u8,
        ((x / 16777216) % 256) as u8,
    ]
}

/// The integer an 8-byte little-endian sequence denotes.
pub open spec fn u64_of_le(b: Seq<u8>) -> int
    recommends
        b.len() == 8,
{
    u32_of_le(b.subrange(0, 4)) + 0x1_0000_0000 * u32_of_le(b.subrange(4, 8))
}

/// The 8-byte little-endian encoding of an integer in `[0, 2^64)`.
pub open spec fn le8(x: int) -> Seq<u8> {
    le4(x % 0x1_0000_0000) + le4(x / 0x1_0000_0000)
}

pub proof fn lemma_le4_roundtrip(x: int)
    requires
        0 <= x < 0x1_0000_0000,
    ensures
        le4(x).len() == 4,
        u32_of_le(le4(x)) == x,
{
    assert(u32_of_le(le4(x)) == x) by (nonlinear_arith)
        requires 0 <= x < 0x1_0000_0000;
}

pub proof fn lemma_le8_roundtrip(x: int)
    requires
        0 <= x < 0x1_0000_0000_0000_0000,
    ensures
        le8(x).len() == 8,
        u64_of_le(le8(x)) == x,
{
    let lo = x % 0x1_0000_0000;
    let hi = x / 0x1_0000_0000;
    assert(0 <= x % 0x1_0000_0000 < 0x1_0000_0000 && 0 <= x / 0x1_0000_0000 < 0x1_0000_0000
        && x == x % 0x1_0000_0000 + 0x1_0000_0000 * (x / 0x1_0000_0000)) by (nonlinear_arith)
        requires 0 <= x < 0x1_0000_0000_0000_0000;
    lemma_le4_roundtrip(lo);
    lemma_le4_roundtrip(hi);
    assert(le8(x).subrange(0, 4) =~= le4(lo));
    assert(le8(x).subrange(4, 8) =~= le4(hi));
}

/// Append the 4-byte little-endian form of `x`.
pub fn push_u32_le(out: &mut Vec<u8>, x: u32)
    ensures
        final(out)@ == old(out)@ + le4(x as int),
        final(out)@.len() == old(out)@.len() + 4,
{
    out.push((x % 256) as u8);
    out.push(((x / 256) % 256) as u8);
    out.push(((x / 65536) % 256) as u8);
    out.push(((x / 16777216) % 256) as u8);
    assert(out@ =~= old(out)@ + le4(x as int));
}

/// Append the 8-byte little-endian form of `x`.
pub fn push_u64_le(out: &mut Vec<u8>, x: u64)
    ensures
        final(out)@ == old(out)@ + le8(x as int),
        final(out)@.len() == old(out)@.len() + 8,
{
    let lo = (x % 0x1_0000_0000) as u32;
    let hi = (x / 0x1_0000_0000) as u32;
    push_u32_le(out, lo);
    push_u32_le(out, hi);
    assert(out@ =~= old(out)@ + le8(x as int));
}

/// Read the u32 denoted by 4 little-endian bytes at `off`.
pub fn read_u32_le(b: &[u8], off: usize) -> (r: u32)
    requires
        off + 4 <= b@.len(),
    ensures
        r as int == u32_of_le(b@.subrange(off as int, off as int + 4)),
{
    let r = b[off] as u32 + 256 * (b[off + 1] as u32) + 65536 * (b[off + 2] as u32)
        + 16777216 * (b[off + 3] as u32);
    assert(r as int == u32_of_le(b@.subrange(off as int, off as int + 4)));
    r
}

/// Read the u16 denoted by 2 little-endian bytes at `off`.
pub fn read_u16_le(b: &[u8], off: usize) -> (r: u16)
    requires
        off + 2 <= b@.len(),
    ensures
        r as int == b@[off as int] + 256 * b@[off as int + 1],
{
    b[off] as u16 + 256 * (b[off + 1] as u16)
}

/// Read the u64 denoted by 8 little-endian bytes at `off`.
pub fn read_u64_le(b: &[u8], off: usize) -> (r: u64)
    requires
        off + 8 <= b@.len(),
    ensures
        r as int == u64_of_le(b@.subrange(off as int, off as int + 8)),
{
    let n: usize = b.len();
    assert(off + 8 <= n);
    let lo = read_u32_le(b, off);
    let hi = read_u32_le(b, off + 4);
    assert(b@.subrange(off as int, off as int + 8).subrange(0, 4) =~= b@.subrange(
        off as int,
        off as int + 4,
    ));
    assert(b@.subrange(off as int, off as int + 8).subrange(4, 8) =~= b@.subrange(
        off as int + 4,
        off as int + 8,
    ));
    lo as u64 + 0x1_0000_0000 * (hi as u64)
}

} // verus!
