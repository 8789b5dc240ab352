//! Little-endian integer fields read from byte sequences.
use vstd::prelude::*;

verus! {

/// The unsigned value of the two bytes at `off`, least significant first.
pub open spec fn le_u16(s: Seq<u8>, off: int) -> u16 {
    (s[off] as int + 0x100 * s[off + 1]) as u16
}

/// The unsigned value of the four bytes at `off`, least significant first.
pub open spec fn le_u32(s: Seq<u8>, off: int) -> u32 {
    (s[off] as int + 0x100 * s[off + 1] + 0x1_0000 * s[off + 2] + 0x100_0000 * s[off + 3]) as u32
}

/// The unsigned value of the eight bytes at `off`, least significant first.
pub open spec fn le_u64(s: Seq<u8>, off: int) -> u64 {
    (le_u32(s, off) as int + 0x1_0000_0000 * le_u32(s, off + 4)) as u64
}

/// The four bytes that encode `v`, least significant first.
pub open spec fn le_bytes_u32(v: u32) -> Seq<u8> {
    seq![
        (v % 0x100) as u8,
        ((v / 0x100) % 0x100) as u8,
        ((v / 0x1_0000) % 0x100) as u8,
        (v / 0x100_0000) as u8,
    ]
}

pub fn read_u16_le(s: &[u8], off: usize) -> (r: u16)
    requires
        off + 2 <= s@.len(),
    ensures
        r == le_u16(s@, off as int),
{
    s[off] as u16 + 0x100 * (s[off + 1] as u16)
}

pub fn read_u32_le(s: &[u8], off: usize) -> (r: u32)
    requires
        off + 4 <= s@.len(),
    ensures
        r == le_u32(s@, off as int),
{
    s[off] as u32 + 0x100 * (s[off + 1] as u32) + 0x1_0000 * (s[off + 2] as u32) + 0x100_0000 * (
    s[off + 3] as u32)
}

pub fn read_u64_le(s: &[u8], off: usize) -> (r: u64)
    requires
        off + 8 <= s@.len(),
    ensures
        r == le_u64(s@, off as int),
{
    let lo = read_u32_le(s, off);
    assert(off + 4 < s.len());
    let hi = read_u32_le(s, off + 4);
    lo as u64 + 0x1_0000_0000 * (hi as u64)
}

/// A four-byte field is unchanged when bytes are added after it.
pub proof fn lemma_le_u32_prefix(s: Seq<u8>, t: Seq<u8>, off: int)
    requires
        0 <= off,
        off + 4 <= s.len(),
        s.len() <= t.len(),
        t.subrange(0, s.len() as int) == s,
    ensures
        le_u32(t, off) == le_u32(s, off),
{
    assert(t[off] == t.subrange(0, s.len() as int)[off]);
    assert(t[off + 1] == t.subrange(0, s.len() as int)[off + 1]);
    assert(t[off + 2] == t.subrange(0, s.len() as int)[off + 2]);
    assert(t[off + 3] == t.subrange(0, s.len() as int)[off + 3]);
}

/// Appends the little-endian encoding of `v` to `out`.
pub fn push_u32_le(out: &mut Vec<u8>, v: u32)
    ensures
        final(out)@ == old(out)@ + le_bytes_u32(v),
        le_u32(final(out)@, old(out)@.len() as int) == v,
{
    out.push((v % 0x100) as u8);
    out.push(((v / 0x100) % 0x100) as u8);
    out.push(((v / 0x1_0000) % 0x100) as u8);
    out.push((v / 0x100_0000) as u8);
    assert(out@ =~= old(out)@ + le_bytes_u32(v));
}

} // verus!
