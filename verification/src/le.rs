//! Little-endian field access on byte buffers.
use vstd::prelude::*;

verus! {

/// Value of the little-endian `u16` stored at `off`.
pub closed spec fn le16(s: Seq<u8>, off: int) -> int {
    s[off] as int + s[off + 1] as int * 256
}

/// Value of the little-endian `u32` stored at `off`.
pub closed spec fn le32(s: Seq<u8>, off: int) -> int {
    le16(s, off) + le16(s, off + 2) * 65536
}

/// Value of the little-endian `u64` stored at `off`.
pub closed spec fn le64(s: Seq<u8>, off: int) -> int {
    le32(s, off) + le32(s, off + 4) * 4294967296
}

/// Each little-endian field lies in the range of its width.
pub proof fn lemma_le_bounds(s: Seq<u8>, off: int)
    ensures
        0 <= le16(s, off) < 0x1_0000,
        0 <= le32(s, off) < 0x1_0000_0000,
        0 <= le64(s, off) < 0x1_0000_0000_0000_0000,
{
    let a = s[off] as int;
    let b = s[off + 1] as int;
    let c = s[off + 2] as int;
    let d = s[off + 3] as int;
    assert(0 <= le16(s, off + 2) < 0x1_0000);
    assert(0 <= le32(s, off + 4) < 0x1_0000_0000) by {
        assert(0 <= le16(s, off + 4) < 0x1_0000);
        assert(0 <= le16(s, off + 6) < 0x1_0000);
    }
}

pub fn get_u16(data: &[u8], off: usize) -> (r: u16)
    requires
        off + 2 <= data.len(),
    ensures
        r == le16(data@, off as int),
{
    (data[off] as u16) + (data[off + 1] as u16) * 256
}

pub fn get_u32(data: &[u8], off: usize) -> (r: u32)
    requires
        off + 4 <= data.len(),
    ensures
        r == le32(data@, off as int),
{
    let lo = get_u16(data, off);
    let hi = get_u16(data, off + 2);
    (lo as u32) + (hi as u32) * 65536
}

pub fn get_u64(data: &[u8], off: usize) -> (r: u64)
    requires
        off + 8 <= data.len(),
    ensures
        r == le64(data@, off as int),
{
    let lo = get_u32(data, off);
    let hi = get_u32(data, off + 4);
    (lo as u64) + (hi as u64) * 4294967296
}

/// Little-endian bytes of a 16-bit value.
pub open spec fn bytes16(v: u16) -> Seq<u8> {
    seq![(v % 256) as u8, (v / 256) as u8]
}

/// Little-endian bytes of a 32-bit value.
pub open spec fn bytes32(v: u32) -> Seq<u8> {
    bytes16((v % 0x1_0000) as u16) + bytes16((v / 0x1_0000) as u16)
}

/// Little-endian bytes of a 64-bit value.
pub open spec fn bytes64(v: u64) -> Seq<u8> {
    bytes32((v % 0x1_0000_0000) as u32) + bytes32((v / 0x1_0000_0000) as u32)
}

/// Bytes of a 16-bit value read back give the value.
pub proof fn lemma_read16(s: Seq<u8>, off: int, v: u16)
    requires
        0 <= off,
        off + 2 <= s.len(),
        s.subrange(off, off + 2) == bytes16(v),
    ensures
        le16(s, off) == v,
{
    assert(s[off] == s.subrange(off, off + 2)[0]);
    assert(s[off + 1] == s.subrange(off, off + 2)[1]);
    vstd::arithmetic::div_mod::lemma_fundamental_div_mod(v as int, 256);
}

/// Bytes of a 32-bit value read back give the value.
pub proof fn lemma_read32(s: Seq<u8>, off: int, v: u32)
    requires
        0 <= off,
        off + 4 <= s.len(),
        s.subrange(off, off + 4) == bytes32(v),
    ensures
        le32(s, off) == v,
{
    let t = s.subrange(off, off + 4);
    assert(s.subrange(off, off + 2) =~= t.subrange(0, 2));
    assert(s.subrange(off + 2, off + 4) =~= t.subrange(2, 4));
    assert(t.subrange(0, 2) =~= bytes16((v % 0x1_0000) as u16));
    assert(t.subrange(2, 4) =~= bytes16((v / 0x1_0000) as u16));
    lemma_read16(s, off, (v % 0x1_0000) as u16);
    lemma_read16(s, off + 2, (v / 0x1_0000) as u16);
    vstd::arithmetic::div_mod::lemma_fundamental_div_mod(v as int, 0x1_0000);
}

/// Bytes of a 64-bit value read back give the value.
pub proof fn lemma_read64(s: Seq<u8>, off: int, v: u64)
    requires
        0 <= off,
        off + 8 <= s.len(),
        s.subrange(off, off + 8) == bytes64(v),
    ensures
        le64(s, off) == v,
{
    let t = s.subrange(off, off + 8);
    assert(s.subrange(off, off + 4) =~= t.subrange(0, 4));
    assert(s.subrange(off + 4, off + 8) =~= t.subrange(4, 8));
    assert(t.subrange(0, 4) =~= bytes32((v % 0x1_0000_0000) as u32));
    assert(t.subrange(4, 8) =~= bytes32((v / 0x1_0000_0000) as u32));
    lemma_read32(s, off, (v % 0x1_0000_0000) as u32);
    lemma_read32(s, off + 4, (v / 0x1_0000_0000) as u32);
    vstd::arithmetic::div_mod::lemma_fundamental_div_mod(v as int, 0x1_0000_0000);
}

/// Writes the little-endian bytes of `v` at `off`.
pub fn put_u16(buf: &mut [u8], off: usize, v: u16)
    requires
        off + 2 <= old(buf).len(),
    ensures
        final(buf)@ == old(buf)@.subrange(0, off as int) + bytes16(v) + old(buf)@.subrange(off + 2, old(buf)@.len() as int),
{
    buf[off] = (v % 256) as u8;
    buf[off + 1] = (v / 256) as u8;
    assert(buf@ =~= old(buf)@.subrange(0, off as int) + bytes16(v) + old(buf)@.subrange(off + 2, old(buf)@.len() as int));
}

/// Writes the little-endian bytes of `v` at `off`.
pub fn put_u32(buf: &mut [u8], off: usize, v: u32)
    requires
        off + 4 <= old(buf).len(),
    ensures
        final(buf)@ == old(buf)@.subrange(0, off as int) + bytes32(v) + old(buf)@.subrange(off + 4, old(buf)@.len() as int),
{
    put_u16(buf, off, (v % 0x1_0000) as u16);
    put_u16(buf, off + 2, (v / 0x1_0000) as u16);
    assert(buf@ =~= old(buf)@.subrange(0, off as int) + bytes32(v) + old(buf)@.subrange(off + 4, old(buf)@.len() as int));
}

/// Writes the little-endian bytes of `v` at `off`.
pub fn put_u64(buf: &mut [u8], off: usize, v: u64)
    requires
        off + 8 <= old(buf).len(),
    ensures
        final(buf)@ == old(buf)@.subrange(0, off as int) + bytes64(v) + old(buf)@.subrange(off + 8, old(buf)@.len() as int),
{
    put_u32(buf, off, (v % 0x1_0000_0000) as u32);
    put_u32(buf, off + 4, (v / 0x1_0000_0000) as u32);
    assert(buf@ =~= old(buf)@.subrange(0, off as int) + bytes64(v) + old(buf)@.subrange(off + 8, old(buf)@.len() as int));
}

} // verus!
