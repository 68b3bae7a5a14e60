//! Little-endian integers inside byte strings.
use vstd::prelude::*;

verus! {

/// The little-endian `u16` stored at `off`.
pub open spec fn le16(s: Seq<u8>, off: int) -> u16 {
    (s[off] as int + 256 * s[off + 1] as int) as u16
}

/// The little-endian `u32` stored at `off`.
pub open spec fn le32(s: Seq<u8>, off: int) -> u32 {
    (s[off] as int + 256 * s[off + 1] as int + 65536 * s[off + 2] as int + 16777216 * s[off
        + 3] as int) as u32
}

/// The little-endian `u64` stored at `off`.
pub open spec fn le64(s: Seq<u8>, off: int) -> u64 {
    (le32(s, off) as int + 4294967296 * le32(s, off + 4) as int) as u64
}

/// The four little-endian bytes of `v`.
pub open spec fn u32_bytes(v: u32) -> Seq<u8> {
    seq![(v % 256) as u8, ((v / 256) % 256) as u8, ((v / 65536) % 256) as u8, (v / 16777216) as u8]
}

/// The two little-endian bytes of `v`.
pub open spec fn u16_bytes(v: u16) -> Seq<u8> {
    seq![(v % 256) as u8, (v / 256) as u8]
}

/// `s` with the bytes from `off` on replaced by `part`.
pub open spec fn splice(s: Seq<u8>, off: int, part: Seq<u8>) -> Seq<u8> {
    s.subrange(0, off) + part + s.subrange(off + part.len(), s.len() as int)
}

pub proof fn lemma_le32_of_bytes(v: u32)
    ensures
        le32(u32_bytes(v), 0) == v,
        u32_bytes(v).len() == 4,
{
    let b = u32_bytes(v);
    assert(b[0] as int + 256 * b[1] as int + 65536 * b[2] as int + 16777216 * b[3] as int
        == v as int) by (nonlinear_arith)
        requires
            b[0] == (v % 256) as u8,
            b[1] == ((v / 256) % 256) as u8,
            b[2] == ((v / 65536) % 256) as u8,
            b[3] == (v / 16777216) as u8,
    ;
}

pub proof fn lemma_le16_of_bytes(v: u16)
    ensures
        le16(u16_bytes(v), 0) == v,
        u16_bytes(v).len() == 2,
{
}

pub proof fn lemma_le32_splice(s: Seq<u8>, off: int, v: u32)
    requires
        0 <= off,
        off + 4 <= s.len(),
    ensures
        le32(splice(s, off, u32_bytes(v)), off) == v,
        splice(s, off, u32_bytes(v)).len() == s.len(),
{
    lemma_le32_of_bytes(v);
    let t = splice(s, off, u32_bytes(v));
    assert(t[off] == u32_bytes(v)[0]);
    assert(t[off + 1] == u32_bytes(v)[1]);
    assert(t[off + 2] == u32_bytes(v)[2]);
    assert(t[off + 3] == u32_bytes(v)[3]);
}

pub proof fn lemma_le16_splice(s: Seq<u8>, off: int, v: u16)
    requires
        0 <= off,
        off + 2 <= s.len(),
    ensures
        le16(splice(s, off, u16_bytes(v)), off) == v,
        splice(s, off, u16_bytes(v)).len() == s.len(),
{
    let t = splice(s, off, u16_bytes(v));
    assert(t[off] == u16_bytes(v)[0]);
    assert(t[off + 1] == u16_bytes(v)[1]);
}

/// The little-endian `u16` at `off`.
pub fn read_u16_le(bytes: &[u8], off: usize) -> (r: u16)
    requires
        off + 2 <= bytes@.len(),
    ensures
        r == le16(bytes@, off as int),
{
    bytes[off] as u16 + 256 * (bytes[off + 1] as u16)
}

/// The little-endian `u32` at `off`.
pub fn read_u32_le(bytes: &[u8], off: usize) -> (r: u32)
    requires
        off + 4 <= bytes@.len(),
    ensures
        r == le32(bytes@, off as int),
{
    bytes[off] as u32 + 256 * (bytes[off + 1] as u32) + 65536 * (bytes[off + 2] as u32) + 16777216
        * (bytes[off + 3] as u32)
}

/// The little-endian `u64` at `off`.
pub fn read_u64_le(bytes: &[u8], off: usize) -> (r: u64)
    requires
        off + 8 <= bytes@.len(),
    ensures
        r == le64(bytes@, off as int),
{
    let _n = bytes.len();
    let lo = read_u32_le(bytes, off) as u64;
    let hi = read_u32_le(bytes, off + 4) as u64;
    lo + 4294967296 * hi
}

/// Store `v` little-endian at `off`.
pub fn write_u32_le(bytes: &mut Vec<u8>, off: usize, v: u32)
    requires
        off + 4 <= old(bytes)@.len(),
    ensures
        final(bytes)@ == splice(old(bytes)@, off as int, u32_bytes(v)),
{
    let _n = bytes.len();
    bytes.set(off, (v % 256) as u8);
    bytes.set(off + 1, ((v / 256) % 256) as u8);
    bytes.set(off + 2, ((v / 65536) % 256) as u8);
    bytes.set(off + 3, (v / 16777216) as u8);
    assert(bytes@ =~= splice(old(bytes)@, off as int, u32_bytes(v)));
}

/// Store `v` little-endian at `off`.
pub fn write_u16_le(bytes: &mut Vec<u8>, off: usize, v: u16)
    requires
        off + 2 <= old(bytes)@.len(),
    ensures
        final(bytes)@ == splice(old(bytes)@, off as int, u16_bytes(v)),
{
    let _n = bytes.len();
    bytes.set(off, (v % 256) as u8);
    bytes.set(off + 1, (v / 256) as u8);
    assert(bytes@ =~= splice(old(bytes)@, off as int, u16_bytes(v)));
}

/// The little-endian `u32` at `offset`, when four bytes are there.
pub fn read_u32_le_at(bytes: &[u8], offset: usize) -> (r: Option<u32>)
    requires
        offset + 4 <= usize::MAX,
    ensures
        r is Some <==> offset + 4 <= bytes@.len(),
        r matches Some(v) ==> v == le32(bytes@, offset as int),
{
    if offset + 4 <= bytes.len() {
        Some(read_u32_le(bytes, offset))
    } else {
        None
    }
}

/// Store `value` little-endian at `offset` when four bytes are there;
/// otherwise leave the bytes as they are.
pub fn set_u32_le_at(bytes: &mut Vec<u8>, offset: usize, value: u32)
    requires
        offset + 4 <= usize::MAX,
    ensures
        offset + 4 <= old(bytes)@.len() ==> final(bytes)@ == splice(
            old(bytes)@,
            offset as int,
            u32_bytes(value),
        ),
        offset + 4 > old(bytes)@.len() ==> final(bytes)@ == old(bytes)@,
{
    if offset + 4 <= bytes.len() {
        write_u32_le(bytes, offset, value);
    }
}

} // verus!
