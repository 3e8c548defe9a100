//! Binary primitives: fixed-width little-endian integers, appending to a
//! byte buffer, and matching a magic number.

use vstd::prelude::*;

verus! {

/// The two low-order bytes of `value`, least significant first.
#[verifier::opaque]
pub open spec fn u16_le(value: int) -> Seq<u8> {
    seq![(value % 256) as u8, (value / 256 % 256) as u8]
}

/// The four low-order bytes of `value`, least significant first.
#[verifier::opaque]
pub open spec fn u32_le(value: int) -> Seq<u8> {
    seq![
        (value % 256) as u8,
        (value / 0x100 % 256) as u8,
        (value / 0x1_0000 % 256) as u8,
        (value / 0x100_0000 % 256) as u8,
    ]
}

/// The eight low-order bytes of `value`, least significant first.
#[verifier::opaque]
pub open spec fn u64_le(value: int) -> Seq<u8> {
    u32_le(value % 0x1_0000_0000) + u32_le(value / 0x1_0000_0000 % 0x1_0000_0000)
}

/// The number that the two bytes at `at` spell, least significant first.
pub open spec fn u16_at(data: Seq<u8>, at: int) -> int {
    data[at] as int + 0x100 * data[at + 1] as int
}

/// The number that the four bytes at `at` spell, least significant first.
pub open spec fn u32_at(data: Seq<u8>, at: int) -> int {
    data[at] as int + 0x100 * data[at + 1] as int + 0x1_0000 * data[at + 2] as int + 0x100_0000
        * data[at + 3] as int
}

/// The number that the eight bytes at `at` spell, least significant first.
pub open spec fn u64_at(data: Seq<u8>, at: int) -> int {
    u32_at(data, at) + 0x1_0000_0000 * u32_at(data, at + 4)
}

/// Whether `data` holds `magic` at position `at`.
pub open spec fn has_bytes_at(data: Seq<u8>, at: int, magic: Seq<u8>) -> bool {
    0 <= at && at + magic.len() <= data.len() && data.subrange(at, at + magic.len()) == magic
}

/// A 16-bit number read back from its little-endian bytes is the number.
pub proof fn lemma_u16_le_round_trip(value: int)
    requires
        0 <= value < 0x1_0000,
    ensures
        u16_le(value).len() == 2,
        u16_at(u16_le(value), 0) == value,
{
    reveal(u16_le);
}

/// A 32-bit number read back from its little-endian bytes is the number.
pub proof fn lemma_u32_le_round_trip(value: int)
    requires
        0 <= value < 0x1_0000_0000,
    ensures
        u32_le(value).len() == 4,
        u32_at(u32_le(value), 0) == value,
{
    reveal(u32_le);
}

/// A 64-bit number read back from its little-endian bytes is the number.
pub proof fn lemma_u64_le_round_trip(value: int)
    requires
        0 <= value < 0x1_0000_0000_0000_0000,
    ensures
        u64_le(value).len() == 8,
        u64_at(u64_le(value), 0) == value,
{
    reveal(u64_le);
    let lo = value % 0x1_0000_0000;
    let hi = value / 0x1_0000_0000;
    assert(hi % 0x1_0000_0000 == hi);
    let low = u32_le(lo);
    let high = u32_le(hi);
    lemma_u32_le_round_trip(lo);
    lemma_u32_le_round_trip(hi);
    lemma_u32_at_concat(low, high);
}

/// Reading four bytes on either side of the seam of two four-byte pieces.
proof fn lemma_u32_at_concat(low: Seq<u8>, high: Seq<u8>)
    requires
        low.len() == 4,
        high.len() == 4,
    ensures
        u32_at(low + high, 0) == u32_at(low, 0),
        u32_at(low + high, 4) == u32_at(high, 0),
{
}

/// Appends `data` to `out`.
pub fn push_all(out: &mut Vec<u8>, data: &[u8])
    ensures
        final(out)@ == old(out)@ + data@,
{
    out.extend_from_slice(data);
    assert(out@ =~= old(out)@ + data@);
}

/// Appends the two low-order bytes of `value`, least significant first.
pub fn push_u16_le(out: &mut Vec<u8>, value: u16)
    ensures
        final(out)@ == old(out)@ + u16_le(value as int),
{
    out.push((value % 256) as u8);
    out.push((value / 256) as u8);
    proof {
        reveal(u16_le);
    }
    assert(out@ =~= old(out)@ + u16_le(value as int));
}

/// Appends the four bytes of `value`, least significant first.
pub fn push_u32_le(out: &mut Vec<u8>, value: u32)
    ensures
        final(out)@ == old(out)@ + u32_le(value as int),
{
    out.push((value % 256) as u8);
    out.push((value / 0x100 % 256) as u8);
    out.push((value / 0x1_0000 % 256) as u8);
    out.push((value / 0x100_0000) as u8);
    proof {
        reveal(u32_le);
    }
    assert(out@ =~= old(out)@ + u32_le(value as int));
}

/// Appends the eight bytes of `value`, least significant first.
pub fn push_u64_le(out: &mut Vec<u8>, value: u64)
    ensures
        final(out)@ == old(out)@ + u64_le(value as int),
{
    let low: u32 = (value % 0x1_0000_0000) as u32;
    let high: u32 = (value / 0x1_0000_0000) as u32;
    push_u32_le(out, low);
    push_u32_le(out, high);
    proof {
        reveal(u64_le);
    }
    assert(out@ =~= old(out)@ + u64_le(value as int));
}

/// The low 16 bits of `value`, as the two's complement form holds them.
pub fn low_u16(value: i32) -> (low: u16)
    ensures
        low as int == (value as int) % 0x1_0000,
{
    let wide: i64 = value as i64 + 0x1_0000_0000;
    (wide % 0x1_0000) as u16
}

/// Reads the 16-bit little-endian number at `at`.
pub fn read_u16_le(data: &[u8], at: usize) -> (value: u16)
    requires
        at + 2 <= data@.len(),
    ensures
        value as int == u16_at(data@, at as int),
{
    data[at] as u16 + 0x100 * (data[at + 1] as u16)
}

/// Reads the 32-bit little-endian number at `at`.
pub fn read_u32_le(data: &[u8], at: usize) -> (value: u32)
    requires
        at + 4 <= data@.len(),
    ensures
        value as int == u32_at(data@, at as int),
{
    data[at] as u32 + 0x100 * (data[at + 1] as u32) + 0x1_0000 * (data[at + 2] as u32)
        + 0x100_0000 * (data[at + 3] as u32)
}

/// Reads the 64-bit little-endian number at `at`.
pub fn read_u64_le(data: &[u8], at: usize) -> (value: u64)
    requires
        at + 8 <= data@.len(),
    ensures
        value as int == u64_at(data@, at as int),
{
    let _ = data.len();
    let low: u64 = read_u32_le(data, at) as u64;
    let high: u64 = read_u32_le(data, at + 4) as u64;
    low + 0x1_0000_0000 * high
}

/// Whether `data` holds `magic` at position `at`.
pub fn starts_with_at(data: &[u8], at: usize, magic: &[u8]) -> (found: bool)
    ensures
        found == has_bytes_at(data@, at as int, magic@),
{
    if at > data.len() || magic.len() > data.len() - at {
        return false;
    }
    let mut i: usize = 0;
    while i < magic.len()
        invariant
            at + magic@.len() <= data@.len() <= usize::MAX,
            i <= magic@.len(),
            forall|k: int| 0 <= k < i ==> data@[at + k] == magic@[k],
        decreases magic@.len() - i,
    {
        if data[at + i] != magic[i] {
            assert(data@.subrange(at as int, at + magic@.len())[i as int] == data@[at + i]);
            return false;
        }
        i += 1;
    }
    assert(data@.subrange(at as int, at + magic@.len()) =~= magic@);
    true
}

/// A 32-bit number reads the same from a place in `data` as from the four
/// bytes that stand there.
pub proof fn lemma_u32_at_piece(data: Seq<u8>, at: int, piece: Seq<u8>)
    requires
        0 <= at,
        at + 4 <= data.len(),
        data.subrange(at, at + 4) == piece,
    ensures
        u32_at(data, at) == u32_at(piece, 0),
{
    assert(piece[0] == data[at]);
    assert(piece[1] == data[at + 1]);
    assert(piece[2] == data[at + 2]);
    assert(piece[3] == data[at + 3]);
}

/// A 64-bit number reads the same from a place in `data` as from the eight
/// bytes that stand there.
pub proof fn lemma_u64_at_piece(data: Seq<u8>, at: int, piece: Seq<u8>)
    requires
        0 <= at,
        at + 8 <= data.len(),
        data.subrange(at, at + 8) == piece,
    ensures
        u64_at(data, at) == u64_at(piece, 0),
{
    assert(data.subrange(at, at + 4) =~= piece.subrange(0, 4));
    assert(data.subrange(at + 4, at + 8) =~= piece.subrange(4, 8));
    lemma_u32_at_piece(data, at, piece.subrange(0, 4));
    lemma_u32_at_piece(data, at + 4, piece.subrange(4, 8));
    lemma_u32_at_piece(piece, 0, piece.subrange(0, 4));
    lemma_u32_at_piece(piece, 4, piece.subrange(4, 8));
}

/// A 16-bit number reads the same from a place in `data` as from the two
/// bytes that stand there.
pub proof fn lemma_u16_at_piece(data: Seq<u8>, at: int, piece: Seq<u8>)
    requires
        0 <= at,
        at + 2 <= data.len(),
        data.subrange(at, at + 2) == piece,
    ensures
        u16_at(data, at) == u16_at(piece, 0),
{
    assert(piece[0] == data[at]);
    assert(piece[1] == data[at + 1]);
}

} // verus!
