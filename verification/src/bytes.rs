//! Fixed-width integers as bytes, and the small byte-string helpers the
//! record formats are built from.

use vstd::prelude::*;

verus! {

/// The four bytes of `x`, most significant first.
pub open spec fn be32(x: u32) -> Seq<u8> {
    seq![
        (x / 0x100_0000) as u8,
        ((x / 0x1_0000) % 0x100) as u8,
        ((x / 0x100) % 0x100) as u8,
        (x % 0x100) as u8,
    ]
}

/// The number that four bytes stand for, most significant first.
pub open spec fn be32_value(bytes: Seq<u8>) -> int {
    bytes[0] * 0x100_0000 + bytes[1] * 0x1_0000 + bytes[2] * 0x100 + bytes[3]
}

/// The eight bytes of `x`, most significant first.
pub open spec fn be64(x: u64) -> Seq<u8> {
    be32((x / 0x1_0000_0000) as u32) + be32((x % 0x1_0000_0000) as u32)
}

/// The eight bytes of `x`, least significant first.
pub open spec fn le64(x: u64) -> Seq<u8> {
    be64(x).reverse()
}

/// The number that eight bytes stand for, least significant first.
pub open spec fn le64_value(bytes: Seq<u8>) -> int {
    be32_value(bytes.subrange(4, 8).reverse()) * 0x1_0000_0000 + be32_value(
        bytes.subrange(0, 4).reverse(),
    )
}

/// Decoding undoes encoding.
pub proof fn lemma_be32_round_trip(x: u32)
    ensures
        be32(x).len() == 4,
        be32_value(be32(x)) == x,
{
}

/// Four digits to base 256 are recovered from their number by division.
proof fn lemma_digits(b0: int, b1: int, b2: int, b3: int)
    requires
        0 <= b0 < 0x100,
        0 <= b1 < 0x100,
        0 <= b2 < 0x100,
        0 <= b3 < 0x100,
    ensures
        0 <= b0 * 0x100_0000 + b1 * 0x1_0000 + b2 * 0x100 + b3 <= u32::MAX,
        (b0 * 0x100_0000 + b1 * 0x1_0000 + b2 * 0x100 + b3) / 0x100_0000 == b0,
        ((b0 * 0x100_0000 + b1 * 0x1_0000 + b2 * 0x100 + b3) / 0x1_0000) % 0x100 == b1,
        ((b0 * 0x100_0000 + b1 * 0x1_0000 + b2 * 0x100 + b3) / 0x100) % 0x100 == b2,
        (b0 * 0x100_0000 + b1 * 0x1_0000 + b2 * 0x100 + b3) % 0x100 == b3,
{
}

/// Encoding undoes decoding: four bytes are the encoding of their value.
pub proof fn lemma_be32_of_value(bytes: Seq<u8>)
    requires
        bytes.len() == 4,
    ensures
        0 <= be32_value(bytes) <= u32::MAX,
        be32(be32_value(bytes) as u32) == bytes,
{
    lemma_digits(bytes[0] as int, bytes[1] as int, bytes[2] as int, bytes[3] as int);
    let v: int = be32_value(bytes);
    assert(be32(v as u32)[0] == bytes[0]);
    assert(be32(v as u32)[1] == bytes[1]);
    assert(be32(v as u32)[2] == bytes[2]);
    assert(be32(v as u32)[3] == bytes[3]);
    assert(be32(v as u32) =~= bytes);
}

/// Different numbers have different encodings.
pub proof fn lemma_be32_injective(x: u32, y: u32)
    requires
        be32(x) == be32(y),
    ensures
        x == y,
{
    lemma_be32_round_trip(x);
    lemma_be32_round_trip(y);
}

/// Decoding undoes encoding, least significant byte first.
pub proof fn lemma_le64_round_trip(x: u64)
    ensures
        le64(x).len() == 8,
        le64_value(le64(x)) == x,
{
    let hi = (x / 0x1_0000_0000) as u32;
    let lo = (x % 0x1_0000_0000) as u32;
    lemma_be32_round_trip(hi);
    lemma_be32_round_trip(lo);
    assert(le64(x).subrange(4, 8).reverse() =~= be32(hi));
    assert(le64(x).subrange(0, 4).reverse() =~= be32(lo));
}

/// Encoding undoes decoding, least significant byte first: eight bytes are
/// the encoding of their value.
pub proof fn lemma_le64_of_value(bytes: Seq<u8>)
    requires
        bytes.len() == 8,
    ensures
        0 <= le64_value(bytes) <= u64::MAX,
        le64(le64_value(bytes) as u64) == bytes,
{
    let high = bytes.subrange(4, 8).reverse();
    let low = bytes.subrange(0, 4).reverse();
    lemma_be32_of_value(high);
    lemma_be32_of_value(low);
    let v: int = le64_value(bytes);
    assert(v == be32_value(high) * 0x1_0000_0000 + be32_value(low));
    assert(v / 0x1_0000_0000 == be32_value(high));
    assert(v % 0x1_0000_0000 == be32_value(low));
    assert(be64(v as u64) =~= high + low);
    assert((high + low).reverse() =~= bytes);
}

/// Writes `x` as four bytes, most significant first.
pub fn u32_to_be(x: u32) -> (bytes: Vec<u8>)
    ensures
        bytes@ == be32(x),
{
    let mut bytes: Vec<u8> = Vec::new();
    bytes.push((x / 0x100_0000) as u8);
    bytes.push(((x / 0x1_0000) % 0x100) as u8);
    bytes.push(((x / 0x100) % 0x100) as u8);
    bytes.push((x % 0x100) as u8);
    assert(bytes@ =~= be32(x));
    bytes
}

/// Reads four bytes, most significant first.
pub fn u32_from_be(bytes: &[u8]) -> (x: u32)
    requires
        bytes@.len() == 4,
    ensures
        x == be32_value(bytes@),
        be32(x) == bytes@,
{
    proof {
        lemma_be32_of_value(bytes@);
    }
    let b0: u32 = bytes[0] as u32;
    let b1: u32 = bytes[1] as u32;
    let b2: u32 = bytes[2] as u32;
    let b3: u32 = bytes[3] as u32;
    b0 * 0x100_0000 + b1 * 0x1_0000 + b2 * 0x100 + b3
}

/// Writes `x` as eight bytes, most significant first.
pub fn u64_to_be(x: u64) -> (bytes: Vec<u8>)
    ensures
        bytes@ == be64(x),
{
    let mut bytes: Vec<u8> = u32_to_be((x / 0x1_0000_0000) as u32);
    let low: Vec<u8> = u32_to_be((x % 0x1_0000_0000) as u32);
    append_bytes(&mut bytes, low.as_slice());
    bytes
}

/// Writes `x` as eight bytes, least significant first.
pub fn u64_to_le(x: u64) -> (bytes: Vec<u8>)
    ensures
        bytes@ == le64(x),
{
    let be: Vec<u8> = u64_to_be(x);
    let mut bytes: Vec<u8> = Vec::new();
    let mut i: usize = 8;
    while i > 0
        invariant
            i <= 8,
            be@.len() == 8,
            bytes@.len() == 8 - i,
            forall|j: int| 0 <= j < bytes@.len() ==> bytes@[j] == be@[7 - j],
        decreases i,
    {
        i = i - 1;
        bytes.push(be[i]);
    }
    assert(bytes@ =~= be@.reverse());
    bytes
}

/// Reads eight bytes, least significant first.
pub fn u64_from_le(bytes: &[u8]) -> (x: u64)
    requires
        bytes@.len() == 8,
    ensures
        x == le64_value(bytes@),
{
    let mut high: Vec<u8> = Vec::new();
    high.push(bytes[7]);
    high.push(bytes[6]);
    high.push(bytes[5]);
    high.push(bytes[4]);
    let mut low: Vec<u8> = Vec::new();
    low.push(bytes[3]);
    low.push(bytes[2]);
    low.push(bytes[1]);
    low.push(bytes[0]);
    assert(high@ =~= bytes@.subrange(4, 8).reverse());
    assert(low@ =~= bytes@.subrange(0, 4).reverse());
    let h: u64 = u32_from_be(high.as_slice()) as u64;
    let l: u64 = u32_from_be(low.as_slice()) as u64;
    h * 0x1_0000_0000 + l
}

/// Appends a copy of `tail` to `buffer`.
pub fn append_bytes(buffer: &mut Vec<u8>, tail: &[u8])
    ensures
        final(buffer)@ == old(buffer)@ + tail@,
{
    let ghost before = buffer@;
    let mut i: usize = 0;
    while i < tail.len()
        invariant
            i <= tail@.len(),
            buffer@ == before + tail@.subrange(0, i as int),
        decreases tail@.len() - i,
    {
        buffer.push(tail[i]);
        i = i + 1;
        assert(buffer@ =~= before + tail@.subrange(0, i as int));
    }
    assert(tail@.subrange(0, i as int) =~= tail@);
}

/// A copy of the bytes of `source` from `from` up to, not including, `to`.
pub fn copy_range(source: &[u8], from: usize, to: usize) -> (bytes: Vec<u8>)
    requires
        from <= to <= source@.len(),
    ensures
        bytes@ == source@.subrange(from as int, to as int),
{
    let mut bytes: Vec<u8> = Vec::new();
    let mut i: usize = from;
    while i < to
        invariant
            from <= i <= to <= source@.len(),
            bytes@ == source@.subrange(from as int, i as int),
        decreases to - i,
    {
        bytes.push(source[i]);
        i = i + 1;
        assert(bytes@ =~= source@.subrange(from as int, i as int));
    }
    bytes
}

/// Whether two byte strings hold the same bytes.
pub fn slices_equal(first: &[u8], second: &[u8]) -> (equal: bool)
    ensures
        equal == (first@ == second@),
{
    if first.len() != second.len() {
        return false;
    }
    let mut i: usize = 0;
    while i < first.len()
        invariant
            first@.len() == second@.len(),
            i <= first@.len(),
            first@.subrange(0, i as int) =~= second@.subrange(0, i as int),
        decreases first@.len() - i,
    {
        if first[i] != second[i] {
            return false;
        }
        assert(first@.subrange(0, i as int + 1) =~= first@.subrange(0, i as int).push(
            first@[i as int],
        ));
        assert(second@.subrange(0, i as int + 1) =~= second@.subrange(0, i as int).push(
            second@[i as int],
        ));
        i = i + 1;
    }
    assert(first@.subrange(0, i as int) =~= first@);
    assert(second@.subrange(0, i as int) =~= second@);
    true
}

} // verus!
