//! Morton (Z-order) codes of grid cells.
//!
//! A cell `(cx, cy)` with 16-bit coordinates is named by the 32-bit number
//! whose even bits are the bits of `cx` and whose odd bits are the bits of
//! `cy`.  Cells that are close in space are then close in code.

use vstd::prelude::*;

verus! {

/// The low 16 bits of `n`, bit `i` moved to bit `2 * i`; every odd bit is zero.
pub open spec fn spread_bits(n: u32) -> u32 {
    (n & 0x0001) | ((n & 0x0002) << 1) | ((n & 0x0004) << 2) | ((n & 0x0008) << 3)
        | ((n & 0x0010) << 4) | ((n & 0x0020) << 5) | ((n & 0x0040) << 6) | ((n & 0x0080) << 7)
        | ((n & 0x0100) << 8) | ((n & 0x0200) << 9) | ((n & 0x0400) << 10) | ((n & 0x0800) << 11)
        | ((n & 0x1000) << 12) | ((n & 0x2000) << 13) | ((n & 0x4000) << 14) | ((n & 0x8000)
        << 15)
}

/// The even bits of `n`, bit `2 * i` moved to bit `i`; the result is below `2^16`.
pub open spec fn compact_bits(n: u32) -> u32 {
    (n & 0x0001) | ((n >> 1) & 0x0002) | ((n >> 2) & 0x0004) | ((n >> 3) & 0x0008) | ((n >> 4)
        & 0x0010) | ((n >> 5) & 0x0020) | ((n >> 6) & 0x0040) | ((n >> 7) & 0x0080) | ((n >> 8)
        & 0x0100) | ((n >> 9) & 0x0200) | ((n >> 10) & 0x0400) | ((n >> 11) & 0x0800) | ((n >> 12)
        & 0x1000) | ((n >> 13) & 0x2000) | ((n >> 14) & 0x4000) | ((n >> 15) & 0x8000)
}

/// The Morton code of the cell `(x, y)`: the bits of `x` on the even
/// positions, those of `y` on the odd ones.  Only the low 16 bits of each
/// coordinate count.
pub open spec fn morton_code(x: u32, y: u32) -> u32 {
    spread_bits(x) | (spread_bits(y) << 1)
}

/// The column of the cell that `code` names.
pub open spec fn morton_x(code: u32) -> u32 {
    compact_bits(code)
}

/// The row of the cell that `code` names.
pub open spec fn morton_y(code: u32) -> u32 {
    compact_bits(code >> 1)
}

/// Spreads the lower 16 bits of `n` to every other bit.
pub fn split_by_bits(n: u32) -> (spread: u32)
    ensures
        spread == spread_bits(n),
{
    let x0: u32 = n & 0x0000FFFF;
    let x1: u32 = (x0 | (x0 << 8)) & 0x00FF00FF;
    let x2: u32 = (x1 | (x1 << 4)) & 0x0F0F0F0F;
    let x3: u32 = (x2 | (x2 << 2)) & 0x33333333;
    let x4: u32 = (x3 | (x3 << 1)) & 0x55555555;
    assert(x4 == spread_bits(n)) by (bit_vector)
        requires
            x0 == n & 0x0000FFFF,
            x1 == (x0 | (x0 << 8)) & 0x00FF00FF,
            x2 == (x1 | (x1 << 4)) & 0x0F0F0F0F,
            x3 == (x2 | (x2 << 2)) & 0x33333333,
            x4 == (x3 | (x3 << 1)) & 0x55555555,
    ;
    x4
}

/// Compacts the bits on the even positions of `n` into the lower 16 bits.
pub fn unsplit_by_bits(n: u32) -> (compact: u32)
    ensures
        compact == compact_bits(n),
{
    let x0: u32 = n & 0x55555555;
    let x1: u32 = (x0 | (x0 >> 1)) & 0x33333333;
    let x2: u32 = (x1 | (x1 >> 2)) & 0x0F0F0F0F;
    let x3: u32 = (x2 | (x2 >> 4)) & 0x00FF00FF;
    let x4: u32 = (x3 | (x3 >> 8)) & 0x0000FFFF;
    assert(x4 == compact_bits(n)) by (bit_vector)
        requires
            x0 == n & 0x55555555,
            x1 == (x0 | (x0 >> 1)) & 0x33333333,
            x2 == (x1 | (x1 >> 2)) & 0x0F0F0F0F,
            x3 == (x2 | (x2 >> 4)) & 0x00FF00FF,
            x4 == (x3 | (x3 >> 8)) & 0x0000FFFF,
    ;
    x4
}

/// Encodes the cell `(x, y)` as its Morton code.
pub fn morton_encode(x: u32, y: u32) -> (code: u32)
    ensures
        code == morton_code(x, y),
{
    split_by_bits(x) | (split_by_bits(y) << 1)
}

/// Decodes a Morton code into the cell `(x, y)` that it names.
pub fn morton_decode(code: u32) -> (cell: (u32, u32))
    ensures
        cell.0 == morton_x(code),
        cell.1 == morton_y(code),
{
    (unsplit_by_bits(code), unsplit_by_bits(code >> 1))
}

/// Bit `i` of a coordinate is bit `2 * i` (for `x`) or `2 * i + 1` (for `y`)
/// of the code.
pub proof fn lemma_morton_interleaves(x: u32, y: u32, i: u32)
    requires
        i < 16,
    ensures
        (morton_code(x, y) >> (2 * i) as u32) & 1 == (x >> i) & 1,
        (morton_code(x, y) >> (2 * i + 1) as u32) & 1 == (y >> i) & 1,
{
    assert((morton_code(x, y) >> (2 * i) as u32) & 1 == (x >> i) & 1) by (bit_vector)
        requires
            i < 16,
    ;
    assert((morton_code(x, y) >> (2 * i + 1) as u32) & 1 == (y >> i) & 1) by (bit_vector)
        requires
            i < 16,
    ;
}

/// Decoding undoes encoding on the low 16 bits of each coordinate.
pub proof fn lemma_morton_decode_encode(x: u32, y: u32)
    ensures
        morton_x(morton_code(x, y)) == x & 0xFFFF,
        morton_y(morton_code(x, y)) == y & 0xFFFF,
        x < 0x1_0000 ==> morton_x(morton_code(x, y)) == x,
        y < 0x1_0000 ==> morton_y(morton_code(x, y)) == y,
{
    assert(morton_x(morton_code(x, y)) == x & 0xFFFF) by (bit_vector);
    assert(morton_y(morton_code(x, y)) == y & 0xFFFF) by (bit_vector);
    assert(x < 0x1_0000 ==> x & 0xFFFF == x) by (bit_vector);
    assert(y < 0x1_0000 ==> y & 0xFFFF == y) by (bit_vector);
}

/// Encoding undoes decoding: every 32-bit number is the code of one cell.
pub proof fn lemma_morton_encode_decode(code: u32)
    ensures
        morton_code(morton_x(code), morton_y(code)) == code,
        morton_x(code) < 0x1_0000,
        morton_y(code) < 0x1_0000,
{
    assert(morton_code(morton_x(code), morton_y(code)) == code) by (bit_vector);
    assert(morton_x(code) < 0x1_0000) by (bit_vector);
    assert(morton_y(code) < 0x1_0000) by (bit_vector);
}

/// Two cells with 16-bit coordinates have the same code only if they are
/// the same cell.
pub proof fn lemma_morton_injective(x1: u32, y1: u32, x2: u32, y2: u32)
    requires
        x1 < 0x1_0000,
        y1 < 0x1_0000,
        x2 < 0x1_0000,
        y2 < 0x1_0000,
        morton_code(x1, y1) == morton_code(x2, y2),
    ensures
        x1 == x2,
        y1 == y2,
{
    lemma_morton_decode_encode(x1, y1);
    lemma_morton_decode_encode(x2, y2);
}

} // verus!
