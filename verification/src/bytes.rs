use vstd::prelude::*;

verus! {

/// The value of a byte read as a two's-complement `i8`.
pub open spec fn signed_byte_value(b: u8) -> int {
    if b >= 128 {
        b - 256
    } else {
        b as int
    }
}

/// A byte read as a two's-complement `i8`, widened to `i16`.
pub fn signed_byte(b: u8) -> (v: i16)
    ensures
        v == signed_byte_value(b),
        -128 <= v <= 127,
{
    if b >= 128 {
        b as i16 - 256
    } else {
        b as i16
    }
}

/// The little-endian value of four bytes.
pub open spec fn le_u32(b0: u8, b1: u8, b2: u8, b3: u8) -> int {
    b0 + 256 * b1 + 65536 * b2 + 16777216 * b3
}

/// The little-endian `u32` at `pos`, read as two's-complement `i32`.
pub open spec fn le_i32_at(data: Seq<u8>, pos: int) -> int {
    let v = le_u32(data[pos], data[pos + 1], data[pos + 2], data[pos + 3]);
    if v >= 0x8000_0000 {
        v - 0x1_0000_0000
    } else {
        v
    }
}

/// The little-endian `u32` at `pos`.
pub open spec fn le_u32_at(data: Seq<u8>, pos: int) -> int {
    le_u32(data[pos], data[pos + 1], data[pos + 2], data[pos + 3])
}

} // verus!
