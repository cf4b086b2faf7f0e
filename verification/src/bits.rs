//! Signed integers and their two's-complement bit patterns.

use vstd::prelude::*;

verus! {

/// The bit pattern of an 8-bit integer, read as an unsigned number.
pub open spec fn unsigned8(v: i8) -> nat {
    if v >= 0 {
        v as nat
    } else {
        (v + 0x100) as nat
    }
}

/// The 8-bit integer whose bit pattern is the low 8 bits of `n`.
pub open spec fn signed8(n: nat) -> i8 {
    let low: nat = n % 0x100;
    if low < 0x80 {
        low as i8
    } else {
        (low - 0x100) as i8
    }
}

/// The bit pattern of a 16-bit integer, read as an unsigned number.
pub open spec fn unsigned16(v: i16) -> nat {
    if v >= 0 {
        v as nat
    } else {
        (v + 0x1_0000) as nat
    }
}

/// The 16-bit integer whose bit pattern is the low 16 bits of `n`.
pub open spec fn signed16(n: nat) -> i16 {
    let low: nat = n % 0x1_0000;
    if low < 0x8000 {
        low as i16
    } else {
        (low - 0x1_0000) as i16
    }
}

/// The bit pattern of a 32-bit integer, read as an unsigned number.
pub open spec fn unsigned32(v: i32) -> nat {
    if v >= 0 {
        v as nat
    } else {
        (v + 0x1_0000_0000) as nat
    }
}

/// The 32-bit integer whose bit pattern is the low 32 bits of `n`.
pub open spec fn signed32(n: nat) -> i32 {
    let low: nat = n % 0x1_0000_0000;
    if low < 0x8000_0000 {
        low as i32
    } else {
        (low - 0x1_0000_0000) as i32
    }
}

/// The bit pattern of a 64-bit integer, read as an unsigned number.
pub open spec fn unsigned64(v: i64) -> nat {
    if v >= 0 {
        v as nat
    } else {
        (v + 0x1_0000_0000_0000_0000) as nat
    }
}

/// The 64-bit integer whose bit pattern is the low 64 bits of `n`.
pub open spec fn signed64(n: nat) -> i64 {
    let low: nat = n % 0x1_0000_0000_0000_0000;
    if low < 0x8000_0000_0000_0000 {
        low as i64
    } else {
        (low - 0x1_0000_0000_0000_0000) as i64
    }
}

/// The bit pattern of `v`.
pub fn bits_of_i8(v: i8) -> (u: u8)
    ensures
        u == unsigned8(v),
{
    assert((v as u8) == (if v >= 0 { v as int } else { v + 0x100 })) by (bit_vector);
    #[verifier::truncate]
    (v as u8)
}

/// The integer with the bit pattern `u`.
pub fn i8_of_bits(u: u8) -> (v: i8)
    ensures
        v == signed8(u as nat),
{
    assert((u as i8) == (if u < 0x80 { u as int } else { u - 0x100 })) by (bit_vector);
    #[verifier::truncate]
    (u as i8)
}

/// The bit pattern of `v`.
pub fn bits_of_i16(v: i16) -> (u: u16)
    ensures
        u == unsigned16(v),
{
    assert((v as u16) == (if v >= 0 { v as int } else { v + 0x1_0000 })) by (bit_vector);
    #[verifier::truncate]
    (v as u16)
}

/// The integer with the bit pattern `u`.
pub fn i16_of_bits(u: u16) -> (v: i16)
    ensures
        v == signed16(u as nat),
{
    assert((u as i16) == (if u < 0x8000 { u as int } else { u - 0x1_0000 })) by (bit_vector);
    #[verifier::truncate]
    (u as i16)
}

/// The bit pattern of `v`.
pub fn bits_of_i32(v: i32) -> (u: u32)
    ensures
        u == unsigned32(v),
{
    assert((v as u32) == (if v >= 0 { v as int } else { v + 0x1_0000_0000 })) by (bit_vector);
    #[verifier::truncate]
    (v as u32)
}

/// The integer with the bit pattern `u`.
pub fn i32_of_bits(u: u32) -> (v: i32)
    ensures
        v == signed32(u as nat),
{
    assert((u as i32) == (if u < 0x8000_0000 { u as int } else { u - 0x1_0000_0000 }))
        by (bit_vector);
    #[verifier::truncate]
    (u as i32)
}

/// The bit pattern of `v`.
pub fn bits_of_i64(v: i64) -> (u: u64)
    ensures
        u == unsigned64(v),
{
    assert((v as u64) == (if v >= 0 { v as int } else { v + 0x1_0000_0000_0000_0000 }))
        by (bit_vector);
    #[verifier::truncate]
    (v as u64)
}

/// The integer with the bit pattern `u`.
pub fn i64_of_bits(u: u64) -> (v: i64)
    ensures
        v == signed64(u as nat),
{
    assert((u as i64) == (if u < 0x8000_0000_0000_0000 {
        u as int
    } else {
        u - 0x1_0000_0000_0000_0000
    })) by (bit_vector);
    #[verifier::truncate]
    (u as i64)
}

} // verus!
