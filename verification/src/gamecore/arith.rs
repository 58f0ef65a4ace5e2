//! Clamped integer arithmetic used by the rules.

use vstd::prelude::*;

verus! {

/// Clamp a mathematical integer into the range of `i8`.
pub open spec fn clamp_i8(x: int) -> i8 {
    if x > 127 { 127 } else if x < -128 { -128i8 } else { x as i8 }
}

/// Clamp a mathematical integer into the range of `i16`.
pub open spec fn clamp_i16(x: int) -> i16 {
    if x > 32767 { 32767 } else if x < -32768 { -32768i16 } else { x as i16 }
}

/// Saturating addition on `i8`.
pub fn sat_add_i8(a: i8, b: i8) -> (r: i8)
    ensures
        r == clamp_i8(a + b),
{
    let s: i16 = a as i16 + b as i16;
    if s > 127 {
        127
    } else if s < -128 {
        -128
    } else {
        s as i8
    }
}

/// Saturating subtraction on `i8`.
pub fn sat_sub_i8(a: i8, b: i8) -> (r: i8)
    ensures
        r == clamp_i8(a - b),
{
    let s: i16 = a as i16 - b as i16;
    if s > 127 {
        127
    } else if s < -128 {
        -128
    } else {
        s as i8
    }
}

/// Saturating subtraction on `i16`.
pub fn sat_sub_i16(a: i16, b: i16) -> (r: i16)
    ensures
        r == clamp_i16(a - b),
{
    let s: i32 = a as i32 - b as i32;
    if s > 32767 {
        32767
    } else if s < -32768 {
        -32768
    } else {
        s as i16
    }
}

/// Saturating addition on `i16`.
pub fn sat_add_i16(a: i16, b: i16) -> (r: i16)
    ensures
        r == clamp_i16(a + b),
{
    let s: i32 = a as i32 + b as i32;
    if s > 32767 {
        32767
    } else if s < -32768 {
        -32768
    } else {
        s as i16
    }
}

/// Saturating addition on `u16`.
pub fn sat_add_u16(a: u16, b: u16) -> (r: u16)
    ensures
        r == (if a + b > 65535 { 65535int } else { a + b }),
{
    if a as u32 + b as u32 > 65535 {
        65535
    } else {
        a + b
    }
}

} // verus!
