//! Total conversions between integer coordinate types: out-of-range values
//! saturate instead of wrapping.
use vstd::prelude::*;

verus! {

/// A signed value as unsigned: negative values become `0`.
pub fn signed_to_unsigned(v: i32) -> (r: u32)
    ensures
        r == if v < 0 { 0 } else { v as int },
{
    if v < 0 {
        0
    } else {
        v as u32
    }
}

/// An unsigned value as signed: values above `i32::MAX` become `i32::MAX`.
pub fn unsigned_to_signed(v: u32) -> (r: i32)
    ensures
        r == if v > i32::MAX { i32::MAX as int } else { v as int },
{
    if v > i32::MAX as u32 {
        i32::MAX
    } else {
        v as i32
    }
}

pub open spec fn clamp_i64(v: int) -> int {
    if v < i64::MIN {
        i64::MIN as int
    } else if v > i64::MAX {
        i64::MAX as int
    } else {
        v
    }
}

/// A wide intermediate position narrowed to `i64`, saturating at its bounds.
pub fn saturate_to_i64(v: i128) -> (r: i64)
    ensures
        r == clamp_i64(v as int),
{
    if v < i64::MIN as i128 {
        i64::MIN
    } else if v > i64::MAX as i128 {
        i64::MAX
    } else {
        v as i64
    }
}

} // verus!
