//! The WoW game window's client size (the "raw" capture resolution).

use vstd::prelude::*;

verus! {

/// `d` read as a `u32` the way a two's-complement cast reads it.
pub open spec fn wrap_u32(d: int) -> u32 {
    if d >= 0 {
        d as u32
    } else {
        (d + 0x1_0000_0000) as u32
    }
}

/// The client size that a window's client rectangle gives: width and height
/// (differences of the edges, cast to `u32`), or `None` unless both are
/// positive.
pub fn client_size(left: i32, top: i32, right: i32, bottom: i32) -> (r: Option<(u32, u32)>)
    requires
        i32::MIN <= right - left <= i32::MAX,
        i32::MIN <= bottom - top <= i32::MAX,
    ensures
        r == (if wrap_u32(right - left) > 0 && wrap_u32(bottom - top) > 0 {
            Some((wrap_u32(right - left), wrap_u32(bottom - top)))
        } else {
            None
        }),
{
    let dw = right - left;
    let dh = bottom - top;
    let w: u32 = if dw >= 0 {
        dw as u32
    } else {
        ((dw as i64) + 0x1_0000_0000i64) as u32
    };
    let h: u32 = if dh >= 0 {
        dh as u32
    } else {
        ((dh as i64) + 0x1_0000_0000i64) as u32
    };
    if w > 0 && h > 0 {
        Some((w, h))
    } else {
        None
    }
}

/// A client rectangle with positive width and height has exactly that size;
/// one with an empty width or height has none.
pub proof fn law_client_size_of_rect(dw: int, dh: int)
    requires
        i32::MIN <= dw <= i32::MAX,
        i32::MIN <= dh <= i32::MAX,
    ensures
        dw > 0 ==> wrap_u32(dw) as int == dw,
        dh > 0 ==> wrap_u32(dh) as int == dh,
        dw == 0 ==> wrap_u32(dw) == 0,
        dh == 0 ==> wrap_u32(dh) == 0,
        dw < 0 ==> wrap_u32(dw) as int == dw + 0x1_0000_0000,
        dh < 0 ==> wrap_u32(dh) as int == dh + 0x1_0000_0000,
{
}

} // verus!
