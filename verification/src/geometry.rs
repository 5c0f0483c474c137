//! Integer window geometry shared by the panel placement helpers:
//! rectangle overlap, centering and clamping in screen pixels.
use vstd::prelude::*;

verus! {

pub open spec fn i32_fits(v: int) -> bool {
    i32::MIN <= v <= i32::MAX
}

/// `v` saturated to the `i32` range.
pub open spec fn sat_i32(v: int) -> int {
    if v < i32::MIN {
        i32::MIN as int
    } else if v > i32::MAX {
        i32::MAX as int
    } else {
        v
    }
}

/// `v / 2` rounded toward zero, as integer division does on machine integers.
pub open spec fn half_toward_zero(v: int) -> int {
    if v >= 0 {
        v / 2
    } else {
        -((-v) / 2)
    }
}

/// `a - b` saturated at zero.
pub open spec fn sat_sub(a: u32, b: u32) -> u32 {
    if a >= b {
        (a - b) as u32
    } else {
        0
    }
}

pub open spec fn min_u32(a: u32, b: u32) -> u32 {
    if a <= b {
        a
    } else {
        b
    }
}

pub open spec fn max_u32(a: u32, b: u32) -> u32 {
    if a >= b {
        a
    } else {
        b
    }
}

/// Axis-aligned overlap of a window `(bx, by, bw, bh)` with a monitor
/// `(mx, my, mw, mh)`; the far edges are computed with saturating `i32`
/// addition of the sizes read as `i32`. Touching edges do not overlap.
pub open spec fn overlaps(
    bx: i32,
    by: i32,
    bw: u32,
    bh: u32,
    mx: i32,
    my: i32,
    mw: u32,
    mh: u32,
) -> bool {
    let win_right = sat_i32(bx + (bw as i32));
    let win_bottom = sat_i32(by + (bh as i32));
    let mon_right = sat_i32(mx + (mw as i32));
    let mon_bottom = sat_i32(my + (mh as i32));
    bx < mon_right && win_right > mx && by < mon_bottom && win_bottom > my
}

/// Start coordinate that centers a span of `w` inside a span starting at `t`
/// of length `tw`: `t + (tw - w) / 2`, the lengths read as `i32`.
pub open spec fn centered_coord(t: i32, tw: u32, w: u32) -> int {
    t + half_toward_zero((tw as i32) - (w as i32))
}

/// The centering arithmetic stays within `i32`.
pub open spec fn centering_fits(t: i32, tw: u32, w: u32) -> bool {
    &&& i32_fits((tw as i32) - (w as i32))
    &&& i32_fits(centered_coord(t, tw, w))
}

/// Last start coordinate at which a span of `w` still ends inside the span
/// starting at `t` of length `tw`: `t + tw - w`, the lengths read as `i32`.
pub open spec fn last_start(t: i32, tw: u32, w: u32) -> int {
    t + (tw as i32) - (w as i32)
}

pub open spec fn last_start_fits(t: i32, tw: u32, w: u32) -> bool {
    &&& i32_fits(t + (tw as i32))
    &&& i32_fits(last_start(t, tw, w))
}

/// `v` clamped into `[lo, max(hi, lo)]`.
pub open spec fn clamp_from(v: i32, lo: i32, hi: int) -> int {
    let top = if hi >= lo {
        hi
    } else {
        lo as int
    };
    if v < lo {
        lo as int
    } else if v > top {
        top
    } else {
        v as int
    }
}

pub fn saturating_add_i32(a: i32, b: i32) -> (r: i32)
    ensures
        r == sat_i32(a + b),
{
    let s: i64 = a as i64 + b as i64;
    if s < i32::MIN as i64 {
        i32::MIN
    } else if s > i32::MAX as i64 {
        i32::MAX
    } else {
        s as i32
    }
}

pub fn saturating_sub_u32(a: u32, b: u32) -> (r: u32)
    ensures
        r == sat_sub(a, b),
{
    if a >= b {
        a - b
    } else {
        0
    }
}

pub fn min_of(a: u32, b: u32) -> (r: u32)
    ensures
        r == min_u32(a, b),
{
    if a <= b {
        a
    } else {
        b
    }
}

pub fn max_of(a: u32, b: u32) -> (r: u32)
    ensures
        r == max_u32(a, b),
{
    if a >= b {
        a
    } else {
        b
    }
}

pub fn overlaps_exec(
    bx: i32,
    by: i32,
    bw: u32,
    bh: u32,
    mx: i32,
    my: i32,
    mw: u32,
    mh: u32,
) -> (r: bool)
    ensures
        r == overlaps(bx, by, bw, bh, mx, my, mw, mh),
{
    let win_right = saturating_add_i32(bx, bw as i32);
    let win_bottom = saturating_add_i32(by, bh as i32);
    let mon_right = saturating_add_i32(mx, mw as i32);
    let mon_bottom = saturating_add_i32(my, mh as i32);
    bx < mon_right && win_right > mx && by < mon_bottom && win_bottom > my
}

pub fn centered_coord_exec(t: i32, tw: u32, w: u32) -> (r: i32)
    requires
        centering_fits(t, tw, w),
    ensures
        r == centered_coord(t, tw, w),
{
    t + (tw as i32 - w as i32) / 2
}

pub fn clamp_start(v: i32, t: i32, tw: u32, w: u32) -> (r: i32)
    requires
        last_start_fits(t, tw, w),
    ensures
        r == clamp_from(v, t, last_start(t, tw, w)),
{
    let hi = t + tw as i32 - w as i32;
    let top = if hi >= t {
        hi
    } else {
        t
    };
    if v < t {
        t
    } else if v > top {
        top
    } else {
        v
    }
}

} // verus!
