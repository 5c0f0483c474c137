//! The tile grid of a document at a pyramid level, and the bounds check made
//! on `tile://` requests before a tile is looked up.
use vstd::prelude::*;
use vstd::string::*;

use crate::text::{concat_str, decimal, decimal_string};

verus! {

/// Scale of pyramid level `level`: `2^level`, or `u32::MAX` past 31
/// (`1u32.checked_shl(level)`, falling back to `u32::MAX`).
pub open spec fn level_scale(level: u32) -> u32 {
    if level < 32 {
        1u32 << level
    } else {
        u32::MAX
    }
}

/// Edge of one tile at `level`, in document pixels, saturating at `u32::MAX`.
pub open spec fn tile_span(tile_size: u32, level: u32) -> u32 {
    if tile_size * level_scale(level) > u32::MAX {
        u32::MAX
    } else {
        (tile_size * level_scale(level)) as u32
    }
}

/// `a / b` rounded up.
pub open spec fn ceil_div(a: int, b: int) -> int {
    if a % b == 0 {
        a / b
    } else {
        a / b + 1
    }
}

/// Columns and rows of the tile grid of a `width x height` document at `level`.
pub open spec fn grid_spec(width: u32, height: u32, tile_size: u32, level: u32) -> (int, int) {
    let span = tile_span(tile_size, level) as int;
    (ceil_div(width as int, span), ceil_div(height as int, span))
}

fn ceil_div_exec(a: u32, b: u32) -> (r: u32)
    requires
        b > 0,
    ensures
        r as int == ceil_div(a as int, b as int),
{
    let q = a / b;
    if a % b == 0 {
        q
    } else {
        assert(b >= 2);
        assert(q < u32::MAX) by (nonlinear_arith)
            requires
                b >= 2,
                q == a / b,
        ;
        q + 1
    }
}

/// Edge of one tile at `level` (see [`tile_span`]).
pub fn tile_span_at_level(tile_size: u32, level: u32) -> (r: u32)
    ensures
        r == tile_span(tile_size, level),
{
    let scale: u32 = if level < 32 {
        1u32 << level
    } else {
        u32::MAX
    };
    let (t64, s64): (u64, u64) = (tile_size as u64, scale as u64);
    assert(t64 * s64 <= u64::MAX) by (nonlinear_arith)
        requires
            t64 <= u32::MAX,
            s64 <= u32::MAX,
    ;
    let product: u64 = t64 * s64;
    if product > (u32::MAX as u64) {
        u32::MAX
    } else {
        product as u32
    }
}

/// Columns and rows of the tile grid (see [`grid_spec`]).
pub fn tile_grid(width: u32, height: u32, tile_size: u32, level: u32) -> (r: (u32, u32))
    requires
        tile_size > 0,
    ensures
        (r.0 as int, r.1 as int) == grid_spec(width, height, tile_size, level),
{
    let span = tile_span_at_level(tile_size, level);
    assert(level_scale(level) >= 1) by (bit_vector)
        requires
            level < 32 ==> level_scale(level) == 1u32 << level,
            level >= 32 ==> level_scale(level) == u32::MAX,
    ;
    assert(span >= 1) by (nonlinear_arith)
        requires
            tile_size >= 1,
            level_scale(level) >= 1,
            span == tile_span(tile_size, level),
            span as int == (if tile_size * level_scale(level) > u32::MAX {
                u32::MAX as int
            } else {
                tile_size * level_scale(level)
            }),
    ;
    (ceil_div_exec(width, span), ceil_div_exec(height, span))
}

/// `404 Not Found: tile coordinate (<x>, <y>) out of bounds for grid
/// <cols>x<rows> at level <level>`.
pub open spec fn out_of_bounds_msg(x: u32, y: u32, cols: nat, rows: nat, level: u32) -> Seq<char> {
    "404 Not Found: tile coordinate ("@ + decimal(x as nat) + ", "@ + decimal(y as nat)
        + ") out of bounds for grid "@ + decimal(cols) + "x"@ + decimal(rows) + " at level "@
        + decimal(level as nat)
}

/// Check that tile `(x, y)` lies on the grid of a `width x height` document
/// at `level`; otherwise the `404` message naming the grid.
pub fn check_tile_coordinate(
    x: u32,
    y: u32,
    width: u32,
    height: u32,
    tile_size: u32,
    level: u32,
) -> (r: Result<(), String>)
    requires
        tile_size > 0,
    ensures
        ({
            let (cols, rows) = grid_spec(width, height, tile_size, level);
            &&& r is Ok <==> (x < cols && y < rows)
            &&& r matches Err(m) ==> m@ == out_of_bounds_msg(x, y, cols as nat, rows as nat, level)
        }),
{
    let (cols, rows) = tile_grid(width, height, tile_size, level);
    if x < cols && y < rows {
        return Ok(());
    }
    let mut m = concat_str("404 Not Found: tile coordinate (", decimal_string(x as usize).as_str());
    m.append(", ");
    m.append(decimal_string(y as usize).as_str());
    m.append(") out of bounds for grid ");
    m.append(decimal_string(cols as usize).as_str());
    m.append("x");
    m.append(decimal_string(rows as usize).as_str());
    m.append(" at level ");
    m.append(decimal_string(level as usize).as_str());
    Err(m)
}

} // verus!
