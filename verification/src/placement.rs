//! Placement of floating windows on the monitors: correcting off-screen
//! bounds, centering a new window, and clamping its size and position to a
//! monitor. The per-panel sizes are given by the callers.
use vstd::prelude::*;

use crate::geometry::{
    centered_coord, centered_coord_exec, centering_fits, clamp_from, clamp_start, i32_fits, last_start,
    last_start_fits, max_of, max_u32, min_of, min_u32, overlaps, overlaps_exec, sat_i32, sat_sub,
    saturating_sub_u32,
};
use crate::panel_manager::SavedBounds;

verus! {

/// Abstracted monitor rectangle for bounds correction logic.
#[derive(Debug, Clone, Copy, PartialEq, Eq, Structural)]
pub struct MonitorRect {
    pub x: i32,
    pub y: i32,
    pub width: u32,
    pub height: u32,
}

pub open spec fn opt_monitor(o: Option<&MonitorRect>) -> Option<MonitorRect> {
    match o {
        Some(m) => Some(*m),
        None => None,
    }
}

/// The window rectangle overlaps the monitor rectangle.
pub open spec fn intersects(b: SavedBounds, m: MonitorRect) -> bool {
    overlaps(b.x, b.y, b.width, b.height, m.x, m.y, m.width, m.height)
}

/// The window overlaps at least one monitor.
pub open spec fn on_screen(b: SavedBounds, monitors: Seq<MonitorRect>) -> bool {
    exists|i: int| 0 <= i < monitors.len() && intersects(b, #[trigger] monitors[i])
}

/// The monitor to place on: the primary one, else the first one.
pub open spec fn target_monitor(monitors: Seq<MonitorRect>, primary: Option<MonitorRect>) -> Option<
    MonitorRect,
> {
    match primary {
        Some(p) => Some(p),
        None => if monitors.len() > 0 {
            Some(monitors[0])
        } else {
            None
        },
    }
}

/// Saved bounds moved, size kept, to the center of the target monitor when
/// they overlap no monitor; unchanged when they overlap one or there is none.
pub open spec fn corrected(b: SavedBounds, monitors: Seq<MonitorRect>, primary: Option<MonitorRect>) -> SavedBounds {
    if monitors.len() == 0 || on_screen(b, monitors) {
        b
    } else {
        let t = target_monitor(monitors, primary).unwrap();
        SavedBounds {
            x: centered_coord(t.x, t.width, b.width) as i32,
            y: centered_coord(t.y, t.height, b.height) as i32,
            width: b.width,
            height: b.height,
        }
    }
}

/// The correction's arithmetic stays within `i32`.
pub open spec fn corrected_fits(b: SavedBounds, monitors: Seq<MonitorRect>, primary: Option<MonitorRect>) -> bool {
    monitors.len() == 0 || on_screen(b, monitors) || {
        let t = target_monitor(monitors, primary).unwrap();
        centering_fits(t.x, t.width, b.width) && centering_fits(t.y, t.height, b.height)
    }
}

/// A `width x height` window centered on the target monitor, shrunk to the
/// monitor less a 40 px margin (but not below 280 x 200); at (80, 80) with the
/// given size when there is no monitor.
pub open spec fn centered(width: u32, height: u32, monitors: Seq<MonitorRect>, primary: Option<MonitorRect>) -> SavedBounds {
    match target_monitor(monitors, primary) {
        Some(t) => {
            let w = min_u32(width, max_u32(sat_sub(t.width, 40), 280));
            let h = min_u32(height, max_u32(sat_sub(t.height, 40), 200));
            SavedBounds {
                x: centered_coord(t.x, t.width, w) as i32,
                y: centered_coord(t.y, t.height, h) as i32,
                width: w,
                height: h,
            }
        },
        None => SavedBounds { x: 80, y: 80, width, height },
    }
}

pub open spec fn centered_fits(width: u32, height: u32, monitors: Seq<MonitorRect>, primary: Option<MonitorRect>) -> bool {
    match target_monitor(monitors, primary) {
        Some(t) => {
            let w = min_u32(width, max_u32(sat_sub(t.width, 40), 280));
            let h = min_u32(height, max_u32(sat_sub(t.height, 40), 200));
            centering_fits(t.x, t.width, w) && centering_fits(t.y, t.height, h)
        },
        None => true,
    }
}

/// Size capped by the monitor (less 40 px wide, 80 px high, but not below
/// 280 x 200) and by `cap`, at least 280 x 200; position clamped so the
/// window starts on the monitor and, when it fits, ends on it.
pub open spec fn clamped(cap: (u32, u32), b: SavedBounds, m: MonitorRect) -> SavedBounds {
    let max_w = min_u32(max_u32(sat_sub(m.width, 40), 280), cap.0);
    let max_h = min_u32(max_u32(sat_sub(m.height, 80), 200), cap.1);
    let width = max_u32(min_u32(b.width, max_w), 280);
    let height = max_u32(min_u32(b.height, max_h), 200);
    SavedBounds {
        x: clamp_from(b.x, m.x, last_start(m.x, m.width, width)) as i32,
        y: clamp_from(b.y, m.y, last_start(m.y, m.height, height)) as i32,
        width,
        height,
    }
}

pub open spec fn clamped_fits(cap: (u32, u32), b: SavedBounds, m: MonitorRect) -> bool {
    let max_w = min_u32(max_u32(sat_sub(m.width, 40), 280), cap.0);
    let max_h = min_u32(max_u32(sat_sub(m.height, 80), 200), cap.1);
    let width = max_u32(min_u32(b.width, max_w), 280);
    let height = max_u32(min_u32(b.height, max_h), 200);
    last_start_fits(m.x, m.width, width) && last_start_fits(m.y, m.height, height)
}

/// Bounds before clamping: saved bounds corrected on screen, else a
/// centered window of the `default` size.
pub open spec fn raw_undock_with(
    default: (u32, u32),
    saved: Option<SavedBounds>,
    monitors: Seq<MonitorRect>,
    primary: Option<MonitorRect>,
) -> SavedBounds {
    match saved {
        Some(b) => corrected(b, monitors, primary),
        None => centered(default.0, default.1, monitors, primary),
    }
}

/// Final undock bounds: the raw bounds clamped to the target monitor, or
/// with only the size capped by `cap` when there is no monitor.
pub open spec fn undock_with(
    default: (u32, u32),
    cap: (u32, u32),
    saved: Option<SavedBounds>,
    monitors: Seq<MonitorRect>,
    primary: Option<MonitorRect>,
) -> SavedBounds {
    let raw = raw_undock_with(default, saved, monitors, primary);
    match target_monitor(monitors, primary) {
        Some(m) => clamped(cap, raw, m),
        None => SavedBounds {
            x: raw.x,
            y: raw.y,
            width: max_u32(min_u32(raw.width, cap.0), 280),
            height: max_u32(min_u32(raw.height, cap.1), 200),
        },
    }
}

/// The undock placement arithmetic stays within `i32`.
pub open spec fn undock_fits_with(
    default: (u32, u32),
    cap: (u32, u32),
    saved: Option<SavedBounds>,
    monitors: Seq<MonitorRect>,
    primary: Option<MonitorRect>,
) -> bool {
    &&& match saved {
        Some(b) => corrected_fits(b, monitors, primary),
        None => centered_fits(default.0, default.1, monitors, primary),
    }
    &&& match target_monitor(monitors, primary) {
        Some(m) => clamped_fits(cap, raw_undock_with(default, saved, monitors, primary), m),
        None => true,
    }
}

/// Check if a window rectangle intersects with a monitor rectangle.
/// Uses the standard AABB overlap test.
fn rect_intersects_monitor(bounds: &SavedBounds, monitor: &MonitorRect) -> (r: bool)
    ensures
        r == intersects(*bounds, *monitor),
{
    overlaps_exec(
        bounds.x,
        bounds.y,
        bounds.width,
        bounds.height,
        monitor.x,
        monitor.y,
        monitor.width,
        monitor.height,
    )
}

fn any_monitor_hit(bounds: &SavedBounds, monitors: &[MonitorRect]) -> (r: bool)
    ensures
        r == on_screen(*bounds, monitors@),
{
    let mut i: usize = 0;
    while i < monitors.len()
        invariant
            i <= monitors.len(),
            forall|j: int| 0 <= j < i ==> !intersects(*bounds, #[trigger] monitors@[j]),
        decreases monitors.len() - i,
    {
        if rect_intersects_monitor(bounds, &monitors[i]) {
            return true;
        }
        i = i + 1;
    }
    false
}

fn pick_target(monitors: &[MonitorRect], primary: Option<&MonitorRect>) -> (r: Option<MonitorRect>)
    ensures
        r == target_monitor(monitors@, opt_monitor(primary)),
{
    match primary {
        Some(p) => Some(*p),
        None => if monitors.len() > 0 {
            Some(monitors[0])
        } else {
            None
        },
    }
}

/// Correct saved bounds if the window falls entirely outside all available monitors.
///
/// - If the window rectangle intersects at least one monitor, returns bounds unchanged.
/// - If it doesn't intersect any monitor, repositions to the center of the primary
///   monitor while keeping its width and height.
/// - `primary_monitor` is the monitor to center on if correction is needed.
///   If None, falls back to the first monitor in the list. If the list is empty,
///   returns bounds unchanged (no correction possible).
pub fn correct_bounds_for_monitors(
    bounds: &SavedBounds,
    monitors: &[MonitorRect],
    primary_monitor: Option<&MonitorRect>,
) -> (r: SavedBounds)
    requires
        corrected_fits(*bounds, monitors@, opt_monitor(primary_monitor)),
    ensures
        r == corrected(*bounds, monitors@, opt_monitor(primary_monitor)),
{
    if monitors.len() == 0 {
        return *bounds;
    }
    if any_monitor_hit(bounds, monitors) {
        return *bounds;
    }
    let target = match pick_target(monitors, primary_monitor) {
        Some(t) => t,
        None => {
            return *bounds;
        },
    };
    SavedBounds {
        x: centered_coord_exec(target.x, target.width, bounds.width),
        y: centered_coord_exec(target.y, target.height, bounds.height),
        width: bounds.width,
        height: bounds.height,
    }
}

/// Center a window of the given size on the primary (or first) monitor.
fn centered_bounds(
    width: u32,
    height: u32,
    monitors: &[MonitorRect],
    primary: Option<&MonitorRect>,
) -> (r: SavedBounds)
    requires
        centered_fits(width, height, monitors@, opt_monitor(primary)),
    ensures
        r == centered(width, height, monitors@, opt_monitor(primary)),
{
    match pick_target(monitors, primary) {
        Some(t) => {
            let w = min_of(width, max_of(saturating_sub_u32(t.width, 40), 280));
            let h = min_of(height, max_of(saturating_sub_u32(t.height, 40), 200));
            SavedBounds {
                x: centered_coord_exec(t.x, t.width, w),
                y: centered_coord_exec(t.y, t.height, h),
                width: w,
                height: h,
            }
        },
        None => SavedBounds { x: 80, y: 80, width, height },
    }
}

/// Clamp size to the target monitor and ensure the window stays fully visible
/// when possible (after off-screen correction).
fn clamp_bounds_to_monitor(cap: (u32, u32), bounds: &SavedBounds, monitor: &MonitorRect) -> (r: SavedBounds)
    requires
        clamped_fits(cap, *bounds, *monitor),
    ensures
        r == clamped(cap, *bounds, *monitor),
{
    let (cap_w, cap_h) = cap;
    let max_w = min_of(max_of(saturating_sub_u32(monitor.width, 40), 280), cap_w);
    let max_h = min_of(max_of(saturating_sub_u32(monitor.height, 80), 200), cap_h);
    let width = max_of(min_of(bounds.width, max_w), 280);
    let height = max_of(min_of(bounds.height, max_h), 200);
    SavedBounds {
        x: clamp_start(bounds.x, monitor.x, monitor.width, width),
        y: clamp_start(bounds.y, monitor.y, monitor.height, height),
        width,
        height,
    }
}

/// Resolve final window bounds for undock: correct off-screen, clamp to the
/// monitor within `cap`, or center a window of the `default` size when
/// nothing was saved.
pub fn resolve_undock_with(
    default: (u32, u32),
    cap: (u32, u32),
    saved: Option<SavedBounds>,
    monitors: &[MonitorRect],
    primary: Option<&MonitorRect>,
) -> (r: SavedBounds)
    requires
        undock_fits_with(default, cap, saved, monitors@, opt_monitor(primary)),
    ensures
        r == undock_with(default, cap, saved, monitors@, opt_monitor(primary)),
{
    let (default_w, default_h) = default;
    let target = pick_target(monitors, primary);
    let raw = match saved {
        Some(b) => correct_bounds_for_monitors(&b, monitors, primary),
        None => centered_bounds(default_w, default_h, monitors, primary),
    };
    match target {
        Some(m) => clamp_bounds_to_monitor(cap, &raw, &m),
        None => {
            let (cap_w, cap_h) = cap;
            SavedBounds {
                x: raw.x,
                y: raw.y,
                width: max_of(min_of(raw.width, cap_w), 280),
                height: max_of(min_of(raw.height, cap_h), 200),
            }
        },
    }
}

// ---------------------------------------------------------------------------
// Laws of placement
// ---------------------------------------------------------------------------

/// Correction never changes the size of the window.
pub proof fn law_correction_keeps_size(
    b: SavedBounds,
    monitors: Seq<MonitorRect>,
    primary: Option<MonitorRect>,
)
    ensures
        corrected(b, monitors, primary).width == b.width,
        corrected(b, monitors, primary).height == b.height,
{
}

/// Bounds that overlap some monitor, or that have no monitor to go to, are
/// left exactly where they are.
pub proof fn law_visible_bounds_unchanged(
    b: SavedBounds,
    monitors: Seq<MonitorRect>,
    primary: Option<MonitorRect>,
)
    requires
        on_screen(b, monitors) || monitors.len() == 0,
    ensures
        corrected(b, monitors, primary) == b,
{
}

/// A span of positive length `w` centered on a span of positive length `tw`
/// at `t` overlaps it (both lengths within `i32`).
proof fn lemma_centered_span_overlaps(t: i32, tw: u32, w: u32)
    requires
        0 < tw <= i32::MAX,
        0 < w <= i32::MAX,
        i32_fits(t + tw),
        centering_fits(t, tw, w),
    ensures
        centered_coord(t, tw, w) < sat_i32(t + (tw as i32)),
        sat_i32(centered_coord(t, tw, w) + (w as i32)) > t,
{
    assert((tw as i32) as int == tw as int);
    assert((w as i32) as int == w as int);
}

/// The window a correction produces overlaps the target monitor when both
/// have a positive size within `i32` and the monitor's far edges fit `i32`.
proof fn lemma_corrected_overlaps_target(b: SavedBounds, t: MonitorRect)
    requires
        0 < b.width <= i32::MAX,
        0 < b.height <= i32::MAX,
        0 < t.width <= i32::MAX,
        0 < t.height <= i32::MAX,
        i32_fits(t.x + t.width),
        i32_fits(t.y + t.height),
        centering_fits(t.x, t.width, b.width),
        centering_fits(t.y, t.height, b.height),
    ensures
        intersects(
            SavedBounds {
                x: centered_coord(t.x, t.width, b.width) as i32,
                y: centered_coord(t.y, t.height, b.height) as i32,
                width: b.width,
                height: b.height,
            },
            t,
        ),
{
    lemma_centered_span_overlaps(t.x, t.width, b.width);
    lemma_centered_span_overlaps(t.y, t.height, b.height);
}

/// Correcting corrected bounds changes nothing: once moved, the window is on
/// screen. Holds when the window and the monitors have positive sizes within
/// `i32`, the monitors' far edges fit `i32`, and the primary monitor (if
/// given) is one of the monitors.
pub proof fn law_correction_idempotent(
    b: SavedBounds,
    monitors: Seq<MonitorRect>,
    primary: Option<MonitorRect>,
)
    requires
        corrected_fits(b, monitors, primary),
        primary matches Some(p) ==> monitors.contains(p),
        0 < b.width <= i32::MAX,
        0 < b.height <= i32::MAX,
        forall|i: int|
            0 <= i < monitors.len() ==> {
                let m = #[trigger] monitors[i];
                &&& 0 < m.width <= i32::MAX
                &&& 0 < m.height <= i32::MAX
                &&& i32_fits(m.x + m.width)
                &&& i32_fits(m.y + m.height)
            },
    ensures
        corrected(corrected(b, monitors, primary), monitors, primary) == corrected(
            b,
            monitors,
            primary,
        ),
{
    if monitors.len() > 0 && !on_screen(b, monitors) {
        let t = target_monitor(monitors, primary).unwrap();
        let i = match primary {
            Some(p) => choose|i: int| 0 <= i < monitors.len() && monitors[i] == p,
            None => 0,
        };
        assert(monitors[i] == t);
        lemma_corrected_overlaps_target(b, t);
        let c = corrected(b, monitors, primary);
        assert(intersects(c, monitors[i]));
        assert(on_screen(c, monitors));
    }
}

/// Undock bounds never exceed the cap (or 280 x 200, if the cap is smaller)
/// and never fall below 280 x 200.
pub proof fn law_undock_capped_with(
    default: (u32, u32),
    cap: (u32, u32),
    saved: Option<SavedBounds>,
    monitors: Seq<MonitorRect>,
    primary: Option<MonitorRect>,
)
    ensures
        undock_with(default, cap, saved, monitors, primary).width <= max_u32(cap.0, 280),
        undock_with(default, cap, saved, monitors, primary).height <= max_u32(cap.1, 200),
        undock_with(default, cap, saved, monitors, primary).width >= 280,
        undock_with(default, cap, saved, monitors, primary).height >= 200,
{
}

/// A clamped window starts on the monitor, and ends on it whenever its size
/// fits the monitor: `m.x <= x`, and `x + width <= m.x + m.width` when
/// `width <= m.width` (likewise for `y` and `height`). A window that already
/// lies on the monitor at its clamped size keeps its position. Holds when the
/// monitor's size is within `i32`.
pub proof fn law_clamped_on_monitor(cap: (u32, u32), b: SavedBounds, m: MonitorRect)
    requires
        clamped_fits(cap, b, m),
        m.width <= i32::MAX,
        m.height <= i32::MAX,
    ensures
        ({
            let r = clamped(cap, b, m);
            &&& m.x <= r.x
            &&& m.y <= r.y
            &&& r.width <= m.width ==> r.x + r.width <= m.x + m.width
            &&& r.height <= m.height ==> r.y + r.height <= m.y + m.height
            &&& (m.x <= b.x && b.x + r.width <= m.x + m.width) ==> r.x == b.x
            &&& (m.y <= b.y && b.y + r.height <= m.y + m.height) ==> r.y == b.y
        }),
{
    let r = clamped(cap, b, m);
    assert(r.width <= i32::MAX);
    assert(r.height <= i32::MAX);
    assert((r.width as i32) as int == r.width as int);
    assert((r.height as i32) as int == r.height as int);
    assert((m.width as i32) as int == m.width as int);
    assert((m.height as i32) as int == m.height as int);
}

/// Undock bounds placed on a target monitor start on it and, whenever their
/// size fits the monitor, end on it (the monitor's size within `i32`).
pub proof fn law_undock_on_monitor_with(
    default: (u32, u32),
    cap: (u32, u32),
    saved: Option<SavedBounds>,
    monitors: Seq<MonitorRect>,
    primary: Option<MonitorRect>,
    m: MonitorRect,
)
    requires
        undock_fits_with(default, cap, saved, monitors, primary),
        target_monitor(monitors, primary) == Some(m),
        m.width <= i32::MAX,
        m.height <= i32::MAX,
    ensures
        ({
            let r = undock_with(default, cap, saved, monitors, primary);
            &&& m.x <= r.x
            &&& m.y <= r.y
            &&& r.width <= m.width ==> r.x + r.width <= m.x + m.width
            &&& r.height <= m.height ==> r.y + r.height <= m.y + m.height
        }),
{
    law_clamped_on_monitor(cap, raw_undock_with(default, saved, monitors, primary), m);
}

} // verus!
