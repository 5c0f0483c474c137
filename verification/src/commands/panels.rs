//! FlexLayout popout windows: each panel's default size and size cap for
//! placement on the monitors, and the sidebar-side parser.
use vstd::prelude::*;
use vstd::string::*;

pub use crate::panel_manager::SavedBounds;
pub use crate::placement::{correct_bounds_for_monitors, MonitorRect};
use crate::placement::{
    law_undock_capped_with, opt_monitor, resolve_undock_with, undock_fits_with, undock_with,
};
use crate::panel_manager::{known_index, panel_index};
use crate::dock_affinity::SidebarSide;
use crate::text::concat_str;

verus! {

/// Default floating-window size per panel (logical px).
pub open spec fn default_size(id: Seq<char>) -> (u32, u32) {
    let k = known_index(id);
    if k == 2 {
        (560, 640)
    } else if k == 3 {
        (800, 600)
    } else if k == 1 {
        (350, 500)
    } else if k == 0 {
        (400, 600)
    } else {
        (332, 400)
    }
}

/// Hard size cap per panel (logical px).
pub open spec fn max_size(id: Seq<char>) -> (u32, u32) {
    let k = known_index(id);
    if k == 2 {
        (640, 760)
    } else if k == 1 {
        (480, 800)
    } else if k == 0 {
        (520, 800)
    } else if k == 3 {
        (1600, 1200)
    } else {
        (900, 900)
    }
}

/// Final undock bounds of panel `id` (see [`undock_with`]), with the
/// panel's default size and size cap.
pub open spec fn undock_bounds(
    id: Seq<char>,
    saved: Option<SavedBounds>,
    monitors: Seq<MonitorRect>,
    primary: Option<MonitorRect>,
) -> SavedBounds {
    undock_with(default_size(id), max_size(id), saved, monitors, primary)
}

/// The undock placement arithmetic of panel `id` stays within `i32`.
pub open spec fn undock_bounds_fit(
    id: Seq<char>,
    saved: Option<SavedBounds>,
    monitors: Seq<MonitorRect>,
    primary: Option<MonitorRect>,
) -> bool {
    undock_fits_with(default_size(id), max_size(id), saved, monitors, primary)
}

/// Default floating-window size per panel (logical px).
fn panel_default_size(id: &str) -> (r: (u32, u32))
    ensures
        r == default_size(id@),
{
    match panel_index(id) {
        Some(2) => (560, 640),
        Some(3) => (800, 600),
        Some(1) => (350, 500),
        Some(0) => (400, 600),
        _ => (332, 400),
    }
}

/// Hard cap so a bad saved/maximized size cannot open a panel at monitor size.
fn panel_max_size(id: &str) -> (r: (u32, u32))
    ensures
        r == max_size(id@),
{
    match panel_index(id) {
        Some(2) => (640, 760),
        Some(1) => (480, 800),
        Some(0) => (520, 800),
        Some(3) => (1600, 1200),
        _ => (900, 900),
    }
}

/// Resolve final window bounds for undock: correct off-screen, clamp to monitor,
/// or center with panel defaults when nothing was saved.
pub fn resolve_undock_bounds(
    panel_id: &str,
    saved: Option<SavedBounds>,
    monitors: &[MonitorRect],
    primary: Option<&MonitorRect>,
) -> (r: SavedBounds)
    requires
        undock_bounds_fit(panel_id@, saved, monitors@, opt_monitor(primary)),
    ensures
        r == undock_bounds(panel_id@, saved, monitors@, opt_monitor(primary)),
{
    resolve_undock_with(panel_default_size(panel_id), panel_max_size(panel_id), saved, monitors, primary)
}

// ---------------------------------------------------------------------------
// Names and sides
// ---------------------------------------------------------------------------

/// `Invalid dock side: {side}`.
pub open spec fn invalid_side_msg(side: Seq<char>) -> Seq<char> {
    "Invalid dock side: "@ + side
}

/// Panels hosted in the FlexLayout: `layers`, `effect`, `colorlab`, `preview`.
pub fn is_flex_layout_panel(panel_id: &str) -> (r: bool)
    ensures
        r == (0 <= known_index(panel_id@) < 4),
{
    match panel_index(panel_id) {
        Some(k) => k < 4,
        None => false,
    }
}

/// Parse `"left"` / `"right"` as a sidebar side.
pub fn parse_sidebar_side(side: &str) -> (r: Result<SidebarSide, String>)
    ensures
        side@ == "left"@ ==> r == Ok::<SidebarSide, String>(SidebarSide::Left),
        side@ == "right"@ ==> r == Ok::<SidebarSide, String>(SidebarSide::Right),
        side@ != "left"@ && side@ != "right"@ ==> (r matches Err(msg) && msg@ == invalid_side_msg(
            side@,
        )),
{
    proof {
        reveal_strlit("left");
        reveal_strlit("right");
        assert("left"@[0] != "right"@[0]);
    }
    if crate::text::str_eq(side, "left") {
        Ok(SidebarSide::Left)
    } else if crate::text::str_eq(side, "right") {
        Ok(SidebarSide::Right)
    } else {
        Err(concat_str("Invalid dock side: ", side))
    }
}

// ---------------------------------------------------------------------------
// Laws
// ---------------------------------------------------------------------------

/// Undock bounds never exceed the panel's size cap and never fall below
/// 280 x 200 (every cap is at least that).
pub proof fn law_undock_bounds_capped(
    id: Seq<char>,
    saved: Option<SavedBounds>,
    monitors: Seq<MonitorRect>,
    primary: Option<MonitorRect>,
)
    ensures
        undock_bounds(id, saved, monitors, primary).width <= max_size(id).0,
        undock_bounds(id, saved, monitors, primary).height <= max_size(id).1,
        undock_bounds(id, saved, monitors, primary).width >= 280,
        undock_bounds(id, saved, monitors, primary).height >= 200,
{
    law_undock_capped_with(default_size(id), max_size(id), saved, monitors, primary);
}

} // verus!
