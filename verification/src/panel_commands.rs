//! Floating panel windows: each panel's default size and size cap for
//! placement on the monitors, the completion of drag-to-redock, and the
//! small parsers used by the panel commands.
use vstd::prelude::*;
use vstd::string::*;

pub use crate::placement::{correct_bounds_for_monitors, MonitorRect};
use crate::placement::{
    law_undock_capped_with, law_undock_on_monitor_with, opt_monitor, resolve_undock_with,
    target_monitor, undock_fits_with, undock_with,
};
use crate::dock_affinity::{
    ended, opt_event_view, DockAffinityController, DockAffinityEvent, SessionView, SidebarSide,
};
use crate::panel_manager::{
    lemma_known_ids, is_dockable, is_floating_only, is_known, known_index, not_dockable_err, opt_string_view,
    panel_index, redocked, DockSide, PanelError, PanelManager, PanelManagerView, PanelView,
    SavedBounds,
};
use crate::text::concat_str;

verus! {

/// Default floating-window size per panel (logical px).
pub open spec fn default_size(id: Seq<char>) -> (u32, u32) {
    let k = known_index(id);
    if k == 4 {
        (420, 360)
    } else if k == 2 {
        (560, 640)
    } else if k == 3 {
        (800, 600)
    } else if k == 1 {
        (350, 500)
    } else if k == 0 {
        (400, 600)
    } else {
        (332, 400)
    }
}

/// Hard size cap per panel (logical px).
pub open spec fn max_size(id: Seq<char>) -> (u32, u32) {
    let k = known_index(id);
    if k == 2 {
        (640, 760)
    } else if k == 4 {
        (560, 520)
    } else if k == 1 {
        (480, 800)
    } else if k == 0 {
        (520, 800)
    } else if k == 3 {
        (1600, 1200)
    } else {
        (900, 900)
    }
}

/// Final undock bounds of panel `id` (see [`undock_with`]), with the
/// panel's default size and size cap.
pub open spec fn undock_bounds(
    id: Seq<char>,
    saved: Option<SavedBounds>,
    monitors: Seq<MonitorRect>,
    primary: Option<MonitorRect>,
) -> SavedBounds {
    undock_with(default_size(id), max_size(id), saved, monitors, primary)
}

/// The undock placement arithmetic of panel `id` stays within `i32`.
pub open spec fn undock_bounds_fit(
    id: Seq<char>,
    saved: Option<SavedBounds>,
    monitors: Seq<MonitorRect>,
    primary: Option<MonitorRect>,
) -> bool {
    undock_fits_with(default_size(id), max_size(id), saved, monitors, primary)
}

/// Default floating-window size per panel (logical px).
fn panel_default_size(id: &str) -> (r: (u32, u32))
    ensures
        r == default_size(id@),
{
    match panel_index(id) {
        Some(4) => (420, 360),
        Some(2) => (560, 640),
        Some(3) => (800, 600),
        Some(1) => (350, 500),
        Some(0) => (400, 600),
        _ => (332, 400),
    }
}

/// Hard cap so a bad saved/maximized size cannot open a panel at monitor size.
fn panel_max_size(id: &str) -> (r: (u32, u32))
    ensures
        r == max_size(id@),
{
    match panel_index(id) {
        Some(2) => (640, 760),
        Some(4) => (560, 520),
        Some(1) => (480, 800),
        Some(0) => (520, 800),
        Some(3) => (1600, 1200),
        _ => (900, 900),
    }
}

/// Resolve final window bounds for undock: correct off-screen, clamp to monitor,
/// or center with panel defaults when nothing was saved.
pub fn resolve_undock_bounds(
    panel_id: &str,
    saved: Option<SavedBounds>,
    monitors: &[MonitorRect],
    primary: Option<&MonitorRect>,
) -> (r: SavedBounds)
    requires
        undock_bounds_fit(panel_id@, saved, monitors@, opt_monitor(primary)),
    ensures
        r == undock_bounds(panel_id@, saved, monitors@, opt_monitor(primary)),
{
    resolve_undock_with(panel_default_size(panel_id), panel_max_size(panel_id), saved, monitors, primary)
}

// ---------------------------------------------------------------------------
// Names and sides
// ---------------------------------------------------------------------------

/// Map a panel ID to its user-facing display name.
pub fn panel_display_name(id: &str) -> (r: &'static str)
    ensures
        r@ == (if known_index(id@) == 0 {
            "Effect Settings"@
        } else if known_index(id@) == 1 {
            "Layers"@
        } else if known_index(id@) == 2 {
            "Color Lab"@
        } else if known_index(id@) == 3 {
            "Preview"@
        } else if known_index(id@) == 4 {
            "Preferences"@
        } else {
            "Panel"@
        }),
{
    match panel_index(id) {
        Some(0) => "Effect Settings",
        Some(1) => "Layers",
        Some(2) => "Color Lab",
        Some(3) => "Preview",
        Some(4) => "Preferences",
        _ => "Panel",
    }
}

/// `Invalid dock side: {side}`.
pub open spec fn invalid_side_msg(side: Seq<char>) -> Seq<char> {
    "Invalid dock side: "@ + side
}

/// Parse `"left"` / `"right"`.
pub fn parse_dock_side(side: &str) -> (r: Result<DockSide, String>)
    ensures
        side@ == "left"@ ==> r == Ok::<DockSide, String>(DockSide::Left),
        side@ == "right"@ ==> r == Ok::<DockSide, String>(DockSide::Right),
        side@ != "left"@ && side@ != "right"@ ==> (r matches Err(msg) && msg@ == invalid_side_msg(
            side@,
        )),
{
    proof {
        reveal_strlit("left");
        reveal_strlit("right");
        assert("left"@[0] != "right"@[0]);
    }
    if crate::text::str_eq(side, "left") {
        Ok(DockSide::Left)
    } else if crate::text::str_eq(side, "right") {
        Ok(DockSide::Right)
    } else {
        Err(concat_str("Invalid dock side: ", side))
    }
}

/// The dock side of a sidebar side.
pub fn sidebar_side_to_dock(side: SidebarSide) -> (r: DockSide)
    ensures
        side == SidebarSide::Left ==> r == DockSide::Left,
        side == SidebarSide::Right ==> r == DockSide::Right,
{
    match side {
        SidebarSide::Left => DockSide::Left,
        SidebarSide::Right => DockSide::Right,
    }
}

/// Parse `"left"` / `"right"` as a sidebar side.
pub fn parse_sidebar_side(side: &str) -> (r: Result<SidebarSide, String>)
    ensures
        side@ == "left"@ ==> r == Ok::<SidebarSide, String>(SidebarSide::Left),
        side@ == "right"@ ==> r == Ok::<SidebarSide, String>(SidebarSide::Right),
        side@ != "left"@ && side@ != "right"@ ==> (r matches Err(msg) && msg@ == invalid_side_msg(
            side@,
        )),
{
    proof {
        reveal_strlit("left");
        reveal_strlit("right");
        assert("left"@[0] != "right"@[0]);
    }
    if crate::text::str_eq(side, "left") {
        Ok(SidebarSide::Left)
    } else if crate::text::str_eq(side, "right") {
        Ok(SidebarSide::Right)
    } else {
        Err(concat_str("Invalid dock side: ", side))
    }
}

// ---------------------------------------------------------------------------
// Drag-to-redock completion
// ---------------------------------------------------------------------------

/// The dock side of a sidebar.
pub open spec fn dock_side_of(side: SidebarSide) -> DockSide {
    match side {
        SidebarSide::Left => DockSide::Left,
        SidebarSide::Right => DockSide::Right,
    }
}

/// Whether docking `id` at a visible insert position succeeds: the panel is
/// known, and a panel that is already docked must be dockable to move.
pub open spec fn dock_at_ok(v: PanelManagerView, id: Seq<char>) -> bool {
    is_known(id) && (v.panels[known_index(id)].docked ==> is_dockable(id))
}

/// Manager state after docking `id` at visible insert position `idx` of
/// `side`: a docked panel moves there; a floating one is docked there
/// (floating-only panels return to the main window without a side).
pub open spec fn dock_at_state(v: PanelManagerView, id: Seq<char>, side: DockSide, idx: int) -> PanelManagerView {
    if !dock_at_ok(v, id) {
        v
    } else {
        let k = known_index(id);
        let p = v.panels[k];
        if p.docked {
            v.placed_visible(k, side, idx)
        } else if is_floating_only(id) {
            v.with_panel(k, PanelView { dock_side: None, ..redocked(p) })
        } else {
            v.with_panel(k, redocked(p)).placed_visible(k, side, idx)
        }
    }
}

/// The floating window to close after docking `id`: its label when the
/// panel was floating, none when it was already docked.
pub open spec fn dock_at_label(v: PanelManagerView, id: Seq<char>) -> Option<Seq<char>> {
    if is_known(id) && !v.panels[known_index(id)].docked {
        v.panels[known_index(id)].window_label
    } else {
        None
    }
}

/// Dock `panel_id` at visible insert position `index` of `side`, as a
/// drag-to-redock release does: a docked panel is moved there, a floating
/// one is docked there. Returns the label of the floating window to close.
pub fn dock_panel_at(pm: &mut PanelManager, panel_id: &str, side: DockSide, index: usize) -> (r: Result<
    Option<String>,
    PanelError,
>)
    requires
        old(pm)@.wf(),
    ensures
        final(pm)@.wf(),
        final(pm)@ == dock_at_state(old(pm)@, panel_id@, side, index as int),
        r is Ok <==> dock_at_ok(old(pm)@, panel_id@),
        r matches Ok(label) ==> opt_string_view(label) == dock_at_label(old(pm)@, panel_id@),
        r matches Err(e) ==> not_dockable_err(e, panel_id@),
{
    let already_docked = match pm.panel(panel_id) {
        Some(p) => p.docked,
        None => false,
    };
    if already_docked {
        match pm.move_to_dock_insert_index(panel_id, side, index) {
            Ok(()) => Ok(None),
            Err(e) => Err(e),
        }
    } else {
        pm.dock(panel_id, side, index)
    }
}

/// Where a released drag docks: the armed side (right when none was
/// recorded) at the recorded insert index; nowhere when not armed.
pub open spec fn release_target(s: SessionView) -> Option<(DockSide, usize)> {
    if s.armed {
        Some(
            (
                match s.armed_side {
                    Some(side) => dock_side_of(side),
                    None => DockSide::Right,
                },
                s.insert_index,
            ),
        )
    } else {
        None
    }
}

/// What completing a float drag did, for the caller to act on.
#[derive(Debug)]
pub struct FloatDragCompletion {
    /// Floating window to close because its panel was docked.
    pub window_to_close: Option<String>,
    /// Why docking failed, when it did.
    pub dock_error: Option<PanelError>,
    /// The disarm event that ends the session.
    pub end_event: Option<DockAffinityEvent>,
}

/// Complete a float drag on mouse release: when the session is armed, dock
/// its panel at the armed side and insert index; then end the session.
pub fn complete_float_drag(ctrl: &mut DockAffinityController, pm: &mut PanelManager) -> (r:
    FloatDragCompletion)
    requires
        old(pm)@.wf(),
    ensures
        final(pm)@.wf(),
        (final(ctrl)@, opt_event_view(r.end_event)) == ended(old(ctrl)@),
        match old(ctrl)@.session {
            Some(s) => match release_target(s) {
                Some((side, idx)) => {
                    &&& final(pm)@ == dock_at_state(old(pm)@, s.panel_id, side, idx as int)
                    &&& (r.dock_error is None <==> dock_at_ok(old(pm)@, s.panel_id))
                    &&& (r.dock_error matches Some(e) ==> not_dockable_err(e, s.panel_id))
                    &&& opt_string_view(r.window_to_close) == (if dock_at_ok(old(pm)@, s.panel_id) {
                        dock_at_label(old(pm)@, s.panel_id)
                    } else {
                        None
                    })
                },
                None => final(pm)@ == old(pm)@ && r.window_to_close is None && r.dock_error is None,
            },
            None => final(pm)@ == old(pm)@ && r.window_to_close is None && r.dock_error is None,
        },
{
    let snapshot = ctrl.session_snapshot();
    let mut window_to_close: Option<String> = None;
    let mut dock_error: Option<PanelError> = None;
    if let Some((panel_id, armed, insert_index, armed_side)) = snapshot {
        if armed {
            let side = match armed_side {
                Some(s) => sidebar_side_to_dock(s),
                None => DockSide::Right,
            };
            match dock_panel_at(pm, panel_id.as_str(), side, insert_index) {
                Ok(label) => {
                    window_to_close = label;
                },
                Err(e) => {
                    dock_error = Some(e);
                },
            }
        }
    }
    let end_event = ctrl.end_session();
    FloatDragCompletion { window_to_close, dock_error, end_event }
}

/// Docking a dockable panel at a release position leaves it docked on the
/// armed side.
pub proof fn law_release_docks_on_armed_side(v: PanelManagerView, id: Seq<char>, side: DockSide, idx: int)
    requires
        v.wf(),
        is_dockable(id),
    ensures
        ({
            let f = dock_at_state(v, id, side, idx);
            let k = known_index(id);
            &&& f.panels[k].docked
            &&& f.panels[k].dock_side == Some(side)
        }),
{
    lemma_known_ids();
    let k = known_index(id);
    assert(dock_at_ok(v, id));
    if v.panels[k].docked {
        assert(v.placed_visible(k, side, idx).panels[k].dock_side == Some(side));
    } else {
        let w = v.with_panel(k, redocked(v.panels[k]));
        assert(w.panels[k].docked);
        assert(w.placed_visible(k, side, idx).panels[k].docked);
    }
}

// ---------------------------------------------------------------------------
// Laws
// ---------------------------------------------------------------------------

/// Undock bounds never exceed the panel's size cap and never fall below
/// 280 x 200 (every cap is at least that).
pub proof fn law_undock_bounds_capped(
    id: Seq<char>,
    saved: Option<SavedBounds>,
    monitors: Seq<MonitorRect>,
    primary: Option<MonitorRect>,
)
    ensures
        undock_bounds(id, saved, monitors, primary).width <= max_size(id).0,
        undock_bounds(id, saved, monitors, primary).height <= max_size(id).1,
        undock_bounds(id, saved, monitors, primary).width >= 280,
        undock_bounds(id, saved, monitors, primary).height >= 200,
{
    law_undock_capped_with(default_size(id), max_size(id), saved, monitors, primary);
}

/// A panel's undock bounds on its target monitor start on that monitor and,
/// whenever their size fits it, end on it: `m.x <= x` and
/// `x + width <= m.x + m.width` (likewise vertically), the monitor's size
/// within `i32`.
pub proof fn law_undock_bounds_on_monitor(
    id: Seq<char>,
    saved: Option<SavedBounds>,
    monitors: Seq<MonitorRect>,
    primary: Option<MonitorRect>,
    m: MonitorRect,
)
    requires
        undock_bounds_fit(id, saved, monitors, primary),
        target_monitor(monitors, primary) == Some(m),
        m.width <= i32::MAX,
        m.height <= i32::MAX,
    ensures
        ({
            let r = undock_bounds(id, saved, monitors, primary);
            &&& m.x <= r.x
            &&& m.y <= r.y
            &&& r.width <= m.width ==> r.x + r.width <= m.x + m.width
            &&& r.height <= m.height ==> r.y + r.height <= m.y + m.height
        }),
{
    law_undock_on_monitor_with(default_size(id), max_size(id), saved, monitors, primary, m);
}

} // verus!
