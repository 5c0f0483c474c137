//! Float-drag session for drag-to-redock: which panel is being dragged,
//! whether it is armed over a dock zone, and which events to emit.
//!
//! The hit-testing geometry (which zone the floating window is over, and at
//! which insert gap) is computed by the caller; the controller keeps the
//! session and decides which affinity events are worth emitting.
use vstd::prelude::*;

use crate::text::str_eq;

verus! {

/// A sidebar of the main window.
#[derive(Debug, Clone, Copy, PartialEq, Eq, Hash, Structural)]
pub enum SidebarSide {
    Left,
    Right,
}

/// The panel being dragged and its current affinity.
#[derive(Debug, Clone)]
pub struct FloatDragSession {
    pub panel_id: String,
    pub armed: bool,
    pub insert_index: usize,
    pub inside: bool,
    pub armed_side: Option<SidebarSide>,
}

/// Payload of a dock-affinity change.
#[derive(Debug, Clone, PartialEq, Eq)]
pub struct DockAffinityEvent {
    pub panel_id: String,
    pub armed: bool,
    pub insert_index: Option<usize>,
    /// Armed dock side when `armed`; `None` when disarmed.
    pub side: Option<SidebarSide>,
}

/// Mathematical value of a [`FloatDragSession`].
pub struct SessionView {
    pub panel_id: Seq<char>,
    pub armed: bool,
    pub insert_index: usize,
    pub inside: bool,
    pub armed_side: Option<SidebarSide>,
}

impl View for FloatDragSession {
    type V = SessionView;

    open spec fn view(&self) -> SessionView {
        SessionView {
            panel_id: self.panel_id@,
            armed: self.armed,
            insert_index: self.insert_index,
            inside: self.inside,
            armed_side: self.armed_side,
        }
    }
}

/// Mathematical value of a [`DockAffinityEvent`].
pub struct EventView {
    pub panel_id: Seq<char>,
    pub armed: bool,
    pub insert_index: Option<usize>,
    pub side: Option<SidebarSide>,
}

impl View for DockAffinityEvent {
    type V = EventView;

    open spec fn view(&self) -> EventView {
        EventView {
            panel_id: self.panel_id@,
            armed: self.armed,
            insert_index: self.insert_index,
            side: self.side,
        }
    }
}

/// The view of an optional event.
pub open spec fn opt_event_view(e: Option<DockAffinityEvent>) -> Option<EventView> {
    match e {
        Some(ev) => Some(ev@),
        None => None,
    }
}

/// What an emitted event was about: (armed, insert index, side).
pub type EmitKey = (bool, usize, Option<SidebarSide>);

/// Session state of drag-to-redock.
#[derive(Debug)]
pub struct DockAffinityController {
    pub enabled: bool,
    pub session: Option<FloatDragSession>,
    last_emitted: Option<EmitKey>,
}

/// Mathematical value of a [`DockAffinityController`].
pub struct ControllerView {
    pub enabled: bool,
    pub session: Option<SessionView>,
    /// The key of the last event emitted in this session.
    pub last_emitted: Option<EmitKey>,
}

impl View for DockAffinityController {
    type V = ControllerView;

    closed spec fn view(&self) -> ControllerView {
        ControllerView {
            enabled: self.enabled,
            session: match self.session {
                Some(s) => Some(s@),
                None => None,
            },
            last_emitted: self.last_emitted,
        }
    }
}

/// Panels that never take part in drag-to-redock.
pub open spec fn floating_only_id(panel_id: Seq<char>) -> bool {
    panel_id == "preview"@ || panel_id == "preferences"@
}

/// A fresh session for `panel_id`: disarmed, outside every zone.
pub open spec fn fresh_session(panel_id: Seq<char>) -> SessionView {
    SessionView { panel_id, armed: false, insert_index: 0, inside: false, armed_side: None }
}

/// The disarm event for a session of `panel_id`.
pub open spec fn disarm_event(panel_id: Seq<char>) -> EventView {
    EventView { panel_id, armed: false, insert_index: None, side: None }
}

/// Whether `begin(panel_id)` is accepted in state `c`.
pub open spec fn begin_accepted(c: ControllerView, panel_id: Seq<char>) -> bool {
    c.enabled && !floating_only_id(panel_id)
}

/// State after `begin(panel_id)`.
pub open spec fn begun(c: ControllerView, panel_id: Seq<char>) -> ControllerView {
    if begin_accepted(c, panel_id) {
        ControllerView { session: Some(fresh_session(panel_id)), last_emitted: None, ..c }
    } else {
        c
    }
}

/// State and event after `end_session()`.
pub open spec fn ended(c: ControllerView) -> (ControllerView, Option<EventView>) {
    match c.session {
        Some(s) => (
            ControllerView { session: None, last_emitted: None, ..c },
            Some(disarm_event(s.panel_id)),
        ),
        None => (c, None),
    }
}

/// The event reporting an affinity of (armed, insert, side) for `panel_id`.
pub open spec fn affinity_event(
    panel_id: Seq<char>,
    armed: bool,
    insert: usize,
    side: Option<SidebarSide>,
) -> EventView {
    EventView {
        panel_id,
        armed,
        insert_index: if armed {
            Some(insert)
        } else {
            None
        },
        side: if armed {
            side
        } else {
            None
        },
    }
}

/// State and event after a hit-test result (inside, armed, insert, side) is
/// recorded: the session takes the result; an event comes only when
/// (armed, insert, side) differs from the last one emitted.
pub open spec fn hit(
    c: ControllerView,
    inside: bool,
    armed: bool,
    insert: usize,
    side: Option<SidebarSide>,
) -> (ControllerView, Option<EventView>) {
    match c.session {
        None => (c, None),
        Some(s) => {
            let s2 = SessionView {
                inside,
                armed,
                insert_index: insert,
                armed_side: side,
                ..s
            };
            let key = (armed, insert, side);
            if c.last_emitted == Some(key) {
                (ControllerView { session: Some(s2), ..c }, None)
            } else {
                (
                    ControllerView { session: Some(s2), last_emitted: Some(key), ..c },
                    Some(affinity_event(s.panel_id, armed, insert, side)),
                )
            }
        },
    }
}

/// Same (armed, insert, side) key.
fn same_key(a: EmitKey, b: EmitKey) -> (r: bool)
    ensures
        r == (a == b),
{
    let side_eq = match (a.2, b.2) {
        (None, None) => true,
        (Some(SidebarSide::Left), Some(SidebarSide::Left)) => true,
        (Some(SidebarSide::Right), Some(SidebarSide::Right)) => true,
        _ => false,
    };
    a.0 == b.0 && a.1 == b.1 && side_eq
}

impl DockAffinityController {
    pub fn new(enabled: bool) -> (r: Self)
        ensures
            r@ == (ControllerView { enabled, session: None, last_emitted: None }),
    {
        DockAffinityController { enabled, session: None, last_emitted: None }
    }

    /// `preview` and `preferences` never dock.
    pub fn is_floating_only(panel_id: &str) -> (r: bool)
        ensures
            r == floating_only_id(panel_id@),
    {
        str_eq(panel_id, "preview") || str_eq(panel_id, "preferences")
    }

    /// Start a float-drag session. Returns false if rejected (disabled / floating-only).
    pub fn begin(&mut self, panel_id: &str) -> (r: bool)
        ensures
            r == begin_accepted(old(self)@, panel_id@),
            final(self)@ == begun(old(self)@, panel_id@),
    {
        if !self.enabled || Self::is_floating_only(panel_id) {
            return false;
        }
        self.session = Some(
            FloatDragSession {
                panel_id: String::from_str(panel_id),
                armed: false,
                insert_index: 0,
                inside: false,
                armed_side: None,
            },
        );
        self.last_emitted = None;
        true
    }

    /// End the session. Returns the final disarm event when a session existed.
    pub fn end_session(&mut self) -> (r: Option<DockAffinityEvent>)
        ensures
            (final(self)@, opt_event_view(r)) == ended(old(self)@),
    {
        let session = match self.session.take() {
            Some(s) => s,
            None => {
                return None;
            },
        };
        self.last_emitted = None;
        Some(
            DockAffinityEvent {
                panel_id: session.panel_id,
                armed: false,
                insert_index: None,
                side: None,
            },
        )
    }

    /// Abandon the session; same as [`Self::end_session`].
    pub fn cancel(&mut self) -> (r: Option<DockAffinityEvent>)
        ensures
            (final(self)@, opt_event_view(r)) == ended(old(self)@),
    {
        self.end_session()
    }

    /// Record a hit-test result for the floating window. Returns an event only
    /// when (armed, insert_index, side) changes; nothing without a session.
    pub fn record_hit(
        &mut self,
        inside: bool,
        armed: bool,
        insert: usize,
        side: Option<SidebarSide>,
    ) -> (r: Option<DockAffinityEvent>)
        ensures
            (final(self)@, opt_event_view(r)) == hit(old(self)@, inside, armed, insert, side),
    {
        let panel_id = match &self.session {
            Some(s) => s.panel_id.clone(),
            None => {
                return None;
            },
        };
        self.session = Some(
            FloatDragSession { panel_id: panel_id.clone(), armed, insert_index: insert, inside, armed_side: side },
        );
        let key: EmitKey = (armed, insert, side);
        let repeated = match self.last_emitted {
            Some(prev) => same_key(prev, key),
            None => false,
        };
        if repeated {
            return None;
        }
        self.last_emitted = Some(key);
        Some(
            DockAffinityEvent {
                panel_id,
                armed,
                insert_index: if armed {
                    Some(insert)
                } else {
                    None
                },
                side: if armed {
                    side
                } else {
                    None
                },
            },
        )
    }

    /// Snapshot of the session for mouseup completion: (panel_id, armed, insert, side).
    pub fn session_snapshot(&self) -> (r: Option<(String, bool, usize, Option<SidebarSide>)>)
        ensures
            match self@.session {
                Some(s) => r matches Some(t) && t.0@ == s.panel_id && t.1 == s.armed && t.2
                    == s.insert_index && t.3 == s.armed_side,
                None => r is None,
            },
    {
        match &self.session {
            Some(s) => Some((s.panel_id.clone(), s.armed, s.insert_index, s.armed_side)),
            None => None,
        }
    }
}

/// Recording the same hit-test result twice in a row emits nothing the
/// second time.
pub proof fn law_repeated_hit_is_silent(
    c: ControllerView,
    inside: bool,
    armed: bool,
    insert: usize,
    side: Option<SidebarSide>,
)
    ensures
        hit(hit(c, inside, armed, insert, side).0, inside, armed, insert, side).1 is None,
{
}

/// A hit-test result whose (armed, insert, side) differs from the last
/// emitted one is reported while a session is open.
pub proof fn law_changed_hit_is_reported(
    c: ControllerView,
    inside: bool,
    armed: bool,
    insert: usize,
    side: Option<SidebarSide>,
)
    requires
        c.session is Some,
        c.last_emitted != Some((armed, insert, side)),
    ensures
        hit(c, inside, armed, insert, side).1 == Some(
            affinity_event(c.session.unwrap().panel_id, armed, insert, side),
        ),
{
}

/// A session that was accepted by `begin` ends with the disarm event of the
/// same panel, and leaves no session behind.
pub proof fn law_begin_then_end(c: ControllerView, panel_id: Seq<char>)
    requires
        begin_accepted(c, panel_id),
    ensures
        ended(begun(c, panel_id)).1 == Some(disarm_event(panel_id)),
        ended(begun(c, panel_id)).0.session is None,
{
}

/// A disarmed result never reports an insert index or side.
pub proof fn law_disarmed_event_has_no_target(
    c: ControllerView,
    inside: bool,
    insert: usize,
    side: Option<SidebarSide>,
)
    ensures
        hit(c, inside, false, insert, side).1 matches Some(e) ==> e.insert_index is None
            && e.side is None,
{
}

} // verus!
