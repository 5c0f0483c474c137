//! Dual-sidebar panel model: which panels are docked, on which side, in which
//! order, and where floating panels were last placed.
use vstd::prelude::*;
use vstd::string::*;

use crate::text::{concat_str, contains_in_prefix, decimal, decimal_string, str_eq, strings_view};

verus! {

// ---------------------------------------------------------------------------
// Panel identifiers
// ---------------------------------------------------------------------------

pub open spec fn id_effect() -> Seq<char> {
    seq!['e', 'f', 'f', 'e', 'c', 't']
}

pub open spec fn id_layers() -> Seq<char> {
    seq!['l', 'a', 'y', 'e', 'r', 's']
}

pub open spec fn id_colorlab() -> Seq<char> {
    seq!['c', 'o', 'l', 'o', 'r', 'l', 'a', 'b']
}

pub open spec fn id_preview() -> Seq<char> {
    seq!['p', 'r', 'e', 'v', 'i', 'e', 'w']
}

pub open spec fn id_preferences() -> Seq<char> {
    seq!['p', 'r', 'e', 'f', 'e', 'r', 'e', 'n', 'c', 'e', 's']
}

/// The `k`-th known panel identifier, in the stable snapshot order
/// `effect, layers, colorlab, preview, preferences`.
pub open spec fn known_id(k: int) -> Seq<char> {
    if k == 0 {
        id_effect()
    } else if k == 1 {
        id_layers()
    } else if k == 2 {
        id_colorlab()
    } else if k == 3 {
        id_preview()
    } else {
        id_preferences()
    }
}

/// Position of `id` among the known panels, or `-1` when it is not a known panel.
pub open spec fn known_index(id: Seq<char>) -> int {
    if id == id_effect() {
        0
    } else if id == id_layers() {
        1
    } else if id == id_colorlab() {
        2
    } else if id == id_preview() {
        3
    } else if id == id_preferences() {
        4
    } else {
        -1
    }
}

pub open spec fn is_known(id: Seq<char>) -> bool {
    known_index(id) >= 0
}

/// Panels that may appear in a sidebar stack: `effect`, `layers`, `colorlab`.
pub open spec fn is_dockable(id: Seq<char>) -> bool {
    0 <= known_index(id) < 3
}

/// Panels that never enter a sidebar: `preview`, `preferences`.
pub open spec fn is_floating_only(id: Seq<char>) -> bool {
    known_index(id) == 3 || known_index(id) == 4
}

/// Default sidebar of the `k`-th known panel: `layers` left, `effect` and
/// `colorlab` right, none for floating-only panels.
pub open spec fn default_side(k: int) -> Option<DockSide> {
    if k == 1 {
        Some(DockSide::Left)
    } else if k == 0 || k == 2 {
        Some(DockSide::Right)
    } else {
        None
    }
}

pub proof fn lemma_known_ids()
    ensures
        forall|k: int| 0 <= k < 5 ==> #[trigger] known_index(known_id(k)) == k,
{
    assert(id_effect()[0] != id_layers()[0]);
    assert(id_effect()[0] != id_colorlab()[0]);
    assert(id_effect()[0] != id_preview()[0]);
    assert(id_effect()[0] != id_preferences()[0]);
    assert(id_layers()[0] != id_colorlab()[0]);
    assert(id_layers()[0] != id_preview()[0]);
    assert(id_layers()[0] != id_preferences()[0]);
    assert(id_colorlab()[0] != id_preview()[0]);
    assert(id_colorlab()[0] != id_preferences()[0]);
    assert(id_preview().len() != id_preferences().len());
}

/// Index of a known panel identifier.
pub(crate) fn panel_index(id: &str) -> (r: Option<usize>)
    ensures
        match r {
            Some(k) => k < 5 && known_index(id@) == k,
            None => known_index(id@) == -1,
        },
{
    proof {
        reveal_strlit("effect");
        reveal_strlit("layers");
        reveal_strlit("colorlab");
        reveal_strlit("preview");
        reveal_strlit("preferences");
    }
    if str_eq(id, "effect") {
        assert("effect"@ =~= id_effect());
        Some(0)
    } else if str_eq(id, "layers") {
        assert("effect"@ =~= id_effect());
        assert("layers"@ =~= id_layers());
        Some(1)
    } else if str_eq(id, "colorlab") {
        assert("effect"@ =~= id_effect());
        assert("layers"@ =~= id_layers());
        assert("colorlab"@ =~= id_colorlab());
        Some(2)
    } else if str_eq(id, "preview") {
        assert("effect"@ =~= id_effect());
        assert("layers"@ =~= id_layers());
        assert("colorlab"@ =~= id_colorlab());
        assert("preview"@ =~= id_preview());
        Some(3)
    } else if str_eq(id, "preferences") {
        assert("effect"@ =~= id_effect());
        assert("layers"@ =~= id_layers());
        assert("colorlab"@ =~= id_colorlab());
        assert("preview"@ =~= id_preview());
        assert("preferences"@ =~= id_preferences());
        Some(4)
    } else {
        assert("effect"@ =~= id_effect());
        assert("layers"@ =~= id_layers());
        assert("colorlab"@ =~= id_colorlab());
        assert("preview"@ =~= id_preview());
        assert("preferences"@ =~= id_preferences());
        None
    }
}

/// The identifier of the `k`-th known panel as a new `String`.
pub(crate) fn known_id_string(k: usize) -> (s: String)
    requires
        k < 5,
    ensures
        s@ == known_id(k as int),
{
    proof {
        reveal_strlit("effect");
        reveal_strlit("layers");
        reveal_strlit("colorlab");
        reveal_strlit("preview");
        reveal_strlit("preferences");
    }
    if k == 0 {
        let s = String::from_str("effect");
        assert(s@ =~= id_effect());
        s
    } else if k == 1 {
        let s = String::from_str("layers");
        assert(s@ =~= id_layers());
        s
    } else if k == 2 {
        let s = String::from_str("colorlab");
        assert(s@ =~= id_colorlab());
        s
    } else if k == 3 {
        let s = String::from_str("preview");
        assert(s@ =~= id_preview());
        s
    } else {
        let s = String::from_str("preferences");
        assert(s@ =~= id_preferences());
        s
    }
}

// ---------------------------------------------------------------------------
// Types
// ---------------------------------------------------------------------------

/// Which sidebar a docked dockable panel belongs to.
#[derive(Debug, Clone, Copy, PartialEq, Eq, Hash, Structural)]
pub enum DockSide {
    Left,
    Right,
}

impl DockSide {
    /// The other sidebar.
    pub open spec fn opposite_of(self) -> DockSide {
        match self {
            DockSide::Left => DockSide::Right,
            DockSide::Right => DockSide::Left,
        }
    }

    /// The other sidebar.
    #[verifier::when_used_as_spec(opposite_of)]
    pub fn opposite(self) -> (r: Self)
        ensures
            r != self,
            r == self.opposite_of(),
    {
        match self {
            DockSide::Left => DockSide::Right,
            DockSide::Right => DockSide::Left,
        }
    }
}

/// Saved window position and size in screen pixels.
#[derive(Debug, Clone, Copy, PartialEq, Eq, Structural)]
pub struct SavedBounds {
    pub x: i32,
    pub y: i32,
    pub width: u32,
    pub height: u32,
}

/// Complete state for a single panel.
#[derive(Debug, Clone, PartialEq)]
pub struct PanelInfo {
    pub id: String,
    pub docked: bool,
    pub visible: bool,
    pub window_label: Option<String>,
    pub saved_bounds: Option<SavedBounds>,
    /// `Some` iff docked and dockable; always `None` for floating / floating-only.
    pub dock_side: Option<DockSide>,
}

/// Mathematical value of a [`PanelInfo`].
pub struct PanelView {
    pub id: Seq<char>,
    pub docked: bool,
    pub visible: bool,
    pub window_label: Option<Seq<char>>,
    pub saved_bounds: Option<SavedBounds>,
    pub dock_side: Option<DockSide>,
}

pub open spec fn opt_string_view(o: Option<String>) -> Option<Seq<char>> {
    match o {
        Some(s) => Some(s@),
        None => None,
    }
}

impl View for PanelInfo {
    type V = PanelView;

    open spec fn view(&self) -> PanelView {
        PanelView {
            id: self.id@,
            docked: self.docked,
            visible: self.visible,
            window_label: opt_string_view(self.window_label),
            saved_bounds: self.saved_bounds,
            dock_side: self.dock_side,
        }
    }
}

pub open spec fn panels_view(v: Seq<PanelInfo>) -> Seq<PanelView> {
    v.map_values(|p: PanelInfo| p@)
}

fn copy_opt_string(o: &Option<String>) -> (r: Option<String>)
    ensures
        opt_string_view(r) == opt_string_view(*o),
{
    match o {
        Some(s) => Some(s.clone()),
        None => None,
    }
}

impl PanelInfo {
    /// A field-by-field copy.
    pub(crate) fn copy(&self) -> (r: PanelInfo)
        ensures
            r@ == self@,
    {
        PanelInfo {
            id: self.id.clone(),
            docked: self.docked,
            visible: self.visible,
            window_label: copy_opt_string(&self.window_label),
            saved_bounds: self.saved_bounds,
            dock_side: self.dock_side,
        }
    }
}

/// The default state of the `k`-th known panel: docked, visible, on its
/// default side, with no window and no saved bounds.
pub open spec fn default_panel(k: int) -> PanelView {
    PanelView {
        id: known_id(k),
        docked: true,
        visible: true,
        window_label: None,
        saved_bounds: None,
        dock_side: default_side(k),
    }
}

fn default_panel_info(k: usize) -> (p: PanelInfo)
    requires
        k < 5,
    ensures
        p@ == default_panel(k as int),
{
    let side = if k == 1 {
        Some(DockSide::Left)
    } else if k == 0 || k == 2 {
        Some(DockSide::Right)
    } else {
        None
    };
    PanelInfo {
        id: known_id_string(k),
        docked: true,
        visible: true,
        window_label: None,
        saved_bounds: None,
        dock_side: side,
    }
}


// ---------------------------------------------------------------------------
// Side orders
// ---------------------------------------------------------------------------

/// No identifier occurs twice.
pub open spec fn no_dup(s: Seq<Seq<char>>) -> bool {
    forall|i: int, j: int| 0 <= i < j < s.len() ==> s[i] != s[j]
}

/// `s` with every occurrence of `id` removed, other members keeping their order.
pub open spec fn without_id(s: Seq<Seq<char>>, id: Seq<char>) -> Seq<Seq<char>> {
    s.filter(|x: Seq<char>| x != id)
}

/// `x` is a dockable panel that is docked on `side` according to `panels`.
pub open spec fn member_ok(panels: Seq<PanelView>, x: Seq<char>, side: DockSide) -> bool {
    &&& is_dockable(x)
    &&& panels[known_index(x)].docked
    &&& panels[known_index(x)].dock_side == Some(side)
}

/// The dual side orders agree with the panel states: only docked dockable
/// panels appear, each exactly once over both sides, on the side its
/// `dock_side` names; and every docked dockable panel appears.
pub open spec fn side_orders_valid(
    left: Seq<Seq<char>>,
    right: Seq<Seq<char>>,
    panels: Seq<PanelView>,
) -> bool {
    &&& no_dup(left)
    &&& no_dup(right)
    &&& forall|i: int| 0 <= i < left.len() ==> !right.contains(#[trigger] left[i])
    &&& forall|i: int| 0 <= i < left.len() ==> member_ok(panels, #[trigger] left[i], DockSide::Left)
    &&& forall|i: int|
        0 <= i < right.len() ==> member_ok(panels, #[trigger] right[i], DockSide::Right)
    &&& forall|k: int|
        0 <= k < 3 ==> (#[trigger] panels[k].docked <==> (left.contains(known_id(k))
            || right.contains(known_id(k))))
}

/// A panel's `dock_side` is consistent with its kind and docked flag.
pub open spec fn panel_sides_ok(p: PanelView) -> bool {
    &&& is_floating_only(p.id) ==> p.dock_side is None
    &&& !p.docked ==> p.dock_side is None
    &&& (p.docked && is_dockable(p.id)) ==> p.dock_side is Some
}

/// The panel table holds exactly the known panels, in the known order.
pub open spec fn panels_indexed(panels: Seq<PanelView>) -> bool {
    &&& panels.len() == 5
    &&& forall|k: int| 0 <= k < 5 ==> (#[trigger] panels[k]).id == known_id(k)
}

// ---------------------------------------------------------------------------
// Panel manager
// ---------------------------------------------------------------------------

/// Errors that can occur in panel operations.
#[derive(Debug)]
pub enum PanelError {
    UnknownPanel(String),
    WindowCreationFailed(String),
    InvalidOrder(String),
    FloatingOnly(String),
    NotDocked(String),
}

/// Result of an undock operation, providing info to create the window.
#[derive(Debug)]
pub struct UndockResult {
    pub window_label: String,
    pub url: String,
    pub bounds: Option<SavedBounds>,
    pub already_floating: bool,
    /// Side the panel was on before undock (for revert on window-create failure).
    pub previous_dock_side: Option<DockSide>,
}

/// Serialized output from PanelManager (dual-sidebar snapshot).
#[derive(Debug, Clone)]
pub struct SerializedPanelState {
    pub panels: Vec<PanelInfo>,
    pub left_order: Vec<String>,
    pub right_order: Vec<String>,
}

/// The panel manager holding state for all panels.
pub struct PanelManager {
    /// One entry per known panel, in the known order.
    panels: Vec<PanelInfo>,
    left_order: Vec<String>,
    right_order: Vec<String>,
    /// Last dock side per known panel (survives undock).
    last_dock_sides: Vec<Option<DockSide>>,
}

/// Mathematical value of a [`PanelManager`].
pub struct PanelManagerView {
    /// Panel states, indexed like [`known_id`].
    pub panels: Seq<PanelView>,
    pub left: Seq<Seq<char>>,
    pub right: Seq<Seq<char>>,
    /// Remembered dock side per known panel.
    pub remembered: Seq<Option<DockSide>>,
}

impl View for PanelManager {
    type V = PanelManagerView;

    closed spec fn view(&self) -> PanelManagerView {
        PanelManagerView {
            panels: panels_view(self.panels@),
            left: strings_view(self.left_order@),
            right: strings_view(self.right_order@),
            remembered: self.last_dock_sides@,
        }
    }
}

impl PanelManagerView {
    /// The model invariants: the table holds the known panels; dock sides
    /// agree with panel kinds; the side orders are valid.
    pub open spec fn wf(self) -> bool {
        &&& panels_indexed(self.panels)
        &&& self.remembered.len() == 5
        &&& forall|k: int| 0 <= k < 5 ==> panel_sides_ok(#[trigger] self.panels[k])
        &&& forall|k: int|
            0 <= k < 5 && (#[trigger] self.panels[k]).dock_side is Some ==> self.remembered[k]
                == self.panels[k].dock_side
        &&& side_orders_valid(self.left, self.right, self.panels)
    }

    /// The side order for `side`.
    pub open spec fn order(self, side: DockSide) -> Seq<Seq<char>> {
        match side {
            DockSide::Left => self.left,
            DockSide::Right => self.right,
        }
    }
}

/// The default dual layout: every panel docked and visible; `layers` on the
/// left, `effect` and `colorlab` on the right.
pub open spec fn default_manager() -> PanelManagerView {
    PanelManagerView {
        panels: Seq::new(5, |k: int| default_panel(k)),
        left: seq![id_layers()],
        right: seq![id_effect(), id_colorlab()],
        remembered: Seq::new(5, |k: int| default_side(k)),
    }
}

impl PanelManager {
    /// Initialize with the default dual layout:
    /// `layers` → left; `effect`, `colorlab` → right; floating-only omitted from both.
    pub fn new() -> (r: Self)
        ensures
            r@ == default_manager(),
            r@.wf(),
    {
        let mut panels: Vec<PanelInfo> = Vec::new();
        let mut k: usize = 0;
        while k < 5
            invariant
                k <= 5,
                panels.len() == k,
                forall|j: int| 0 <= j < k ==> (#[trigger] panels@[j])@ == default_panel(j),
            decreases 5 - k,
        {
            panels.push(default_panel_info(k));
            k = k + 1;
        }
        let left_order = vec![known_id_string(1)];
        let right_order = vec![known_id_string(0), known_id_string(2)];
        let last_dock_sides = vec![
            Some(DockSide::Right),
            Some(DockSide::Left),
            Some(DockSide::Right),
            None,
            None,
        ];
        let r = PanelManager { panels, left_order, right_order, last_dock_sides };
        proof {
            lemma_known_ids();
            assert(r@.panels =~= default_manager().panels);
            assert(r@.left =~= default_manager().left);
            assert(r@.right =~= default_manager().right);
            assert(r@.remembered =~= default_manager().remembered);
            assert(r@.left[0] == known_id(1));
            assert(r@.right[0] == known_id(0));
            assert(r@.right[1] == known_id(2));
            assert(r@.left.contains(known_id(1)));
            assert(r@.right.contains(known_id(0)));
            assert(r@.right.contains(known_id(2)));
        }
        r
    }
}


impl PanelManagerView {
    /// The same state with the `k`-th panel replaced by `p`.
    pub open spec fn with_panel(self, k: int, p: PanelView) -> PanelManagerView {
        PanelManagerView {
            panels: self.panels.update(k, p),
            left: self.left,
            right: self.right,
            remembered: self.remembered,
        }
    }

    /// Side used by `dock_panel` without an explicit side: the remembered side,
    /// else the panel's current side, else right.
    pub open spec fn remembered_side(self, id: Seq<char>) -> DockSide {
        let k = known_index(id);
        if k < 0 {
            DockSide::Right
        } else {
            match self.remembered[k] {
                Some(s) => s,
                None => match self.panels[k].dock_side {
                    Some(s) => s,
                    None => DockSide::Right,
                },
            }
        }
    }
}

/// `e` reports `id` as an unknown panel.
pub open spec fn is_unknown_panel_err(e: PanelError, id: Seq<char>) -> bool {
    e matches PanelError::UnknownPanel(s) && s@ == id
}

pub open spec fn set_visible(p: PanelView, v: bool) -> PanelView {
    PanelView { visible: v, ..p }
}

impl PanelManager {
    fn copy_panels(&self) -> (r: Vec<PanelInfo>)
        ensures
            panels_view(r@) == panels_view(self.panels@),
    {
        let mut r: Vec<PanelInfo> = Vec::new();
        let mut i: usize = 0;
        while i < self.panels.len()
            invariant
                i <= self.panels.len(),
                r.len() == i,
                forall|j: int| 0 <= j < i ==> (#[trigger] r@[j])@ == self.panels@[j]@,
            decreases self.panels.len() - i,
        {
            r.push(self.panels[i].copy());
            i = i + 1;
        }
        assert(panels_view(r@) =~= panels_view(self.panels@));
        r
    }

    /// Side to use for `dock_panel` without an explicit side: last remembered, else right.
    pub fn remembered_dock_side(&self, id: &str) -> (r: DockSide)
        requires
            self@.wf(),
        ensures
            r == self@.remembered_side(id@),
    {
        match panel_index(id) {
            None => DockSide::Right,
            Some(k) => match self.last_dock_sides[k] {
                Some(s) => s,
                None => match self.panels[k].dock_side {
                    Some(s) => s,
                    None => DockSide::Right,
                },
            },
        }
    }

    /// Validate that a panel ID is in the known set.
    pub fn validate_panel_id(&self, id: &str) -> (r: Result<(), PanelError>)
        ensures
            r is Ok <==> is_known(id@),
            r matches Err(e) ==> is_unknown_panel_err(e, id@),
    {
        match panel_index(id) {
            Some(_) => Ok(()),
            None => Err(PanelError::UnknownPanel(String::from_str(id))),
        }
    }

    /// Get a snapshot of all panel states (stable known-panel order).
    pub fn get_state(&self) -> (r: Vec<PanelInfo>)
        requires
            self@.wf(),
        ensures
            panels_view(r@) == self@.panels,
    {
        self.copy_panels()
    }

    pub fn get_left_order(&self) -> (r: &[String])
        ensures
            strings_view(r@) == self@.left,
    {
        self.left_order.as_slice()
    }

    pub fn get_right_order(&self) -> (r: &[String])
        ensures
            strings_view(r@) == self@.right,
    {
        self.right_order.as_slice()
    }

    /// Get state snapshot including both side orders.
    pub fn get_state_with_orders(&self) -> (r: (Vec<PanelInfo>, Vec<String>, Vec<String>))
        requires
            self@.wf(),
        ensures
            panels_view(r.0@) == self@.panels,
            strings_view(r.1@) == self@.left,
            strings_view(r.2@) == self@.right,
    {
        let left = self.left_order.clone();
        let right = self.right_order.clone();
        proof {
            assert(strings_view(left@) =~= strings_view(self.left_order@));
            assert(strings_view(right@) =~= strings_view(self.right_order@));
        }
        (self.copy_panels(), left, right)
    }

    /// Serialize panel state for disk / event payloads.
    pub fn serialize(&self) -> (r: SerializedPanelState)
        requires
            self@.wf(),
        ensures
            panels_view(r.panels@) == self@.panels,
            strings_view(r.left_order@) == self@.left,
            strings_view(r.right_order@) == self@.right,
    {
        let (panels, left_order, right_order) = self.get_state_with_orders();
        SerializedPanelState { panels, left_order, right_order }
    }

    /// Hide a panel: sets visible=false. Keeps dock_side and order membership.
    /// Returns whether the panel was visible before.
    pub fn hide_panel(&mut self, id: &str) -> (r: Result<bool, PanelError>)
        requires
            old(self)@.wf(),
        ensures
            final(self)@.wf(),
            r is Ok <==> is_known(id@),
            r matches Err(e) ==> is_unknown_panel_err(e, id@) && final(self)@ == old(self)@,
            r matches Ok(changed) ==> {
                let k = known_index(id@);
                &&& changed == old(self)@.panels[k].visible
                &&& final(self)@ == old(self)@.with_panel(k, set_visible(old(self)@.panels[k], false))
            },
    {
        match panel_index(id) {
            None => Err(PanelError::UnknownPanel(String::from_str(id))),
            Some(k) => {
                let was = self.panels[k].visible;
                if !was {
                    proof {
                        assert(old(self)@.panels[k as int] == set_visible(old(self)@.panels[k as int], false));
                        assert(old(self)@.panels.update(k as int, old(self)@.panels[k as int]) =~= old(self)@.panels);
                    }
                    return Ok(false);
                }
                let mut p = self.panels[k].copy();
                p.visible = false;
                self.panels.set(k, p);
                proof {
                    assert(self@.panels =~= old(self)@.panels.update(k as int, set_visible(old(self)@.panels[k as int], false)));
                    assert forall|kk: int| 0 <= kk < 3 implies (#[trigger] self@.panels[kk].docked
                        <==> (self@.left.contains(known_id(kk)) || self@.right.contains(known_id(kk)))) by {
                        assert(old(self)@.panels[kk].docked == self@.panels[kk].docked);
                    }
                }
                Ok(true)
            },
        }
    }
}


// ---------------------------------------------------------------------------
// Facts about side orders
// ---------------------------------------------------------------------------

pub proof fn lemma_known_index_inverse(x: Seq<char>)
    requires
        is_known(x),
    ensures
        known_id(known_index(x)) == x,
        0 <= known_index(x) < 5,
{
}

proof fn lemma_without_contains(s: Seq<Seq<char>>, id: Seq<char>, x: Seq<char>)
    ensures
        without_id(s, id).contains(x) <==> (s.contains(x) && x != id),
    decreases s.len(),
{
    reveal(Seq::filter);
    if s.len() > 0 {
        lemma_without_contains(s.drop_last(), id, x);
        let r = without_id(s.drop_last(), id);
        assert(without_id(s, id) == if s.last() != id { r.push(s.last()) } else { r });
        if s.contains(x) {
            let i = choose|i: int| 0 <= i < s.len() && s[i] == x;
            if i < s.len() - 1 {
                assert(s.drop_last()[i] == x);
            }
        }
        if s.drop_last().contains(x) {
            let i = choose|i: int| 0 <= i < s.drop_last().len() && s.drop_last()[i] == x;
            assert(s[i] == x);
        }
        if r.contains(x) {
            let i = choose|i: int| 0 <= i < r.len() && r[i] == x;
            assert(r.push(s.last())[i] == x);
        }
        if s.last() != id {
            if r.push(s.last()).contains(x) {
                let i = choose|i: int| 0 <= i < r.push(s.last()).len() && r.push(s.last())[i] == x;
                if i < r.len() {
                    assert(r[i] == x);
                }
            }
            assert(r.push(s.last())[r.len() as int] == s.last());
        }
    }
}

proof fn lemma_without_no_dup(s: Seq<Seq<char>>, id: Seq<char>)
    requires
        no_dup(s),
    ensures
        no_dup(without_id(s, id)),
    decreases s.len(),
{
    reveal(Seq::filter);
    if s.len() > 0 {
        assert(no_dup(s.drop_last()));
        lemma_without_no_dup(s.drop_last(), id);
        let r = without_id(s.drop_last(), id);
        if s.last() != id {
            lemma_without_contains(s.drop_last(), id, s.last());
            assert(!s.drop_last().contains(s.last())) by {
                if s.drop_last().contains(s.last()) {
                    let i = choose|i: int| 0 <= i < s.drop_last().len() && s.drop_last()[i] == s.last();
                    assert(s[i] == s[s.len() - 1]);
                }
            }
            assert forall|i: int, j: int| 0 <= i < j < r.push(s.last()).len() implies
                r.push(s.last())[i] != r.push(s.last())[j] by {
                if j == r.len() {
                    assert(r.contains(r[i]));
                }
            }
        }
    }
}

proof fn lemma_without_absent(s: Seq<Seq<char>>, id: Seq<char>)
    requires
        !s.contains(id),
    ensures
        without_id(s, id) == s,
    decreases s.len(),
{
    reveal(Seq::filter);
    if s.len() > 0 {
        assert(!s.drop_last().contains(id)) by {
            if s.drop_last().contains(id) {
                let i = choose|i: int| 0 <= i < s.drop_last().len() && s.drop_last()[i] == id;
                assert(s[i] == id);
            }
        }
        lemma_without_absent(s.drop_last(), id);
        assert(s.last() != id) by {
            assert(s[s.len() - 1] == s.last());
        }
        assert(s.drop_last().push(s.last()) =~= s);
    }
}

/// Orders valid for every panel but `k`, which appears in neither order.
pub open spec fn orders_ok_except(
    left: Seq<Seq<char>>,
    right: Seq<Seq<char>>,
    panels: Seq<PanelView>,
    k: int,
) -> bool {
    &&& no_dup(left)
    &&& no_dup(right)
    &&& forall|i: int| 0 <= i < left.len() ==> !right.contains(#[trigger] left[i])
    &&& forall|i: int|
        0 <= i < left.len() ==> member_ok(panels, #[trigger] left[i], DockSide::Left) && left[i]
            != known_id(k)
    &&& forall|i: int|
        0 <= i < right.len() ==> member_ok(panels, #[trigger] right[i], DockSide::Right)
            && right[i] != known_id(k)
    &&& forall|j: int|
        0 <= j < 3 && j != k ==> (#[trigger] panels[j].docked <==> (left.contains(known_id(j))
            || right.contains(known_id(j))))
}

proof fn lemma_remove_ok(v: PanelManagerView, k: int)
    requires
        v.wf(),
        0 <= k < 5,
    ensures
        orders_ok_except(
            without_id(v.left, known_id(k)),
            without_id(v.right, known_id(k)),
            v.panels,
            k,
        ),
{
    let id = known_id(k);
    let l = without_id(v.left, id);
    let r = without_id(v.right, id);
    lemma_without_no_dup(v.left, id);
    lemma_without_no_dup(v.right, id);
    assert forall|i: int| 0 <= i < l.len() implies !r.contains(#[trigger] l[i])
        && member_ok(v.panels, l[i], DockSide::Left) && l[i] != id by {
        assert(l.contains(l[i]));
        lemma_without_contains(v.left, id, l[i]);
        lemma_without_contains(v.right, id, l[i]);
        let j = choose|j: int| 0 <= j < v.left.len() && v.left[j] == l[i];
        assert(member_ok(v.panels, v.left[j], DockSide::Left));
    }
    assert forall|i: int| 0 <= i < r.len() implies member_ok(v.panels, #[trigger] r[i], DockSide::Right)
        && r[i] != id by {
        assert(r.contains(r[i]));
        lemma_without_contains(v.right, id, r[i]);
        let j = choose|j: int| 0 <= j < v.right.len() && v.right[j] == r[i];
        assert(member_ok(v.panels, v.right[j], DockSide::Right));
    }
    assert forall|j: int| 0 <= j < 3 && j != k implies (#[trigger] v.panels[j].docked <==> (
    l.contains(known_id(j)) || r.contains(known_id(j)))) by {
        lemma_known_ids();
        lemma_without_contains(v.left, id, known_id(j));
        lemma_without_contains(v.right, id, known_id(j));
    }
}

/// Changing panel `k` keeps the orders valid for the other panels.
proof fn lemma_except_panel_change(
    left: Seq<Seq<char>>,
    right: Seq<Seq<char>>,
    panels: Seq<PanelView>,
    k: int,
    p: PanelView,
)
    requires
        orders_ok_except(left, right, panels, k),
        panels_indexed(panels),
        0 <= k < 5,
    ensures
        orders_ok_except(left, right, panels.update(k, p), k),
{
    let np = panels.update(k, p);
    assert forall|i: int| 0 <= i < left.len() implies member_ok(np, #[trigger] left[i], DockSide::Left)
        && left[i] != known_id(k) by {
        assert(member_ok(panels, left[i], DockSide::Left));
        lemma_known_index_inverse(left[i]);
    }
    assert forall|i: int| 0 <= i < right.len() implies member_ok(np, #[trigger] right[i], DockSide::Right)
        && right[i] != known_id(k) by {
        assert(member_ok(panels, right[i], DockSide::Right));
        lemma_known_index_inverse(right[i]);
    }
    assert forall|j: int| 0 <= j < 3 && j != k implies (#[trigger] np[j].docked <==> (
    left.contains(known_id(j)) || right.contains(known_id(j)))) by {
        assert(np[j] == panels[j]);
    }
}

/// An undocked panel `k` outside both orders leaves the orders valid.
proof fn lemma_except_undocked(
    left: Seq<Seq<char>>,
    right: Seq<Seq<char>>,
    panels: Seq<PanelView>,
    k: int,
)
    requires
        orders_ok_except(left, right, panels, k),
        0 <= k < 5,
        !panels[k].docked,
    ensures
        side_orders_valid(left, right, panels),
{
    assert forall|j: int| 0 <= j < 3 implies (#[trigger] panels[j].docked <==> (left.contains(
        known_id(j)) || right.contains(known_id(j)))) by {
        if j == k {
            if left.contains(known_id(j)) {
                let i = choose|i: int| 0 <= i < left.len() && left[i] == known_id(j);
            }
            if right.contains(known_id(j)) {
                let i = choose|i: int| 0 <= i < right.len() && right[i] == known_id(j);
            }
        }
    }
}

/// Inserting panel `k` (docked on `side`) into that side's order restores validity.
proof fn lemma_except_insert(
    left: Seq<Seq<char>>,
    right: Seq<Seq<char>>,
    panels: Seq<PanelView>,
    k: int,
    side: DockSide,
    pos: int,
)
    requires
        orders_ok_except(left, right, panels, k),
        panels_indexed(panels),
        0 <= k < 3,
        panels[k].docked,
        panels[k].dock_side == Some(side),
        side == DockSide::Left ==> 0 <= pos <= left.len(),
        side == DockSide::Right ==> 0 <= pos <= right.len(),
    ensures
        side == DockSide::Left ==> side_orders_valid(left.insert(pos, known_id(k)), right, panels),
        side == DockSide::Right ==> side_orders_valid(left, right.insert(pos, known_id(k)), panels),
{
    lemma_known_ids();
    let id = known_id(k);
    assert(!left.contains(id)) by {
        if left.contains(id) {
            let i = choose|i: int| 0 <= i < left.len() && left[i] == id;
        }
    }
    assert(!right.contains(id)) by {
        if right.contains(id) {
            let i = choose|i: int| 0 <= i < right.len() && right[i] == id;
        }
    }
    assert(member_ok(panels, id, side));
    if side == DockSide::Left {
        let nl = left.insert(pos, id);
        assert forall|x: Seq<char>| nl.contains(x) <==> (left.contains(x) || x == id) by {
            if nl.contains(x) {
                let i = choose|i: int| 0 <= i < nl.len() && nl[i] == x;
                if i < pos {
                    assert(left[i] == x);
                } else if i > pos {
                    assert(left[i - 1] == x);
                }
            }
            if left.contains(x) {
                let i = choose|i: int| 0 <= i < left.len() && left[i] == x;
                if i < pos {
                    assert(nl[i] == x);
                } else {
                    assert(nl[i + 1] == x);
                }
            }
            if x == id {
                assert(nl[pos] == x);
            }
        }
        assert forall|i: int, j: int| 0 <= i < j < nl.len() implies nl[i] != nl[j] by {
            if i < pos && j < pos {
            } else if i < pos && j == pos {
                assert(left.contains(left[i]));
            } else if i < pos {
                assert(nl[j] == left[j - 1]);
            } else if i == pos {
                assert(left.contains(left[j - 1]));
            } else {
                assert(nl[i] == left[i - 1]);
                assert(nl[j] == left[j - 1]);
            }
        }
        assert forall|i: int| 0 <= i < nl.len() implies !right.contains(#[trigger] nl[i])
            && member_ok(panels, nl[i], DockSide::Left) by {
            if i < pos {
                assert(nl[i] == left[i]);
            } else if i > pos {
                assert(nl[i] == left[i - 1]);
            }
        }
        assert forall|j: int| 0 <= j < 3 implies (#[trigger] panels[j].docked <==> (nl.contains(
            known_id(j)) || right.contains(known_id(j)))) by {
            assert(nl.contains(known_id(j)) <==> (left.contains(known_id(j)) || known_id(j) == id));
        }
    } else {
        let nr = right.insert(pos, id);
        assert forall|x: Seq<char>| nr.contains(x) <==> (right.contains(x) || x == id) by {
            if nr.contains(x) {
                let i = choose|i: int| 0 <= i < nr.len() && nr[i] == x;
                if i < pos {
                    assert(right[i] == x);
                } else if i > pos {
                    assert(right[i - 1] == x);
                }
            }
            if right.contains(x) {
                let i = choose|i: int| 0 <= i < right.len() && right[i] == x;
                if i < pos {
                    assert(nr[i] == x);
                } else {
                    assert(nr[i + 1] == x);
                }
            }
            if x == id {
                assert(nr[pos] == x);
            }
        }
        assert forall|i: int, j: int| 0 <= i < j < nr.len() implies nr[i] != nr[j] by {
            if i < pos && j < pos {
            } else if i < pos && j == pos {
                assert(right.contains(right[i]));
            } else if i < pos {
                assert(nr[j] == right[j - 1]);
            } else if i == pos {
                assert(right.contains(right[j - 1]));
            } else {
                assert(nr[i] == right[i - 1]);
                assert(nr[j] == right[j - 1]);
            }
        }
        assert forall|i: int| 0 <= i < left.len() implies !nr.contains(#[trigger] left[i]) by {
        }
        assert forall|i: int| 0 <= i < nr.len() implies member_ok(panels, #[trigger] nr[i], DockSide::Right) by {
            if i < pos {
                assert(nr[i] == right[i]);
            } else if i > pos {
                assert(nr[i] == right[i - 1]);
            }
        }
        assert forall|j: int| 0 <= j < 3 implies (#[trigger] panels[j].docked <==> (left.contains(
            known_id(j)) || nr.contains(known_id(j)))) by {
            assert(nr.contains(known_id(j)) <==> (right.contains(known_id(j)) || known_id(j) == id));
        }
    }
}


// ---------------------------------------------------------------------------
// Placement within a side order
// ---------------------------------------------------------------------------

/// `x` names a known panel that is docked and visible.
pub open spec fn docked_visible(panels: Seq<PanelView>, x: Seq<char>) -> bool {
    &&& is_known(x)
    &&& panels[known_index(x)].docked
    &&& panels[known_index(x)].visible
}

/// Number of docked+visible members of `s`.
pub open spec fn count_visible(s: Seq<Seq<char>>, panels: Seq<PanelView>) -> nat
    decreases s.len(),
{
    if s.len() == 0 {
        0
    } else {
        count_visible(s.drop_last(), panels) + if docked_visible(panels, s.last()) {
            1nat
        } else {
            0nat
        }
    }
}

/// Position in `s` of its `n`-th (from 0) docked+visible member,
/// meaningful when `n < count_visible(s, panels)`.
pub open spec fn nth_visible_pos(s: Seq<Seq<char>>, panels: Seq<PanelView>, n: int) -> int
    decreases s.len(),
{
    if s.len() == 0 {
        0
    } else if n < count_visible(s.drop_last(), panels) {
        nth_visible_pos(s.drop_last(), panels, n)
    } else {
        s.len() - 1
    }
}

/// Position just after the last docked+visible member of `s` (0 when none).
pub open spec fn after_last_visible_pos(s: Seq<Seq<char>>, panels: Seq<PanelView>) -> int
    decreases s.len(),
{
    if s.len() == 0 {
        0
    } else if docked_visible(panels, s.last()) {
        s.len() as int
    } else {
        after_last_visible_pos(s.drop_last(), panels)
    }
}

/// Where a panel dropped at `idx` among the docked+visible members of `s`
/// lands: before the `idx`-th such member; past the last one, just after the
/// last such member; at the end when there is none.
pub open spec fn visible_insert_pos(s: Seq<Seq<char>>, panels: Seq<PanelView>, idx: int) -> int {
    if idx < count_visible(s, panels) {
        nth_visible_pos(s, panels, idx)
    } else if count_visible(s, panels) > 0 {
        after_last_visible_pos(s, panels)
    } else {
        s.len() as int
    }
}

proof fn lemma_visible_pos_bounds(s: Seq<Seq<char>>, panels: Seq<PanelView>, n: int)
    ensures
        count_visible(s, panels) <= s.len(),
        0 <= after_last_visible_pos(s, panels) <= s.len(),
        0 <= nth_visible_pos(s, panels, n) <= s.len(),
    decreases s.len(),
{
    if s.len() > 0 {
        lemma_visible_pos_bounds(s.drop_last(), panels, n);
    }
}

/// Counting docked+visible members one by one gives the length of the
/// subsequence a filter on the same condition keeps.
proof fn lemma_count_visible_filter(
    s: Seq<Seq<char>>,
    panels: Seq<PanelView>,
    pred: spec_fn(Seq<char>) -> bool,
)
    requires
        forall|x: Seq<char>| #[trigger] pred(x) == docked_visible(panels, x),
    ensures
        count_visible(s, panels) == s.filter(pred).len(),
    decreases s.len(),
{
    reveal(Seq::filter);
    if s.len() > 0 {
        lemma_count_visible_filter(s.drop_last(), panels, pred);
        assert(pred(s.last()) == docked_visible(panels, s.last()));
    }
}

/// The `n`-th docked+visible member sits at `nth_visible_pos`, with exactly
/// `n` such members before it.
proof fn lemma_nth_visible(s: Seq<Seq<char>>, panels: Seq<PanelView>, n: int)
    requires
        0 <= n < count_visible(s, panels),
    ensures
        0 <= nth_visible_pos(s, panels, n) < s.len(),
        docked_visible(panels, s[nth_visible_pos(s, panels, n)]),
        count_visible(s.take(nth_visible_pos(s, panels, n)), panels) == n,
    decreases s.len(),
{
    let d = s.drop_last();
    if n < count_visible(d, panels) {
        lemma_nth_visible(d, panels, n);
        let q = nth_visible_pos(d, panels, n);
        assert(d.take(q) =~= s.take(q));
        assert(d[q] == s[q]);
    } else {
        assert(s.take(s.len() - 1) =~= d);
    }
}

/// Every docked+visible member lies before `after_last_visible_pos`, and the
/// member just before it is one of them.
proof fn lemma_after_last_visible(s: Seq<Seq<char>>, panels: Seq<PanelView>)
    ensures
        0 <= after_last_visible_pos(s, panels) <= s.len(),
        count_visible(s.take(after_last_visible_pos(s, panels)), panels) == count_visible(s, panels),
        count_visible(s, panels) > 0 ==> 0 < after_last_visible_pos(s, panels)
            && docked_visible(panels, s[after_last_visible_pos(s, panels) - 1]),
    decreases s.len(),
{
    if s.len() == 0 {
        assert(s.take(0) =~= s);
    } else {
        let d = s.drop_last();
        if docked_visible(panels, s.last()) {
            assert(s.take(s.len() as int) =~= s);
        } else {
            lemma_after_last_visible(d, panels);
            let a = after_last_visible_pos(d, panels);
            assert(d.take(a) =~= s.take(a));
            if a > 0 {
                assert(d[a - 1] == s[a - 1]);
            }
        }
    }
}

/// `id` as the label of its floating window: `panel-{id}`.
pub open spec fn window_label_for(id: Seq<char>) -> Seq<char> {
    seq!['p', 'a', 'n', 'e', 'l', '-'] + id
}

/// The page URL of a floating panel: `index.html?panel={id}`.
pub open spec fn panel_url_for(id: Seq<char>) -> Seq<char> {
    seq!['i', 'n', 'd', 'e', 'x', '.', 'h', 't', 'm', 'l', '?', 'p', 'a', 'n', 'e', 'l', '=']
        + id
}

impl PanelManagerView {
    /// `id` removed from both side orders.
    pub open spec fn removed(self, id: Seq<char>) -> PanelManagerView {
        PanelManagerView {
            panels: self.panels,
            left: without_id(self.left, id),
            right: without_id(self.right, id),
            remembered: self.remembered,
        }
    }

    /// `id` inserted at `pos` into the order of `side`.
    pub open spec fn inserted(self, side: DockSide, pos: int, id: Seq<char>) -> PanelManagerView {
        PanelManagerView {
            panels: self.panels,
            left: if side == DockSide::Left {
                self.left.insert(pos, id)
            } else {
                self.left
            },
            right: if side == DockSide::Right {
                self.right.insert(pos, id)
            } else {
                self.right
            },
            remembered: self.remembered,
        }
    }

    /// Panel `k` now on `side`, which is also remembered for it.
    pub open spec fn sided(self, k: int, side: DockSide) -> PanelManagerView {
        PanelManagerView {
            panels: self.panels.update(k, PanelView { dock_side: Some(side), ..self.panels[k] }),
            left: self.left,
            right: self.right,
            remembered: self.remembered.update(k, Some(side)),
        }
    }

    /// Panel `k` moved onto `side` at `idx` among that side's docked+visible panels.
    pub open spec fn placed_visible(self, k: int, side: DockSide, idx: int) -> PanelManagerView {
        let base = self.removed(known_id(k));
        base.inserted(
            side,
            visible_insert_pos(base.order(side), self.panels, idx),
            known_id(k),
        ).sided(k, side)
    }

    /// Panel `k` moved onto `side` at absolute index `idx`, clamped to the order's end.
    pub open spec fn placed_absolute(self, k: int, side: DockSide, idx: int) -> PanelManagerView {
        let base = self.removed(known_id(k));
        let len = base.order(side).len() as int;
        base.inserted(side, if idx < len { idx } else { len }, known_id(k)).sided(k, side)
    }

    /// The state after undocking panel `k`: its side is remembered; a docked
    /// panel becomes floating in window `panel-{id}` and leaves both orders.
    pub open spec fn undocked(self, k: int) -> PanelManagerView {
        let p = self.panels[k];
        let remembered = match p.dock_side {
            Some(s) => self.remembered.update(k, Some(s)),
            None => self.remembered,
        };
        if !p.docked {
            PanelManagerView {
                panels: self.panels,
                left: self.left,
                right: self.right,
                remembered,
            }
        } else {
            PanelManagerView {
                panels: self.panels.update(
                    k,
                    PanelView {
                        docked: false,
                        dock_side: None,
                        window_label: Some(window_label_for(known_id(k))),
                        ..p
                    },
                ),
                left: without_id(self.left, known_id(k)),
                right: without_id(self.right, known_id(k)),
                remembered,
            }
        }
    }
}

fn remove_id(v: &Vec<String>, id: &str) -> (r: Vec<String>)
    ensures
        strings_view(r@) == without_id(strings_view(v@), id@),
{
    let ghost sv = strings_view(v@);
    let mut r: Vec<String> = Vec::new();
    let mut i: usize = 0;
    while i < v.len()
        invariant
            i <= v.len(),
            sv == strings_view(v@),
            strings_view(r@) == without_id(sv.take(i as int), id@),
        decreases v.len() - i,
    {
        proof {
            reveal(Seq::filter);
            assert(sv.take(i + 1).drop_last() =~= sv.take(i as int));
            assert(sv.take(i + 1).last() == v@[i as int]@);
        }
        if !str_eq(v[i].as_str(), id) {
            r.push(v[i].clone());
            proof {
                assert(strings_view(r@) =~= without_id(sv.take(i as int), id@).push(v@[i as int]@));
            }
        }
        i = i + 1;
    }
    assert(sv.take(v.len() as int) =~= sv);
    r
}

impl PanelManager {
    fn remove_from_orders(&mut self, k: usize)
        requires
            k < 5,
        ensures
            final(self)@ == old(self)@.removed(known_id(k as int)),
    {
        let id = known_id_string(k);
        self.left_order = remove_id(&self.left_order, id.as_str());
        self.right_order = remove_id(&self.right_order, id.as_str());
    }

    /// Insert position for a drop at `idx` among the docked+visible members of `order`.
    fn visible_insert_index(&self, order: &Vec<String>, idx: usize) -> (pos: usize)
        requires
            panels_indexed(self@.panels),
        ensures
            pos == visible_insert_pos(strings_view(order@), self@.panels, idx as int),
    {
        let ghost sv = strings_view(order@);
        let ghost panels = self@.panels;
        let mut c: usize = 0;
        let mut found: Option<usize> = None;
        let mut last_end: usize = 0;
        let mut i: usize = 0;
        while i < order.len()
            invariant
                i <= order.len(),
                sv == strings_view(order@),
                panels == self@.panels,
                panels_indexed(panels),
                c <= i,
                c == count_visible(sv.take(i as int), panels),
                last_end == after_last_visible_pos(sv.take(i as int), panels),
                found == (if (idx as int) < (c as int) {
                    Some(nth_visible_pos(sv.take(i as int), panels, idx as int) as usize)
                } else {
                    None::<usize>
                }),
            decreases order.len() - i,
        {
            proof {
                assert(sv.take(i + 1).drop_last() =~= sv.take(i as int));
                assert(sv.take(i + 1).last() == order@[i as int]@);
                lemma_visible_pos_bounds(sv.take(i as int), panels, idx as int);
            }
            let vis = match panel_index(order[i].as_str()) {
                Some(k) => self.panels[k].docked && self.panels[k].visible,
                None => false,
            };
            if vis {
                if c == idx {
                    found = Some(i);
                }
                c = c + 1;
                last_end = i + 1;
            }
            i = i + 1;
        }
        proof {
            assert(sv.take(order.len() as int) =~= sv);
            lemma_visible_pos_bounds(sv, panels, idx as int);
        }
        match found {
            Some(p) => p,
            None => if c > 0 {
                last_end
            } else {
                order.len()
            },
        }
    }

    fn set_side(&mut self, k: usize, side: DockSide)
        requires
            k < old(self)@.panels.len(),
            k < old(self)@.remembered.len(),
        ensures
            final(self)@ == old(self)@.sided(k as int, side),
    {
        let mut p = self.panels[k].copy();
        p.dock_side = Some(side);
        self.panels.set(k, p);
        self.last_dock_sides.set(k, Some(side));
        proof {
            assert(self@.panels =~= old(self)@.sided(k as int, side).panels);
        }
    }

    fn insert_into(&mut self, side: DockSide, pos: usize, k: usize)
        requires
            k < 5,
            side == DockSide::Left ==> pos <= old(self)@.left.len(),
            side == DockSide::Right ==> pos <= old(self)@.right.len(),
        ensures
            final(self)@ == old(self)@.inserted(side, pos as int, known_id(k as int)),
    {
        let id = known_id_string(k);
        match side {
            DockSide::Left => {
                self.left_order.insert(pos, id);
                proof {
                    assert(self@.left =~= old(self)@.left.insert(pos as int, known_id(k as int)));
                }
            },
            DockSide::Right => {
                self.right_order.insert(pos, id);
                proof {
                    assert(self@.right =~= old(self)@.right.insert(pos as int, known_id(k as int)));
                }
            },
        }
    }

    /// Insert panel `k` into `side` at a position derived from `insert_index`
    /// among currently docked+visible panels on that side (excluding the panel itself).
    fn place_at_visible_index(&mut self, k: usize, side: DockSide, insert_index: usize)
        requires
            k < 5,
            panels_indexed(old(self)@.panels),
            old(self)@.remembered.len() == 5,
        ensures
            final(self)@ == old(self)@.placed_visible(k as int, side, insert_index as int),
    {
        self.remove_from_orders(k);
        let pos = match side {
            DockSide::Left => self.visible_insert_index(&self.left_order, insert_index),
            DockSide::Right => self.visible_insert_index(&self.right_order, insert_index),
        };
        proof {
            lemma_visible_pos_bounds(self@.order(side), self@.panels, insert_index as int);
        }
        self.insert_into(side, pos, k);
        self.set_side(k, side);
    }

    /// Insert panel `k` into `side` by absolute index among all members of that side.
    fn place_at_absolute_index(&mut self, k: usize, side: DockSide, insert_index: usize)
        requires
            k < 5,
            panels_indexed(old(self)@.panels),
            old(self)@.remembered.len() == 5,
        ensures
            final(self)@ == old(self)@.placed_absolute(k as int, side, insert_index as int),
    {
        self.remove_from_orders(k);
        let len = match side {
            DockSide::Left => self.left_order.len(),
            DockSide::Right => self.right_order.len(),
        };
        let pos = if insert_index < len {
            insert_index
        } else {
            len
        };
        self.insert_into(side, pos, k);
        self.set_side(k, side);
    }
}


proof fn lemma_place_wf(v: PanelManagerView, k: int, side: DockSide, pos: int)
    requires
        panels_indexed(v.panels),
        v.remembered.len() == 5,
        0 <= k < 3,
        v.panels[k].docked,
        forall|j: int| 0 <= j < 5 && j != k ==> panel_sides_ok(#[trigger] v.panels[j]),
        forall|j: int|
            0 <= j < 5 && j != k && (#[trigger] v.panels[j]).dock_side is Some ==> v.remembered[j]
                == v.panels[j].dock_side,
        orders_ok_except(
            v.removed(known_id(k)).left,
            v.removed(known_id(k)).right,
            v.panels,
            k,
        ),
        0 <= pos <= v.removed(known_id(k)).order(side).len(),
    ensures
        v.removed(known_id(k)).inserted(side, pos, known_id(k)).sided(k, side).wf(),
{
    lemma_known_ids();
    let id = known_id(k);
    let b = v.removed(id);
    let f = b.inserted(side, pos, id).sided(k, side);
    let np = PanelView { dock_side: Some(side), ..v.panels[k] };
    lemma_except_panel_change(b.left, b.right, v.panels, k, np);
    assert(f.panels == v.panels.update(k, np));
    lemma_except_insert(b.left, b.right, f.panels, k, side, pos);
    assert(panels_indexed(f.panels));
    assert forall|j: int| 0 <= j < 5 implies panel_sides_ok(#[trigger] f.panels[j]) && (f.panels[j].dock_side is Some
        ==> f.remembered[j] == f.panels[j].dock_side) by {
        if j != k {
            assert(f.panels[j] == v.panels[j]);
        }
    }
}

/// Panel `k` marked docked (back in the main window), its window label cleared.
pub open spec fn redocked(p: PanelView) -> PanelView {
    PanelView { window_label: None, docked: true, ..p }
}

impl PanelManager {
    fn set_panel(&mut self, k: usize, p: PanelInfo)
        requires
            k < old(self)@.panels.len(),
        ensures
            final(self)@ == old(self)@.with_panel(k as int, p@),
    {
        self.panels.set(k, p);
        proof {
            assert(self@.panels =~= old(self)@.panels.update(k as int, p@));
        }
    }

    /// Undock a panel: sets docked=false, clears dock_side, removes from both orders.
    pub fn undock(&mut self, id: &str) -> (r: Result<UndockResult, PanelError>)
        requires
            old(self)@.wf(),
        ensures
            final(self)@.wf(),
            r is Ok <==> is_known(id@),
            r matches Err(e) ==> is_unknown_panel_err(e, id@) && final(self)@ == old(self)@,
            r matches Ok(u) ==> {
                let k = known_index(id@);
                let p = old(self)@.panels[k];
                &&& final(self)@ == old(self)@.undocked(k)
                &&& u.already_floating == !p.docked
                &&& u.previous_dock_side == p.dock_side
                &&& u.bounds == p.saved_bounds
                &&& u.url@ == panel_url_for(id@)
                &&& u.window_label@ == (if !p.docked {
                    match p.window_label {
                        Some(l) => l,
                        None => window_label_for(id@),
                    }
                } else {
                    window_label_for(id@)
                })
            },
    {
        let k = match panel_index(id) {
            None => {
                return Err(PanelError::UnknownPanel(String::from_str(id)));
            },
            Some(k) => k,
        };
        proof {
            reveal_strlit("panel-");
            reveal_strlit("index.html?panel=");
            lemma_known_ids();
            lemma_known_index_inverse(id@);
        }
        let ghost old_v = self@;
        let previous_dock_side = self.panels[k].dock_side;
        if let Some(side) = previous_dock_side {
            self.last_dock_sides.set(k, Some(side));
        }
        let url = concat_str("index.html?panel=", id);
        assert(url@ =~= panel_url_for(id@));
        if !self.panels[k].docked {
            let window_label = match &self.panels[k].window_label {
                Some(l) => l.clone(),
                None => concat_str("panel-", id),
            };
            assert(self@ =~= old_v.undocked(k as int));
            return Ok(UndockResult {
                window_label,
                url,
                bounds: self.panels[k].saved_bounds,
                already_floating: true,
                previous_dock_side,
            });
        }
        let window_label = concat_str("panel-", id);
        assert(window_label@ =~= window_label_for(known_id(k as int)));
        let bounds = self.panels[k].saved_bounds;
        let mut p = self.panels[k].copy();
        p.docked = false;
        p.dock_side = None;
        p.window_label = Some(window_label.clone());
        self.set_panel(k, p);
        self.remove_from_orders(k);
        proof {
            assert(self@.panels =~= old_v.undocked(k as int).panels);
            assert(self@.remembered =~= old_v.undocked(k as int).remembered);
            lemma_remove_ok(old_v, k as int);
            let np = self@.panels[k as int];
            lemma_except_panel_change(self@.left, self@.right, old_v.panels, k as int, np);
            lemma_except_undocked(self@.left, self@.right, self@.panels, k as int);
            assert forall|j: int| 0 <= j < 5 implies panel_sides_ok(#[trigger] self@.panels[j]) by {
                if j != k {
                    assert(self@.panels[j] == old_v.panels[j]);
                }
            }
        }
        Ok(UndockResult {
            window_label,
            url,
            bounds,
            already_floating: false,
            previous_dock_side,
        })
    }
}


/// `e` is the error `ensure_dockable` gives for a panel that is not dockable.
pub open spec fn not_dockable_err(e: PanelError, id: Seq<char>) -> bool {
    if !is_known(id) {
        is_unknown_panel_err(e, id)
    } else {
        e matches PanelError::FloatingOnly(s) && s@ == id
    }
}

/// `e` reports that `id` is not docked.
pub open spec fn is_not_docked_err(e: PanelError, id: Seq<char>) -> bool {
    e matches PanelError::NotDocked(s) && s@ == id
}

proof fn lemma_wf_panel_update(v: PanelManagerView, k: int, p: PanelView)
    requires
        v.wf(),
        0 <= k < 5,
        p.id == v.panels[k].id,
        p.docked == v.panels[k].docked,
        p.dock_side == v.panels[k].dock_side,
    ensures
        v.with_panel(k, p).wf(),
{
    let w = v.with_panel(k, p);
    assert forall|i: int| 0 <= i < v.left.len() implies member_ok(w.panels, #[trigger] v.left[i], DockSide::Left) by {
        assert(member_ok(v.panels, v.left[i], DockSide::Left));
    }
    assert forall|i: int| 0 <= i < v.right.len() implies member_ok(w.panels, #[trigger] v.right[i], DockSide::Right) by {
        assert(member_ok(v.panels, v.right[i], DockSide::Right));
    }
    assert forall|j: int| 0 <= j < 3 implies (#[trigger] w.panels[j].docked <==> (w.left.contains(
        known_id(j)) || w.right.contains(known_id(j)))) by {
        assert(v.panels[j].docked == w.panels[j].docked);
    }
    assert forall|j: int| 0 <= j < 5 implies panel_sides_ok(#[trigger] w.panels[j]) by {
        if j != k {
            assert(w.panels[j] == v.panels[j]);
        }
    }
}

impl PanelManager {
    fn ensure_dockable(&self, id: &str) -> (r: Result<usize, PanelError>)
        ensures
            r is Ok <==> is_dockable(id@),
            r matches Ok(k) ==> k == known_index(id@),
            r matches Err(e) ==> not_dockable_err(e, id@),
    {
        match panel_index(id) {
            None => Err(PanelError::UnknownPanel(String::from_str(id))),
            Some(k) => if k >= 3 {
                Err(PanelError::FloatingOnly(String::from_str(id)))
            } else {
                Ok(k)
            },
        }
    }

    /// Show a panel: sets visible=true. Keeps dock_side and order membership.
    /// Returns whether the panel was hidden before.
    pub fn show(&mut self, id: &str) -> (r: Result<bool, PanelError>)
        requires
            old(self)@.wf(),
        ensures
            final(self)@.wf(),
            r is Ok <==> is_known(id@),
            r matches Err(e) ==> is_unknown_panel_err(e, id@) && final(self)@ == old(self)@,
            r matches Ok(changed) ==> {
                let k = known_index(id@);
                &&& changed == !old(self)@.panels[k].visible
                &&& final(self)@ == old(self)@.with_panel(k, set_visible(old(self)@.panels[k], true))
            },
    {
        match panel_index(id) {
            None => Err(PanelError::UnknownPanel(String::from_str(id))),
            Some(k) => {
                let ghost old_v = self@;
                if self.panels[k].visible {
                    proof {
                        assert(old_v.panels.update(k as int, set_visible(old_v.panels[k as int], true)) =~= old_v.panels);
                    }
                    return Ok(false);
                }
                let mut p = self.panels[k].copy();
                p.visible = true;
                self.set_panel(k, p);
                proof {
                    lemma_wf_panel_update(old_v, k as int, p@);
                }
                Ok(true)
            },
        }
    }

    /// Update saved bounds for a panel (called on window move/resize).
    pub fn update_bounds(&mut self, id: &str, bounds: SavedBounds) -> (r: Result<(), PanelError>)
        requires
            old(self)@.wf(),
        ensures
            final(self)@.wf(),
            r is Ok <==> is_known(id@),
            r matches Err(e) ==> is_unknown_panel_err(e, id@) && final(self)@ == old(self)@,
            r is Ok ==> {
                let k = known_index(id@);
                final(self)@ == old(self)@.with_panel(
                    k,
                    PanelView { saved_bounds: Some(bounds), ..old(self)@.panels[k] },
                )
            },
    {
        match panel_index(id) {
            None => Err(PanelError::UnknownPanel(String::from_str(id))),
            Some(k) => {
                let ghost old_v = self@;
                let mut p = self.panels[k].copy();
                p.saved_bounds = Some(bounds);
                self.set_panel(k, p);
                proof {
                    lemma_wf_panel_update(old_v, k as int, p@);
                }
                Ok(())
            },
        }
    }

    /// Dock a panel back to its host.
    ///
    /// Dockable panels: `docked = true`, `dock_side = Some(side)`, insert into that side's order.
    /// Floating-only (`preview`, `preferences`): return to main-window host (`docked = true`,
    /// no sidebar order). Returns the window label to close (if any).
    pub fn dock(&mut self, id: &str, side: DockSide, insert_index: usize) -> (r: Result<
        Option<String>,
        PanelError,
    >)
        requires
            old(self)@.wf(),
        ensures
            final(self)@.wf(),
            r is Ok <==> is_known(id@),
            r matches Err(e) ==> is_unknown_panel_err(e, id@) && final(self)@ == old(self)@,
            r matches Ok(label) ==> {
                let k = known_index(id@);
                let p = old(self)@.panels[k];
                if p.docked {
                    label is None && final(self)@ == old(self)@
                } else {
                    &&& opt_string_view(label) == p.window_label
                    &&& final(self)@ == if is_floating_only(id@) {
                        old(self)@.with_panel(k, PanelView { dock_side: None, ..redocked(p) })
                    } else {
                        old(self)@.with_panel(k, redocked(p)).placed_visible(
                            k,
                            side,
                            insert_index as int,
                        )
                    }
                }
            },
    {
        let k = match panel_index(id) {
            None => {
                return Err(PanelError::UnknownPanel(String::from_str(id)));
            },
            Some(k) => k,
        };
        proof {
            lemma_known_ids();
            lemma_known_index_inverse(id@);
        }
        let ghost old_v = self@;
        if self.panels[k].docked {
            return Ok(None);
        }
        let mut p = self.panels[k].copy();
        let old_label = p.window_label.take();
        p.docked = true;
        if k >= 3 {
            p.dock_side = None;
            self.set_panel(k, p);
            proof {
                assert(p@ == PanelView { dock_side: None, ..redocked(old_v.panels[k as int]) });
                let w = self@;
                assert(!old_v.left.contains(known_id(k as int))) by {
                    if old_v.left.contains(known_id(k as int)) {
                        let i = choose|i: int| 0 <= i < old_v.left.len() && old_v.left[i] == known_id(k as int);
                        assert(member_ok(old_v.panels, old_v.left[i], DockSide::Left));
                    }
                }
                assert forall|i: int| 0 <= i < w.left.len() implies member_ok(w.panels, #[trigger] w.left[i], DockSide::Left) by {
                    assert(member_ok(old_v.panels, old_v.left[i], DockSide::Left));
                }
                assert forall|i: int| 0 <= i < w.right.len() implies member_ok(w.panels, #[trigger] w.right[i], DockSide::Right) by {
                    assert(member_ok(old_v.panels, old_v.right[i], DockSide::Right));
                }
                assert forall|j: int| 0 <= j < 3 implies (#[trigger] w.panels[j].docked <==> (w.left.contains(
                    known_id(j)) || w.right.contains(known_id(j)))) by {
                    assert(old_v.panels[j].docked == w.panels[j].docked);
                }
                assert forall|j: int| 0 <= j < 5 implies panel_sides_ok(#[trigger] w.panels[j]) by {
                    if j != k {
                        assert(w.panels[j] == old_v.panels[j]);
                    }
                }
            }
            return Ok(old_label);
        }
        self.set_panel(k, p);
        let ghost mid = self@;
        proof {
            assert(p@ == redocked(old_v.panels[k as int]));
            lemma_remove_ok(old_v, k as int);
            lemma_except_panel_change(
                old_v.removed(id@).left,
                old_v.removed(id@).right,
                old_v.panels,
                k as int,
                p@,
            );
            assert forall|j: int| 0 <= j < 5 && j != k implies panel_sides_ok(#[trigger] mid.panels[j]) by {
                assert(mid.panels[j] == old_v.panels[j]);
            }
            let base = mid.removed(id@);
            lemma_visible_pos_bounds(base.order(side), mid.panels, insert_index as int);
            lemma_place_wf(
                mid,
                k as int,
                side,
                visible_insert_pos(base.order(side), mid.panels, insert_index as int),
            );
        }
        self.place_at_visible_index(k, side, insert_index);
        Ok(old_label)
    }

    /// Move a docked panel to another side (or same side) at an absolute insert index.
    /// May empty a side (single-stack). Rejects floating / floating-only panels.
    pub fn move_to_side(&mut self, id: &str, side: DockSide, insert_index: usize) -> (r: Result<
        (),
        PanelError,
    >)
        requires
            old(self)@.wf(),
        ensures
            final(self)@.wf(),
            r is Ok <==> is_dockable(id@) && old(self)@.panels[known_index(id@)].docked,
            r matches Err(e) ==> final(self)@ == old(self)@ && if is_dockable(id@) {
                is_not_docked_err(e, id@)
            } else {
                not_dockable_err(e, id@)
            },
            r is Ok ==> final(self)@ == old(self)@.placed_absolute(
                known_index(id@),
                side,
                insert_index as int,
            ),
    {
        let k = match self.ensure_dockable(id) {
            Err(e) => {
                return Err(e);
            },
            Ok(k) => k,
        };
        if !self.panels[k].docked {
            return Err(PanelError::NotDocked(String::from_str(id)));
        }
        proof {
            let v = self@;
            lemma_known_ids();
            lemma_remove_ok(v, k as int);
            let base = v.removed(known_id(k as int));
            let len = base.order(side).len() as int;
            lemma_place_wf(v, k as int, side, if (insert_index as int) < len { insert_index as int } else { len });
        }
        self.place_at_absolute_index(k, side, insert_index);
        Ok(())
    }

    /// Move an already-docked panel to `insert_index` among docked+visible panels on `side`.
    /// Updates `dock_side` and side orders; does not change the `docked` flag.
    pub fn move_to_dock_insert_index(
        &mut self,
        panel_id: &str,
        side: DockSide,
        insert_index: usize,
    ) -> (r: Result<(), PanelError>)
        requires
            old(self)@.wf(),
        ensures
            final(self)@.wf(),
            r is Ok <==> is_dockable(panel_id@) && old(self)@.panels[known_index(panel_id@)].docked,
            r matches Err(e) ==> final(self)@ == old(self)@ && if is_dockable(panel_id@) {
                is_not_docked_err(e, panel_id@)
            } else {
                not_dockable_err(e, panel_id@)
            },
            r is Ok ==> final(self)@ == old(self)@.placed_visible(
                known_index(panel_id@),
                side,
                insert_index as int,
            ),
    {
        let k = match self.ensure_dockable(panel_id) {
            Err(e) => {
                return Err(e);
            },
            Ok(k) => k,
        };
        if !self.panels[k].docked {
            return Err(PanelError::NotDocked(String::from_str(panel_id)));
        }
        proof {
            let v = self@;
            lemma_known_ids();
            lemma_remove_ok(v, k as int);
            let base = v.removed(known_id(k as int));
            lemma_visible_pos_bounds(base.order(side), v.panels, insert_index as int);
            lemma_place_wf(v, k as int, side, visible_insert_pos(base.order(side), v.panels, insert_index as int));
        }
        self.place_at_visible_index(k, side, insert_index);
        Ok(())
    }
}


// ---------------------------------------------------------------------------
// Whole-side operations
// ---------------------------------------------------------------------------

impl PanelManagerView {
    /// Panels named in `ids` put on `side` (and remembered there); others unchanged.
    pub open spec fn all_sided(self, ids: Seq<Seq<char>>, side: DockSide) -> (Seq<PanelView>, Seq<
        Option<DockSide>,
    >) {
        (
            Seq::new(
                5,
                |k: int|
                    if ids.contains(known_id(k)) {
                        PanelView { dock_side: Some(side), ..self.panels[k] }
                    } else {
                        self.panels[k]
                    },
            ),
            Seq::new(
                5,
                |k: int|
                    if ids.contains(known_id(k)) {
                        Some(side)
                    } else {
                        self.remembered[k]
                    },
            ),
        )
    }

    /// All docked panels stacked on `side`: that side's order first, then the
    /// opposite side's; the opposite side left empty.
    pub open spec fn moved_all(self, side: DockSide) -> PanelManagerView {
        let new_order = match side {
            DockSide::Left => self.left + self.right,
            DockSide::Right => self.right + self.left,
        };
        let (panels, remembered) = self.all_sided(new_order, side);
        PanelManagerView {
            panels,
            left: if side == DockSide::Left {
                new_order
            } else {
                Seq::empty()
            },
            right: if side == DockSide::Right {
                new_order
            } else {
                Seq::empty()
            },
            remembered,
        }
    }

    /// Left and right stacks exchanged, dock sides following.
    pub open spec fn swapped(self) -> PanelManagerView {
        let (p1, r1) = self.all_sided(self.right, DockSide::Left);
        let mid = PanelManagerView { panels: p1, left: self.right, right: self.left, remembered: r1 };
        let (p2, r2) = mid.all_sided(self.left, DockSide::Right);
        PanelManagerView { panels: p2, left: self.right, right: self.left, remembered: r2 }
    }
}

impl PanelManager {
    /// Set panel side (and remembered side) for each known panel named in `ids`.
    fn side_all(&mut self, ids: &Vec<String>, side: DockSide)
        requires
            panels_indexed(old(self)@.panels),
            old(self)@.remembered.len() == 5,
        ensures
            (final(self)@.panels, final(self)@.remembered) == old(self)@.all_sided(
                strings_view(ids@),
                side,
            ),
            final(self)@.left == old(self)@.left,
            final(self)@.right == old(self)@.right,
    {
        let ghost sv = strings_view(ids@);
        let ghost old_v = self@;
        let mut i: usize = 0;
        while i < ids.len()
            invariant
                i <= ids.len(),
                sv == strings_view(ids@),
                panels_indexed(old_v.panels),
                old_v.remembered.len() == 5,
                self@.left == old_v.left,
                self@.right == old_v.right,
                (self@.panels, self@.remembered) == old_v.all_sided(sv.take(i as int), side),
            decreases ids.len() - i,
        {
            proof {
                lemma_known_ids();
                let t1 = sv.take(i + 1);
                let t0 = sv.take(i as int);
                assert forall|x: Seq<char>| t1.contains(x) <==> (t0.contains(x)
                    || x == sv[i as int]) by {
                    if t1.contains(x) {
                        let j = choose|j: int| 0 <= j < t1.len() && #[trigger] t1[j] == x;
                        if j < i {
                            assert(t0[j] == x);
                        }
                    }
                    if t0.contains(x) {
                        let j = choose|j: int| 0 <= j < t0.len() && #[trigger] t0[j] == x;
                        assert(t1[j] == x);
                    }
                    if x == sv[i as int] {
                        assert(t1[i as int] == x);
                    }
                }
            }
            match panel_index(ids[i].as_str()) {
                Some(k) => {
                    self.set_side(k, side);
                    proof {
                        lemma_known_index_inverse(sv[i as int]);
                        let want = old_v.all_sided(sv.take(i + 1), side);
                        assert(self@.panels =~= want.0);
                        assert(self@.remembered =~= want.1);
                    }
                },
                None => {
                    proof {
                        let want = old_v.all_sided(sv.take(i + 1), side);
                        assert(self@.panels =~= want.0);
                        assert(self@.remembered =~= want.1);
                    }
                },
            }
            i = i + 1;
        }
        proof {
            assert(sv.take(ids.len() as int) =~= sv);
        }
    }

    /// Move all currently docked dockable panels onto `side`.
    /// Preserves target-side relative order, then appends the opposite side's order.
    /// Floating panels are untouched. The opposite order ends up empty.
    pub fn move_all_to_side(&mut self, side: DockSide) -> (r: Result<(), PanelError>)
        requires
            old(self)@.wf(),
        ensures
            r is Ok,
            final(self)@ == old(self)@.moved_all(side),
            final(self)@.wf(),
    {
        let ghost old_v = self@;
        let mut new_order = match side {
            DockSide::Left => self.left_order.clone(),
            DockSide::Right => self.right_order.clone(),
        };
        let mut append = match side {
            DockSide::Left => self.right_order.clone(),
            DockSide::Right => self.left_order.clone(),
        };
        new_order.append(&mut append);
        let ghost no = strings_view(new_order@);
        proof {
            let expect = match side {
                DockSide::Left => old_v.left + old_v.right,
                DockSide::Right => old_v.right + old_v.left,
            };
            assert(no =~= expect);
        }
        self.left_order = Vec::new();
        self.right_order = Vec::new();
        self.side_all(&new_order, side);
        match side {
            DockSide::Left => {
                self.left_order = new_order;
            },
            DockSide::Right => {
                self.right_order = new_order;
            },
        }
        proof {
            let f = old_v.moved_all(side);
            assert(self@.left =~= f.left);
            assert(self@.right =~= f.right);
            lemma_moved_all_wf(old_v, side);
        }
        Ok(())
    }

    /// Swap left and right docked stacks (orders + dock_side). Floating panels stay put.
    pub fn swap_sides(&mut self)
        requires
            old(self)@.wf(),
        ensures
            final(self)@ == old(self)@.swapped(),
            final(self)@.wf(),
    {
        let ghost old_v = self@;
        let left = self.left_order.clone();
        let right = self.right_order.clone();
        proof {
            assert(strings_view(left@) =~= old_v.left);
            assert(strings_view(right@) =~= old_v.right);
        }
        self.left_order = right;
        self.right_order = left;
        let ids_left = self.left_order.clone();
        proof {
            assert(strings_view(ids_left@) =~= old_v.right);
        }
        self.side_all(&ids_left, DockSide::Left);
        let ids_right = self.right_order.clone();
        proof {
            assert(strings_view(ids_right@) =~= old_v.left);
        }
        self.side_all(&ids_right, DockSide::Right);
        proof {
            lemma_swapped_wf(old_v);
        }
    }
}

proof fn lemma_moved_all_wf(v: PanelManagerView, side: DockSide)
    requires
        v.wf(),
    ensures
        v.moved_all(side).wf(),
{
    lemma_known_ids();
    let f = v.moved_all(side);
    let no = match side {
        DockSide::Left => v.left + v.right,
        DockSide::Right => v.right + v.left,
    };
    assert forall|x: Seq<char>| no.contains(x) <==> (v.left.contains(x) || v.right.contains(x)) by {
        if no.contains(x) {
            let i = choose|i: int| 0 <= i < no.len() && no[i] == x;
            if side == DockSide::Left {
                if i < v.left.len() {
                    assert(v.left[i] == x);
                } else {
                    assert(v.right[i - v.left.len()] == x);
                }
            } else {
                if i < v.right.len() {
                    assert(v.right[i] == x);
                } else {
                    assert(v.left[i - v.right.len()] == x);
                }
            }
        }
        if v.left.contains(x) {
            let i = choose|i: int| 0 <= i < v.left.len() && v.left[i] == x;
            if side == DockSide::Left {
                assert(no[i] == x);
            } else {
                assert(no[i + v.right.len()] == x);
            }
        }
        if v.right.contains(x) {
            let i = choose|i: int| 0 <= i < v.right.len() && v.right[i] == x;
            if side == DockSide::Left {
                assert(no[i + v.left.len()] == x);
            } else {
                assert(no[i] == x);
            }
        }
    }
    assert forall|i: int| 0 <= i < no.len() implies member_ok(f.panels, #[trigger] no[i], side) by {
        assert(no.contains(no[i]));
        if v.left.contains(no[i]) {
            let j = choose|j: int| 0 <= j < v.left.len() && v.left[j] == no[i];
            assert(member_ok(v.panels, v.left[j], DockSide::Left));
        } else {
            let j = choose|j: int| 0 <= j < v.right.len() && v.right[j] == no[i];
            assert(member_ok(v.panels, v.right[j], DockSide::Right));
        }
        lemma_known_index_inverse(no[i]);
    }
    assert forall|i: int, j: int| 0 <= i < j < no.len() implies no[i] != no[j] by {
        if side == DockSide::Left {
            if j < v.left.len() {
            } else if i >= v.left.len() {
                assert(no[i] == v.right[i - v.left.len()]);
                assert(no[j] == v.right[j - v.left.len()]);
            } else {
                assert(no[j] == v.right[j - v.left.len()]);
                assert(v.right.contains(no[j]));
            }
        } else {
            if j < v.right.len() {
            } else if i >= v.right.len() {
                assert(no[i] == v.left[i - v.right.len()]);
                assert(no[j] == v.left[j - v.right.len()]);
            } else {
                assert(no[j] == v.left[j - v.right.len()]);
                assert(v.right.contains(no[i]));
                assert(!v.right.contains(v.left[j - v.right.len()]));
            }
        }
    }
    assert forall|j: int| 0 <= j < 3 implies (#[trigger] f.panels[j].docked <==> (f.left.contains(
        known_id(j)) || f.right.contains(known_id(j)))) by {
        assert(f.panels[j].docked == v.panels[j].docked);
    }
    assert forall|j: int| 0 <= j < 5 implies panel_sides_ok(#[trigger] f.panels[j]) by {
        if no.contains(known_id(j)) {
            if v.left.contains(known_id(j)) {
                let i = choose|i: int| 0 <= i < v.left.len() && v.left[i] == known_id(j);
                assert(member_ok(v.panels, v.left[i], DockSide::Left));
            } else {
                let i = choose|i: int| 0 <= i < v.right.len() && v.right[i] == known_id(j);
                assert(member_ok(v.panels, v.right[i], DockSide::Right));
            }
        }
    }
}

proof fn lemma_swapped_wf(v: PanelManagerView)
    requires
        v.wf(),
    ensures
        v.swapped().wf(),
{
    lemma_known_ids();
    let f = v.swapped();
    assert forall|k: int| 0 <= k < 5 implies (#[trigger] f.panels[k]) == (if v.right.contains(known_id(k)) {
        PanelView { dock_side: Some(DockSide::Left), ..v.panels[k] }
    } else if v.left.contains(known_id(k)) {
        PanelView { dock_side: Some(DockSide::Right), ..v.panels[k] }
    } else {
        v.panels[k]
    }) by {
        if v.right.contains(known_id(k)) {
            let i = choose|i: int| 0 <= i < v.right.len() && v.right[i] == known_id(k);
            if v.left.contains(known_id(k)) {
                let j = choose|j: int| 0 <= j < v.left.len() && v.left[j] == known_id(k);
                assert(!v.right.contains(v.left[j]));
            }
        }
    }
    assert forall|i: int| 0 <= i < f.left.len() implies !f.right.contains(#[trigger] f.left[i]) by {
        if f.right.contains(f.left[i]) {
            let j = choose|j: int| 0 <= j < v.left.len() && v.left[j] == f.left[i];
            assert(!v.right.contains(v.left[j]));
            assert(v.right.contains(v.right[i]));
        }
    }
    assert forall|i: int| 0 <= i < f.left.len() implies member_ok(f.panels, #[trigger] f.left[i], DockSide::Left) by {
        assert(member_ok(v.panels, v.right[i], DockSide::Right));
        lemma_known_index_inverse(v.right[i]);
        assert(v.right.contains(v.right[i]));
    }
    assert forall|i: int| 0 <= i < f.right.len() implies member_ok(f.panels, #[trigger] f.right[i], DockSide::Right) by {
        assert(member_ok(v.panels, v.left[i], DockSide::Left));
        lemma_known_index_inverse(v.left[i]);
        assert(v.left.contains(v.left[i]));
        assert(!v.right.contains(v.left[i]));
    }
    assert forall|j: int| 0 <= j < 5 implies panel_sides_ok(#[trigger] f.panels[j]) by {
        if v.right.contains(known_id(j)) {
            let i = choose|i: int| 0 <= i < v.right.len() && v.right[i] == known_id(j);
            assert(member_ok(v.panels, v.right[i], DockSide::Right));
        } else if v.left.contains(known_id(j)) {
            let i = choose|i: int| 0 <= i < v.left.len() && v.left[i] == known_id(j);
            assert(member_ok(v.panels, v.left[i], DockSide::Left));
        }
    }
}


// ---------------------------------------------------------------------------
// Reordering one side
// ---------------------------------------------------------------------------

/// Entry `i` of a proposed order is a current member not seen earlier in it.
pub open spec fn reorder_entry_ok(current: Seq<Seq<char>>, order: Seq<Seq<char>>, i: int) -> bool {
    &&& current.contains(order[i])
    &&& forall|j: int| 0 <= j < i ==> order[j] != order[i]
}

/// `order` is a permutation of `current`.
pub open spec fn reorder_ok(current: Seq<Seq<char>>, order: Seq<Seq<char>>) -> bool {
    &&& order.len() == current.len()
    &&& forall|i: int| 0 <= i < order.len() ==> reorder_entry_ok(current, order, i)
}

/// `Left` / `Right`, as the side is printed in messages.
pub open spec fn side_name(side: DockSide) -> Seq<char> {
    match side {
        DockSide::Left => seq!['L', 'e', 'f', 't'],
        DockSide::Right => seq!['R', 'i', 'g', 'h', 't'],
    }
}

/// The first entry of `order` that is not a fresh current member.
pub open spec fn first_bad_entry(current: Seq<Seq<char>>, order: Seq<Seq<char>>) -> int {
    choose|i: int|
        0 <= i < order.len() && !reorder_entry_ok(current, order, i) && forall|j: int|
            0 <= j < i ==> reorder_entry_ok(current, order, j)
}

/// `expected {n} panels on {side}, got {m}`.
pub open spec fn length_error_msg(n: nat, m: nat, side: DockSide) -> Seq<char> {
    seq!['e', 'x', 'p', 'e', 'c', 't', 'e', 'd', ' '] + decimal(n) + seq![
        ' ',
        'p',
        'a',
        'n',
        'e',
        'l',
        's',
        ' ',
        'o',
        'n',
        ' ',
    ] + side_name(side) + seq![',', ' ', 'g', 'o', 't', ' '] + decimal(m)
}

/// `panel {id} is not on {side}`.
pub open spec fn not_on_side_msg(id: Seq<char>, side: DockSide) -> Seq<char> {
    seq!['p', 'a', 'n', 'e', 'l', ' '] + id + seq![' ', 'i', 's', ' ', 'n', 'o', 't', ' ', 'o', 'n', ' ']
        + side_name(side)
}

/// `duplicate panel ID: {id}`.
pub open spec fn duplicate_msg(id: Seq<char>) -> Seq<char> {
    seq![
        'd',
        'u',
        'p',
        'l',
        'i',
        'c',
        'a',
        't',
        'e',
        ' ',
        'p',
        'a',
        'n',
        'e',
        'l',
        ' ',
        'I',
        'D',
        ':',
        ' ',
    ] + id
}

/// The message of the `InvalidOrder` error for a rejected reorder.
pub open spec fn reorder_error(current: Seq<Seq<char>>, order: Seq<Seq<char>>, side: DockSide) -> Seq<
    char,
> {
    if order.len() != current.len() {
        length_error_msg(current.len(), order.len(), side)
    } else {
        let i = first_bad_entry(current, order);
        if !current.contains(order[i]) {
            not_on_side_msg(order[i], side)
        } else {
            duplicate_msg(order[i])
        }
    }
}

fn side_str(side: DockSide) -> (r: &'static str)
    ensures
        r@ == side_name(side),
{
    proof {
        reveal_strlit("Left");
        reveal_strlit("Right");
    }
    let r = match side {
        DockSide::Left => "Left",
        DockSide::Right => "Right",
    };
    assert(r@ =~= side_name(side));
    r
}

fn length_error_message(n: usize, m: usize, side: DockSide) -> (r: String)
    ensures
        r@ == length_error_msg(n as nat, m as nat, side),
{
    proof {
        reveal_strlit("expected ");
        reveal_strlit(" panels on ");
        reveal_strlit(", got ");
    }
    let mut msg = concat_str("expected ", decimal_string(n).as_str());
    msg.append(" panels on ");
    msg.append(side_str(side));
    msg.append(", got ");
    msg.append(decimal_string(m).as_str());
    assert(msg@ =~= length_error_msg(n as nat, m as nat, side));
    msg
}

fn not_on_side_message(id: &str, side: DockSide) -> (r: String)
    ensures
        r@ == not_on_side_msg(id@, side),
{
    proof {
        reveal_strlit("panel ");
        reveal_strlit(" is not on ");
    }
    let mut msg = concat_str("panel ", id);
    msg.append(" is not on ");
    msg.append(side_str(side));
    assert(msg@ =~= not_on_side_msg(id@, side));
    msg
}

fn duplicate_message(id: &str) -> (r: String)
    ensures
        r@ == duplicate_msg(id@),
{
    proof {
        reveal_strlit("duplicate panel ID: ");
    }
    let msg = concat_str("duplicate panel ID: ", id);
    assert(msg@ =~= duplicate_msg(id@));
    msg
}

impl PanelManagerView {
    /// The order of `side` replaced by `order`.
    pub open spec fn with_order(self, side: DockSide, order: Seq<Seq<char>>) -> PanelManagerView {
        PanelManagerView {
            panels: self.panels,
            left: if side == DockSide::Left {
                order
            } else {
                self.left
            },
            right: if side == DockSide::Right {
                order
            } else {
                self.right
            },
            remembered: self.remembered,
        }
    }
}

proof fn lemma_permutation_members(current: Seq<Seq<char>>, order: Seq<Seq<char>>)
    requires
        no_dup(current),
        reorder_ok(current, order),
    ensures
        no_dup(order),
        forall|x: Seq<char>| order.contains(x) <==> current.contains(x),
{
    assert(no_dup(order)) by {
        assert forall|i: int, j: int| 0 <= i < j < order.len() implies order[i] != order[j] by {
            assert(reorder_entry_ok(current, order, j));
        }
    }
    assert(order.no_duplicates());
    assert(current.no_duplicates());
    order.unique_seq_to_set();
    current.unique_seq_to_set();
    vstd::seq_lib::seq_to_set_is_finite(order);
    vstd::seq_lib::seq_to_set_is_finite(current);
    assert(order.to_set().subset_of(current.to_set())) by {
        assert forall|x: Seq<char>| order.to_set().contains(x) implies current.to_set().contains(x) by {
            let i = choose|i: int| 0 <= i < order.len() && order[i] == x;
            assert(reorder_entry_ok(current, order, i));
        }
    }
    vstd::set_lib::lemma_subset_equality(order.to_set(), current.to_set());
    assert forall|x: Seq<char>| order.contains(x) <==> current.contains(x) by {
        assert(order.to_set().contains(x) == current.to_set().contains(x));
    }
}

proof fn lemma_reorder_wf(v: PanelManagerView, side: DockSide, order: Seq<Seq<char>>)
    requires
        v.wf(),
        reorder_ok(v.order(side), order),
    ensures
        v.with_order(side, order).wf(),
{
    let f = v.with_order(side, order);
    lemma_permutation_members(v.order(side), order);
    assert forall|i: int| 0 <= i < order.len() implies member_ok(v.panels, #[trigger] order[i], side) by {
        assert(order.contains(order[i]));
        let j = choose|j: int| 0 <= j < v.order(side).len() && v.order(side)[j] == order[i];
        assert(member_ok(v.panels, v.order(side)[j], side));
    }
    assert forall|i: int| 0 <= i < f.left.len() implies !f.right.contains(#[trigger] f.left[i]) by {
        if side == DockSide::Left {
            assert(order.contains(order[i]));
            let j = choose|j: int| 0 <= j < v.left.len() && v.left[j] == order[i];
        } else {
            assert(!v.right.contains(v.left[i]));
        }
    }
}

impl PanelManager {
    fn order_is_valid_permutation(current: &Vec<String>, order: &Vec<String>) -> (r: Option<usize>)
        requires
            current.len() == order.len(),
        ensures
            r is None <==> reorder_ok(strings_view(current@), strings_view(order@)),
            r matches Some(i) ==> i < order.len() && i == first_bad_entry(
                strings_view(current@),
                strings_view(order@),
            ),
    {
        let ghost cv = strings_view(current@);
        let ghost ov = strings_view(order@);
        let mut i: usize = 0;
        while i < order.len()
            invariant
                i <= order.len(),
                current.len() == order.len(),
                cv == strings_view(current@),
                ov == strings_view(order@),
                forall|j: int| 0 <= j < i ==> reorder_entry_ok(cv, ov, j),
            decreases order.len() - i,
        {
            let found = contains_in_prefix(current, current.len(), order[i].as_str());
            let dup = contains_in_prefix(order, i, order[i].as_str());
            proof {
                assert(cv.take(current.len() as int) =~= cv);
                assert(dup == exists|q: int| 0 <= q < i && ov[q] == ov[i as int]) by {
                    if dup {
                        let q = choose|q: int| 0 <= q < i && #[trigger] ov.take(i as int)[q] == ov[i as int];
                        assert(ov[q] == ov[i as int]);
                    }
                    if exists|q: int| 0 <= q < i && ov[q] == ov[i as int] {
                        let q = choose|q: int| 0 <= q < i && ov[q] == ov[i as int];
                        assert(ov.take(i as int)[q] == ov[i as int]);
                    }
                }
            }
            if !found || dup {
                proof {
                    assert(!reorder_entry_ok(cv, ov, i as int));
                    let c = first_bad_entry(cv, ov);
                    assert(0 <= c < ov.len() && !reorder_entry_ok(cv, ov, c) && forall|q: int|
                        0 <= q < c ==> reorder_entry_ok(cv, ov, q));
                    if c < i {
                        assert(reorder_entry_ok(cv, ov, c));
                    }
                    if c > i {
                        assert(reorder_entry_ok(cv, ov, i as int));
                    }
                }
                return Some(i);
            }
            proof {
                assert(reorder_entry_ok(cv, ov, i as int));
            }
            i = i + 1;
        }
        None
    }

    fn reorder_error_message(current: &Vec<String>, order: &Vec<String>, side: DockSide) -> (r: String)
        requires
            !reorder_ok(strings_view(current@), strings_view(order@)),
        ensures
            r@ == reorder_error(strings_view(current@), strings_view(order@), side),
    {
        let ghost cv = strings_view(current@);
        let ghost ov = strings_view(order@);
        if order.len() != current.len() {
            return length_error_message(current.len(), order.len(), side);
        }
        let i = match Self::order_is_valid_permutation(current, order) {
            Some(i) => i,
            None => {
                return String::new();
            },
        };
        let found = contains_in_prefix(current, current.len(), order[i].as_str());
        assert(cv.take(current.len() as int) =~= cv);
        if !found {
            not_on_side_message(order[i].as_str(), side)
        } else {
            duplicate_message(order[i].as_str())
        }
    }

    /// Reorder panels on one side. `order` must be a permutation of that side's
    /// current members only. Empty order is valid when the side is already empty.
    pub fn reorder_side(&mut self, side: DockSide, order: Vec<String>) -> (r: Result<(), PanelError>)
        requires
            old(self)@.wf(),
        ensures
            final(self)@.wf(),
            r is Ok <==> reorder_ok(old(self)@.order(side), strings_view(order@)),
            r is Ok ==> final(self)@ == old(self)@.with_order(side, strings_view(order@)),
            r matches Err(e) ==> final(self)@ == old(self)@ && (e matches PanelError::InvalidOrder(msg)
                && msg@ == reorder_error(old(self)@.order(side), strings_view(order@), side)),
    {
        let ghost ov = strings_view(order@);
        let current = match side {
            DockSide::Left => &self.left_order,
            DockSide::Right => &self.right_order,
        };
        let valid = if order.len() != current.len() {
            false
        } else {
            Self::order_is_valid_permutation(current, &order).is_none()
        };
        if !valid {
            let msg = Self::reorder_error_message(current, &order, side);
            return Err(PanelError::InvalidOrder(msg));
        }
        proof {
            lemma_reorder_wf(self@, side, ov);
        }
        match side {
            DockSide::Left => {
                self.left_order = order;
            },
            DockSide::Right => {
                self.right_order = order;
            },
        }
        Ok(())
    }
}


// ---------------------------------------------------------------------------
// Restoring persisted state
// ---------------------------------------------------------------------------

/// A panel with `dock_side` made consistent with its kind: cleared for
/// floating-only and floating panels; the default side for a docked
/// dockable panel that has none.
pub open spec fn normalized(p: PanelView) -> PanelView {
    if is_floating_only(p.id) || !p.docked {
        PanelView { dock_side: None, ..p }
    } else if p.dock_side is None && is_dockable(p.id) {
        PanelView { dock_side: default_side(known_index(p.id)), ..p }
    } else {
        p
    }
}

/// The last entry of `s` whose id is `id`.
pub open spec fn last_with_id(s: Seq<PanelView>, id: Seq<char>) -> Option<PanelView>
    decreases s.len(),
{
    if s.len() == 0 {
        None
    } else if s.last().id == id {
        Some(s.last())
    } else {
        last_with_id(s.drop_last(), id)
    }
}

/// The panel table built from persisted panels: for each known panel the last
/// persisted entry with its id, normalized, else its default state; entries
/// with unknown ids are ignored.
pub open spec fn merged_panels(input: Seq<PanelView>) -> Seq<PanelView> {
    Seq::new(
        5,
        |k: int|
            match last_with_id(input, known_id(k)) {
                Some(p) => normalized(p),
                None => default_panel(k),
            },
    )
}

/// `[known_id(k)]` when panel `k` is docked on `side`, else empty.
pub open spec fn id_if_on(panels: Seq<PanelView>, k: int, side: DockSide) -> Seq<Seq<char>> {
    if panels[k].docked && panels[k].dock_side == Some(side) {
        seq![known_id(k)]
    } else {
        Seq::empty()
    }
}

/// The order of `side` rebuilt from the panels' own dock sides, in the
/// order `effect, layers, colorlab`.
pub open spec fn rebuilt_order(panels: Seq<PanelView>, side: DockSide) -> Seq<Seq<char>> {
    id_if_on(panels, 0, side) + id_if_on(panels, 1, side) + id_if_on(panels, 2, side)
}

pub open spec fn opt_strings_view(o: Option<Vec<String>>) -> Seq<Seq<char>> {
    match o {
        Some(v) => strings_view(v@),
        None => Seq::empty(),
    }
}

/// The manager restored from persisted panels and side orders: the given
/// orders when they are valid for the merged panels, else orders rebuilt from
/// the panels' dock sides. Each panel's side is remembered.
pub open spec fn persisted_manager(
    input: Seq<PanelView>,
    left: Seq<Seq<char>>,
    right: Seq<Seq<char>>,
) -> PanelManagerView {
    let panels = merged_panels(input);
    let remembered = Seq::new(5, |k: int| panels[k].dock_side);
    if side_orders_valid(left, right, panels) {
        PanelManagerView { panels, left, right, remembered }
    } else {
        PanelManagerView {
            panels,
            left: rebuilt_order(panels, DockSide::Left),
            right: rebuilt_order(panels, DockSide::Right),
            remembered,
        }
    }
}

fn normalize_panel_info(panel: &mut PanelInfo)
    requires
        is_known(old(panel)@.id),
    ensures
        final(panel)@ == normalized(old(panel)@),
{
    let k = match panel_index(panel.id.as_str()) {
        Some(k) => k,
        None => {
            return;
        },
    };
    if k >= 3 {
        panel.dock_side = None;
        return;
    }
    if !panel.docked {
        panel.dock_side = None;
    } else if panel.dock_side.is_none() {
        panel.dock_side = if k == 1 {
            Some(DockSide::Left)
        } else {
            Some(DockSide::Right)
        };
    }
}

proof fn lemma_merged_ok(input: Seq<PanelView>)
    ensures
        panels_indexed(merged_panels(input)),
        forall|k: int| 0 <= k < 5 ==> panel_sides_ok(#[trigger] merged_panels(input)[k]),
{
    lemma_known_ids();
    assert forall|k: int| 0 <= k < 5 implies (#[trigger] merged_panels(input)[k]).id == known_id(k)
        && panel_sides_ok(merged_panels(input)[k]) by {
        lemma_last_with_id(input, known_id(k));
    }
}

proof fn lemma_last_with_id(s: Seq<PanelView>, id: Seq<char>)
    ensures
        last_with_id(s, id) matches Some(p) ==> p.id == id,
    decreases s.len(),
{
    if s.len() > 0 {
        lemma_last_with_id(s.drop_last(), id);
    }
}

proof fn lemma_rebuilt_valid(panels: Seq<PanelView>)
    requires
        panels_indexed(panels),
        forall|k: int| 0 <= k < 5 ==> panel_sides_ok(#[trigger] panels[k]),
    ensures
        side_orders_valid(
            rebuilt_order(panels, DockSide::Left),
            rebuilt_order(panels, DockSide::Right),
            panels,
        ),
{
    lemma_known_ids();
    let l = rebuilt_order(panels, DockSide::Left);
    let r = rebuilt_order(panels, DockSide::Right);
    assert forall|side: DockSide, x: Seq<char>| #[trigger] rebuilt_order(panels, side).contains(x) <==> (
    is_dockable(x) && panels[known_index(x)].docked && panels[known_index(x)].dock_side == Some(side)) by {
        let o = rebuilt_order(panels, side);
        let a = id_if_on(panels, 0, side);
        let b = id_if_on(panels, 1, side);
        let c = id_if_on(panels, 2, side);
        assert(o == a + b + c);
        if o.contains(x) {
            let i = choose|i: int| 0 <= i < o.len() && o[i] == x;
            if i < a.len() {
                assert(a[i] == x);
            } else if i < a.len() + b.len() {
                assert(b[i - a.len()] == x);
            } else {
                assert(c[i - a.len() - b.len()] == x);
            }
        }
        if is_dockable(x) && panels[known_index(x)].docked && panels[known_index(x)].dock_side == Some(side) {
            lemma_known_index_inverse(x);
            let k = known_index(x);
            if k == 0 {
                assert(o[0] == x);
            } else if k == 1 {
                assert(o[a.len() as int] == x);
            } else {
                assert(o[(a.len() + b.len()) as int] == x);
            }
        }
    }
    assert forall|side: DockSide| no_dup(#[trigger] rebuilt_order(panels, side)) by {
        let o = rebuilt_order(panels, side);
        let a = id_if_on(panels, 0, side);
        let b = id_if_on(panels, 1, side);
        let c = id_if_on(panels, 2, side);
        assert(o == a + b + c);
        assert forall|i: int, j: int| 0 <= i < j < o.len() implies o[i] != o[j] by {
            let ki = if i < a.len() { 0int } else if i < a.len() + b.len() { 1int } else { 2int };
            let kj = if j < a.len() { 0int } else if j < a.len() + b.len() { 1int } else { 2int };
            assert(o[i] == known_id(ki));
            assert(o[j] == known_id(kj));
        }
    }
    assert(no_dup(l));
    assert(no_dup(r));
    assert forall|i: int| 0 <= i < l.len() implies !r.contains(#[trigger] l[i]) && member_ok(panels, l[i], DockSide::Left) by {
        assert(l.contains(l[i]));
    }
    assert forall|i: int| 0 <= i < r.len() implies member_ok(panels, #[trigger] r[i], DockSide::Right) by {
        assert(r.contains(r[i]));
    }
    assert forall|k: int| 0 <= k < 3 implies (#[trigger] panels[k].docked <==> (l.contains(known_id(k))
        || r.contains(known_id(k)))) by {
        assert(panel_sides_ok(panels[k]));
        assert(known_index(known_id(k)) == k);
        assert(is_dockable(known_id(k)));
        assert(panels[k].id == known_id(k));
        assert(l.contains(known_id(k)) == (panels[k].docked && panels[k].dock_side == Some(DockSide::Left)));
        assert(r.contains(known_id(k)) == (panels[k].docked && panels[k].dock_side == Some(DockSide::Right)));
        if panels[k].docked {
            assert(panels[k].dock_side is Some);
            match panels[k].dock_side {
                Some(DockSide::Left) => {},
                Some(DockSide::Right) => {},
                None => {},
            }
        }
    }
}


/// `rebuilt_order` restricted to the first `n` dockable panels.
pub open spec fn rebuilt_upto(panels: Seq<PanelView>, side: DockSide, n: int) -> Seq<Seq<char>>
    decreases n,
{
    if n <= 0 {
        Seq::empty()
    } else {
        rebuilt_upto(panels, side, n - 1) + id_if_on(panels, n - 1, side)
    }
}

/// Every docked dockable panel given its default side.
pub open spec fn default_sided(panels: Seq<PanelView>) -> Seq<PanelView> {
    Seq::new(
        panels.len(),
        |k: int|
            if 0 <= k < 3 && panels[k].docked {
                PanelView { dock_side: default_side(k), ..panels[k] }
            } else {
                panels[k]
            },
    )
}

pub open spec fn opt_panel_view(o: Option<PanelInfo>) -> Option<PanelView> {
    match o {
        Some(p) => Some(p@),
        None => None,
    }
}

pub open spec fn normalized_opt(o: Option<PanelView>) -> Option<PanelView> {
    match o {
        Some(p) => Some(normalized(p)),
        None => None,
    }
}

proof fn lemma_rebuilt_upto3(panels: Seq<PanelView>, side: DockSide)
    ensures
        rebuilt_upto(panels, side, 3) == rebuilt_order(panels, side),
{
    reveal_with_fuel(rebuilt_upto, 4);
    assert(rebuilt_upto(panels, side, 0) =~= Seq::<Seq<char>>::empty());
    assert(rebuilt_upto(panels, side, 3) =~= rebuilt_order(panels, side));
}

impl PanelManager {
    /// Validate dual side orders against a panel table (one entry per known
    /// panel, in the known order).
    pub fn is_valid_side_orders(left: &[String], right: &[String], panels: &[PanelInfo]) -> (r: bool)
        requires
            panels_indexed(panels_view(panels@)),
        ensures
            r == side_orders_valid(strings_view(left@), strings_view(right@), panels_view(panels@)),
    {
        let ghost lv = strings_view(left@);
        let ghost rv = strings_view(right@);
        let ghost pv = panels_view(panels@);
        let mut i: usize = 0;
        while i < left.len()
            invariant
                i <= left.len(),
                lv == strings_view(left@),
                pv == panels_view(panels@),
                panels_indexed(pv),
                forall|j: int| 0 <= j < i ==> member_ok(pv, #[trigger] lv[j], DockSide::Left),
                forall|j1: int, j2: int| 0 <= j1 < j2 < i ==> lv[j1] != lv[j2],
            decreases left.len() - i,
        {
            proof {
                assert(lv[i as int] == left@[i as int]@);
                lemma_known_ids();
            }
            let k = match panel_index(left[i].as_str()) {
                Some(k) => k,
                None => {
                    return false;
                },
            };
            proof {
                assert(pv[k as int] == panels@[k as int]@);
            }
            if k >= 3 || !panels[k].docked {
                return false;
            }
            match panels[k].dock_side {
                Some(DockSide::Left) => {},
                _ => {
                    return false;
                },
            }
            if contains_in_prefix(left, i, left[i].as_str()) {
                proof {
                    let j = choose|j: int| 0 <= j < i && #[trigger] lv.take(i as int)[j] == lv[i as int];
                    assert(lv[j] == lv[i as int]);
                }
                return false;
            }
            proof {
                assert forall|j1: int, j2: int| 0 <= j1 < j2 < i + 1 implies lv[j1] != lv[j2] by {
                    if j2 == i {
                        assert(lv.take(i as int)[j1] == lv[j1]);
                    }
                }
            }
            i = i + 1;
        }
        let mut i: usize = 0;
        while i < right.len()
            invariant
                i <= right.len(),
                lv == strings_view(left@),
                rv == strings_view(right@),
                pv == panels_view(panels@),
                panels_indexed(pv),
                no_dup(lv),
                forall|j: int| 0 <= j < lv.len() ==> member_ok(pv, #[trigger] lv[j], DockSide::Left),
                forall|j: int| 0 <= j < i ==> member_ok(pv, #[trigger] rv[j], DockSide::Right),
                forall|j: int| 0 <= j < i ==> !lv.contains(#[trigger] rv[j]),
                forall|j1: int, j2: int| 0 <= j1 < j2 < i ==> rv[j1] != rv[j2],
            decreases right.len() - i,
        {
            proof {
                assert(rv[i as int] == right@[i as int]@);
                lemma_known_ids();
            }
            let k = match panel_index(right[i].as_str()) {
                Some(k) => k,
                None => {
                    return false;
                },
            };
            proof {
                assert(pv[k as int] == panels@[k as int]@);
            }
            if k >= 3 || !panels[k].docked {
                return false;
            }
            match panels[k].dock_side {
                Some(DockSide::Right) => {},
                _ => {
                    return false;
                },
            }
            if contains_in_prefix(right, i, right[i].as_str()) {
                proof {
                    let j = choose|j: int| 0 <= j < i && #[trigger] rv.take(i as int)[j] == rv[i as int];
                    assert(rv[j] == rv[i as int]);
                }
                return false;
            }
            if contains_in_prefix(left, left.len(), right[i].as_str()) {
                proof {
                    assert(lv.take(left.len() as int) =~= lv);
                    let j = choose|j: int| 0 <= j < lv.len() && #[trigger] lv[j] == rv[i as int];
                    assert(rv[i as int] == lv[j]);
                    assert(rv.contains(lv[j]));
                }
                return false;
            }
            proof {
                assert(lv.take(left.len() as int) =~= lv);
                assert forall|j1: int, j2: int| 0 <= j1 < j2 < i + 1 implies rv[j1] != rv[j2] by {
                    if j2 == i {
                        assert(rv.take(i as int)[j1] == rv[j1]);
                    }
                }
            }
            i = i + 1;
        }
        proof {
            assert forall|j: int| 0 <= j < lv.len() implies !rv.contains(#[trigger] lv[j]) by {
                if rv.contains(lv[j]) {
                    let m = choose|m: int| 0 <= m < rv.len() && rv[m] == lv[j];
                    assert(!lv.contains(rv[m]));
                }
            }
        }
        let mut k: usize = 0;
        while k < 3
            invariant
                k <= 3,
                lv == strings_view(left@),
                rv == strings_view(right@),
                pv == panels_view(panels@),
                panels_indexed(pv),
                forall|j: int| 0 <= j < k ==> (#[trigger] pv[j].docked <==> (lv.contains(known_id(j))
                    || rv.contains(known_id(j)))),
            decreases 3 - k,
        {
            let id = known_id_string(k);
            let in_left = contains_in_prefix(left, left.len(), id.as_str());
            let in_right = contains_in_prefix(right, right.len(), id.as_str());
            proof {
                assert(lv.take(left.len() as int) =~= lv);
                assert(rv.take(right.len() as int) =~= rv);
            }
            proof {
                assert(pv[k as int] == panels@[k as int]@);
            }
            if panels[k].docked != (in_left || in_right) {
                proof {
                    assert(!(pv[k as int].docked <==> (lv.contains(known_id(k as int)) || rv.contains(
                        known_id(k as int),
                    ))));
                }
                return false;
            }
            k = k + 1;
        }
        true
    }

    fn rebuild_orders_from_panel_sides(&mut self)
        requires
            panels_indexed(old(self)@.panels),
        ensures
            final(self)@.panels == old(self)@.panels,
            final(self)@.remembered == old(self)@.remembered,
            final(self)@.left == rebuilt_order(old(self)@.panels, DockSide::Left),
            final(self)@.right == rebuilt_order(old(self)@.panels, DockSide::Right),
    {
        let ghost pv = self@.panels;
        self.left_order = Vec::new();
        self.right_order = Vec::new();
        let mut k: usize = 0;
        while k < 3
            invariant
                k <= 3,
                pv == self@.panels,
                panels_indexed(pv),
                self@.remembered == old(self)@.remembered,
                self@.left == rebuilt_upto(pv, DockSide::Left, k as int),
                self@.right == rebuilt_upto(pv, DockSide::Right, k as int),
            decreases 3 - k,
        {
            if self.panels[k].docked {
                match self.panels[k].dock_side {
                    Some(DockSide::Left) => {
                        self.left_order.push(known_id_string(k));
                    },
                    Some(DockSide::Right) => {
                        self.right_order.push(known_id_string(k));
                    },
                    None => {},
                }
            }
            proof {
                assert(self@.left =~= rebuilt_upto(pv, DockSide::Left, k + 1));
                assert(self@.right =~= rebuilt_upto(pv, DockSide::Right, k + 1));
            }
            k = k + 1;
        }
        proof {
            lemma_rebuilt_upto3(pv, DockSide::Left);
            lemma_rebuilt_upto3(pv, DockSide::Right);
        }
    }

    fn apply_default_orders_for_docked(&mut self)
        requires
            panels_indexed(old(self)@.panels),
        ensures
            final(self)@.panels == default_sided(old(self)@.panels),
            final(self)@.remembered == old(self)@.remembered,
            final(self)@.left == rebuilt_order(final(self)@.panels, DockSide::Left),
            final(self)@.right == rebuilt_order(final(self)@.panels, DockSide::Right),
    {
        let ghost pv = self@.panels;
        let ghost target = default_sided(pv);
        self.left_order = Vec::new();
        self.right_order = Vec::new();
        let mut k: usize = 0;
        while k < 3
            invariant
                k <= 3,
                panels_indexed(pv),
                target == default_sided(pv),
                self@.panels.len() == 5,
                forall|j: int| 0 <= j < k ==> self@.panels[j] == target[j],
                forall|j: int| k <= j < 5 ==> self@.panels[j] == pv[j],
                self@.remembered == old(self)@.remembered,
                self@.left == rebuilt_upto(target, DockSide::Left, k as int),
                self@.right == rebuilt_upto(target, DockSide::Right, k as int),
            decreases 3 - k,
        {
            if self.panels[k].docked {
                let side = if k == 1 {
                    DockSide::Left
                } else {
                    DockSide::Right
                };
                let mut p = self.panels[k].copy();
                p.dock_side = Some(side);
                self.set_panel(k, p);
                match side {
                    DockSide::Left => {
                        self.left_order.push(known_id_string(k));
                    },
                    DockSide::Right => {
                        self.right_order.push(known_id_string(k));
                    },
                }
            }
            proof {
                assert(self@.left =~= rebuilt_upto(target, DockSide::Left, k + 1));
                assert(self@.right =~= rebuilt_upto(target, DockSide::Right, k + 1));
            }
            k = k + 1;
        }
        proof {
            assert(self@.panels =~= target);
            lemma_rebuilt_upto3(target, DockSide::Left);
            lemma_rebuilt_upto3(target, DockSide::Right);
        }
    }
}


proof fn lemma_last_with_id_step(s: Seq<PanelView>, i: int, id: Seq<char>)
    requires
        0 <= i < s.len(),
    ensures
        last_with_id(s.take(i + 1), id) == if s[i].id == id {
            Some(s[i])
        } else {
            last_with_id(s.take(i), id)
        },
{
    assert(s.take(i + 1).drop_last() =~= s.take(i));
}

proof fn lemma_no_docked_dockable(panels: Seq<PanelView>)
    requires
        panels_indexed(panels),
        forall|k: int| 0 <= k < 5 ==> panel_sides_ok(#[trigger] panels[k]),
        rebuilt_order(panels, DockSide::Left).len() == 0,
        rebuilt_order(panels, DockSide::Right).len() == 0,
    ensures
        default_sided(panels) == panels,
{
    lemma_known_ids();
    assert forall|k: int| 0 <= k < 3 implies !(#[trigger] panels[k].docked) by {
        assert(panel_sides_ok(panels[k]));
        if panels[k].docked {
            let side = panels[k].dock_side.unwrap();
            assert(id_if_on(panels, k, side).len() == 1);
        }
    }
    assert(default_sided(panels) =~= panels);
}

impl PanelManager {
    /// Initialize from persisted dual-order state.
    ///
    /// Invalid / missing orders fall back to orders rebuilt from the panels'
    /// own dock sides, after ensuring all known panels exist.
    pub fn from_persisted(
        panels: Vec<PanelInfo>,
        left_order: Option<Vec<String>>,
        right_order: Option<Vec<String>>,
    ) -> (r: Self)
        ensures
            r@ == persisted_manager(
                panels_view(panels@),
                opt_strings_view(left_order),
                opt_strings_view(right_order),
            ),
            r@.wf(),
    {
        let ghost input = panels_view(panels@);
        let mut slots: Vec<Option<PanelInfo>> = vec![None, None, None, None, None];
        let mut i: usize = 0;
        while i < panels.len()
            invariant
                i <= panels.len(),
                input == panels_view(panels@),
                slots.len() == 5,
                forall|k: int|
                    0 <= k < 5 ==> opt_panel_view(#[trigger] slots@[k]) == normalized_opt(
                        last_with_id(input.take(i as int), known_id(k)),
                    ),
            decreases panels.len() - i,
        {
            proof {
                lemma_known_ids();
                assert(input[i as int] == panels@[i as int]@);
                assert forall|k: int| 0 <= k < 5 implies last_with_id(input.take(i + 1), known_id(k))
                    == if input[i as int].id == known_id(k) {
                    Some(input[i as int])
                } else {
                    last_with_id(input.take(i as int), known_id(k))
                } by {
                    lemma_last_with_id_step(input, i as int, known_id(k));
                }
            }
            let mut p = panels[i].copy();
            match panel_index(p.id.as_str()) {
                None => {},
                Some(k) => {
                    normalize_panel_info(&mut p);
                    slots.set(k, Some(p));
                    proof {
                        lemma_known_index_inverse(input[i as int].id);
                    }
                },
            }
            i = i + 1;
        }
        proof {
            assert(input.take(panels.len() as int) =~= input);
        }
        let mut table: Vec<PanelInfo> = Vec::new();
        let mut k: usize = 0;
        while k < 5
            invariant
                k <= 5,
                slots.len() == 5,
                table.len() == k,
                forall|j: int|
                    0 <= j < 5 ==> opt_panel_view(#[trigger] slots@[j]) == normalized_opt(
                        last_with_id(input, known_id(j)),
                    ),
                forall|j: int| 0 <= j < k ==> (#[trigger] table@[j])@ == merged_panels(input)[j],
            decreases 5 - k,
        {
            match &slots[k] {
                Some(p) => {
                    table.push(p.copy());
                },
                None => {
                    table.push(default_panel_info(k));
                },
            }
            k = k + 1;
        }
        let ghost merged = merged_panels(input);
        proof {
            assert(panels_view(table@) =~= merged);
            lemma_merged_ok(input);
        }
        let left = match left_order {
            Some(v) => v,
            None => Vec::new(),
        };
        let right = match right_order {
            Some(v) => v,
            None => Vec::new(),
        };
        assert(strings_view(left@) =~= opt_strings_view(left_order));
        assert(strings_view(right@) =~= opt_strings_view(right_order));
        let valid = Self::is_valid_side_orders(&left, &right, &table);
        let mut last_dock_sides: Vec<Option<DockSide>> = Vec::new();
        let mut k: usize = 0;
        while k < 5
            invariant
                k <= 5,
                table.len() == 5,
                panels_view(table@) == merged,
                last_dock_sides.len() == k,
                forall|j: int| 0 <= j < k ==> #[trigger] last_dock_sides@[j] == merged[j].dock_side,
            decreases 5 - k,
        {
            last_dock_sides.push(table[k].dock_side);
            k = k + 1;
        }
        proof {
            assert(last_dock_sides@ =~= persisted_manager(input, strings_view(left@), strings_view(right@)).remembered);
        }
        if valid {
            PanelManager { panels: table, left_order: left, right_order: right, last_dock_sides }
        } else {
            let mut rebuilt = PanelManager {
                panels: table,
                left_order: Vec::new(),
                right_order: Vec::new(),
                last_dock_sides,
            };
            rebuilt.rebuild_orders_from_panel_sides();
            if rebuilt.left_order.len() == 0 && rebuilt.right_order.len() == 0 {
                proof {
                    lemma_no_docked_dockable(merged);
                }
                rebuilt.apply_default_orders_for_docked();
            }
            proof {
                lemma_rebuilt_valid(merged);
            }
            rebuilt
        }
    }
}


impl PanelManager {
    /// The state of panel `id`, if it is a known panel.
    pub fn panel(&self, id: &str) -> (r: Option<&PanelInfo>)
        requires
            self@.wf(),
        ensures
            r is Some <==> is_known(id@),
            r matches Some(p) ==> p@ == self@.panels[known_index(id@)],
    {
        match panel_index(id) {
            Some(k) => Some(&self.panels[k]),
            None => None,
        }
    }

    /// Checks the model invariants; `true` exactly when they hold.
    pub fn assert_invariants(&self) -> (r: bool)
        ensures
            r == self@.wf(),
    {
        if self.panels.len() != 5 || self.last_dock_sides.len() != 5 {
            return false;
        }
        let mut k: usize = 0;
        while k < 5
            invariant
                k <= 5,
                self.panels.len() == 5,
                self.last_dock_sides.len() == 5,
                forall|j: int| 0 <= j < k ==> (#[trigger] self@.panels[j]).id == known_id(j) && panel_sides_ok(self@.panels[j])
                    && (self@.panels[j].dock_side is Some ==> self@.remembered[j] == self@.panels[j].dock_side),
            decreases 5 - k,
        {
            proof {
                lemma_known_ids();
                assert(self@.panels[k as int] == self.panels@[k as int]@);
            }
            let p = &self.panels[k];
            match panel_index(p.id.as_str()) {
                Some(j) => {
                    if j != k {
                        return false;
                    }
                },
                None => {
                    return false;
                },
            }
            if k >= 3 && p.dock_side.is_some() {
                return false;
            }
            if !p.docked && p.dock_side.is_some() {
                return false;
            }
            if p.docked && k < 3 && p.dock_side.is_none() {
                return false;
            }
            match (p.dock_side, self.last_dock_sides[k]) {
                (Some(a), Some(b)) => {
                    if a != b {
                        return false;
                    }
                },
                (Some(_), None) => {
                    return false;
                },
                _ => {},
            }
            k = k + 1;
        }
        Self::is_valid_side_orders(&self.left_order, &self.right_order, &self.panels)
    }
}


// ---------------------------------------------------------------------------
// Laws
// ---------------------------------------------------------------------------

/// Undocking takes a panel out of both side orders and leaves it floating.
pub proof fn law_undock_leaves_orders(v: PanelManagerView, k: int)
    requires
        v.wf(),
        0 <= k < 5,
    ensures
        !v.undocked(k).left.contains(known_id(k)),
        !v.undocked(k).right.contains(known_id(k)),
        !v.undocked(k).panels[k].docked,
        v.undocked(k).panels[k].dock_side is None,
        v.undocked(k).wf(),
{
    lemma_known_ids();
    let id = known_id(k);
    lemma_without_contains(v.left, id, id);
    lemma_without_contains(v.right, id, id);
    if !v.panels[k].docked {
        assert(!v.left.contains(id)) by {
            if v.left.contains(id) {
                let i = choose|i: int| 0 <= i < v.left.len() && v.left[i] == id;
                assert(member_ok(v.panels, v.left[i], DockSide::Left));
            }
        }
        assert(!v.right.contains(id)) by {
            if v.right.contains(id) {
                let i = choose|i: int| 0 <= i < v.right.len() && v.right[i] == id;
                assert(member_ok(v.panels, v.right[i], DockSide::Right));
            }
        }
        assert(v.undocked(k) =~= v);
    } else {
        let u = v.undocked(k);
        lemma_remove_ok(v, k);
        lemma_except_panel_change(u.left, u.right, v.panels, k, u.panels[k]);
        lemma_except_undocked(u.left, u.right, u.panels, k);
        assert forall|j: int| 0 <= j < 5 implies panel_sides_ok(#[trigger] u.panels[j]) && (u.panels[j].dock_side is Some
            ==> u.remembered[j] == u.panels[j].dock_side) by {
            if j != k {
                assert(u.panels[j] == v.panels[j]);
            }
        }
    }
}

/// Undocking an already floating panel changes nothing.
pub proof fn law_undock_floating_is_noop(v: PanelManagerView, k: int)
    requires
        v.wf(),
        0 <= k < 5,
        !v.panels[k].docked,
    ensures
        v.undocked(k) == v,
{
    assert(v.undocked(k) =~= v);
}

/// A docked panel that is undocked and then docked again on its remembered
/// side returns to the side it was on, and joins that side's order.
pub proof fn law_undock_then_redock_same_side(v: PanelManagerView, k: int, idx: int)
    requires
        v.wf(),
        0 <= k < 3,
        v.panels[k].docked,
    ensures
        ({
            let u = v.undocked(k);
            let s = u.remembered_side(known_id(k));
            let f = u.with_panel(k, redocked(u.panels[k])).placed_visible(k, s, idx);
            &&& Some(s) == v.panels[k].dock_side
            &&& f.panels[k].docked
            &&& f.panels[k].dock_side == v.panels[k].dock_side
            &&& f.order(s).contains(known_id(k))
            &&& f.wf()
        }),
{
    lemma_known_ids();
    let u = v.undocked(k);
    law_undock_leaves_orders(v, k);
    let s = u.remembered_side(known_id(k));
    assert(Some(s) == v.panels[k].dock_side);
    let mid = u.with_panel(k, redocked(u.panels[k]));
    lemma_remove_ok(u, k);
    lemma_except_panel_change(mid.removed(known_id(k)).left, mid.removed(known_id(k)).right, u.panels, k, mid.panels[k]);
    let base = mid.removed(known_id(k));
    let pos = visible_insert_pos(base.order(s), mid.panels, idx);
    lemma_visible_pos_bounds(base.order(s), mid.panels, idx);
    assert forall|j: int| 0 <= j < 5 && j != k implies panel_sides_ok(#[trigger] mid.panels[j]) && (mid.panels[j].dock_side is Some
        ==> mid.remembered[j] == mid.panels[j].dock_side) by {
        assert(mid.panels[j] == u.panels[j]);
    }
    lemma_place_wf(mid, k, s, pos);
    let f = mid.placed_visible(k, s, idx);
    assert(f.order(s)[pos] == known_id(k));
}

/// Hiding a visible panel and showing it again restores the state.
pub proof fn law_hide_then_show(v: PanelManagerView, k: int)
    requires
        v.wf(),
        0 <= k < 5,
        v.panels[k].visible,
    ensures
        ({
            let h = v.with_panel(k, set_visible(v.panels[k], false));
            h.with_panel(k, set_visible(h.panels[k], true)) == v
        }),
{
    let h = v.with_panel(k, set_visible(v.panels[k], false));
    assert(h.with_panel(k, set_visible(h.panels[k], true)).panels =~= v.panels);
}

/// Swapping the sides twice gives back the layout it started from.
pub proof fn law_swap_twice(v: PanelManagerView)
    requires
        v.wf(),
    ensures
        v.swapped().swapped() == v,
{
    lemma_known_ids();
    let s2 = v.swapped().swapped();
    assert forall|k: int| 0 <= k < 5 implies #[trigger] s2.panels[k] == v.panels[k] && s2.remembered[k] == v.remembered[k] by {
        if v.left.contains(known_id(k)) {
            let i = choose|i: int| 0 <= i < v.left.len() && v.left[i] == known_id(k);
            assert(member_ok(v.panels, v.left[i], DockSide::Left));
            assert(!v.right.contains(v.left[i]));
        } else if v.right.contains(known_id(k)) {
            let i = choose|i: int| 0 <= i < v.right.len() && v.right[i] == known_id(k);
            assert(member_ok(v.panels, v.right[i], DockSide::Right));
        }
    }
    assert(s2.panels =~= v.panels);
    assert(s2.remembered =~= v.remembered);
}

/// After moving all panels to `side`, the opposite side is empty and every
/// docked dockable panel sits in `side`'s order with that dock side.
pub proof fn law_move_all_single_stack(v: PanelManagerView, side: DockSide)
    requires
        v.wf(),
    ensures
        ({
            let f = v.moved_all(side);
            &&& f.wf()
            &&& f.order(side.opposite()).len() == 0
            &&& forall|k: int|
                0 <= k < 3 && #[trigger] v.panels[k].docked ==> f.order(side).contains(known_id(k))
                    && f.panels[k].dock_side == Some(side)
        }),
{
    lemma_moved_all_wf(v, side);
    let f = v.moved_all(side);
    assert forall|k: int| 0 <= k < 3 && #[trigger] v.panels[k].docked implies f.order(side).contains(known_id(k))
        && f.panels[k].dock_side == Some(side) by {
        let no = f.order(side);
        if v.left.contains(known_id(k)) {
            let i = choose|i: int| 0 <= i < v.left.len() && v.left[i] == known_id(k);
            if side == DockSide::Left {
                assert(no[i] == known_id(k));
            } else {
                assert(no[i + v.right.len()] == known_id(k));
            }
        } else {
            let i = choose|i: int| 0 <= i < v.right.len() && v.right[i] == known_id(k);
            if side == DockSide::Left {
                assert(no[i + v.left.len()] == known_id(k));
            } else {
                assert(no[i] == known_id(k));
            }
        }
    }
}

proof fn lemma_last_with_id_indexed(panels: Seq<PanelView>, k: int)
    requires
        panels_indexed(panels),
        0 <= k < 5,
    ensures
        last_with_id(panels, known_id(k)) == Some(panels[k]),
{
    lemma_known_ids();
    reveal_with_fuel(last_with_id, 6);
    assert(panels.drop_last().drop_last().drop_last().drop_last().drop_last().len() == 0);
    assert(panels.last() == panels[4]);
    assert(panels.drop_last().last() == panels[3]);
    assert(panels.drop_last().drop_last().last() == panels[2]);
    assert(panels.drop_last().drop_last().drop_last().last() == panels[1]);
    assert(panels.drop_last().drop_last().drop_last().drop_last().last() == panels[0]);
}

/// Restoring a manager from its own snapshot (panel table and both side
/// orders) gives back the same panels and orders, and the same remembered
/// side for every panel that is on a side.
pub proof fn law_snapshot_restore(v: PanelManagerView)
    requires
        v.wf(),
    ensures
        ({
            let r = persisted_manager(v.panels, v.left, v.right);
            &&& r.panels == v.panels
            &&& r.left == v.left
            &&& r.right == v.right
            &&& forall|k: int|
                0 <= k < 5 && (#[trigger] v.panels[k]).dock_side is Some ==> r.remembered[k]
                    == v.remembered[k]
            &&& r.wf()
        }),
{
    assert forall|k: int| 0 <= k < 5 implies #[trigger] merged_panels(v.panels)[k] == v.panels[k] by {
        lemma_last_with_id_indexed(v.panels, k);
        assert(panel_sides_ok(v.panels[k]));
    }
    assert(merged_panels(v.panels) =~= v.panels);
}

/// Where a drop at `idx` among the shown panels of a sidebar puts the moved
/// panel `k`. Only panels that are both docked and visible count. Of the
/// other members of the side, `n` are shown; the moved panel lands at
/// position `p` with exactly `min(idx, n)` shown panels before it. When
/// `idx < n` the panel right after it is shown (it is the `idx`-th shown one);
/// otherwise the panel right before it is the last shown one, or, when the
/// side shows none, it ends the order. The other members keep their order.
pub proof fn law_drop_lands_among_shown(v: PanelManagerView, k: int, side: DockSide, idx: int) -> (p: int)
    requires
        0 <= k < 5,
        0 <= idx,
    ensures
        ({
            let o = v.placed_visible(k, side, idx).order(side);
            let rest = without_id(v.order(side), known_id(k));
            let shown = |x: Seq<char>|
                is_known(x) && v.panels[known_index(x)].docked && v.panels[known_index(x)].visible;
            let n = rest.filter(shown).len() as int;
            &&& 0 <= p < o.len()
            &&& o[p] == known_id(k)
            &&& o.remove(p) == rest
            &&& o.take(p).filter(shown).len() == if idx < n { idx } else { n }
            &&& idx < n ==> p + 1 < o.len() && shown(o[p + 1])
            &&& (0 < n && n <= idx) ==> 0 < p && shown(o[p - 1])
            &&& n == 0 ==> p == o.len() - 1
        }),
{
    let id = known_id(k);
    let rest = without_id(v.order(side), id);
    let base = v.removed(id);
    assert(base.order(side) == rest);
    let pos = visible_insert_pos(rest, v.panels, idx);
    lemma_visible_pos_bounds(rest, v.panels, idx);
    let o = v.placed_visible(k, side, idx).order(side);
    assert(o == rest.insert(pos, id));
    let shown = |x: Seq<char>|
        is_known(x) && v.panels[known_index(x)].docked && v.panels[known_index(x)].visible;
    lemma_count_visible_filter(rest, v.panels, shown);
    assert(o.take(pos) =~= rest.take(pos));
    assert(o.remove(pos) =~= rest);
    let c = count_visible(rest, v.panels);
    if idx < c {
        lemma_nth_visible(rest, v.panels, idx);
        lemma_count_visible_filter(rest.take(pos), v.panels, shown);
        assert(o[pos + 1] == rest[pos]);
    } else if c > 0 {
        lemma_after_last_visible(rest, v.panels);
        lemma_count_visible_filter(rest.take(pos), v.panels, shown);
        assert(o[pos - 1] == rest[pos - 1]);
    } else {
        assert(rest.take(pos) =~= rest);
    }
    pos
}

} // verus!
