//! Loaded panel state and the migration of schema-v1 panel files.
//!
//! Schema v1 stored the panels only (no sides, no orders). Migration puts
//! every docked dockable panel on one fallback side, in the legacy relative
//! order `effect, layers, colorlab`; the other side stays empty. The schema
//! of a file is read from its text here; reading and writing the file, and
//! the typed decoding of each schema, are done by the caller.
use vstd::prelude::*;

use crate::panel_manager::{
    is_dockable, known_id, known_id_string, known_index, lemma_known_ids, panels_view, DockSide,
    PanelInfo, PanelView, SerializedPanelState,
};
use crate::flexlayout_persistence::{inspect_json, json_parse_error, json_version};
use crate::text::{concat_str, decimal, decimal_string, str_eq, strings_view};

verus! {

/// Result of a successful load (already migrated to the dual-sidebar shape).
#[derive(Debug, Clone, PartialEq)]
pub struct LoadedPanelState {
    pub panels: Vec<PanelInfo>,
    pub left_order: Vec<String>,
    pub right_order: Vec<String>,
}

impl LoadedPanelState {
    /// The same panels and orders as a [`SerializedPanelState`].
    pub fn into_serialized(self) -> (r: SerializedPanelState)
        ensures
            r.panels == self.panels,
            r.left_order == self.left_order,
            r.right_order == self.right_order,
    {
        SerializedPanelState {
            panels: self.panels,
            left_order: self.left_order,
            right_order: self.right_order,
        }
    }
}

/// Schema of a panel state file, from its `version` field.
#[derive(Debug, Clone, Copy, PartialEq, Eq, Structural)]
pub enum PanelStateSchema {
    /// Panels only; sides and orders are migrated on load.
    V1,
    /// Panels with dual side orders.
    V2,
}

/// `unsupported panel state version <v> (expected 1 or 2)`.
pub open spec fn unsupported_version_msg(v: u32) -> Seq<char> {
    "unsupported panel state version "@ + decimal(v as nat) + " (expected 1 or 2)"@
}

/// The schema named by a file's `version` field (read as `u32`): 1 and 2
/// are known, anything else is refused.
pub fn panel_state_schema(version: u32) -> (r: Result<PanelStateSchema, String>)
    ensures
        version == 1 ==> r == Ok::<PanelStateSchema, String>(PanelStateSchema::V1),
        version == 2 ==> r == Ok::<PanelStateSchema, String>(PanelStateSchema::V2),
        version != 1 && version != 2 ==> (r matches Err(m) && m@ == unsupported_version_msg(version)),
{
    if version == 1 {
        Ok(PanelStateSchema::V1)
    } else if version == 2 {
        Ok(PanelStateSchema::V2)
    } else {
        let digits = decimal_string(version as usize);
        let mut m = concat_str("unsupported panel state version ", digits.as_str());
        m.append(" (expected 1 or 2)");
        Err(m)
    }
}

/// The outcome of reading a panel state file's schema from its text: the
/// parser's error, a missing `version`, or the schema its `version` (read as
/// `u32`) names.
pub open spec fn schema_of_text(contents: Seq<char>) -> Result<PanelStateSchema, Seq<char>> {
    match json_parse_error(contents) {
        Some(e) => Err("invalid JSON: "@ + e),
        None => match json_version(contents) {
            None => Err("missing version field"@),
            Some(v) => {
                let v32 = v as u32;
                if v32 == 1 {
                    Ok(PanelStateSchema::V1)
                } else if v32 == 2 {
                    Ok(PanelStateSchema::V2)
                } else {
                    Err(unsupported_version_msg(v32))
                }
            },
        },
    }
}

/// The view of a schema result.
pub open spec fn schema_result_view(r: Result<PanelStateSchema, String>) -> Result<
    PanelStateSchema,
    Seq<char>,
> {
    match r {
        Ok(s) => Ok(s),
        Err(m) => Err(m@),
    }
}

/// The schema of a panel state file, read from its text (see
/// [`schema_of_text`]); the typed v1 / v2 decoding is left to the caller.
pub fn panel_state_schema_of(contents: &str) -> (r: Result<PanelStateSchema, String>)
    ensures
        schema_result_view(r) == schema_of_text(contents@),
{
    let outline = inspect_json(contents);
    match outline.parse_error {
        Some(e) => Err(concat_str("invalid JSON: ", e.as_str())),
        None => match outline.version {
            None => Err(String::from_str("missing version field")),
            Some(v) => {
                #[verifier::truncate]
                let v32: u32 = v as u32;
                panel_state_schema(v32)
            },
        },
    }
}

/// No panel before position `k` has the identifier of panel `k`.
pub open spec fn first_with_id(ps: Seq<PanelView>, k: int) -> bool {
    forall|j: int| 0 <= j < k ==> ps[j].id != ps[k].id
}

/// The first panel with identifier `id` exists and is docked.
pub open spec fn first_docked(ps: Seq<PanelView>, id: Seq<char>) -> bool {
    exists|k: int| 0 <= k < ps.len() && ps[k].id == id && first_with_id(ps, k) && ps[k].docked
}

/// The stack of the first `t` legacy dockable panels (`effect, layers,
/// colorlab`) that are docked.
pub open spec fn legacy_prefix(ps: Seq<PanelView>, t: int) -> Seq<Seq<char>>
    decreases t,
{
    if t <= 0 {
        seq![]
    } else if first_docked(ps, known_id(t - 1)) {
        legacy_prefix(ps, t - 1).push(known_id(t - 1))
    } else {
        legacy_prefix(ps, t - 1)
    }
}

/// The single stack that a v1 file migrates to.
pub open spec fn legacy_stack(ps: Seq<PanelView>) -> Seq<Seq<char>> {
    legacy_prefix(ps, 3)
}

/// Panel `k` after migration to `side`: the first panel with each dockable
/// identifier gets `side` when docked and no side when floating; panels that
/// are not dockable lose their side; later duplicates stay as they were.
pub open spec fn migrated_panel(ps: Seq<PanelView>, k: int, side: DockSide) -> PanelView {
    let p = ps[k];
    if !is_dockable(p.id) {
        PanelView { dock_side: None, ..p }
    } else if first_with_id(ps, k) {
        PanelView {
            dock_side: if p.docked {
                Some(side)
            } else {
                None
            },
            ..p
        }
    } else {
        p
    }
}

/// All panels after migration to `side`.
pub open spec fn migrated_panels(ps: Seq<PanelView>, side: DockSide) -> Seq<PanelView> {
    Seq::new(ps.len(), |k: int| migrated_panel(ps, k, side))
}

/// Position of the first panel with identifier `id`.
fn first_index(panels: &Vec<PanelInfo>, id: &str) -> (r: Option<usize>)
    ensures
        match r {
            Some(k) => k < panels.len() && panels@[k as int]@.id == id@ && forall|j: int|
                0 <= j < k ==> (#[trigger] panels@[j])@.id != id@,
            None => forall|j: int| 0 <= j < panels.len() ==> (#[trigger] panels@[j])@.id != id@,
        },
{
    let mut k: usize = 0;
    while k < panels.len()
        invariant
            k <= panels.len(),
            forall|j: int| 0 <= j < k ==> (#[trigger] panels@[j])@.id != id@,
        decreases panels.len() - k,
    {
        if str_eq(panels[k].id.as_str(), id) {
            return Some(k);
        }
        k = k + 1;
    }
    None
}

/// Migrate v1 panels (no sides / orders) to a single-stack dual snapshot.
///
/// All docked dockable panels go to `fallback_side` in legacy relative order;
/// the opposite side is empty. Floating and floating-only panels stay out of orders.
pub fn migrate_v1_to_v2(panels: Vec<PanelInfo>, fallback_side: DockSide) -> (r: LoadedPanelState)
    ensures
        panels_view(r.panels@) == migrated_panels(panels_view(panels@), fallback_side),
        strings_view(r.left_order@) == (match fallback_side {
            DockSide::Left => legacy_stack(panels_view(panels@)),
            DockSide::Right => Seq::<Seq<char>>::empty(),
        }),
        strings_view(r.right_order@) == (match fallback_side {
            DockSide::Left => Seq::<Seq<char>>::empty(),
            DockSide::Right => legacy_stack(panels_view(panels@)),
        }),
{
    let ghost orig = panels_view(panels@);
    let mut panels = panels;
    let mut side_order: Vec<String> = Vec::new();
    proof {
        lemma_known_ids();
    }
    let mut t: usize = 0;
    while t < 3
        invariant
            t <= 3,
            orig.len() == panels.len(),
            forall|k: int| 0 <= k < 5 ==> #[trigger] known_index(known_id(k)) == k,
            forall|k: int|
                0 <= k < panels.len() ==> {
                    let cur = (#[trigger] panels@[k])@;
                    &&& cur.id == orig[k].id
                    &&& cur.docked == orig[k].docked
                    &&& cur.visible == orig[k].visible
                    &&& cur.window_label == orig[k].window_label
                    &&& cur.saved_bounds == orig[k].saved_bounds
                    &&& cur.dock_side == if is_dockable(orig[k].id) && first_with_id(orig, k)
                        && known_index(orig[k].id) < t {
                        migrated_panel(orig, k, fallback_side).dock_side
                    } else {
                        orig[k].dock_side
                    }
                },
            strings_view(side_order@) == legacy_prefix(orig, t as int),
        decreases 3 - t,
    {
        let id = known_id_string(t);
        let found = first_index(&panels, id.as_str());
        let ghost before = panels@;
        match found {
            Some(k) => {
                assert forall|j: int| 0 <= j < k implies orig[j].id != orig[k as int].id by {
                    assert(panels@[j]@.id == orig[j].id);
                }
                assert(first_with_id(orig, k as int));
                let mut p = panels[k].copy();
                if p.docked {
                    p.dock_side = Some(fallback_side);
                    side_order.push(id);
                } else {
                    p.dock_side = None;
                }
                panels.set(k, p);
                proof {
                    assert(first_docked(orig, known_id(t as int)) == orig[k as int].docked) by {
                        if first_docked(orig, known_id(t as int)) {
                            let k2 = choose|k2: int|
                                0 <= k2 < orig.len() && orig[k2].id == known_id(t as int)
                                    && first_with_id(orig, k2) && orig[k2].docked;
                            if k2 < k {
                                assert(before[k2]@.id == orig[k2].id);
                            } else if k2 > k {
                                assert(orig[k as int].id == orig[k2].id);
                            }
                        }
                    }
                    assert forall|j: int| 0 <= j < panels.len() && j != k implies (
                    #[trigger] panels@[j])@.id != known_id(t as int) || !first_with_id(orig, j)
                        by {
                        if j > k && panels@[j]@.id == known_id(t as int) {
                            assert(orig[k as int].id == orig[j].id);
                        }
                    }
                    assert(strings_view(side_order@) =~= legacy_prefix(orig, t + 1));
                }
            },
            None => {
                proof {
                    assert(!first_docked(orig, known_id(t as int))) by {
                        if first_docked(orig, known_id(t as int)) {
                            let k2 = choose|k2: int|
                                0 <= k2 < orig.len() && orig[k2].id == known_id(t as int)
                                    && first_with_id(orig, k2) && orig[k2].docked;
                            assert(before[k2]@.id == orig[k2].id);
                        }
                    }
                    assert(strings_view(side_order@) =~= legacy_prefix(orig, t + 1));
                }
            },
        }
        t = t + 1;
    }
    let mut k: usize = 0;
    while k < panels.len()
        invariant
            k <= panels.len(),
            orig.len() == panels.len(),
            forall|j: int|
                0 <= j < k ==> (#[trigger] panels@[j])@ == migrated_panel(orig, j, fallback_side),
            forall|j: int|
                k <= j < panels.len() ==> {
                    let cur = (#[trigger] panels@[j])@;
                    &&& cur.id == orig[j].id
                    &&& cur.docked == orig[j].docked
                    &&& cur.visible == orig[j].visible
                    &&& cur.window_label == orig[j].window_label
                    &&& cur.saved_bounds == orig[j].saved_bounds
                    &&& cur.dock_side == if is_dockable(orig[j].id) && first_with_id(orig, j) {
                        migrated_panel(orig, j, fallback_side).dock_side
                    } else {
                        orig[j].dock_side
                    }
                },
        decreases panels.len() - k,
    {
        let dockable = str_eq(panels[k].id.as_str(), "effect") || str_eq(
            panels[k].id.as_str(),
            "layers",
        ) || str_eq(panels[k].id.as_str(), "colorlab");
        proof {
            reveal_strlit("effect");
            reveal_strlit("layers");
            reveal_strlit("colorlab");
            assert("effect"@ =~= known_id(0));
            assert("layers"@ =~= known_id(1));
            assert("colorlab"@ =~= known_id(2));
            lemma_known_ids();
        }
        assert(dockable == is_dockable(orig[k as int].id));
        if !dockable {
            let mut p = panels[k].copy();
            p.dock_side = None;
            panels.set(k, p);
        }
        k = k + 1;
    }
    proof {
        assert(panels_view(panels@) =~= migrated_panels(orig, fallback_side));
    }
    let empty: Vec<String> = Vec::new();
    proof {
        assert(strings_view(empty@) =~= Seq::<Seq<char>>::empty());
    }
    let (left_order, right_order) = match fallback_side {
        DockSide::Left => (side_order, empty),
        DockSide::Right => (empty, side_order),
    };
    LoadedPanelState { panels, left_order, right_order }
}

/// Every identifier in the migrated stack names a panel that is docked,
/// on the fallback side, after migration.
pub proof fn law_migration_single_stack(ps: Seq<PanelView>, side: DockSide)
    ensures
        forall|i: int|
            0 <= i < legacy_stack(ps).len() ==> #[trigger] stacked_on(ps, side, legacy_stack(ps)[i]),
{
    lemma_known_ids();
    assert forall|i: int| 0 <= i < legacy_stack(ps).len() implies #[trigger] stacked_on(
        ps,
        side,
        legacy_stack(ps)[i],
    ) by {
        lemma_legacy_prefix_docked(ps, 3, i, side);
    }
}

/// Some panel with identifier `id` is docked on `side` after migration.
pub open spec fn stacked_on(ps: Seq<PanelView>, side: DockSide, id: Seq<char>) -> bool {
    exists|k: int|
        #![trigger ps[k]]
        0 <= k < ps.len() && id == ps[k].id && migrated_panels(ps, side)[k].docked
            && migrated_panels(ps, side)[k].dock_side == Some(side)
}

proof fn lemma_legacy_prefix_docked(ps: Seq<PanelView>, t: int, i: int, side: DockSide)
    requires
        0 <= t <= 3,
        0 <= i < legacy_prefix(ps, t).len(),
        forall|k: int| 0 <= k < 5 ==> #[trigger] known_index(known_id(k)) == k,
    ensures
        stacked_on(ps, side, legacy_prefix(ps, t)[i]),
    decreases t,
{
    if t > 0 {
        if first_docked(ps, known_id(t - 1)) && i == legacy_prefix(ps, t - 1).len() {
            let k = choose|k: int|
                0 <= k < ps.len() && ps[k].id == known_id(t - 1) && first_with_id(ps, k)
                    && ps[k].docked;
            assert(known_index(ps[k].id) == t - 1);
            assert(migrated_panels(ps, side)[k] == migrated_panel(ps, k, side));
            assert(legacy_prefix(ps, t)[i] == ps[k].id);
        } else {
            lemma_legacy_prefix_docked(ps, t - 1, i, side);
            if first_docked(ps, known_id(t - 1)) {
                assert(legacy_prefix(ps, t)[i] == legacy_prefix(ps, t - 1)[i]);
            }
        }
    }
}

} // verus!
