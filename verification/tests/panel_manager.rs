use dither_panels::panel_manager::{DockSide, PanelError, PanelInfo, PanelManager, SavedBounds};

fn check(pm: &PanelManager) {
    assert!(pm.assert_invariants());
}

#[test]
fn default_layout_layers_left_inspectors_right() {
    let pm = PanelManager::new();
    check(&pm);
    assert_eq!(pm.get_left_order(), &["layers"]);
    assert_eq!(pm.get_right_order(), &["effect", "colorlab"]);

    let layers = pm.panel("layers").unwrap();
    assert_eq!(layers.dock_side, Some(DockSide::Left));
    assert!(layers.docked);

    let effect = pm.panel("effect").unwrap();
    assert_eq!(effect.dock_side, Some(DockSide::Right));

    let preview = pm.panel("preview").unwrap();
    assert!(preview.dock_side.is_none());
    let preferences = pm.panel("preferences").unwrap();
    assert!(preferences.dock_side.is_none());
}

#[test]
fn dock_panel_remembers_last_side_after_undock() {
    let mut pm = PanelManager::new();
    assert_eq!(pm.remembered_dock_side("layers"), DockSide::Left);
    pm.undock("layers").unwrap();
    assert_eq!(pm.remembered_dock_side("layers"), DockSide::Left);
    let side = pm.remembered_dock_side("layers");
    pm.dock("layers", side, usize::MAX).unwrap();
    assert_eq!(pm.panel("layers").unwrap().dock_side, Some(DockSide::Left));
    assert_eq!(pm.get_left_order(), &["layers"]);
}

#[test]
fn undock_clears_side_and_removes_from_orders() {
    let mut pm = PanelManager::new();
    let result = pm.undock("layers").unwrap();
    assert!(!result.already_floating);
    assert_eq!(result.previous_dock_side, Some(DockSide::Left));

    let panel = pm.panel("layers").unwrap();
    assert!(!panel.docked);
    assert!(panel.dock_side.is_none());
    assert!(!pm.get_left_order().iter().any(|id| id == "layers"));
    assert!(!pm.get_right_order().iter().any(|id| id == "layers"));
    check(&pm);
}

#[test]
fn dock_sets_side_and_inserts() {
    let mut pm = PanelManager::new();
    pm.undock("layers").unwrap();
    let label = pm.dock("layers", DockSide::Right, usize::MAX).unwrap();
    assert_eq!(label, Some("panel-layers".into()));

    let panel = pm.panel("layers").unwrap();
    assert!(panel.docked);
    assert_eq!(panel.dock_side, Some(DockSide::Right));
    assert_eq!(pm.get_right_order(), &["effect", "colorlab", "layers"]);
    assert!(pm.get_left_order().is_empty());
    check(&pm);
}

#[test]
fn dock_returns_floating_only_to_main_without_sidebar() {
    let mut pm = PanelManager::new();
    pm.undock("preview").unwrap();
    let label = pm.dock("preview", DockSide::Left, 0).unwrap().expect("window label");
    assert_eq!(label, "panel-preview");
    let preview = pm.panel("preview").unwrap();
    assert!(preview.docked);
    assert!(preview.dock_side.is_none());
    assert!(preview.window_label.is_none());
    assert!(!pm.get_left_order().iter().any(|id| id == "preview"));
    assert!(!pm.get_right_order().iter().any(|id| id == "preview"));

    pm.undock("preferences").unwrap();
    pm.dock("preferences", DockSide::Right, 0).unwrap();
    let prefs = pm.panel("preferences").unwrap();
    assert!(prefs.docked);
    assert!(prefs.dock_side.is_none());
    check(&pm);
}

#[test]
fn move_to_side_may_empty_a_side() {
    let mut pm = PanelManager::new();
    pm.move_to_side("effect", DockSide::Left, usize::MAX).unwrap();
    pm.move_to_side("colorlab", DockSide::Left, usize::MAX).unwrap();
    assert_eq!(pm.get_left_order(), &["layers", "effect", "colorlab"]);
    assert!(pm.get_right_order().is_empty());
    check(&pm);
}

#[test]
fn move_to_side_rejects_floating() {
    let mut pm = PanelManager::new();
    pm.undock("layers").unwrap();
    let err = pm.move_to_side("layers", DockSide::Right, 0).unwrap_err();
    assert!(matches!(err, PanelError::NotDocked(_)));
}

#[test]
fn move_all_to_side_preserves_target_then_appends_opposite() {
    let mut pm = PanelManager::new();
    // left: layers; right: effect, colorlab
    pm.move_all_to_side(DockSide::Left).unwrap();
    assert_eq!(pm.get_left_order(), &["layers", "effect", "colorlab"]);
    assert!(pm.get_right_order().is_empty());
    for id in ["layers", "effect", "colorlab"] {
        assert_eq!(pm.panel(id).unwrap().dock_side, Some(DockSide::Left));
    }
    check(&pm);

    pm.move_all_to_side(DockSide::Right).unwrap();
    assert!(pm.get_left_order().is_empty());
    assert_eq!(pm.get_right_order(), &["layers", "effect", "colorlab"]);
    check(&pm);
}

#[test]
fn swap_sides_exchanges_orders_and_dock_sides() {
    let mut pm = PanelManager::new();
    assert_eq!(pm.get_left_order(), &["layers"]);
    assert_eq!(pm.get_right_order(), &["effect", "colorlab"]);
    pm.swap_sides();
    assert_eq!(pm.get_left_order(), &["effect", "colorlab"]);
    assert_eq!(pm.get_right_order(), &["layers"]);
    assert_eq!(pm.panel("layers").unwrap().dock_side, Some(DockSide::Right));
    assert_eq!(pm.panel("effect").unwrap().dock_side, Some(DockSide::Left));
    assert_eq!(pm.panel("colorlab").unwrap().dock_side, Some(DockSide::Left));
    check(&pm);
    pm.swap_sides();
    assert_eq!(pm.get_left_order(), &["layers"]);
    assert_eq!(pm.get_right_order(), &["effect", "colorlab"]);
    check(&pm);
}

#[test]
fn move_all_to_side_ignores_floating() {
    let mut pm = PanelManager::new();
    pm.undock("colorlab").unwrap();
    pm.move_all_to_side(DockSide::Left).unwrap();
    assert_eq!(pm.get_left_order(), &["layers", "effect"]);
    assert!(pm.get_right_order().is_empty());
    assert!(!pm.panel("colorlab").unwrap().docked);
    assert!(pm.panel("colorlab").unwrap().dock_side.is_none());
    check(&pm);
}

#[test]
fn reorder_side_isolates_sides() {
    let mut pm = PanelManager::new();
    pm.reorder_side(DockSide::Right, vec!["colorlab".into(), "effect".into()]).unwrap();
    assert_eq!(pm.get_right_order(), &["colorlab", "effect"]);
    assert_eq!(pm.get_left_order(), &["layers"]);
    check(&pm);
}

#[test]
fn reorder_side_rejects_invalid_permutation() {
    let mut pm = PanelManager::new();
    // Wrong members (includes left panel)
    let err = pm.reorder_side(DockSide::Right, vec!["layers".into(), "effect".into()]).unwrap_err();
    assert!(matches!(err, PanelError::InvalidOrder(_)));

    // Wrong length
    let err = pm.reorder_side(DockSide::Right, vec!["effect".into()]).unwrap_err();
    assert!(matches!(err, PanelError::InvalidOrder(_)));
}

#[test]
fn hide_keeps_side_and_order() {
    let mut pm = PanelManager::new();
    pm.hide_panel("layers").unwrap();
    assert!(!pm.panel("layers").unwrap().visible);
    assert_eq!(pm.panel("layers").unwrap().dock_side, Some(DockSide::Left));
    assert_eq!(pm.get_left_order(), &["layers"]);
    pm.show("layers").unwrap();
    assert!(pm.panel("layers").unwrap().visible);
    assert_eq!(pm.get_left_order(), &["layers"]);
    check(&pm);
}

#[test]
fn move_to_dock_insert_index_scoped_to_side() {
    let mut pm = PanelManager::new();
    // Move layers onto right among visible docked (effect, colorlab).
    pm.move_to_dock_insert_index("layers", DockSide::Right, 1).unwrap();
    assert_eq!(pm.get_left_order(), &[] as &[String]);
    let right = pm.get_right_order();
    assert_eq!(right[0], "effect");
    assert_eq!(right[1], "layers");
    assert_eq!(right[2], "colorlab");
    assert_eq!(pm.panel("layers").unwrap().dock_side, Some(DockSide::Right));
    check(&pm);
}

#[test]
fn dock_from_floating_places_on_side() {
    let mut pm = PanelManager::new();
    pm.undock("colorlab").unwrap();
    pm.dock("colorlab", DockSide::Left, 0).unwrap();
    assert_eq!(pm.get_left_order(), &["colorlab", "layers"]);
    assert_eq!(pm.get_right_order(), &["effect"]);
    check(&pm);
}

#[test]
fn move_to_dock_insert_index_rejects_floating() {
    let mut pm = PanelManager::new();
    pm.undock("layers").unwrap();
    let err = pm.move_to_dock_insert_index("layers", DockSide::Right, 0).unwrap_err();
    assert!(matches!(err, PanelError::NotDocked(_)));
}

#[test]
fn single_stack_all_three_left_or_right() {
    let mut pm = PanelManager::new();
    pm.move_all_to_side(DockSide::Left).unwrap();
    assert_eq!(pm.get_left_order().len(), 3);
    assert!(pm.get_right_order().is_empty());
    check(&pm);

    pm.move_all_to_side(DockSide::Right).unwrap();
    assert_eq!(pm.get_right_order().len(), 3);
    assert!(pm.get_left_order().is_empty());
    check(&pm);
}

#[test]
fn empty_side_orders_are_valid() {
    let mut pm = PanelManager::new();
    pm.move_all_to_side(DockSide::Right).unwrap();
    assert!(pm.get_left_order().is_empty());
    assert!(PanelManager::is_valid_side_orders(
        pm.get_left_order(),
        pm.get_right_order(),
        &pm.get_state()
    ));
}

#[test]
fn new_initializes_five_panels() {
    let pm = PanelManager::new();
    let state = pm.get_state();
    assert_eq!(state.len(), 5);
    for panel in &state {
        assert!(panel.docked);
        assert!(panel.visible);
        assert!(panel.window_label.is_none());
        assert!(panel.saved_bounds.is_none());
    }
}

#[test]
fn validate_panel_id_rejects_unknown() {
    let pm = PanelManager::new();
    assert!(pm.validate_panel_id("effect").is_ok());
    assert!(pm.validate_panel_id("unknown").is_err());
}

#[test]
fn undock_already_floating_returns_already_floating() {
    let mut pm = PanelManager::new();
    pm.undock("layers").unwrap();
    let result = pm.undock("layers").unwrap();
    assert!(result.already_floating);
    assert_eq!(result.window_label, "panel-layers");
}

#[test]
fn undock_preserves_saved_bounds() {
    let mut pm = PanelManager::new();
    let bounds = SavedBounds { x: 100, y: 200, width: 400, height: 600 };
    pm.update_bounds("effect", bounds.clone()).unwrap();
    let result = pm.undock("effect").unwrap();
    assert_eq!(result.bounds, Some(bounds));
}

#[test]
fn dock_preserves_visible_and_saved_bounds() {
    let mut pm = PanelManager::new();
    let bounds = SavedBounds { x: 50, y: 60, width: 300, height: 400 };
    pm.update_bounds("effect", bounds.clone()).unwrap();
    pm.hide_panel("effect").unwrap();
    pm.undock("effect").unwrap();
    pm.dock("effect", DockSide::Right, usize::MAX).unwrap();

    let panel = pm.panel("effect").unwrap();
    assert!(!panel.visible);
    assert_eq!(panel.saved_bounds, Some(bounds));
    assert_eq!(panel.dock_side, Some(DockSide::Right));
}

#[test]
fn hide_already_hidden_returns_false() {
    let mut pm = PanelManager::new();
    pm.hide_panel("effect").unwrap();
    assert!(!pm.hide_panel("effect").unwrap());
}

#[test]
fn show_already_visible_returns_false() {
    let mut pm = PanelManager::new();
    assert!(!pm.show("layers").unwrap());
}

#[test]
fn from_persisted_restores_dual_orders() {
    let panels = vec![
        PanelInfo {
            id: "effect".to_string(),
            docked: false,
            visible: true,
            window_label: Some("panel-effect".to_string()),
            saved_bounds: Some(SavedBounds { x: 100, y: 200, width: 400, height: 600 }),
            dock_side: None,
        },
        PanelInfo {
            id: "layers".to_string(),
            docked: true,
            visible: false,
            window_label: None,
            saved_bounds: None,
            dock_side: Some(DockSide::Left),
        },
        PanelInfo {
            id: "colorlab".to_string(),
            docked: true,
            visible: true,
            window_label: None,
            saved_bounds: None,
            dock_side: Some(DockSide::Right),
        },
    ];
    let pm = PanelManager::from_persisted(
        panels,
        Some(vec!["layers".into()]),
        Some(vec!["colorlab".into()]),
    );
    assert_eq!(pm.get_left_order(), &["layers"]);
    assert_eq!(pm.get_right_order(), &["colorlab"]);
    assert!(!pm.panel("effect").unwrap().docked);
    assert!(!pm.panel("layers").unwrap().visible);
    check(&pm);
}

#[test]
fn from_persisted_ignores_unknown_panels() {
    let panels = vec![PanelInfo {
        id: "unknown_panel".to_string(),
        docked: false,
        visible: true,
        window_label: Some("panel-unknown".to_string()),
        saved_bounds: None,
        dock_side: None,
    }];
    let pm = PanelManager::from_persisted(panels, None, None);
    assert_eq!(pm.get_state().len(), 5);
    assert!(pm.get_state().iter().all(|p| p.id != "unknown_panel"));
}

#[test]
fn from_persisted_invalid_orders_fall_back() {
    let pm = PanelManager::from_persisted(
        vec![],
        Some(vec!["effect".into(), "effect".into()]),
        Some(vec![]),
    );
    // Falls back to default dual layout for docked defaults.
    assert_eq!(pm.get_left_order(), &["layers"]);
    assert_eq!(pm.get_right_order(), &["effect", "colorlab"]);
    check(&pm);
}

#[test]
fn get_state_returns_stable_order() {
    let pm = PanelManager::new();
    let state = pm.get_state();
    assert_eq!(state[0].id, "effect");
    assert_eq!(state[1].id, "layers");
    assert_eq!(state[2].id, "colorlab");
    assert_eq!(state[3].id, "preview");
    assert_eq!(state[4].id, "preferences");
}

#[test]
fn move_to_side_clamps_insert_index() {
    let mut pm = PanelManager::new();
    pm.move_to_side("layers", DockSide::Right, 999).unwrap();
    assert_eq!(pm.get_right_order(), &["effect", "colorlab", "layers"]);
    assert!(pm.get_left_order().is_empty());
    check(&pm);
}

#[test]
fn snapshot_restore_round_trips() {
    let mut pm = PanelManager::new();
    pm.move_to_side("effect", DockSide::Left, 0).unwrap();
    pm.undock("colorlab").unwrap();
    pm.hide_panel("layers").unwrap();
    let snap = pm.serialize();
    let restored = PanelManager::from_persisted(
        snap.panels.clone(),
        Some(snap.left_order.clone()),
        Some(snap.right_order.clone()),
    );
    assert_eq!(restored.get_state(), pm.get_state());
    assert_eq!(restored.get_left_order(), pm.get_left_order());
    assert_eq!(restored.get_right_order(), pm.get_right_order());
    check(&restored);
}

#[test]
fn undock_then_redock_returns_to_remembered_side() {
    let mut pm = PanelManager::new();
    pm.undock("effect").unwrap();
    assert_eq!(pm.get_right_order(), &["colorlab"]);
    let side = pm.remembered_dock_side("effect");
    assert_eq!(side, DockSide::Right);
    pm.dock("effect", side, 0).unwrap();
    assert_eq!(pm.get_right_order(), &["effect", "colorlab"]);
    assert_eq!(pm.panel("effect").unwrap().dock_side, Some(DockSide::Right));
    check(&pm);
}

#[test]
fn undock_floating_only_and_errors() {
    let mut pm = PanelManager::new();
    let r = pm.undock("preview").unwrap();
    assert_eq!(r.window_label, "panel-preview");
    assert_eq!(r.url, "index.html?panel=preview");
    assert!(r.previous_dock_side.is_none());
    assert!(matches!(pm.undock("nope"), Err(PanelError::UnknownPanel(_))));
    assert!(matches!(pm.move_to_side("preview", DockSide::Left, 0), Err(PanelError::FloatingOnly(_))));
    assert!(matches!(pm.hide_panel("nope"), Err(PanelError::UnknownPanel(_))));
    check(&pm);
}

#[test]
fn opposite_side_flips() {
    assert_eq!(DockSide::Left.opposite(), DockSide::Right);
    assert_eq!(DockSide::Right.opposite(), DockSide::Left);
}
