use dither_panels::flexlayout_persistence::{
    json_check_outcome, layout_or_default, resolve_loaded_layout, validate_layout_json,
    FlexLayoutPersistence, LayoutFileRead, LayoutPersistenceError,
};
use dither_panels::panel_manager::{DockSide, PanelInfo};
use dither_panels::panel_persistence::{
    migrate_v1_to_v2, panel_state_schema, panel_state_schema_of, LoadedPanelState,
    PanelStateSchema,
};

fn panel(id: &str, docked: bool, side: Option<DockSide>) -> PanelInfo {
    PanelInfo {
        id: id.into(),
        docked,
        visible: true,
        window_label: None,
        saved_bounds: None,
        dock_side: side,
    }
}

#[test]
fn migrate_v1_helper_assigns_fallback() {
    let panels = vec![PanelInfo {
        id: "layers".into(),
        docked: true,
        visible: true,
        window_label: None,
        saved_bounds: None,
        dock_side: None,
    }];
    let loaded = migrate_v1_to_v2(panels, DockSide::Left);
    assert_eq!(loaded.left_order, vec!["layers"]);
    assert!(loaded.right_order.is_empty());
    assert_eq!(loaded.panels[0].dock_side, Some(DockSide::Left));
}

#[test]
fn migrate_v1_uses_legacy_order_and_clears_others() {
    let panels = vec![
        panel("colorlab", true, None),
        panel("preview", true, Some(DockSide::Left)),
        panel("layers", false, Some(DockSide::Left)),
        panel("effect", true, None),
    ];
    let loaded = migrate_v1_to_v2(panels, DockSide::Right);
    assert!(loaded.left_order.is_empty());
    assert_eq!(loaded.right_order, vec!["effect", "colorlab"]);
    assert_eq!(loaded.panels[0].dock_side, Some(DockSide::Right));
    assert_eq!(loaded.panels[1].dock_side, None);
    assert_eq!(loaded.panels[2].dock_side, None);
    assert_eq!(loaded.panels[3].dock_side, Some(DockSide::Right));
}

#[test]
fn migrate_v1_touches_only_first_duplicate() {
    let panels = vec![panel("effect", true, None), panel("effect", true, Some(DockSide::Left))];
    let loaded = migrate_v1_to_v2(panels, DockSide::Right);
    assert_eq!(loaded.right_order, vec!["effect"]);
    assert_eq!(loaded.panels[0].dock_side, Some(DockSide::Right));
    assert_eq!(loaded.panels[1].dock_side, Some(DockSide::Left));
}

#[test]
fn loaded_state_serializes_unchanged() {
    let loaded = LoadedPanelState {
        panels: vec![panel("layers", true, Some(DockSide::Left))],
        left_order: vec!["layers".into()],
        right_order: vec![],
    };
    let s = loaded.clone().into_serialized();
    assert_eq!(s.panels, loaded.panels);
    assert_eq!(s.left_order, loaded.left_order);
    assert_eq!(s.right_order, loaded.right_order);
}

#[test]
fn default_layout_is_pretty_v3_with_layers() {
    let json = FlexLayoutPersistence::default_layout_json();
    assert!(json.contains("\"version\": 3"));
    assert!(json.contains("Layers"));
    assert!(json.contains("tab-layers"));
    let value: serde_json::Value = serde_json::from_str(&json).unwrap();
    assert_eq!(value["version"], 3);
    assert_eq!(value["root"]["type"], "border");
}

#[test]
fn reset_to_default_returns_v3() {
    let p = FlexLayoutPersistence::new(std::path::PathBuf::from("/tmp/app"));
    let result = p.reset_to_default().unwrap();
    assert!(result.contains("\"version\": 3"));
    assert_eq!(p.filename(), "flexlayout_state.json");
    let q = FlexLayoutPersistence::with_filename(std::path::PathBuf::from("/tmp/app"), "flexlayout_left.json");
    assert_eq!(q.filename(), "flexlayout_left.json");
    assert_eq!(q.app_data_dir(), &std::path::PathBuf::from("/tmp/app"));
}

#[test]
fn layout_validation_rejects_bad_json() {
    assert!(validate_layout_json("{\"version\": 3}").is_ok());
    match validate_layout_json("not json") {
        Err(LayoutPersistenceError::InvalidJson(m)) => assert!(m.starts_with("invalid layout json: ")),
        other => panic!("unexpected {other:?}"),
    }
    match json_check_outcome(Some("boom".into())) {
        Err(LayoutPersistenceError::InvalidJson(m)) => assert_eq!(m, "invalid layout json: boom"),
        other => panic!("unexpected {other:?}"),
    }
    assert!(json_check_outcome(None).is_ok());
}

#[test]
fn loaded_layout_falls_back_gracefully() {
    let default = FlexLayoutPersistence::default_layout_json();
    assert_eq!(resolve_loaded_layout(false, LayoutFileRead::NotFound).unwrap(), default);
    assert_eq!(resolve_loaded_layout(false, LayoutFileRead::Contents("{oops".into())).unwrap(), default);
    assert_eq!(resolve_loaded_layout(false, LayoutFileRead::Contents("".into())).unwrap(), default);
    let stored = "{\"version\": 3, \"root\": {}}".to_string();
    assert_eq!(resolve_loaded_layout(false, LayoutFileRead::Contents(stored.clone())).unwrap(), stored);
    match resolve_loaded_layout(false, LayoutFileRead::Failed("denied".into())) {
        Err(e) => assert_eq!(e.message(), "read error: failed to read layout file: denied"),
        Ok(_) => panic!("expected a read error"),
    }
    assert_eq!(resolve_loaded_layout(true, LayoutFileRead::Failed("denied".into())).unwrap(), default);
    assert_eq!(layout_or_default("x".into(), true), "x");
    assert_eq!(layout_or_default("x".into(), false), default);
}

#[test]
fn empty_json_falls_back_to_default() {
    let loaded = resolve_loaded_layout(false, LayoutFileRead::Contents("{}".into())).unwrap();
    assert!(loaded.contains("\"version\": 3"));
}

#[test]
fn layout_without_version_three_or_root_falls_back() {
    let default = FlexLayoutPersistence::default_layout_json();
    for text in ["{\"version\": 2, \"root\": {}}", "{\"version\": 3}", "{\"version\": 3.0, \"root\": {}}", "[3]"] {
        assert_eq!(resolve_loaded_layout(false, LayoutFileRead::Contents(text.into())).unwrap(), default, "{text}");
    }
}

#[test]
fn v2_file_detection_returns_default_v3() {
    let loaded = resolve_loaded_layout(true, LayoutFileRead::NotFound).unwrap();
    assert!(loaded.contains("\"version\": 3"));
    assert!(!loaded.contains("\"version\": 2"));
}

#[test]
fn v2_file_exists_with_v3_file_prefers_v3() {
    let v3_layout = r#"{"version": 3, "root": {"type": "border", "id": "root-custom"}}"#;
    let loaded = resolve_loaded_layout(true, LayoutFileRead::Contents(v3_layout.into())).unwrap();
    assert!(loaded.contains("root-custom"));
    assert_eq!(loaded, v3_layout);
}

#[test]
fn panel_state_schema_by_version() {
    assert_eq!(panel_state_schema(1).unwrap(), PanelStateSchema::V1);
    assert_eq!(panel_state_schema(2).unwrap(), PanelStateSchema::V2);
    assert_eq!(
        panel_state_schema(99).unwrap_err(),
        "unsupported panel state version 99 (expected 1 or 2)"
    );
}

#[test]
fn panel_state_schema_from_text() {
    assert_eq!(panel_state_schema_of("{\"version\": 1, \"panels\": []}").unwrap(), PanelStateSchema::V1);
    assert_eq!(panel_state_schema_of("{\"version\": 2}").unwrap(), PanelStateSchema::V2);
    assert_eq!(panel_state_schema_of("{\"panels\": []}").unwrap_err(), "missing version field");
    assert_eq!(panel_state_schema_of("{\"version\": \"2\"}").unwrap_err(), "missing version field");
    assert_eq!(
        panel_state_schema_of("{\"version\": 7}").unwrap_err(),
        "unsupported panel state version 7 (expected 1 or 2)"
    );
    // The version is read as u32, as the loader always did: 2^32 + 2 reads as 2.
    assert_eq!(panel_state_schema_of("{\"version\": 4294967298}").unwrap(), PanelStateSchema::V2);
    assert!(panel_state_schema_of("not json").unwrap_err().starts_with("invalid JSON: "));
}
