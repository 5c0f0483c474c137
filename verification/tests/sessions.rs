use dither_panels::diffusion_waiters::{
    CacheStage, DiffusionSkipCounter, PendingDiffusionWaiters, TileCoord, TileKey,
};
use dither_panels::dock_affinity::{DockAffinityController, SidebarSide};
use dither_panels::journal::runtime::{JournalAction, JournalEvent, JournalRuntime, HEARTBEAT_MS};
use dither_panels::panel_commands::{complete_float_drag, dock_panel_at};
use dither_panels::panel_manager::{DockSide, PanelError, PanelManager};

#[test]
fn skip_counter_increments() {
    let c = DiffusionSkipCounter::new();
    assert_eq!(c.get(), 0);
    c.increment();
    c.increment();
    assert_eq!(c.get(), 2);
    c.reset();
    assert_eq!(c.get(), 0);
}

#[test]
fn floating_only_begin_rejected() {
    let mut c = DockAffinityController::new(true);
    assert!(!c.begin("preview"));
    assert!(!c.begin("preferences"));
    assert!(c.begin("colorlab"));
    assert!(c.session.is_some());
}

#[test]
fn disabled_controller_rejects_begin() {
    let mut c = DockAffinityController::new(false);
    assert!(!c.begin("layers"));
    assert!(c.session.is_none());
}

#[test]
fn end_session_emits_disarm() {
    let mut c = DockAffinityController::new(true);
    assert!(c.begin("layers"));
    let ev = c.end_session().unwrap();
    assert_eq!(ev.panel_id, "layers");
    assert!(!ev.armed);
    assert!(ev.insert_index.is_none());
    assert!(ev.side.is_none());
    assert!(c.session.is_none());
    assert!(c.cancel().is_none());
}

#[test]
fn recorded_hits_emit_only_on_change() {
    let mut c = DockAffinityController::new(true);
    assert!(c.record_hit(true, true, 0, Some(SidebarSide::Right)).is_none());
    assert!(c.begin("effect"));
    let e1 = c.record_hit(true, true, 1, Some(SidebarSide::Right)).unwrap();
    assert!(e1.armed);
    assert_eq!(e1.insert_index, Some(1));
    assert_eq!(e1.side, Some(SidebarSide::Right));
    assert!(c.record_hit(true, true, 1, Some(SidebarSide::Right)).is_none());
    let e3 = c.record_hit(false, false, 0, None).unwrap();
    assert!(!e3.armed);
    assert!(e3.side.is_none());
    assert!(e3.insert_index.is_none());
}

#[test]
fn disarmed_hit_hides_index_and_side() {
    let mut c = DockAffinityController::new(true);
    assert!(c.begin("effect"));
    let e = c.record_hit(true, false, 2, Some(SidebarSide::Left)).unwrap();
    assert!(!e.armed);
    assert!(e.insert_index.is_none());
    assert!(e.side.is_none());
}

#[test]
fn session_snapshot_includes_side() {
    let mut c = DockAffinityController::new(true);
    assert!(c.begin("layers"));
    let _ = c.record_hit(true, true, 0, Some(SidebarSide::Left));
    let snap = c.session_snapshot().unwrap();
    assert_eq!(snap.0, "layers");
    assert!(snap.1);
    assert_eq!(snap.2, 0);
    assert_eq!(snap.3, Some(SidebarSide::Left));
}

#[test]
fn journal_generation_bumps_and_isolates_docs() {
    let mut rt = JournalRuntime::disabled();
    assert_eq!(rt.current_generation(7), 0);
    let g1 = rt.bump_generation(7);
    assert_eq!(g1, 1);
    assert_eq!(rt.current_generation(7), 1);
    let g2 = rt.bump_generation(7);
    assert_eq!(g2, 2);
    assert_ne!(rt.current_generation(7), g1);
    assert_eq!(rt.current_generation(8), 0);
}

#[test]
fn journal_flush_is_recorded() {
    let mut rt = JournalRuntime::disabled();
    assert!(rt.last_flush(3).is_none());
    rt.note_flushed(3);
    let first = rt.last_flush(3).unwrap();
    assert!(rt.last_flush(4).is_none());
    rt.note_flushed(4);
    assert_eq!(rt.last_flush(3), Some(first));
    assert!(rt.last_flush(4).unwrap() >= first);
}

#[test]
fn journal_heartbeat_needs_recovery_dir_and_starts_once() {
    let mut rt = JournalRuntime::disabled();
    assert!(!rt.claim_heartbeat());
    rt.recovery_dir = Some(std::path::PathBuf::from("/tmp/recovery"));
    assert!(rt.claim_heartbeat());
    assert!(!rt.claim_heartbeat());
}

#[test]
fn completed_drag_moves_docked_panel_to_armed_side() {
    let mut pm = PanelManager::new();
    let mut c = DockAffinityController::new(true);
    assert!(c.begin("layers"));
    let _ = c.record_hit(true, true, 1, Some(SidebarSide::Right));
    let done = complete_float_drag(&mut c, &mut pm);
    assert!(done.window_to_close.is_none());
    assert!(done.dock_error.is_none());
    let ev = done.end_event.unwrap();
    assert_eq!(ev.panel_id, "layers");
    assert!(!ev.armed);
    assert!(c.session.is_none());
    assert_eq!(pm.get_right_order(), &["effect", "layers", "colorlab"]);
    assert!(pm.get_left_order().is_empty());
    assert_eq!(pm.panel("layers").unwrap().dock_side, Some(DockSide::Right));
}

#[test]
fn completed_drag_docks_floating_panel_and_closes_its_window() {
    let mut pm = PanelManager::new();
    pm.undock("effect").unwrap();
    let mut c = DockAffinityController::new(true);
    assert!(c.begin("effect"));
    let _ = c.record_hit(true, true, 0, Some(SidebarSide::Left));
    let done = complete_float_drag(&mut c, &mut pm);
    assert_eq!(done.window_to_close.as_deref(), Some("panel-effect"));
    assert_eq!(pm.get_left_order(), &["effect", "layers"]);
    assert_eq!(pm.get_right_order(), &["colorlab"]);
    assert!(pm.assert_invariants());
}

#[test]
fn completed_drag_without_arming_changes_nothing() {
    let mut pm = PanelManager::new();
    let mut c = DockAffinityController::new(true);
    let none = complete_float_drag(&mut c, &mut pm);
    assert!(none.end_event.is_none());
    assert!(c.begin("colorlab"));
    let _ = c.record_hit(false, false, 0, None);
    let done = complete_float_drag(&mut c, &mut pm);
    assert!(done.window_to_close.is_none());
    assert!(done.dock_error.is_none());
    assert!(done.end_event.is_some());
    assert_eq!(pm.get_right_order(), &["effect", "colorlab"]);
}

#[test]
fn dock_panel_at_rejects_unknown_and_floating_only() {
    let mut pm = PanelManager::new();
    assert!(matches!(dock_panel_at(&mut pm, "nope", DockSide::Left, 0), Err(PanelError::UnknownPanel(_))));
    assert!(matches!(dock_panel_at(&mut pm, "preview", DockSide::Left, 0), Err(PanelError::FloatingOnly(_))));
    pm.undock("preview").unwrap();
    assert_eq!(dock_panel_at(&mut pm, "preview", DockSide::Left, 0).unwrap().as_deref(), Some("panel-preview"));
    assert!(pm.panel("preview").unwrap().dock_side.is_none());
}

#[test]
fn journal_step_schedules_and_drops_stale_debounces() {
    let mut rt = JournalRuntime::disabled();
    assert_eq!(rt.step(JournalEvent::Edited { doc_id: 1, dirty: true }), JournalAction::Nothing);
    assert_eq!(rt.step(JournalEvent::Edited { doc_id: 1, dirty: false }), JournalAction::DeleteJournal(1));
    rt.recovery_dir = Some(std::path::PathBuf::from("/tmp/recovery"));
    let first = rt.step(JournalEvent::Edited { doc_id: 1, dirty: true });
    assert_eq!(first, JournalAction::ScheduleDebounce { doc_id: 1, generation: 1 });
    let second = rt.step(JournalEvent::Edited { doc_id: 1, dirty: true });
    assert_eq!(second, JournalAction::ScheduleDebounce { doc_id: 1, generation: 2 });
    assert_eq!(
        rt.step(JournalEvent::DebounceElapsed { doc_id: 1, generation: 1, dirty: true }),
        JournalAction::Nothing
    );
    assert_eq!(
        rt.step(JournalEvent::DebounceElapsed { doc_id: 1, generation: 2, dirty: false }),
        JournalAction::Nothing
    );
    assert_eq!(
        rt.step(JournalEvent::DebounceElapsed { doc_id: 1, generation: 2, dirty: true }),
        JournalAction::WriteJournal(1)
    );
}

#[test]
fn journal_heartbeat_rewrites_stale_dirty_journals() {
    let mut rt = JournalRuntime::disabled();
    let tick = |dirty, since| JournalEvent::HeartbeatTick { doc_id: 4, dirty, since_flush_ms: since };
    assert_eq!(rt.step(tick(true, None)), JournalAction::WriteJournal(4));
    assert_eq!(rt.step(tick(true, Some(HEARTBEAT_MS))), JournalAction::WriteJournal(4));
    assert_eq!(rt.step(tick(true, Some(HEARTBEAT_MS - 1))), JournalAction::Nothing);
    assert_eq!(rt.step(tick(false, None)), JournalAction::Nothing);
}

fn raw_key(x: u32, y: u32) -> TileKey {
    TileKey { doc: 1, layer: 1, coord: TileCoord { level: 0, x, y }, stage: CacheStage::Raw }
}

fn processed_key(x: u32, y: u32) -> TileKey {
    TileKey { doc: 1, layer: 1, coord: TileCoord { level: 0, x, y }, stage: CacheStage::Processed }
}

#[test]
fn register_then_wake_returns_waiter() {
    let mut waiters = PendingDiffusionWaiters::new();
    let missing = raw_key(0, 0);
    let waiter = processed_key(1, 0);

    waiters.register(missing, waiter);
    assert_eq!(waiters.pending_key_count(), 1);

    let woken = waiters.wake(&missing);
    assert_eq!(woken, vec![waiter]);
    assert_eq!(waiters.pending_key_count(), 0);

    // Second wake is empty
    assert!(waiters.wake(&missing).is_empty());
}

#[test]
fn multiple_waiters_and_neighbors() {
    let mut waiters = PendingDiffusionWaiters::new();
    let left_raw = raw_key(0, 1);
    let top_raw = raw_key(1, 0);
    let a = processed_key(1, 1);

    waiters.register(left_raw, a);
    waiters.register(top_raw, a);

    let from_left = waiters.wake(&left_raw);
    assert_eq!(from_left, vec![a]);
    // Still waiting on top
    assert_eq!(waiters.pending_key_count(), 1);

    let from_top = waiters.wake(&top_raw);
    assert_eq!(from_top, vec![a]);
    assert_eq!(waiters.pending_key_count(), 0);
}

#[test]
fn duplicate_registrations_and_clear() {
    let mut waiters = PendingDiffusionWaiters::new();
    let raw = raw_key(2, 2);
    waiters.register(raw, processed_key(3, 2));
    waiters.register(raw, processed_key(3, 2));
    waiters.register(raw, processed_key(2, 3));
    assert_eq!(waiters.pending_key_count(), 1);
    waiters.register(raw_key(5, 5), processed_key(6, 5));
    assert_eq!(waiters.pending_key_count(), 2);
    assert_eq!(waiters.wake(&raw), vec![processed_key(3, 2), processed_key(3, 2), processed_key(2, 3)]);
    waiters.clear();
    assert_eq!(waiters.pending_key_count(), 0);
    assert!(waiters.wake(&raw_key(5, 5)).is_empty());
}
