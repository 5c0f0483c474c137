# dither_panels

Verified core of the Dither desktop shell's window management, written in
Verus.

- `src/panel_manager.rs` — the dual-sidebar panel model (dock, undock, move,
  reorder, swap, hide/show, restore from a snapshot) with its invariants and
  laws.
- `src/placement.rs` — placement of floating windows on monitors (off-screen
  correction, centering, clamping) and its laws.
- `src/panel_commands.rs`, `src/commands/panels.rs` — per-panel window sizes,
  completion of drag-to-redock, and small parsers.
- `src/tile_grid.rs` — the tile grid of a document and the bounds check of
  tile requests.
- `src/dock_affinity.rs` — the drag-to-redock session and its event rules.
- `src/panel_persistence.rs`, `src/flexlayout_persistence.rs` — migration of
  old panel files and the layout-file rules.
- `src/document_session.rs` — tab titles, tab order, and the tab activated
  when one closes.
- `src/pattern_library.rs` — display names, name checks, new ids and the
  listing order of the user pattern library.
- `src/memory_budget.rs`, `src/journal/runtime.rs`,
  `src/diffusion_waiters.rs`, `src/commands/` — RAM budget, journal
  scheduling (a step function from event to action), pending diffusion
  waiters and the skip counter,
  document-size and colour-argument checks.
- `app/` — the unverified shell around it: file I/O, serde copies of the
  library types, the floating-point hit-testing, and `main`.
- `tests/` — the scenarios, run against the compiled library.
