//! Panel layout, docking and session rules of the Dither desktop shell.
pub mod commands;
pub mod diffusion_waiters;
pub mod dock_affinity;
pub mod document_session;
pub mod flexlayout_persistence;
pub mod geometry;
pub mod journal;
pub mod memory_budget;
pub mod panel_commands;
pub mod panel_manager;
pub mod panel_persistence;
pub mod pattern_library;
pub mod placement;
pub mod platform;
pub mod text;
pub mod tile_grid;
