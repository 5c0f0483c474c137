//! Debounce and heartbeat bookkeeping for dirty-document journals.
//!
//! Every edit of a dirty document bumps that document's schedule
//! generation; a debounce task that wakes up later writes the journal only
//! when its generation is still the current one, so stale tasks do nothing.
//! The timers, the tasks and the file writes belong to the caller.
use std::collections::HashMap;
use std::path::PathBuf;
use std::time::Instant;

use vstd::prelude::*;

verus! {

broadcast use vstd::std_specs::hash::group_hash_axioms;

/// Calls `std::time::Instant::now`: a reading of the monotonic clock.
/// Nothing is claimed of the reading.
#[verifier::external_body]
fn instant_now() -> (r: Instant) {
    Instant::now()
}

/// Journal scheduling state shared by the debounce tasks and the heartbeat.
#[derive(Debug, Default)]
pub struct JournalRuntime {
    pub recovery_dir: Option<PathBuf>,
    /// Per-document schedule generation; stale debounce tasks do nothing.
    generations: HashMap<u32, u64>,
    last_flush: HashMap<u32, Instant>,
    heartbeat_started: bool,
}

/// Mathematical value of a [`JournalRuntime`].
pub struct RuntimeView {
    pub has_recovery_dir: bool,
    /// Schedule generation per document that has one.
    pub generations: Map<u32, u64>,
    /// When each document's journal was last written, for the documents
    /// written at least once.
    pub flushes: Map<u32, Instant>,
    pub heartbeat_started: bool,
}

impl View for JournalRuntime {
    type V = RuntimeView;

    closed spec fn view(&self) -> RuntimeView {
        RuntimeView {
            has_recovery_dir: self.recovery_dir is Some,
            generations: self.generations@,
            flushes: self.last_flush@,
            heartbeat_started: self.heartbeat_started,
        }
    }
}

/// Schedule generation of `doc_id`; 0 before the first bump.
pub open spec fn generation_of(v: RuntimeView, doc_id: u32) -> u64 {
    if v.generations.contains_key(doc_id) {
        v.generations[doc_id]
    } else {
        0
    }
}

/// The generation that follows `g` (wrapping at `u64::MAX`).
pub open spec fn next_generation(g: u64) -> u64 {
    if g == u64::MAX {
        0
    } else {
        (g + 1) as u64
    }
}

/// State after bumping the generation of `doc_id`.
pub open spec fn bumped(v: RuntimeView, doc_id: u32) -> RuntimeView {
    RuntimeView {
        generations: v.generations.insert(doc_id, next_generation(generation_of(v, doc_id))),
        ..v
    }
}

/// Whether the heartbeat is to be started now: a recovery directory is set
/// and no heartbeat runs yet.
pub open spec fn heartbeat_due(v: RuntimeView) -> bool {
    v.has_recovery_dir && !v.heartbeat_started
}

impl JournalRuntime {
    /// No recovery directory, nothing scheduled, nothing flushed.
    pub fn disabled() -> (r: Self)
        ensures
            !r@.has_recovery_dir,
            r@.generations == Map::<u32, u64>::empty(),
            r@.flushes == Map::<u32, Instant>::empty(),
            !r@.heartbeat_started,
    {
        JournalRuntime {
            recovery_dir: None,
            generations: HashMap::new(),
            last_flush: HashMap::new(),
            heartbeat_started: false,
        }
    }

    /// Record that the journal of `doc_id` was just written: its write time
    /// becomes a fresh clock reading; every other document keeps its own.
    pub fn note_flushed(&mut self, doc_id: u32)
        ensures
            final(self)@.flushes.contains_key(doc_id),
            final(self)@ == (RuntimeView {
                flushes: old(self)@.flushes.insert(doc_id, final(self)@.flushes[doc_id]),
                ..old(self)@
            }),
    {
        let now = instant_now();
        self.last_flush.insert(doc_id, now);
        proof {
            assert(self@.flushes =~= old(self)@.flushes.insert(doc_id, now));
        }
    }

    /// Advance the schedule generation of `doc_id` and return the new one.
    pub fn bump_generation(&mut self, doc_id: u32) -> (g: u64)
        ensures
            g == next_generation(generation_of(old(self)@, doc_id)),
            final(self)@ == bumped(old(self)@, doc_id),
    {
        let cur = self.current_generation(doc_id);
        let g = cur.wrapping_add(1);
        self.generations.insert(doc_id, g);
        g
    }

    /// The schedule generation of `doc_id`; 0 before the first bump.
    pub fn current_generation(&self, doc_id: u32) -> (g: u64)
        ensures
            g == generation_of(self@, doc_id),
    {
        match self.generations.get(&doc_id) {
            Some(g) => *g,
            None => 0,
        }
    }

    /// When the journal of `doc_id` was last written, if ever.
    pub fn last_flush(&self, doc_id: u32) -> (r: Option<Instant>)
        ensures
            r == (if self@.flushes.contains_key(doc_id) {
                Some(self@.flushes[doc_id])
            } else {
                None
            }),
    {
        match self.last_flush.get(&doc_id) {
            Some(t) => Some(*t),
            None => None,
        }
    }

    /// Claim the start of the heartbeat: true (and the heartbeat is marked as
    /// running) only when a recovery directory is set and no heartbeat runs yet.
    pub fn claim_heartbeat(&mut self) -> (r: bool)
        ensures
            r == heartbeat_due(old(self)@),
            final(self)@ == (RuntimeView {
                heartbeat_started: old(self)@.heartbeat_started || r,
                ..old(self)@
            }),
    {
        if self.heartbeat_started || self.recovery_dir.is_none() {
            return false;
        }
        self.heartbeat_started = true;
        true
    }
}

/// Debounce delay before a dirty document's journal is written, in ms.
pub const DEBOUNCE_MS: u64 = 3000;

/// Interval of the heartbeat that rewrites stale journals, in ms.
pub const HEARTBEAT_MS: u64 = 30000;

/// What happened to a document, as the journal scheduler sees it.
#[derive(Debug, Clone, Copy, PartialEq, Eq, Structural)]
pub enum JournalEvent {
    /// The document was edited; `dirty` tells whether it now differs from
    /// its saved state.
    Edited { doc_id: u32, dirty: bool },
    /// A debounce timer started for `generation` ran out; `dirty` as now.
    DebounceElapsed { doc_id: u32, generation: u64, dirty: bool },
    /// The heartbeat looked at the document: whether it is dirty, and the
    /// time since its journal was last written (`None` if never).
    HeartbeatTick { doc_id: u32, dirty: bool, since_flush_ms: Option<u64> },
}

/// What the scheduler asks the caller to do next.
#[derive(Debug, Clone, Copy, PartialEq, Eq, Structural)]
pub enum JournalAction {
    /// Nothing to do.
    Nothing,
    /// The document is clean again: delete its journal.
    DeleteJournal(u32),
    /// Start a debounce timer of `DEBOUNCE_MS` that reports `generation`.
    ScheduleDebounce { doc_id: u32, generation: u64 },
    /// Write the document's journal now.
    WriteJournal(u32),
}

/// One step of the journal scheduler: the next state and the action.
/// - An edit that leaves the document clean deletes its journal; an edit of
///   a dirty document, when a recovery directory is set, bumps its
///   generation and schedules a debounce for the new generation.
/// - A debounce that ran out writes the journal only when its generation is
///   still the current one and the document is still dirty.
/// - The heartbeat writes the journal of a dirty document that was never
///   written or was last written at least `HEARTBEAT_MS` ago.
pub open spec fn journal_step(v: RuntimeView, e: JournalEvent) -> (RuntimeView, JournalAction) {
    match e {
        JournalEvent::Edited { doc_id, dirty } => if !dirty {
            (v, JournalAction::DeleteJournal(doc_id))
        } else if !v.has_recovery_dir {
            (v, JournalAction::Nothing)
        } else {
            (
                bumped(v, doc_id),
                JournalAction::ScheduleDebounce {
                    doc_id,
                    generation: next_generation(generation_of(v, doc_id)),
                },
            )
        },
        JournalEvent::DebounceElapsed { doc_id, generation, dirty } => if generation_of(v, doc_id)
            == generation && dirty {
            (v, JournalAction::WriteJournal(doc_id))
        } else {
            (v, JournalAction::Nothing)
        },
        JournalEvent::HeartbeatTick { doc_id, dirty, since_flush_ms } => if dirty && match since_flush_ms {
            Some(ms) => ms >= HEARTBEAT_MS,
            None => true,
        } {
            (v, JournalAction::WriteJournal(doc_id))
        } else {
            (v, JournalAction::Nothing)
        },
    }
}

impl JournalRuntime {
    /// Advance the journal scheduler by one event (see [`journal_step`]).
    pub fn step(&mut self, event: JournalEvent) -> (a: JournalAction)
        ensures
            (final(self)@, a) == journal_step(old(self)@, event),
    {
        match event {
            JournalEvent::Edited { doc_id, dirty } => {
                if !dirty {
                    JournalAction::DeleteJournal(doc_id)
                } else if self.recovery_dir.is_none() {
                    JournalAction::Nothing
                } else {
                    let generation = self.bump_generation(doc_id);
                    JournalAction::ScheduleDebounce { doc_id, generation }
                }
            },
            JournalEvent::DebounceElapsed { doc_id, generation, dirty } => {
                if self.current_generation(doc_id) == generation && dirty {
                    JournalAction::WriteJournal(doc_id)
                } else {
                    JournalAction::Nothing
                }
            },
            JournalEvent::HeartbeatTick { doc_id, dirty, since_flush_ms } => {
                let stale = match since_flush_ms {
                    Some(ms) => ms >= HEARTBEAT_MS,
                    None => true,
                };
                if dirty && stale {
                    JournalAction::WriteJournal(doc_id)
                } else {
                    JournalAction::Nothing
                }
            },
        }
    }
}

/// A debounce scheduled by an edit is stale once the document is edited
/// again: when it runs out, nothing is written.
pub proof fn law_debounce_after_later_edit_is_silent(v: RuntimeView, doc_id: u32, dirty: bool)
    requires
        v.has_recovery_dir,
    ensures
        ({
            let (v1, a1) = journal_step(v, JournalEvent::Edited { doc_id, dirty: true });
            let (v2, _) = journal_step(v1, JournalEvent::Edited { doc_id, dirty: true });
            a1 matches JournalAction::ScheduleDebounce { generation, .. } && journal_step(
                v2,
                JournalEvent::DebounceElapsed { doc_id, generation, dirty },
            ).1 == JournalAction::Nothing
        }),
{
}

/// The debounce of the latest edit of a document that is still dirty writes
/// its journal.
pub proof fn law_latest_debounce_writes(v: RuntimeView, doc_id: u32)
    requires
        v.has_recovery_dir,
    ensures
        ({
            let (v1, a1) = journal_step(v, JournalEvent::Edited { doc_id, dirty: true });
            a1 matches JournalAction::ScheduleDebounce { generation, .. } && journal_step(
                v1,
                JournalEvent::DebounceElapsed { doc_id, generation, dirty: true },
            ).1 == JournalAction::WriteJournal(doc_id)
        }),
{
}

/// Only edits that leave the document dirty, with a recovery directory set,
/// change the scheduler's state.
pub proof fn law_step_changes_state_only_on_dirty_edit(v: RuntimeView, e: JournalEvent)
    requires
        !(e matches JournalEvent::Edited { dirty, .. } && dirty && v.has_recovery_dir),
    ensures
        journal_step(v, e).0 == v,
{
}

/// After a bump, the current generation of the document is the one the bump
/// returned.
pub proof fn law_bump_then_current(v: RuntimeView, doc_id: u32)
    ensures
        generation_of(bumped(v, doc_id), doc_id) == next_generation(generation_of(v, doc_id)),
{
}

/// A debounce task scheduled before a later bump of the same document is
/// stale: its generation is no longer the current one.
pub proof fn law_later_bump_makes_task_stale(v: RuntimeView, doc_id: u32)
    ensures
        generation_of(bumped(bumped(v, doc_id), doc_id), doc_id) != generation_of(
            bumped(v, doc_id),
            doc_id,
        ),
{
}

/// Bumping one document leaves the generation of every other document as it was.
pub proof fn law_bump_is_per_document(v: RuntimeView, doc_id: u32, other: u32)
    requires
        other != doc_id,
    ensures
        generation_of(bumped(v, doc_id), other) == generation_of(v, other),
{
}

/// The heartbeat is claimed at most once.
pub proof fn law_heartbeat_claimed_once(v: RuntimeView)
    requires
        heartbeat_due(v),
    ensures
        !heartbeat_due(RuntimeView { heartbeat_started: true, ..v }),
{
}

} // verus!
