//! Pending diffusion waiters and the diagnostic counter of recursion skips.
//!
//! When dependency enforcement would skip left/top recursion because a
//! neighbouring raw tile is absent, the processed tile being computed is
//! registered under that raw tile; when the raw tile appears, its waiters are
//! woken. The caller keeps the registry behind its lock.
//!
//! The skip counter is an atomic shared between threads, so no value can be
//! promised of a read: any other thread may have changed it in between.
use vstd::prelude::*;

verus! {

/// Stage of a cached tile.
#[derive(Debug, Clone, Copy, PartialEq, Eq, Hash, Structural)]
pub enum CacheStage {
    Raw,
    Processed,
    Composite,
}

/// Position of a tile in the pyramid.
#[derive(Debug, Clone, Copy, PartialEq, Eq, Hash, Structural)]
pub struct TileCoord {
    pub level: u32,
    pub x: u32,
    pub y: u32,
}

/// Identity of a cached tile.
#[derive(Debug, Clone, Copy, PartialEq, Eq, Hash, Structural)]
pub struct TileKey {
    pub doc: u32,
    pub layer: u32,
    pub coord: TileCoord,
    pub stage: CacheStage,
}

/// Whether some entry of `s` is for key `k`.
pub open spec fn keyed(s: Seq<(TileKey, Seq<TileKey>)>, k: TileKey) -> bool {
    exists|i: int| 0 <= i < s.len() && (#[trigger] s[i]).0 == k
}

/// No two entries of `s` are for the same key.
pub open spec fn distinct_keys(s: Seq<(TileKey, Seq<TileKey>)>) -> bool {
    forall|i: int, j: int| 0 <= i < s.len() && 0 <= j < s.len() && i != j ==> (#[trigger] s[i]).0
        != (#[trigger] s[j]).0
}

/// The map from each key to its entry's waiters.
pub open spec fn map_of(s: Seq<(TileKey, Seq<TileKey>)>) -> Map<TileKey, Seq<TileKey>> {
    Map::new(
        |k: TileKey| keyed(s, k),
        |k: TileKey| s[choose|i: int| 0 <= i < s.len() && (#[trigger] s[i]).0 == k].1,
    )
}

/// The entries with their waiter lists viewed as sequences.
pub open spec fn entries_view(v: Seq<(TileKey, Vec<TileKey>)>) -> Seq<(TileKey, Seq<TileKey>)> {
    v.map_values(|e: (TileKey, Vec<TileKey>)| (e.0, e.1@))
}

proof fn lemma_map_of_at(s: Seq<(TileKey, Seq<TileKey>)>, j: int)
    requires
        distinct_keys(s),
        0 <= j < s.len(),
    ensures
        map_of(s).contains_key(s[j].0),
        map_of(s)[s[j].0] == s[j].1,
{
    let k = s[j].0;
    assert(keyed(s, k));
    let c = choose|i: int| 0 <= i < s.len() && (#[trigger] s[i]).0 == k;
    assert(c == j);
}

proof fn lemma_map_of_len(s: Seq<(TileKey, Seq<TileKey>)>)
    requires
        distinct_keys(s),
    ensures
        map_of(s).len() == s.len(),
{
    let ks = s.map_values(|e: (TileKey, Seq<TileKey>)| e.0);
    assert(ks.no_duplicates()) by {
        assert forall|i: int, j: int| 0 <= i < ks.len() && 0 <= j < ks.len() && i != j implies ks[i]
            != ks[j] by {
            assert(ks[i] == s[i].0);
            assert(ks[j] == s[j].0);
        }
    }
    ks.unique_seq_to_set();
    assert(map_of(s).dom() =~= ks.to_set()) by {
        assert forall|k: TileKey| map_of(s).dom().contains(k) implies ks.to_set().contains(k) by {
            let i = choose|i: int| 0 <= i < s.len() && (#[trigger] s[i]).0 == k;
            assert(ks[i] == k);
        }
        assert forall|k: TileKey| ks.to_set().contains(k) implies map_of(s).dom().contains(k) by {
            let i = choose|i: int| 0 <= i < ks.len() && ks[i] == k;
            assert(s[i].0 == k);
        }
    }
}

/// Position of the entry for `k`, if any.
fn find_entry(entries: &Vec<(TileKey, Vec<TileKey>)>, k: &TileKey) -> (r: Option<usize>)
    ensures
        match r {
            Some(i) => i < entries.len() && entries@[i as int].0 == *k,
            None => !keyed(entries_view(entries@), *k),
        },
{
    let mut i: usize = 0;
    while i < entries.len()
        invariant
            i <= entries.len(),
            forall|j: int| 0 <= j < i ==> entries@[j].0 != *k,
        decreases entries.len() - i,
    {
        if entries[i].0 == *k {
            return Some(i);
        }
        i = i + 1;
    }
    proof {
        let s = entries_view(entries@);
        if keyed(s, *k) {
            let j = choose|j: int| 0 <= j < s.len() && (#[trigger] s[j]).0 == *k;
            assert(entries@[j].0 == s[j].0);
        }
    }
    None
}

/// Registry: missing raw tile -> processed tiles that were computed without it.
#[derive(Debug, Default)]
pub struct PendingDiffusionWaiters {
    entries: Vec<(TileKey, Vec<TileKey>)>,
}

impl View for PendingDiffusionWaiters {
    type V = Map<TileKey, Seq<TileKey>>;

    closed spec fn view(&self) -> Map<TileKey, Seq<TileKey>> {
        map_of(entries_view(self.entries@))
    }
}

/// The waiters registered under `k` (none when it has no entry).
pub open spec fn waiters_at(m: Map<TileKey, Seq<TileKey>>, k: TileKey) -> Seq<TileKey> {
    if m.contains_key(k) {
        m[k]
    } else {
        Seq::empty()
    }
}

impl PendingDiffusionWaiters {
    #[verifier::type_invariant]
    closed spec fn wf(self) -> bool {
        distinct_keys(entries_view(self.entries@))
    }

    /// An empty registry.
    pub fn new() -> (r: Self)
        ensures
            r@ == Map::<TileKey, Seq<TileKey>>::empty(),
    {
        let r = PendingDiffusionWaiters { entries: Vec::new() };
        assert(r@ =~= Map::<TileKey, Seq<TileKey>>::empty());
        r
    }

    /// Register `waiter_processed` as waiting on `missing_raw`. Duplicate
    /// registrations are kept (waking is idempotent).
    pub fn register(&mut self, missing_raw: TileKey, waiter_processed: TileKey)
        ensures
            final(self)@ == old(self)@.insert(
                missing_raw,
                waiters_at(old(self)@, missing_raw).push(waiter_processed),
            ),
    {
        proof {
            use_type_invariant(&*self);
        }
        let mut entries: Vec<(TileKey, Vec<TileKey>)> = Vec::new();
        std::mem::swap(&mut entries, &mut self.entries);
        let ghost s0 = entries_view(entries@);
        let found = find_entry(&entries, &missing_raw);
        let mut list: Vec<TileKey> = match found {
            Some(i) => {
                proof {
                    lemma_map_of_at(s0, i as int);
                }
                let (_, l) = entries.remove(i);
                l
            },
            None => Vec::new(),
        };
        let ghost s1 = entries_view(entries@);
        proof {
            assert(list@ == waiters_at(map_of(s0), missing_raw));
            match found {
                Some(i) => {
                    assert(s1 =~= s0.remove(i as int));
                },
                None => {
                    assert(s1 =~= s0);
                },
            }
        }
        list.push(waiter_processed);
        entries.push((missing_raw, list));
        proof {
            let s2 = entries_view(entries@);
            assert(s2 =~= s1.push((missing_raw, list@)));
            assert(!keyed(s1, missing_raw)) by {
                if keyed(s1, missing_raw) {
                    let j = choose|j: int| 0 <= j < s1.len() && (#[trigger] s1[j]).0 == missing_raw;
                    match found {
                        Some(i) => {
                            if j < i {
                                assert(s0[j].0 == s1[j].0);
                            } else {
                                assert(s0[j + 1].0 == s1[j].0);
                            }
                        },
                        None => {
                            assert(s0[j].0 == s1[j].0);
                        },
                    }
                }
            }
            assert(distinct_keys(s1)) by {
                assert forall|a: int, b: int|
                    0 <= a < s1.len() && 0 <= b < s1.len() && a != b implies (#[trigger] s1[a]).0
                    != (#[trigger] s1[b]).0 by {
                    match found {
                        Some(i) => {
                            let a0 = if a < i { a } else { a + 1 };
                            let b0 = if b < i { b } else { b + 1 };
                            assert(s1[a] == s0[a0]);
                            assert(s1[b] == s0[b0]);
                        },
                        None => {},
                    }
                }
            }
            assert(distinct_keys(s2));
            let m = old(self)@.insert(missing_raw, waiters_at(old(self)@, missing_raw).push(waiter_processed));
            assert(map_of(s2) =~= m) by {
                assert forall|k: TileKey| #[trigger] map_of(s2).contains_key(k) <==> m.contains_key(k) by {
                    if k != missing_raw {
                        if keyed(s2, k) {
                            let j = choose|j: int| 0 <= j < s2.len() && (#[trigger] s2[j]).0 == k;
                            match found {
                                Some(i) => {
                                    let j0 = if j < i { j } else { j + 1 };
                                    assert(s0[j0] == s1[j]);
                                    assert(keyed(s0, k));
                                },
                                None => {
                                    assert(s0[j] == s1[j]);
                                },
                            }
                        }
                        if keyed(s0, k) {
                            let j = choose|j: int| 0 <= j < s0.len() && (#[trigger] s0[j]).0 == k;
                            match found {
                                Some(i) => {
                                    assert(j != i);
                                    let j1 = if j < i { j } else { j - 1 };
                                    assert(s1[j1] == s0[j]);
                                    assert(s2[j1] == s1[j1]);
                                },
                                None => {
                                    assert(s2[j] == s0[j]);
                                },
                            }
                        }
                    } else {
                        assert(s2[s2.len() - 1].0 == missing_raw);
                    }
                }
                assert forall|k: TileKey| #[trigger] map_of(s2).contains_key(k) implies map_of(s2)[k]
                    == m[k] by {
                    if k == missing_raw {
                        lemma_map_of_at(s2, s2.len() - 1);
                    } else {
                        let j = choose|j: int| 0 <= j < s2.len() && (#[trigger] s2[j]).0 == k;
                        lemma_map_of_at(s2, j);
                        match found {
                            Some(i) => {
                                let j0 = if j < i { j } else { j + 1 };
                                assert(s0[j0] == s1[j]);
                                lemma_map_of_at(s0, j0);
                            },
                            None => {
                                assert(s0[j] == s1[j]);
                                lemma_map_of_at(s0, j);
                            },
                        }
                    }
                }
            }
        }
        self.entries = entries;
    }

    /// Remove and return all waiters for a newly loaded raw tile.
    pub fn wake(&mut self, loaded_raw: &TileKey) -> (r: Vec<TileKey>)
        ensures
            r@ == waiters_at(old(self)@, *loaded_raw),
            final(self)@ == old(self)@.remove(*loaded_raw),
    {
        proof {
            use_type_invariant(&*self);
        }
        let mut entries: Vec<(TileKey, Vec<TileKey>)> = Vec::new();
        std::mem::swap(&mut entries, &mut self.entries);
        let ghost s0 = entries_view(entries@);
        match find_entry(&entries, loaded_raw) {
            Some(i) => {
                proof {
                    lemma_map_of_at(s0, i as int);
                }
                let (_, list) = entries.remove(i);
                proof {
                    let s1 = entries_view(entries@);
                    assert(s1 =~= s0.remove(i as int));
                    let m = map_of(s0).remove(*loaded_raw);
                    assert(map_of(s1) =~= m) by {
                        assert forall|k: TileKey| #[trigger] map_of(s1).contains_key(k) <==> m.contains_key(k) by {
                            if keyed(s1, k) {
                                let j = choose|j: int| 0 <= j < s1.len() && (#[trigger] s1[j]).0 == k;
                                let j0 = if j < i { j } else { j + 1 };
                                assert(s0[j0] == s1[j]);
                                assert(keyed(s0, k));
                                assert(j0 != i);
                            }
                            if keyed(s0, k) && k != *loaded_raw {
                                let j = choose|j: int| 0 <= j < s0.len() && (#[trigger] s0[j]).0 == k;
                                assert(j != i);
                                let j1 = if j < i { j } else { j - 1 };
                                assert(s1[j1] == s0[j]);
                            }
                        }
                        assert forall|k: TileKey| #[trigger] map_of(s1).contains_key(k) implies map_of(s1)[k]
                            == m[k] by {
                            let j = choose|j: int| 0 <= j < s1.len() && (#[trigger] s1[j]).0 == k;
                            assert(distinct_keys(s1)) by {
                                assert forall|a: int, b: int|
                                    0 <= a < s1.len() && 0 <= b < s1.len() && a != b implies (#[trigger] s1[a]).0
                                    != (#[trigger] s1[b]).0 by {
                                    let a0 = if a < i { a } else { a + 1 };
                                    let b0 = if b < i { b } else { b + 1 };
                                    assert(s1[a] == s0[a0]);
                                    assert(s1[b] == s0[b0]);
                                }
                            }
                            lemma_map_of_at(s1, j);
                            let j0 = if j < i { j } else { j + 1 };
                            assert(s0[j0] == s1[j]);
                            lemma_map_of_at(s0, j0);
                        }
                    }
                }
                self.entries = entries;
                list
            },
            None => {
                proof {
                    assert(map_of(s0).remove(*loaded_raw) =~= map_of(s0));
                }
                self.entries = entries;
                Vec::new()
            },
        }
    }

    /// Drop all waiters (full document replace).
    pub fn clear(&mut self)
        ensures
            final(self)@ == Map::<TileKey, Seq<TileKey>>::empty(),
    {
        self.entries = Vec::new();
        proof {
            assert(self@ =~= Map::<TileKey, Seq<TileKey>>::empty());
        }
    }

    /// Number of distinct missing raw tiles with waiters.
    pub fn pending_key_count(&self) -> (r: usize)
        ensures
            r == self@.len(),
    {
        proof {
            use_type_invariant(self);
            lemma_map_of_len(entries_view(self.entries@));
        }
        self.entries.len()
    }
}

/// Waking a raw tile right after registering a waiter under it returns the
/// waiters registered before plus that waiter; a second wake returns none.
pub proof fn law_register_then_wake(m: Map<TileKey, Seq<TileKey>>, raw: TileKey, waiter: TileKey)
    ensures
        ({
            let m1 = m.insert(raw, waiters_at(m, raw).push(waiter));
            &&& waiters_at(m1, raw) == waiters_at(m, raw).push(waiter)
            &&& waiters_at(m1.remove(raw), raw) == Seq::<TileKey>::empty()
        }),
{
}

/// Times dependency enforcement skipped recursion because a neighbour raw
/// tile was absent.
#[derive(Debug, Default)]
pub struct DiffusionSkipCounter {
    inner: std::sync::atomic::AtomicU64,
}

impl DiffusionSkipCounter {
    /// A counter at zero.
    pub fn new() -> Self {
        Self { inner: std::sync::atomic::AtomicU64::new(0) }
    }

    /// Add one skip (wrapping at `u64::MAX`).
    pub fn increment(&self) {
        self.inner.fetch_add(1, std::sync::atomic::Ordering::Relaxed);
    }

    /// The current count.
    pub fn get(&self) -> u64 {
        self.inner.load(std::sync::atomic::Ordering::Relaxed)
    }

    /// Set the count back to zero.
    pub fn reset(&self) {
        self.inner.store(0, std::sync::atomic::Ordering::Relaxed);
    }
}

} // verus!
