//! Debouncing of file-system events: a burst of events on one path is
//! collapsed into a single update.

use vstd::prelude::*;
use crate::clock::{instant_now, millis_since};

verus! {

/// A path with an event that has not been acted on yet.
pub struct PendingFile {
    pub path: String,
    /// Time of the last event, in milliseconds on the state's clock.
    pub last_event: u64,
}

/// The mathematical content of a [`DebounceState`].
pub struct DebounceView {
    /// Time of the last event of each pending path.
    pub pending: Map<Seq<char>, u64>,
    /// How long a path must stay quiet before it is processed.
    pub delay: u64,
}

/// Milliseconds from `last` to `now`, zero if the clock did not advance.
pub open spec fn elapsed(last: u64, now: u64) -> int {
    if now >= last {
        now - last
    } else {
        0
    }
}

/// The state after an event on `path` at time `now`.
pub open spec fn recorded(v: DebounceView, path: Seq<char>, now: u64) -> DebounceView {
    DebounceView { pending: v.pending.insert(path, now), ..v }
}

/// Whether a check of `path` at time `now` lets the update through: the
/// path is pending and has been quiet for the whole delay.
pub open spec fn check_fires(v: DebounceView, path: Seq<char>, now: u64) -> bool {
    v.pending.contains_key(path) && elapsed(v.pending[path], now) >= v.delay
}

/// The state after a check of `path` at time `now`: a path that fires is
/// no longer pending; anything else leaves the state as it is, whether
/// the path is still in its window or was not pending at all.
pub open spec fn after_check(v: DebounceView, path: Seq<char>, now: u64) -> DebounceView {
    if check_fires(v, path, now) {
        cleared(v, path)
    } else {
        v
    }
}

/// The state with `path` no longer pending.
pub open spec fn cleared(v: DebounceView, path: Seq<char>) -> DebounceView {
    DebounceView { pending: v.pending.remove(path), ..v }
}

/// Whether some entry carries `path`.
pub open spec fn has_path(entries: Seq<PendingFile>, path: Seq<char>) -> bool {
    exists|i: int| 0 <= i < entries.len() && (#[trigger] entries[i]).path@ == path
}

/// The position of the entry that carries `path`.
pub open spec fn position_of(entries: Seq<PendingFile>, path: Seq<char>) -> int {
    choose|i: int| 0 <= i < entries.len() && (#[trigger] entries[i]).path@ == path
}

/// No path occurs twice.
pub open spec fn distinct_paths(entries: Seq<PendingFile>) -> bool {
    forall|i: int, j: int|
        0 <= i < entries.len() && 0 <= j < entries.len() && i != j ==> (#[trigger] entries[i]).path@
            != (#[trigger] entries[j]).path@
}

/// The pending paths with the time of their last event.
pub open spec fn pending_map(entries: Seq<PendingFile>) -> Map<Seq<char>, u64> {
    Map::new(
        |p: Seq<char>| has_path(entries, p),
        |p: Seq<char>| entries[position_of(entries, p)].last_event,
    )
}

/// Debounce state: which paths have had an event, and when the last one was.
pub struct DebounceState {
    pending_files: Vec<PendingFile>,
    debounce_delay: u64,
    origin: std::time::Instant,
}

impl View for DebounceState {
    type V = DebounceView;

    closed spec fn view(&self) -> DebounceView {
        DebounceView { pending: pending_map(self.pending_files@), delay: self.debounce_delay }
    }
}

impl DebounceState {
    /// The state's invariant: no path is pending twice.
    pub closed spec fn wf(&self) -> bool {
        distinct_paths(self.pending_files@)
    }

    /// A state with nothing pending and the given delay in milliseconds.
    pub fn new(debounce_ms: u64) -> (r: Self)
        ensures
            r.wf(),
            r@.pending == Map::<Seq<char>, u64>::empty(),
            r@.delay == debounce_ms,
    {
        let r = DebounceState {
            pending_files: Vec::new(),
            debounce_delay: debounce_ms,
            origin: instant_now(),
        };
        assert(r@.pending =~= Map::<Seq<char>, u64>::empty());
        r
    }

    /// The position of the entry for `path`, if it is pending.
    fn find(&self, path: &String) -> (r: Option<usize>)
        requires
            self.wf(),
        ensures
            match r {
                Some(i) => i < self.pending_files@.len() && self.pending_files@[i as int].path@
                    == path@ && self@.pending.contains_key(path@) && self@.pending[path@]
                    == self.pending_files@[i as int].last_event,
                None => !self@.pending.contains_key(path@),
            },
    {
        let mut i: usize = 0;
        while i < self.pending_files.len()
            invariant
                self.wf(),
                i <= self.pending_files@.len(),
                forall|k: int| 0 <= k < i ==> (#[trigger] self.pending_files@[k]).path@ != path@,
            decreases self.pending_files.len() - i,
        {
            if self.pending_files[i].path == *path {
                proof {
                    assert(has_path(self.pending_files@, path@));
                    let k = position_of(self.pending_files@, path@);
                    assert(self.pending_files@[k].path@ == path@);
                    assert(k == i);
                }
                return Some(i);
            }
            i += 1;
        }
        None
    }

    /// Records an event on `path` at time `now`.
    pub fn update_timestamp_at(&mut self, file_path: &str, now: u64)
        requires
            old(self).wf(),
        ensures
            final(self).wf(),
            final(self)@ == recorded(old(self)@, file_path@, now),
    {
        let path = file_path.to_owned();
        match self.find(&path) {
            Some(i) => {
                self.pending_files.set(i, PendingFile { path, last_event: now });
                proof {
                    let before = old(self).pending_files@;
                    let after = self.pending_files@;
                    assert(after[i as int].path@ == file_path@);
                    assert forall|p: Seq<char>| has_path(after, p) <==> has_path(before, p) by {
                        if has_path(after, p) {
                            let k = position_of(after, p);
                            assert(before[k].path@ == p);
                        }
                        if has_path(before, p) {
                            let k = position_of(before, p);
                            assert(after[k].path@ == p);
                        }
                    }
                    assert forall|p: Seq<char>| has_path(after, p) implies pending_map(after)[p]
                        == old(self)@.pending.insert(file_path@, now)[p] by {
                        let k = position_of(after, p);
                        assert(before[k].path@ == p);
                    }
                    assert(self@.pending =~= old(self)@.pending.insert(file_path@, now));
                }
            },
            None => {
                self.pending_files.push(PendingFile { path, last_event: now });
                proof {
                    let before = old(self).pending_files@;
                    let after = self.pending_files@;
                    let n = before.len() as int;
                    assert(after[n].path@ == file_path@);
                    assert forall|p: Seq<char>| has_path(after, p) <==> (p == file_path@
                        || has_path(before, p)) by {
                        if has_path(after, p) {
                            let k = position_of(after, p);
                            if k < n {
                                assert(before[k].path@ == p);
                            }
                        }
                        if has_path(before, p) {
                            let k = position_of(before, p);
                            assert(after[k].path@ == p);
                        }
                    }
                    assert forall|p: Seq<char>| has_path(after, p) implies pending_map(after)[p]
                        == old(self)@.pending.insert(file_path@, now)[p] by {
                        let k = position_of(after, p);
                        if p != file_path@ {
                            let kb = position_of(before, p);
                            assert(after[kb].path@ == p);
                        }
                    }
                    assert(self@.pending =~= old(self)@.pending.insert(file_path@, now));
                }
            },
        }
    }

    /// Forgets `path`, whether or not it was pending.
    pub fn clear(&mut self, file_path: &str)
        requires
            old(self).wf(),
        ensures
            final(self).wf(),
            final(self)@ == cleared(old(self)@, file_path@),
    {
        let path = file_path.to_owned();
        match self.find(&path) {
            Some(i) => {
                self.pending_files.remove(i);
                proof {
                    let before = old(self).pending_files@;
                    let after = self.pending_files@;
                    assert(after =~= before.remove(i as int));
                    assert forall|a: int, b: int|
                        0 <= a < after.len() && 0 <= b < after.len() && a != b implies (
                    #[trigger] after[a]).path@ != (#[trigger] after[b]).path@ by {
                        let a0 = if a < i { a } else { a + 1 };
                        let b0 = if b < i { b } else { b + 1 };
                        assert(after[a] == before[a0]);
                        assert(after[b] == before[b0]);
                    }
                    assert forall|p: Seq<char>| has_path(after, p) <==> (p != file_path@
                        && has_path(before, p)) by {
                        if has_path(after, p) {
                            let k = position_of(after, p);
                            let k0 = if k < i { k } else { k + 1 };
                            assert(before[k0].path@ == p);
                        }
                        if p != file_path@ && has_path(before, p) {
                            let k = position_of(before, p);
                            let k1 = if k < i { k } else { k - 1 };
                            assert(after[k1].path@ == p);
                        }
                    }
                    assert forall|p: Seq<char>| has_path(after, p) implies pending_map(after)[p]
                        == old(self)@.pending[p] by {
                        let k = position_of(after, p);
                        let k0 = if k < i { k } else { k + 1 };
                        assert(before[k0].path@ == p);
                    }
                    assert(self@.pending =~= old(self)@.pending.remove(file_path@));
                }
            },
            None => {
                assert(self@.pending =~= old(self)@.pending.remove(file_path@));
            },
        }
    }

    /// Checks at time `now` whether `path` has been quiet for the whole
    /// delay. If so the path is no longer pending and the caller processes
    /// it; otherwise nothing changes. A path that is not pending is never
    /// processed.
    pub fn should_process_at(&mut self, file_path: &str, now: u64) -> (r: bool)
        requires
            old(self).wf(),
        ensures
            final(self).wf(),
            r == check_fires(old(self)@, file_path@, now),
            final(self)@ == after_check(old(self)@, file_path@, now),
    {
        let path = file_path.to_owned();
        match self.find(&path) {
            Some(i) => {
                let last = self.pending_files[i].last_event;
                let quiet: u64 = if now >= last { now - last } else { 0 };
                if quiet >= self.debounce_delay {
                    self.clear(file_path);
                    true
                } else {
                    false
                }
            },
            None => false,
        }
    }

    /// Records an event on `path` at the present moment.
    pub fn update_timestamp(&mut self, file_path: &str)
        requires
            old(self).wf(),
        ensures
            final(self).wf(),
            exists|now: u64| final(self)@ == recorded(old(self)@, file_path@, now),
    {
        let now = millis_since(&self.origin);
        self.update_timestamp_at(file_path, now);
    }

    /// Checks at the present moment whether `path` has been quiet for the
    /// whole delay.
    pub fn should_process(&mut self, file_path: &str) -> (r: bool)
        requires
            old(self).wf(),
        ensures
            final(self).wf(),
            exists|now: u64|
                r == check_fires(old(self)@, file_path@, now) && final(self)@ == after_check(
                    old(self)@,
                    file_path@,
                    now,
                ),
    {
        let now = millis_since(&self.origin);
        self.should_process_at(file_path, now)
    }
}

/// Delay for which a path must stay quiet before it is updated, in
/// milliseconds.
pub const DEBOUNCE_DELAY_MS: u64 = 500;

/// How long after an event its check is made, in milliseconds: the delay
/// and a small margin.
pub const CHECK_WAIT_MS: u64 = 550;

/// The kinds of file-system events that the watcher tells apart.
#[derive(Debug, Clone, Copy, PartialEq, Eq, Structural)]
pub enum WatchEventKind {
    Create,
    Modify,
    Remove,
    Other,
}

/// What the watcher does about an event.
#[derive(Debug, Clone, Copy, PartialEq, Eq, Structural)]
pub enum WatchAction {
    /// Check the path again once the wait has passed, on a worker.
    ScheduleCheck,
    /// Remove the path from the index at once, on a worker.
    DispatchRemoval,
    /// Nothing to do.
    Nothing,
}

/// The action that an event of the given kind calls for.
pub open spec fn action_for(kind: WatchEventKind) -> WatchAction {
    match kind {
        WatchEventKind::Create | WatchEventKind::Modify => WatchAction::ScheduleCheck,
        WatchEventKind::Remove => WatchAction::DispatchRemoval,
        WatchEventKind::Other => WatchAction::Nothing,
    }
}

/// The state after an event of the given kind on `path` at time `now`: a
/// creation or change is recorded, a removal clears the path, anything
/// else leaves the state alone.
pub open spec fn after_event(
    v: DebounceView,
    kind: WatchEventKind,
    path: Seq<char>,
    now: u64,
) -> DebounceView {
    match kind {
        WatchEventKind::Create | WatchEventKind::Modify => recorded(v, path, now),
        WatchEventKind::Remove => cleared(v, path),
        WatchEventKind::Other => v,
    }
}

impl DebounceState {
    /// Takes in an event that came at time `now` and says what to do about
    /// it. Removals are not debounced.
    pub fn on_event_at(&mut self, kind: WatchEventKind, file_path: &str, now: u64) -> (r:
        WatchAction)
        requires
            old(self).wf(),
        ensures
            final(self).wf(),
            r == action_for(kind),
            final(self)@ == after_event(old(self)@, kind, file_path@, now),
    {
        match kind {
            WatchEventKind::Create | WatchEventKind::Modify => {
                self.update_timestamp_at(file_path, now);
                WatchAction::ScheduleCheck
            },
            WatchEventKind::Remove => {
                self.clear(file_path);
                WatchAction::DispatchRemoval
            },
            WatchEventKind::Other => WatchAction::Nothing,
        }
    }

    /// Takes in an event that has just come and says what to do about it.
    pub fn on_event(&mut self, kind: WatchEventKind, file_path: &str) -> (r: WatchAction)
        requires
            old(self).wf(),
        ensures
            final(self).wf(),
            r == action_for(kind),
            exists|now: u64| final(self)@ == after_event(old(self)@, kind, file_path@, now),
    {
        let now = millis_since(&self.origin);
        self.on_event_at(kind, file_path, now)
    }
}

} // verus!
