//! The debounce law: a burst of events on one path leads to exactly one
//! update.

use vstd::prelude::*;
use crate::watcher::{after_check, check_fires, cleared, elapsed, recorded, DebounceView};

verus! {

/// The state after events on `path` at each of `times`, in order.
pub open spec fn after_events(v: DebounceView, path: Seq<char>, times: Seq<u64>) -> DebounceView
    decreases times.len(),
{
    if times.len() == 0 {
        v
    } else {
        recorded(after_events(v, path, times.drop_last()), path, times.last())
    }
}

/// Number of the checks of `path`, made in order at `checks`, that let an
/// update through.
pub open spec fn fired(v: DebounceView, path: Seq<char>, checks: Seq<u64>) -> nat
    decreases checks.len(),
{
    if checks.len() == 0 {
        0
    } else {
        let first: nat = if check_fires(v, path, checks[0]) {
            1
        } else {
            0
        };
        first + fired(after_check(v, path, checks[0]), path, checks.drop_first())
    }
}

/// Times that never go back.
pub open spec fn non_decreasing(times: Seq<u64>) -> bool {
    forall|i: int, j: int| 0 <= i <= j < times.len() ==> times[i] <= times[j]
}

/// The moments of the checks: each event is checked `wait` after it came.
pub open spec fn checks_of(times: Seq<u64>, wait: u64) -> Seq<u64> {
    Seq::new(times.len(), |i: int| (times[i] + wait) as u64)
}

/// Events do not change the delay.
pub proof fn lemma_events_keep_delay(v: DebounceView, path: Seq<char>, times: Seq<u64>)
    ensures
        after_events(v, path, times).delay == v.delay,
    decreases times.len(),
{
    if times.len() > 0 {
        lemma_events_keep_delay(v, path, times.drop_last());
    }
}

/// After a burst, the path is pending since the last event.
pub proof fn lemma_after_events(v: DebounceView, path: Seq<char>, times: Seq<u64>)
    requires
        times.len() >= 1,
    ensures
        after_events(v, path, times).delay == v.delay,
        after_events(v, path, times).pending.contains_key(path),
        after_events(v, path, times).pending[path] == times.last(),
{
    lemma_events_keep_delay(v, path, times);
}

/// A path that is not pending is never processed, however often it is
/// checked.
proof fn lemma_spent(v: DebounceView, path: Seq<char>, checks: Seq<u64>)
    requires
        !v.pending.contains_key(path),
    ensures
        fired(v, path, checks) == 0,
    decreases checks.len(),
{
    if checks.len() > 0 {
        lemma_spent(v, path, checks.drop_first());
    }
}

/// While the path is pending and the last of the checks is sure to fire,
/// exactly one check fires: the first that finds the delay passed. The
/// checks before it change nothing, and those after it find the path no
/// longer pending.
proof fn lemma_armed(v: DebounceView, path: Seq<char>, checks: Seq<u64>)
    requires
        v.pending.contains_key(path),
        checks.len() > 0,
        elapsed(v.pending[path], checks.last()) >= v.delay,
    ensures
        fired(v, path, checks) == 1,
    decreases checks.len(),
{
    let rest = checks.drop_first();
    if check_fires(v, path, checks[0]) {
        lemma_spent(cleared(v, path), path, rest);
    } else {
        assert(rest.len() > 0);
        assert(rest.last() == checks.last());
        lemma_armed(v, path, rest);
    }
}

/// Debounce: when the events of a burst on one path all fall within the
/// debounce window, and each is checked after a wait of at least the
/// delay, exactly one of the checks lets an update through, whatever was
/// pending before. That check comes after the last event of the burst, so
/// the update sees the file as the burst left it.
pub proof fn lemma_debounce_burst(v: DebounceView, path: Seq<char>, times: Seq<u64>, wait: u64)
    requires
        times.len() >= 1,
        non_decreasing(times),
        times.last() - times[0] < v.delay,
        wait >= v.delay,
        times.last() + wait <= u64::MAX,
    ensures
        fired(after_events(v, path, times), path, checks_of(times, wait)) == 1,
        forall|k: int|
            0 <= k < times.len() ==> times.last() <= #[trigger] checks_of(times, wait)[k],
{
    let armed = after_events(v, path, times);
    let checks = checks_of(times, wait);
    lemma_after_events(v, path, times);
    assert forall|i: int| 0 <= i < times.len() implies #[trigger] checks[i] == times[i] + wait by {
        assert(times[i] <= times.last());
    }
    assert(checks.last() == times.last() + wait);
    lemma_armed(armed, path, checks);
    assert forall|k: int| 0 <= k < times.len() implies times.last() <= #[trigger] checks[k] by {
        assert(times[0] <= times[k]);
    }
}

} // verus!
