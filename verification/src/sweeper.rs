//! The expiry sweeper: a loop that removes expired pastes once a minute,
//! written as its decisions. The caller performs each action and reports
//! back what happened.

use vstd::prelude::*;
use crate::clock::current_timestamp;
use crate::pastes::{remaining, PasteRecord, PasteStore, Selector};

verus! {

/// Seconds between two sweeps.
pub const SWEEP_INTERVAL_SECS: u64 = 60;

/// What the task has just seen.
#[derive(Clone, Copy, Debug, PartialEq, Eq, Structural)]
pub enum SweeperEvent {
    /// The task was started.
    Started,
    /// A sweep went through and removed this many rows.
    Swept(u64),
    /// A sweep failed. The failure is logged, not escalated.
    SweepFailed,
    /// The interval has passed.
    Woke,
}

/// What the task does next.
#[derive(Clone, Copy, Debug, PartialEq, Eq, Structural)]
pub enum SweeperAction {
    /// Delete every paste whose expiry lies before the current time.
    Sweep,
    /// Wait this many seconds.
    Sleep(u64),
}

/// The loop: sweep when started and after each wait; wait a full interval
/// after each sweep, whether it went through or not. No event ends it.
pub open spec fn next_action(event: SweeperEvent) -> SweeperAction {
    match event {
        SweeperEvent::Started | SweeperEvent::Woke => SweeperAction::Sweep,
        SweeperEvent::Swept(_) | SweeperEvent::SweepFailed => SweeperAction::Sleep(
            SWEEP_INTERVAL_SECS,
        ),
    }
}

pub fn expiry_task_step(event: SweeperEvent) -> (action: SweeperAction)
    ensures
        action == next_action(event),
{
    match event {
        SweeperEvent::Started | SweeperEvent::Woke => SweeperAction::Sweep,
        SweeperEvent::Swept(_) | SweeperEvent::SweepFailed => SweeperAction::Sleep(
            SWEEP_INTERVAL_SECS,
        ),
    }
}

/// How one sweep at `now` relates the store before and after to the count.
pub open spec fn sweeping(
    before: Seq<PasteRecord>,
    now: i64,
    after: Seq<PasteRecord>,
    removed: usize,
) -> bool {
    after == remaining(before, Selector::ExpiredBefore(now)) && removed == before.len()
        - after.len()
}

/// One tick against a store in memory: reads the clock and sweeps at that
/// time.
pub fn run_expiry_check(store: &mut PasteStore) -> (removed: usize)
    requires
        old(store).wf(),
    ensures
        final(store).wf(),
        exists|now: i64| #[trigger] sweeping(old(store)@, now, final(store)@, removed),
{
    let now = current_timestamp();
    let removed = store.sweep(now);
    assert(sweeping(old(store)@, now, store@, removed));
    removed
}

} // verus!
