//! The decisions of the periodic backup loop. The loop itself (sleeping,
//! performing a tick) runs outside; it asks the scheduler what to do at the
//! current time and tells it how each tick ended.
use vstd::prelude::*;

verus! {

/// Milliseconds in an hour.
pub const HOUR_MS: u128 = 3_600_000;

/// How a backup tick ended.
#[derive(Clone, Copy, Debug, PartialEq, Eq, Structural)]
pub enum TickOutcome {
    Succeeded,
    Failed,
}

/// What the loop is to do next.
#[derive(Clone, Copy, Debug, PartialEq, Eq, Structural)]
pub enum SchedulerAction {
    /// Sleep this many milliseconds, then ask again.
    Wait(u128),
    /// Perform one backup tick now.
    RunBackup,
}

/// The state of the loop: the period and the time the next tick is due, in
/// milliseconds on the loop's own clock.
pub struct SchedulerView {
    pub interval_ms: u128,
    pub next_due_ms: u128,
}

/// The state right after start: the first tick is due one full period later.
pub open spec fn initial(interval_hours: u64, start_ms: u64) -> SchedulerView {
    SchedulerView {
        interval_ms: (interval_hours * HOUR_MS) as u128,
        next_due_ms: (start_ms + interval_hours * HOUR_MS) as u128,
    }
}

/// What the loop does at time `now_ms` in state `v`.
pub open spec fn action_at(v: SchedulerView, now_ms: u64) -> SchedulerAction {
    if now_ms >= v.next_due_ms {
        SchedulerAction::RunBackup
    } else {
        SchedulerAction::Wait((v.next_due_ms - now_ms) as u128)
    }
}

/// The state after a tick that ended with `outcome`: the next tick is due
/// one period after this one was, whatever the outcome.
pub open spec fn after_tick(v: SchedulerView, outcome: TickOutcome) -> SchedulerView {
    SchedulerView {
        interval_ms: v.interval_ms,
        next_due_ms: if v.next_due_ms + v.interval_ms <= u128::MAX {
            (v.next_due_ms + v.interval_ms) as u128
        } else {
            u128::MAX
        },
    }
}

/// The backup loop's scheduler. It has one state, running, and no end.
pub struct BackupScheduler {
    interval_ms: u128,
    next_due_ms: u128,
}

impl View for BackupScheduler {
    type V = SchedulerView;

    closed spec fn view(&self) -> SchedulerView {
        SchedulerView { interval_ms: self.interval_ms, next_due_ms: self.next_due_ms }
    }
}

impl BackupScheduler {
    /// A scheduler started at `start_ms` that runs a tick every
    /// `interval_hours` hours, the first one period after the start.
    pub fn new(interval_hours: u64, start_ms: u64) -> (r: BackupScheduler)
        requires
            interval_hours > 0,
        ensures
            r@ == initial(interval_hours, start_ms),
    {
        assert(interval_hours * HOUR_MS <= 0xffff_ffff_ffff_ffff * HOUR_MS) by (nonlinear_arith)
            requires interval_hours <= 0xffff_ffff_ffff_ffff;
        let interval = interval_hours as u128 * HOUR_MS;
        BackupScheduler { interval_ms: interval, next_due_ms: start_ms as u128 + interval }
    }

    /// What to do at time `now_ms`.
    pub fn poll(&self, now_ms: u64) -> (r: SchedulerAction)
        ensures
            r == action_at(self@, now_ms),
    {
        if now_ms as u128 >= self.next_due_ms {
            SchedulerAction::RunBackup
        } else {
            SchedulerAction::Wait(self.next_due_ms - now_ms as u128)
        }
    }

    /// Records that the due tick ended with `outcome`.
    pub fn finish_tick(&mut self, outcome: TickOutcome)
        ensures
            final(self)@ == after_tick(old(self)@, outcome),
    {
        self.next_due_ms = self.next_due_ms.saturating_add(self.interval_ms);
    }
}

/// No tick runs before one full period has passed since the start, and one
/// runs once it has.
pub proof fn lemma_no_backup_on_boot(interval_hours: u64, start_ms: u64, now_ms: u64)
    requires
        interval_hours > 0,
    ensures
        now_ms < start_ms + interval_hours * HOUR_MS ==> action_at(initial(interval_hours, start_ms), now_ms) is Wait,
        now_ms >= start_ms + interval_hours * HOUR_MS ==> action_at(initial(interval_hours, start_ms), now_ms) == SchedulerAction::RunBackup,
{
    assert(interval_hours * HOUR_MS <= 0xffff_ffff_ffff_ffff * HOUR_MS) by (nonlinear_arith)
        requires interval_hours <= 0xffff_ffff_ffff_ffff;
}

/// A failed tick leaves the loop exactly where a successful one would: the
/// next tick is due one period later and runs when that time comes.
pub proof fn lemma_failure_isolated(v: SchedulerView, now_ms: u64)
    requires
        now_ms >= after_tick(v, TickOutcome::Failed).next_due_ms,
    ensures
        after_tick(v, TickOutcome::Failed) == after_tick(v, TickOutcome::Succeeded),
        action_at(after_tick(v, TickOutcome::Failed), now_ms) == SchedulerAction::RunBackup,
{
}

} // verus!
