//! When update cycles are run.

use vstd::prelude::*;

use crate::config::Config;
use crate::cycle::{ends_reconciled, is_run, law_finished_cycle_reconciles, Cycle, CycleAction, CycleEvent, Mode};

verus! {

/// A scheduler: what it waits for.
#[derive(Clone, Copy, Debug, PartialEq, Eq, Structural)]
pub enum Scheduler {
    /// The next tick, or the cancellation.
    Idle { nftables: bool },
    /// The end of a cycle.
    Busy { nftables: bool },
    /// Nothing: the scheduler has stopped.
    Stopped,
}

/// What happened to the scheduler.
#[derive(Clone, Copy, Debug, PartialEq, Eq, Structural)]
pub enum SchedulerEvent {
    /// The interval has passed. The first tick comes at once.
    Tick,
    /// The scheduler is told to stop.
    Cancelled,
    /// The cycle has ended, with success or not.
    CycleEnded { succeeded: bool },
}

/// What is to be done next.
#[derive(Clone, Copy, Debug, PartialEq, Eq, Structural)]
pub enum SchedulerAction {
    RunCycle(Mode),
    Wait,
    /// Report the failure, and wait: the next cycle will try again.
    ReportFailure,
    Stop,
}

/// How a scheduled cycle is run: the table is reconciled with all feeds, also those that did not
/// change.
pub open spec fn scheduled_mode(nftables: bool) -> Mode {
    Mode { restore_if_unchanged: true, reconcile: true, nftables }
}

/// How a scheduler goes on after an event.
pub open spec fn scheduler_step(
    before: Scheduler,
    event: SchedulerEvent,
    after: Scheduler,
    action: SchedulerAction,
) -> bool {
    match (before, event) {
        (Scheduler::Idle { nftables }, SchedulerEvent::Tick) => {
            &&& after == (Scheduler::Busy { nftables })
            &&& action == SchedulerAction::RunCycle(scheduled_mode(nftables))
        },
        (Scheduler::Idle { .. }, SchedulerEvent::Cancelled) => {
            &&& after == Scheduler::Stopped
            &&& action == SchedulerAction::Stop
        },
        (Scheduler::Busy { nftables }, SchedulerEvent::CycleEnded { succeeded }) => {
            &&& after == (Scheduler::Idle { nftables })
            &&& action == if succeeded {
                SchedulerAction::Wait
            } else {
                SchedulerAction::ReportFailure
            }
        },
        _ => false,
    }
}

/// Starts a scheduler. `nftables` tells whether there are nftables to update.
pub fn run_scheduler(nftables: bool) -> (scheduler: Scheduler)
    ensures
        scheduler == (Scheduler::Idle { nftables }),
{
    Scheduler::Idle { nftables }
}

/// Starts a single cycle. If no feed changed, the sets are restored from the cache.
pub fn run_once(nftables: bool) -> (cycle: Cycle)
    ensures
        cycle == (Cycle::Directory { mode: Mode { restore_if_unchanged: true, reconcile: false, nftables } }),
{
    Cycle::start(Mode { restore_if_unchanged: true, reconcile: false, nftables })
}

impl Scheduler {
    /// The event is what the scheduler waits for.
    pub open spec fn awaits(self, event: SchedulerEvent) -> bool {
        match (self, event) {
            (Scheduler::Idle { .. }, SchedulerEvent::Tick) => true,
            (Scheduler::Idle { .. }, SchedulerEvent::Cancelled) => true,
            (Scheduler::Busy { .. }, SchedulerEvent::CycleEnded { .. }) => true,
            _ => false,
        }
    }

    /// Whether the event is what the scheduler waits for.
    pub fn accepts(&self, event: &SchedulerEvent) -> (ok: bool)
        ensures
            ok == self.awaits(*event),
    {
        match (self, event) {
            (Scheduler::Idle { .. }, SchedulerEvent::Tick) => true,
            (Scheduler::Idle { .. }, SchedulerEvent::Cancelled) => true,
            (Scheduler::Busy { .. }, SchedulerEvent::CycleEnded { .. }) => true,
            _ => false,
        }
    }

    /// Takes what happened, and says what is to be done next.
    pub fn step(self, event: SchedulerEvent) -> (next: (Scheduler, SchedulerAction))
        requires
            self.awaits(event),
        ensures
            scheduler_step(self, event, next.0, next.1),
    {
        match (self, event) {
            (Scheduler::Idle { nftables }, SchedulerEvent::Tick) => (
                Scheduler::Busy { nftables },
                SchedulerAction::RunCycle(Mode { restore_if_unchanged: true, reconcile: true, nftables }),
            ),
            (Scheduler::Busy { nftables }, SchedulerEvent::CycleEnded { succeeded }) => (
                Scheduler::Idle { nftables },
                if succeeded {
                    SchedulerAction::Wait
                } else {
                    SchedulerAction::ReportFailure
                },
            ),
            (_, _) => (Scheduler::Stopped, SchedulerAction::Stop),
        }
    }
}

/// Only a cancellation stops a scheduler: after a cycle, also one that failed, it runs another at
/// the next tick.
pub proof fn law_failed_cycle_is_retried(
    before: Scheduler,
    succeeded: bool,
    idle: Scheduler,
    first: SchedulerAction,
    after: Scheduler,
    second: SchedulerAction,
)
    requires
        before.awaits(SchedulerEvent::CycleEnded { succeeded }),
        scheduler_step(before, SchedulerEvent::CycleEnded { succeeded }, idle, first),
        scheduler_step(idle, SchedulerEvent::Tick, after, second),
    ensures
        idle.awaits(SchedulerEvent::Tick),
        second is RunCycle,
        first == SchedulerAction::ReportFailure <==> !succeeded,
{
}

/// A scheduler stops exactly when it is cancelled, and then goes no further.
pub proof fn law_only_cancellation_stops(
    before: Scheduler,
    event: SchedulerEvent,
    after: Scheduler,
    action: SchedulerAction,
    later: SchedulerEvent,
)
    requires
        before.awaits(event),
        scheduler_step(before, event, after, action),
    ensures
        action == SchedulerAction::Stop <==> event == SchedulerEvent::Cancelled,
        action == SchedulerAction::Stop ==> !after.awaits(later),
{
}

/// A scheduled cycle that finishes has brought the whole table in line, whichever feeds changed.
pub proof fn law_scheduled_cycle_reconciles(
    config: Config,
    busy: Scheduler,
    started: SchedulerAction,
    cycles: Seq<Cycle>,
    events: Seq<CycleEvent>,
    actions: Seq<CycleAction>,
    k: int,
)
    requires
        scheduler_step(Scheduler::Idle { nftables: true }, SchedulerEvent::Tick, busy, started),
        is_run(config, cycles, events, actions),
        started matches SchedulerAction::RunCycle(mode) && cycles[0] == (Cycle::Directory { mode }),
        0 <= k < events.len(),
        actions[k] is Done,
    ensures
        ends_reconciled(config, events, actions, k),
{
    law_finished_cycle_reconciles(config, cycles, events, actions, k);
}

/// What a scheduler does: it runs a cycle at each tick, which restores what did not change and
/// reconciles the table, where there is one; it waits after each cycle, and reports one that
/// failed; and it stops when it is cancelled, which it heeds only between two cycles.
pub proof fn law_scheduler_runs_and_waits(
    nftables: bool,
    succeeded: bool,
    event: SchedulerEvent,
    after: Scheduler,
    action: SchedulerAction,
)
    ensures
        scheduler_step(Scheduler::Idle { nftables }, SchedulerEvent::Tick, after, action) ==> {
            &&& after == (Scheduler::Busy { nftables })
            &&& action matches SchedulerAction::RunCycle(mode) && mode.restore_if_unchanged && mode.reconcile
                && mode.nftables == nftables
        },
        scheduler_step(Scheduler::Idle { nftables }, SchedulerEvent::Cancelled, after, action) ==> after
            == Scheduler::Stopped && action == SchedulerAction::Stop,
        scheduler_step(Scheduler::Busy { nftables }, SchedulerEvent::CycleEnded { succeeded }, after, action) ==> after == (
        Scheduler::Idle { nftables }) && (succeeded ==> action == SchedulerAction::Wait) && (!succeeded ==> action
            == SchedulerAction::ReportFailure),
        (Scheduler::Idle { nftables }).awaits(event) <==> event is Tick || event is Cancelled,
        (Scheduler::Busy { nftables }).awaits(event) <==> event is CycleEnded,
        !Scheduler::Stopped.awaits(event),
{
}

} // verus!
