use firehol::cycle::{Cycle, Mode};
use firehol::scheduler::{run_once, run_scheduler, Scheduler, SchedulerAction, SchedulerEvent};
use firehol::service::{run, Occasion, Service, ServiceAction, ServiceError, ServiceEvent, TaskOutcome};

fn go(service: Service, event: ServiceEvent) -> (Service, ServiceAction) {
    assert!(service.accepts(&event));
    service.step(event)
}

fn tick(scheduler: Scheduler, event: SchedulerEvent) -> (Scheduler, SchedulerAction) {
    assert!(scheduler.accepts(&event));
    scheduler.step(event)
}

fn running() -> Service {
    let (service, action) = go(run(), ServiceEvent::Started { succeeded: true });
    assert_eq!(action, ServiceAction::Wait);
    service
}

#[test]
fn single_cycles_restore_unchanged_feeds() {
    assert!(matches!(
        run_once(true),
        Cycle::Directory { mode: Mode { restore_if_unchanged: true, reconcile: false, nftables: true } }
    ));
    assert!(matches!(
        run_once(false),
        Cycle::Directory { mode: Mode { restore_if_unchanged: true, reconcile: false, nftables: false } }
    ));
}

#[test]
fn every_tick_runs_a_cycle() {
    let (busy, action) = tick(run_scheduler(true), SchedulerEvent::Tick);
    assert_eq!(action, SchedulerAction::RunCycle(Mode { restore_if_unchanged: true, reconcile: true, nftables: true }));
    assert!(!busy.accepts(&SchedulerEvent::Tick));
    assert!(!busy.accepts(&SchedulerEvent::Cancelled));
    let (idle, action) = tick(busy, SchedulerEvent::CycleEnded { succeeded: true });
    assert_eq!(action, SchedulerAction::Wait);
    assert_eq!(idle, run_scheduler(true));
}

#[test]
fn failed_cycles_are_retried() {
    let (busy, _) = tick(run_scheduler(false), SchedulerEvent::Tick);
    let (idle, action) = tick(busy, SchedulerEvent::CycleEnded { succeeded: false });
    assert_eq!(action, SchedulerAction::ReportFailure);
    let (_, action) = tick(idle, SchedulerEvent::Tick);
    assert_eq!(action, SchedulerAction::RunCycle(Mode { restore_if_unchanged: true, reconcile: true, nftables: false }));
}

#[test]
fn cancelled_schedulers_stop() {
    let (stopped, action) = tick(run_scheduler(true), SchedulerEvent::Cancelled);
    assert_eq!(action, SchedulerAction::Stop);
    assert!(!stopped.accepts(&SchedulerEvent::Tick));
}

#[test]
fn service_needs_a_scheduler_to_start() {
    let (service, action) = go(run(), ServiceEvent::Started { succeeded: false });
    assert_eq!(action, ServiceAction::Failed(ServiceError::Start));
    assert_eq!(service, Service::Ended);
}

#[test]
fn end_of_the_scheduler_ends_the_service() {
    let (_, action) = go(running(), ServiceEvent::TaskEnded(TaskOutcome::Finished));
    assert_eq!(action, ServiceAction::Done);
    let (_, action) = go(running(), ServiceEvent::TaskEnded(TaskOutcome::SchedulerFailed));
    assert_eq!(action, ServiceAction::Failed(ServiceError::Scheduler));
    let (_, action) = go(running(), ServiceEvent::TaskEnded(TaskOutcome::TaskFailed));
    assert_eq!(action, ServiceAction::Failed(ServiceError::Task(Occasion::Running)));
}

#[test]
fn failed_reload_keeps_the_scheduler() {
    let (service, action) = go(running(), ServiceEvent::Reload);
    assert_eq!(action, ServiceAction::StartScheduler);
    let (service, action) = go(service, ServiceEvent::Started { succeeded: false });
    assert_eq!(action, ServiceAction::KeepScheduler);
    assert_eq!(service, running());
}

#[test]
fn reload_replaces_the_scheduler() {
    let (service, _) = go(running(), ServiceEvent::Reload);
    let (service, action) = go(service, ServiceEvent::Started { succeeded: true });
    assert_eq!(action, ServiceAction::CancelScheduler);
    assert!(!service.accepts(&ServiceEvent::Reload));
    let (adopted, action) = go(service, ServiceEvent::TaskEnded(TaskOutcome::Finished));
    assert_eq!(action, ServiceAction::AdoptScheduler);
    assert_eq!(adopted, running());
    let (_, action) = go(service, ServiceEvent::TaskEnded(TaskOutcome::TaskFailed));
    assert_eq!(action, ServiceAction::Failed(ServiceError::Task(Occasion::Reload)));
}

#[test]
fn signals_end_the_service() {
    for signal in [ServiceEvent::Terminate, ServiceEvent::Interrupt] {
        let (service, action) = go(running(), signal);
        assert_eq!(action, ServiceAction::CancelScheduler);
        let (ended, action) = go(service, ServiceEvent::TaskEnded(TaskOutcome::Finished));
        assert_eq!(action, ServiceAction::Done);
        assert!(!ended.accepts(&ServiceEvent::Reload));
        let (_, action) = go(service, ServiceEvent::TaskEnded(TaskOutcome::SchedulerFailed));
        assert_eq!(action, ServiceAction::Failed(ServiceError::Scheduler));
        let (_, action) = go(service, ServiceEvent::TaskEnded(TaskOutcome::TaskFailed));
        assert_eq!(action, ServiceAction::Failed(ServiceError::Task(Occasion::Shutdown)));
    }
}
