//! The service on Linux: its scheduler, and the signals that reload or end it.

use vstd::prelude::*;

verus! {

/// How the task of a scheduler ended.
#[derive(Clone, Copy, Debug, PartialEq, Eq, Structural)]
pub enum TaskOutcome {
    Finished,
    /// The scheduler returned an error.
    SchedulerFailed,
    /// The task itself failed.
    TaskFailed,
}

/// The service: what it waits for.
#[derive(Clone, Copy, Debug, PartialEq, Eq, Structural)]
pub enum Service {
    /// The start of its first scheduler.
    Starting,
    /// A signal, or the end of the scheduler.
    Running,
    /// The start of a scheduler with the new configuration. The current one is still running.
    Reloading,
    /// The end of the current scheduler. The new one has been started.
    Replacing,
    /// The end of the scheduler, and with it of the service.
    Stopping,
    /// Nothing: the service has ended.
    Ended,
}

/// What happened to the service.
#[derive(Clone, Copy, Debug, PartialEq, Eq, Structural)]
pub enum ServiceEvent {
    /// A scheduler was to be started. That fails if the configuration is refused.
    Started { succeeded: bool },
    /// The task of the current scheduler has ended.
    TaskEnded(TaskOutcome),
    /// The signal to reload.
    Reload,
    /// The signal to terminate.
    Terminate,
    /// The signal to interrupt.
    Interrupt,
}

/// When the task of a scheduler failed.
#[derive(Clone, Copy, Debug, PartialEq, Eq, Structural)]
pub enum Occasion {
    Running,
    Reload,
    Shutdown,
}

/// Why the service failed.
#[derive(Clone, Copy, Debug, PartialEq, Eq, Structural)]
pub enum ServiceError {
    /// The first scheduler could not be started.
    Start,
    /// A scheduler returned an error.
    Scheduler,
    /// The task of a scheduler failed.
    Task(Occasion),
}

/// What is to be done next.
#[derive(Clone, Copy, Debug, PartialEq, Eq, Structural)]
pub enum ServiceAction {
    /// Start a scheduler with the configuration as it is now.
    StartScheduler,
    /// Wait for a signal or for the end of the scheduler.
    Wait,
    /// Report that the reload failed, keep the current scheduler, and wait.
    KeepScheduler,
    /// Cancel the current scheduler and wait for its end.
    CancelScheduler,
    /// Make the new scheduler the current one, and wait.
    AdoptScheduler,
    Done,
    Failed(ServiceError),
}

/// What the end of a task means.
pub open spec fn task_error(outcome: TaskOutcome, occasion: Occasion) -> Option<ServiceError> {
    match outcome {
        TaskOutcome::Finished => None,
        TaskOutcome::SchedulerFailed => Some(ServiceError::Scheduler),
        TaskOutcome::TaskFailed => Some(ServiceError::Task(occasion)),
    }
}

/// The service goes on to `running` if the task has finished; else it has failed.
pub open spec fn unless_failed(
    outcome: TaskOutcome,
    occasion: Occasion,
    running: (Service, ServiceAction),
    next: (Service, ServiceAction),
) -> bool {
    match task_error(outcome, occasion) {
        Some(error) => next == (Service::Ended, ServiceAction::Failed(error)),
        None => next == running,
    }
}

/// How a service goes on after an event.
pub open spec fn service_step(before: Service, event: ServiceEvent, next: (Service, ServiceAction)) -> bool {
    match (before, event) {
        (Service::Starting, ServiceEvent::Started { succeeded }) => if succeeded {
            next == (Service::Running, ServiceAction::Wait)
        } else {
            next == (Service::Ended, ServiceAction::Failed(ServiceError::Start))
        },
        (Service::Running, ServiceEvent::TaskEnded(outcome)) => unless_failed(
            outcome,
            Occasion::Running,
            (Service::Ended, ServiceAction::Done),
            next,
        ),
        (Service::Running, ServiceEvent::Reload) => next == (Service::Reloading, ServiceAction::StartScheduler),
        (Service::Running, ServiceEvent::Terminate) => next == (Service::Stopping, ServiceAction::CancelScheduler),
        (Service::Running, ServiceEvent::Interrupt) => next == (Service::Stopping, ServiceAction::CancelScheduler),
        (Service::Reloading, ServiceEvent::Started { succeeded }) => if succeeded {
            next == (Service::Replacing, ServiceAction::CancelScheduler)
        } else {
            next == (Service::Running, ServiceAction::KeepScheduler)
        },
        (Service::Replacing, ServiceEvent::TaskEnded(outcome)) => unless_failed(
            outcome,
            Occasion::Reload,
            (Service::Running, ServiceAction::AdoptScheduler),
            next,
        ),
        (Service::Stopping, ServiceEvent::TaskEnded(outcome)) => unless_failed(
            outcome,
            Occasion::Shutdown,
            (Service::Ended, ServiceAction::Done),
            next,
        ),
        _ => false,
    }
}

/// Starts the service. A scheduler is to be started first.
pub fn run() -> (service: Service)
    ensures
        service == Service::Starting,
{
    Service::Starting
}

/// Goes on to `running` if the task has finished; else the service has failed.
fn proceed(
    outcome: TaskOutcome,
    occasion: Occasion,
    running: (Service, ServiceAction),
) -> (next: (Service, ServiceAction))
    ensures
        unless_failed(outcome, occasion, running, next),
{
    match outcome {
        TaskOutcome::Finished => running,
        TaskOutcome::SchedulerFailed => (Service::Ended, ServiceAction::Failed(ServiceError::Scheduler)),
        TaskOutcome::TaskFailed => (Service::Ended, ServiceAction::Failed(ServiceError::Task(occasion))),
    }
}

impl Service {
    /// The event is what the service waits for.
    pub open spec fn awaits(self, event: ServiceEvent) -> bool {
        match (self, event) {
            (Service::Starting, ServiceEvent::Started { .. }) => true,
            (Service::Running, ServiceEvent::Started { .. }) => false,
            (Service::Running, _) => true,
            (Service::Reloading, ServiceEvent::Started { .. }) => true,
            (Service::Replacing, ServiceEvent::TaskEnded(_)) => true,
            (Service::Stopping, ServiceEvent::TaskEnded(_)) => true,
            _ => false,
        }
    }

    /// Whether the event is what the service waits for.
    pub fn accepts(&self, event: &ServiceEvent) -> (ok: bool)
        ensures
            ok == self.awaits(*event),
    {
        match (self, event) {
            (Service::Starting, ServiceEvent::Started { .. }) => true,
            (Service::Running, ServiceEvent::Started { .. }) => false,
            (Service::Running, _) => true,
            (Service::Reloading, ServiceEvent::Started { .. }) => true,
            (Service::Replacing, ServiceEvent::TaskEnded(_)) => true,
            (Service::Stopping, ServiceEvent::TaskEnded(_)) => true,
            _ => false,
        }
    }

    /// Takes what happened, and says what is to be done next.
    pub fn step(self, event: ServiceEvent) -> (next: (Service, ServiceAction))
        requires
            self.awaits(event),
        ensures
            service_step(self, event, next),
    {
        match (self, event) {
            (Service::Starting, ServiceEvent::Started { succeeded }) => if succeeded {
                (Service::Running, ServiceAction::Wait)
            } else {
                (Service::Ended, ServiceAction::Failed(ServiceError::Start))
            },
            (Service::Reloading, ServiceEvent::Started { succeeded }) => if succeeded {
                (Service::Replacing, ServiceAction::CancelScheduler)
            } else {
                (Service::Running, ServiceAction::KeepScheduler)
            },
            (Service::Running, ServiceEvent::TaskEnded(outcome)) => proceed(
                outcome,
                Occasion::Running,
                (Service::Ended, ServiceAction::Done),
            ),
            (Service::Replacing, ServiceEvent::TaskEnded(outcome)) => proceed(
                outcome,
                Occasion::Reload,
                (Service::Running, ServiceAction::AdoptScheduler),
            ),
            (Service::Stopping, ServiceEvent::TaskEnded(outcome)) => proceed(
                outcome,
                Occasion::Shutdown,
                (Service::Ended, ServiceAction::Done),
            ),
            (_, ServiceEvent::Reload) => (Service::Reloading, ServiceAction::StartScheduler),
            (_, _) => (Service::Stopping, ServiceAction::CancelScheduler),
        }
    }
}

/// A reload that fails keeps the current scheduler: the service runs on, and nothing is cancelled.
pub proof fn law_failed_reload_keeps_scheduler(
    reloading: (Service, ServiceAction),
    next: (Service, ServiceAction),
)
    requires
        service_step(Service::Running, ServiceEvent::Reload, reloading),
        service_step(reloading.0, ServiceEvent::Started { succeeded: false }, next),
    ensures
        reloading.1 == ServiceAction::StartScheduler,
        next == (Service::Running, ServiceAction::KeepScheduler),
{
}

/// A new scheduler becomes the current one only after the old one was cancelled and has finished.
pub proof fn law_old_scheduler_ends_first(before: Service, event: ServiceEvent, next: (Service, ServiceAction))
    requires
        before.awaits(event),
        service_step(before, event, next),
    ensures
        next.1 == ServiceAction::AdoptScheduler ==> before == Service::Replacing && event == ServiceEvent::TaskEnded(
            TaskOutcome::Finished,
        ),
        next.0 == Service::Replacing ==> next.1 == ServiceAction::CancelScheduler,
{
}

/// The signals to terminate and to interrupt end the service: the scheduler is cancelled, and
/// once its task has ended, so has the service.
pub proof fn law_signals_end_the_service(
    signal: ServiceEvent,
    stopping: (Service, ServiceAction),
    outcome: TaskOutcome,
    next: (Service, ServiceAction),
    later: ServiceEvent,
)
    requires
        signal == ServiceEvent::Terminate || signal == ServiceEvent::Interrupt,
        service_step(Service::Running, signal, stopping),
        service_step(stopping.0, ServiceEvent::TaskEnded(outcome), next),
    ensures
        stopping.1 == ServiceAction::CancelScheduler,
        !next.0.awaits(later),
        next.1 == ServiceAction::Done <==> outcome == TaskOutcome::Finished,
{
}

/// What the end of a scheduler means: one that finished lets a reload go on and else ends the
/// service; one that failed ends the service with its failure, and a task that failed is reported
/// with the occasion.
pub proof fn law_end_of_a_scheduler(outcome: TaskOutcome, next: (Service, ServiceAction))
    ensures
        service_step(Service::Running, ServiceEvent::TaskEnded(outcome), next) ==> next == match outcome {
            TaskOutcome::Finished => (Service::Ended, ServiceAction::Done),
            TaskOutcome::SchedulerFailed => (Service::Ended, ServiceAction::Failed(ServiceError::Scheduler)),
            TaskOutcome::TaskFailed => (Service::Ended, ServiceAction::Failed(ServiceError::Task(Occasion::Running))),
        },
        service_step(Service::Replacing, ServiceEvent::TaskEnded(outcome), next) ==> next == match outcome {
            TaskOutcome::Finished => (Service::Running, ServiceAction::AdoptScheduler),
            TaskOutcome::SchedulerFailed => (Service::Ended, ServiceAction::Failed(ServiceError::Scheduler)),
            TaskOutcome::TaskFailed => (Service::Ended, ServiceAction::Failed(ServiceError::Task(Occasion::Reload))),
        },
        service_step(Service::Stopping, ServiceEvent::TaskEnded(outcome), next) ==> next == match outcome {
            TaskOutcome::Finished => (Service::Ended, ServiceAction::Done),
            TaskOutcome::SchedulerFailed => (Service::Ended, ServiceAction::Failed(ServiceError::Scheduler)),
            TaskOutcome::TaskFailed => (Service::Ended, ServiceAction::Failed(ServiceError::Task(Occasion::Shutdown))),
        },
{
}

/// What the service waits for, and how it goes on after the start of a scheduler and after signals.
pub proof fn law_service_follows_its_signals(succeeded: bool, event: ServiceEvent, next: (Service, ServiceAction))
    ensures
        service_step(Service::Starting, ServiceEvent::Started { succeeded }, next) ==> next == if succeeded {
            (Service::Running, ServiceAction::Wait)
        } else {
            (Service::Ended, ServiceAction::Failed(ServiceError::Start))
        },
        service_step(Service::Reloading, ServiceEvent::Started { succeeded }, next) ==> next == if succeeded {
            (Service::Replacing, ServiceAction::CancelScheduler)
        } else {
            (Service::Running, ServiceAction::KeepScheduler)
        },
        service_step(Service::Running, ServiceEvent::Reload, next) ==> next == (
            Service::Reloading,
            ServiceAction::StartScheduler,
        ),
        service_step(Service::Running, ServiceEvent::Terminate, next) ==> next == (
            Service::Stopping,
            ServiceAction::CancelScheduler,
        ),
        service_step(Service::Running, ServiceEvent::Interrupt, next) ==> next == (
            Service::Stopping,
            ServiceAction::CancelScheduler,
        ),
        Service::Starting.awaits(event) <==> event is Started,
        Service::Reloading.awaits(event) <==> event is Started,
        Service::Running.awaits(event) <==> !(event is Started),
        Service::Replacing.awaits(event) <==> event is TaskEnded,
        Service::Stopping.awaits(event) <==> event is TaskEnded,
        !Service::Ended.awaits(event),
{
}

} // verus!
