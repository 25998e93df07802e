//! The service on Windows: what it reports to the service manager, and when it ends.

use vstd::prelude::*;
use vstd::string::StrSliceExecFns;

use crate::service::TaskOutcome;

verus! {

/// The state that is reported to the service manager.
#[derive(Clone, Copy, Debug, PartialEq, Eq, Structural)]
pub enum ServiceState {
    StartPending,
    Running,
    Stopped,
}

/// The exit code that is reported to the service manager.
#[derive(Clone, Copy, Debug, PartialEq, Eq, Structural)]
pub enum ExitCode {
    Win32(u32),
    ServiceSpecific(u32),
}

/// A report to the service manager.
#[derive(Clone, Copy, Debug, PartialEq, Eq, Structural)]
pub struct ServiceStatus {
    pub current_state: ServiceState,
    /// Whether the service can be told to stop, and that the system shuts down.
    pub accepts_stop: bool,
    pub exit_code: ExitCode,
    pub checkpoint: u32,
    pub wait_hint_secs: u64,
}

/// The service is about to run, within ten seconds.
pub open spec fn pending_status() -> ServiceStatus {
    ServiceStatus {
        current_state: ServiceState::StartPending,
        accepts_stop: false,
        exit_code: ExitCode::Win32(0),
        checkpoint: 1,
        wait_hint_secs: 10,
    }
}

/// The service is running. Only then can it be told to stop.
pub open spec fn running_status() -> ServiceStatus {
    ServiceStatus {
        current_state: ServiceState::Running,
        accepts_stop: true,
        exit_code: ExitCode::Win32(0),
        checkpoint: 0,
        wait_hint_secs: 0,
    }
}

/// The service has stopped. The code of a failure is its own, and 1.
pub open spec fn stopped_status(failed: bool) -> ServiceStatus {
    ServiceStatus {
        current_state: ServiceState::Stopped,
        accepts_stop: false,
        exit_code: if failed {
            ExitCode::ServiceSpecific(1)
        } else {
            ExitCode::Win32(0)
        },
        checkpoint: 0,
        wait_hint_secs: 0,
    }
}

/// The report that the service has stopped.
fn stopped(failed: bool) -> (status: ServiceStatus)
    ensures
        status == stopped_status(failed),
{
    ServiceStatus {
        current_state: ServiceState::Stopped,
        accepts_stop: false,
        exit_code: if failed {
            ExitCode::ServiceSpecific(1)
        } else {
            ExitCode::Win32(0)
        },
        checkpoint: 0,
        wait_hint_secs: 0,
    }
}

/// How long the service sleeps between two looks at its worker, in milliseconds.
pub const POLL_MILLIS: u64 = 200;

/// Why the service failed.
#[derive(Clone, Copy, Debug, PartialEq, Eq, Structural)]
pub enum WindowsError {
    /// The log could not be opened.
    Logging,
    /// A report did not reach the service manager.
    Status,
    /// The runtime could not be made, or the service does not know where it is installed.
    Preparation,
    /// The configuration is refused.
    Configuration,
    /// The scheduler returned an error.
    Scheduler,
    /// The task of the scheduler failed.
    Task,
}

/// The service: what it waits for.
#[derive(Clone, Copy, Debug, PartialEq, Eq, Structural)]
pub enum WindowsService {
    /// The log.
    Logging,
    /// The report that it is about to run.
    Pending,
    /// The runtime, and the directory of the configuration.
    Preparation,
    /// The configuration.
    Configuration,
    /// The start of its worker.
    Worker,
    /// The report that it is running.
    Announcing,
    /// The next look at its worker.
    Polling,
    /// The end of its worker.
    Joining,
    /// The report that it has stopped.
    Stopping { error: Option<WindowsError> },
    /// Nothing: the service has ended.
    Ended,
}

/// What the control handler has passed on.
#[derive(Clone, Copy, Debug, PartialEq, Eq, Structural)]
pub enum ShutdownSignal {
    /// The service is to end.
    Requested,
    /// The control handler is gone.
    Disconnected,
    /// Nothing.
    Empty,
}

/// What came of the last action.
#[derive(Clone, Copy, Debug, PartialEq, Eq, Structural)]
pub enum WindowsEvent {
    LogOpened { succeeded: bool },
    StatusSet { succeeded: bool },
    Prepared { succeeded: bool },
    ConfigLoaded { succeeded: bool },
    WorkerStarted,
    /// What the control handler has passed on, and whether the worker has finished.
    Polled { signal: ShutdownSignal, finished: bool },
    WorkerJoined(TaskOutcome),
}

/// What is to be done next.
#[derive(Clone, Copy, Debug, PartialEq, Eq, Structural)]
pub enum WindowsAction {
    SetStatus(ServiceStatus),
    Prepare,
    LoadConfig,
    StartWorker,
    /// Look at the control handler and at the worker.
    Poll,
    /// Sleep for so many milliseconds, and look again.
    Sleep(u64),
    /// Cancel the worker and wait for its end.
    CancelWorker,
    /// Wait for the end of the worker, which has finished.
    JoinWorker,
    Done,
    Failed(WindowsError),
}

/// The service ends at once with an error.
pub open spec fn fails(next: (WindowsService, WindowsAction), error: WindowsError) -> bool {
    next == (WindowsService::Ended, WindowsAction::Failed(error))
}

/// The service reports that it has stopped, and then ends.
pub open spec fn stops(next: (WindowsService, WindowsAction), error: Option<WindowsError>) -> bool {
    next == (WindowsService::Stopping { error }, WindowsAction::SetStatus(stopped_status(error is Some)))
}

/// How a service goes on after an event.
pub open spec fn windows_step(
    before: WindowsService,
    event: WindowsEvent,
    next: (WindowsService, WindowsAction),
) -> bool {
    match (before, event) {
        (WindowsService::Logging, WindowsEvent::LogOpened { succeeded }) => if succeeded {
            next == (WindowsService::Pending, WindowsAction::SetStatus(pending_status()))
        } else {
            stops(next, Some(WindowsError::Logging))
        },
        (_, WindowsEvent::StatusSet { succeeded: false }) => fails(next, WindowsError::Status),
        (WindowsService::Pending, WindowsEvent::StatusSet { .. }) => next == (
            WindowsService::Preparation,
            WindowsAction::Prepare,
        ),
        (WindowsService::Preparation, WindowsEvent::Prepared { succeeded }) => if succeeded {
            next == (WindowsService::Configuration, WindowsAction::LoadConfig)
        } else {
            fails(next, WindowsError::Preparation)
        },
        (WindowsService::Configuration, WindowsEvent::ConfigLoaded { succeeded }) => if succeeded {
            next == (WindowsService::Worker, WindowsAction::StartWorker)
        } else {
            stops(next, Some(WindowsError::Configuration))
        },
        (WindowsService::Worker, WindowsEvent::WorkerStarted) => next == (
            WindowsService::Announcing,
            WindowsAction::SetStatus(running_status()),
        ),
        (WindowsService::Announcing, WindowsEvent::StatusSet { .. }) => next == (
            WindowsService::Polling,
            WindowsAction::Poll,
        ),
        (WindowsService::Polling, WindowsEvent::Polled { signal, finished }) => if signal != ShutdownSignal::Empty {
            next == (WindowsService::Joining, WindowsAction::CancelWorker)
        } else if finished {
            next == (WindowsService::Joining, WindowsAction::JoinWorker)
        } else {
            next == (WindowsService::Polling, WindowsAction::Sleep(POLL_MILLIS))
        },
        (WindowsService::Joining, WindowsEvent::WorkerJoined(outcome)) => match outcome {
            TaskOutcome::Finished => stops(next, None),
            TaskOutcome::SchedulerFailed => stops(next, Some(WindowsError::Scheduler)),
            TaskOutcome::TaskFailed => fails(next, WindowsError::Task),
        },
        (WindowsService::Stopping { error }, WindowsEvent::StatusSet { .. }) => match error {
            Some(error) => fails(next, error),
            None => next == (WindowsService::Ended, WindowsAction::Done),
        },
        _ => false,
    }
}

/// Starts the service. The log is to be opened first.
pub fn run_service() -> (service: WindowsService)
    ensures
        service == WindowsService::Logging,
{
    WindowsService::Logging
}

/// Reports that the service has stopped, which then ends.
fn stop(error: Option<WindowsError>) -> (next: (WindowsService, WindowsAction))
    ensures
        stops(next, error),
{
    (WindowsService::Stopping { error }, WindowsAction::SetStatus(stopped(error.is_some())))
}

/// Ends the service with an error.
fn fail(error: WindowsError) -> (next: (WindowsService, WindowsAction))
    ensures
        fails(next, error),
{
    (WindowsService::Ended, WindowsAction::Failed(error))
}

impl WindowsService {
    /// The event is what the service waits for.
    pub open spec fn awaits(self, event: WindowsEvent) -> bool {
        match (self, event) {
            (WindowsService::Logging, WindowsEvent::LogOpened { .. }) => true,
            (WindowsService::Pending, WindowsEvent::StatusSet { .. }) => true,
            (WindowsService::Preparation, WindowsEvent::Prepared { .. }) => true,
            (WindowsService::Configuration, WindowsEvent::ConfigLoaded { .. }) => true,
            (WindowsService::Worker, WindowsEvent::WorkerStarted) => true,
            (WindowsService::Announcing, WindowsEvent::StatusSet { .. }) => true,
            (WindowsService::Polling, WindowsEvent::Polled { .. }) => true,
            (WindowsService::Joining, WindowsEvent::WorkerJoined(_)) => true,
            (WindowsService::Stopping { .. }, WindowsEvent::StatusSet { .. }) => true,
            _ => false,
        }
    }

    /// Whether the event is what the service waits for.
    pub fn accepts(&self, event: &WindowsEvent) -> (ok: bool)
        ensures
            ok == self.awaits(*event),
    {
        match (self, event) {
            (WindowsService::Logging, WindowsEvent::LogOpened { .. }) => true,
            (WindowsService::Pending, WindowsEvent::StatusSet { .. }) => true,
            (WindowsService::Preparation, WindowsEvent::Prepared { .. }) => true,
            (WindowsService::Configuration, WindowsEvent::ConfigLoaded { .. }) => true,
            (WindowsService::Worker, WindowsEvent::WorkerStarted) => true,
            (WindowsService::Announcing, WindowsEvent::StatusSet { .. }) => true,
            (WindowsService::Polling, WindowsEvent::Polled { .. }) => true,
            (WindowsService::Joining, WindowsEvent::WorkerJoined(_)) => true,
            (WindowsService::Stopping { .. }, WindowsEvent::StatusSet { .. }) => true,
            _ => false,
        }
    }

    /// Takes what came of the last action, and says what is to be done next.
    pub fn step(self, event: WindowsEvent) -> (next: (WindowsService, WindowsAction))
        requires
            self.awaits(event),
        ensures
            windows_step(self, event, next),
    {
        match (self, event) {
            (_, WindowsEvent::LogOpened { succeeded }) => if succeeded {
                (
                    WindowsService::Pending,
                    WindowsAction::SetStatus(
                        ServiceStatus {
                            current_state: ServiceState::StartPending,
                            accepts_stop: false,
                            exit_code: ExitCode::Win32(0),
                            checkpoint: 1,
                            wait_hint_secs: 10,
                        },
                    ),
                )
            } else {
                stop(Some(WindowsError::Logging))
            },
            (_, WindowsEvent::StatusSet { succeeded: false }) => fail(WindowsError::Status),
            (WindowsService::Pending, WindowsEvent::StatusSet { .. }) => (
                WindowsService::Preparation,
                WindowsAction::Prepare,
            ),
            (_, WindowsEvent::Prepared { succeeded }) => if succeeded {
                (WindowsService::Configuration, WindowsAction::LoadConfig)
            } else {
                fail(WindowsError::Preparation)
            },
            (_, WindowsEvent::ConfigLoaded { succeeded }) => if succeeded {
                (WindowsService::Worker, WindowsAction::StartWorker)
            } else {
                stop(Some(WindowsError::Configuration))
            },
            (_, WindowsEvent::WorkerStarted) => (
                WindowsService::Announcing,
                WindowsAction::SetStatus(
                    ServiceStatus {
                        current_state: ServiceState::Running,
                        accepts_stop: true,
                        exit_code: ExitCode::Win32(0),
                        checkpoint: 0,
                        wait_hint_secs: 0,
                    },
                ),
            ),
            (WindowsService::Announcing, WindowsEvent::StatusSet { .. }) => (
                WindowsService::Polling,
                WindowsAction::Poll,
            ),
            (_, WindowsEvent::Polled { signal, finished }) => match signal {
                ShutdownSignal::Requested | ShutdownSignal::Disconnected => (
                    WindowsService::Joining,
                    WindowsAction::CancelWorker,
                ),
                ShutdownSignal::Empty => if finished {
                    (WindowsService::Joining, WindowsAction::JoinWorker)
                } else {
                    (WindowsService::Polling, WindowsAction::Sleep(POLL_MILLIS))
                },
            },
            (_, WindowsEvent::WorkerJoined(outcome)) => match outcome {
                TaskOutcome::Finished => stop(None),
                TaskOutcome::SchedulerFailed => stop(Some(WindowsError::Scheduler)),
                TaskOutcome::TaskFailed => fail(WindowsError::Task),
            },
            (WindowsService::Stopping { error: Some(error) }, WindowsEvent::StatusSet { .. }) => fail(error),
            (_, _) => (WindowsService::Ended, WindowsAction::Done),
        }
    }
}

/// A request of the service manager.
#[derive(Clone, Copy, Debug, PartialEq, Eq, Structural)]
pub enum Control {
    Stop,
    Shutdown,
    Interrogate,
    /// Any other request.
    Other,
}

/// The answer to a request of the service manager.
#[derive(Clone, Copy, Debug, PartialEq, Eq, Structural)]
pub struct ControlReply {
    /// Whether the service is to end.
    pub shutdown: bool,
    /// Whether the request is known; another is answered as not implemented.
    pub implemented: bool,
}

/// The answer to a request: the service ends if it is to stop or the system shuts down.
pub fn handle_control(control: Control) -> (reply: ControlReply)
    ensures
        reply.shutdown == (control == Control::Stop || control == Control::Shutdown),
        reply.implemented == (control != Control::Other),
{
    match control {
        Control::Stop | Control::Shutdown => ControlReply { shutdown: true, implemented: true },
        Control::Interrogate => ControlReply { shutdown: false, implemented: true },
        Control::Other => ControlReply { shutdown: false, implemented: false },
    }
}

/// Where the fetched data is kept.
#[derive(Clone, Copy, Debug, PartialEq, Eq, Structural)]
pub enum OutputDir {
    /// The data directory of the service.
    DataDir,
    /// The configured directory.
    Configured,
    /// The configured directory within the data directory.
    WithinDataDir,
}

/// Where the fetched data is kept, given what the configured path is like: empty, the current
/// directory, or absolute.
pub fn output_dir(empty: bool, current_dir: bool, absolute: bool) -> (dir: OutputDir)
    ensures
        dir == if empty || current_dir {
            OutputDir::DataDir
        } else if absolute {
            OutputDir::Configured
        } else {
            OutputDir::WithinDataDir
        },
{
    if empty || current_dir {
        OutputDir::DataDir
    } else if absolute {
        OutputDir::Configured
    } else {
        OutputDir::WithinDataDir
    }
}

/// How important a message is.
#[derive(Clone, Copy, Debug, PartialEq, Eq, Structural)]
pub enum Level {
    Error,
    Warn,
    Info,
    Debug,
    Trace,
}

/// The kind of an entry in the Event Log.
#[derive(Clone, Copy, Debug, PartialEq, Eq, Structural)]
pub enum EventType {
    Error,
    Warning,
    Information,
}

/// The kind of entry for a message; none for a message that is not logged.
pub fn event_type(level: Level) -> (entry: Option<EventType>)
    ensures
        entry == match level {
            Level::Error => Some(EventType::Error),
            Level::Warn => Some(EventType::Warning),
            Level::Info => Some(EventType::Information),
            Level::Debug | Level::Trace => None::<EventType>,
        },
{
    match level {
        Level::Error => Some(EventType::Error),
        Level::Warn => Some(EventType::Warning),
        Level::Info => Some(EventType::Information),
        Level::Debug | Level::Trace => None,
    }
}

/// The UTF-16 units of a character: itself, or a pair of surrogates if it does not fit in one.
pub open spec fn char_units(c: char) -> Seq<u16> {
    if (c as u32) < 0x1_0000 {
        seq![c as u16]
    } else {
        seq![
            (0xd800 + (c as u32 - 0x1_0000) / 0x400) as u16,
            (0xdc00 + (c as u32 - 0x1_0000) % 0x400) as u16,
        ]
    }
}

/// The UTF-16 units of a text.
pub open spec fn utf16_units(text: Seq<char>) -> Seq<u16>
    decreases text.len(),
{
    if text.len() == 0 {
        Seq::empty()
    } else {
        utf16_units(text.drop_last()) + char_units(text.last())
    }
}

/// A message as the Event Log takes it: in UTF-16, with a zero at its end.
pub fn wide(message: &str) -> (units: Vec<u16>)
    ensures
        units@ == utf16_units(message@).push(0),
{
    let length: usize = message.unicode_len();
    let mut units: Vec<u16> = Vec::new();
    let mut i: usize = 0;
    while i < length
        invariant
            i <= length,
            length == message@.len(),
            units@ =~= utf16_units(message@.take(i as int)),
        decreases length - i,
    {
        let code: u32 = message.get_char(i) as u32;
        proof {
            assert(message@.take(i + 1).drop_last() == message@.take(i as int));
            assert(message@.take(i + 1).last() == message@[i as int]);
        }
        if code < 0x1_0000 {
            units.push(code as u16);
        } else {
            let rest: u32 = code - 0x1_0000;
            units.push((0xd800 + rest / 0x400) as u16);
            units.push((0xdc00 + rest % 0x400) as u16);
        }
        i += 1;
    }
    assert(message@.take(i as int) == message@);
    units.push(0);
    units
}

/// The service accepts the request to stop exactly in the report that it is running, and a
/// worker has been started by then.
pub proof fn law_stop_is_accepted_while_running(
    before: WindowsService,
    event: WindowsEvent,
    next: (WindowsService, WindowsAction),
)
    requires
        before.awaits(event),
        windows_step(before, event, next),
    ensures
        next.1 matches WindowsAction::SetStatus(status) ==> {
            &&& status.accepts_stop <==> status.current_state == ServiceState::Running
            &&& status.accepts_stop <==> event == WindowsEvent::WorkerStarted
        },
{
}

/// The service manager is told that the service has stopped before it ends, unless a report does
/// not reach it, the preparation fails or the task of the scheduler fails. The reported code
/// tells whether the service failed.
pub proof fn law_end_is_reported(
    before: WindowsService,
    event: WindowsEvent,
    next: (WindowsService, WindowsAction),
)
    requires
        before.awaits(event),
        windows_step(before, event, next),
    ensures
        next.1 == WindowsAction::Done ==> before == (WindowsService::Stopping { error: None }),
        next.1 matches WindowsAction::Failed(error) ==> before == (WindowsService::Stopping { error: Some(error) })
            || error == WindowsError::Status || error == WindowsError::Preparation || error == WindowsError::Task,
        next.0 matches WindowsService::Stopping { error } ==> next.1 == WindowsAction::SetStatus(
            stopped_status(error is Some),
        ),
{
}

/// Once the service is to end, its worker is cancelled, and what comes of the worker decides how
/// the service ends.
pub proof fn law_shutdown_ends_the_service(
    signal: ShutdownSignal,
    finished: bool,
    joining: (WindowsService, WindowsAction),
    outcome: TaskOutcome,
    stopping: (WindowsService, WindowsAction),
)
    requires
        signal != ShutdownSignal::Empty,
        windows_step(WindowsService::Polling, WindowsEvent::Polled { signal, finished }, joining),
        windows_step(joining.0, WindowsEvent::WorkerJoined(outcome), stopping),
    ensures
        joining.1 == WindowsAction::CancelWorker,
        stopping.1 == WindowsAction::SetStatus(stopped_status(false)) <==> outcome == TaskOutcome::Finished,
        stopping.1 == WindowsAction::SetStatus(stopped_status(true)) <==> outcome == TaskOutcome::SchedulerFailed,
{
}

/// How the service starts: it reports that it is about to run, prepares, loads the configuration,
/// starts its worker and reports that it is running. What fails on the way ends it; a log that could
/// not be opened and a configuration that is refused are reported as a failure first.
pub proof fn law_service_starts_step_by_step(succeeded: bool, next: (WindowsService, WindowsAction))
    ensures
        windows_step(WindowsService::Logging, WindowsEvent::LogOpened { succeeded }, next) ==> next == if succeeded {
            (
                WindowsService::Pending,
                WindowsAction::SetStatus(
                    ServiceStatus {
                        current_state: ServiceState::StartPending,
                        accepts_stop: false,
                        exit_code: ExitCode::Win32(0),
                        checkpoint: 1,
                        wait_hint_secs: 10,
                    },
                ),
            )
        } else {
            (
                WindowsService::Stopping { error: Some(WindowsError::Logging) },
                WindowsAction::SetStatus(
                    ServiceStatus {
                        current_state: ServiceState::Stopped,
                        accepts_stop: false,
                        exit_code: ExitCode::ServiceSpecific(1),
                        checkpoint: 0,
                        wait_hint_secs: 0,
                    },
                ),
            )
        },
        windows_step(WindowsService::Pending, WindowsEvent::StatusSet { succeeded: true }, next) ==> next == (
            WindowsService::Preparation,
            WindowsAction::Prepare,
        ),
        windows_step(WindowsService::Preparation, WindowsEvent::Prepared { succeeded }, next) ==> next == if succeeded {
            (WindowsService::Configuration, WindowsAction::LoadConfig)
        } else {
            (WindowsService::Ended, WindowsAction::Failed(WindowsError::Preparation))
        },
        windows_step(WindowsService::Configuration, WindowsEvent::ConfigLoaded { succeeded }, next) ==> next == if succeeded {
            (WindowsService::Worker, WindowsAction::StartWorker)
        } else {
            (
                WindowsService::Stopping { error: Some(WindowsError::Configuration) },
                WindowsAction::SetStatus(
                    ServiceStatus {
                        current_state: ServiceState::Stopped,
                        accepts_stop: false,
                        exit_code: ExitCode::ServiceSpecific(1),
                        checkpoint: 0,
                        wait_hint_secs: 0,
                    },
                ),
            )
        },
        windows_step(WindowsService::Worker, WindowsEvent::WorkerStarted, next) ==> next == (
            WindowsService::Announcing,
            WindowsAction::SetStatus(
                ServiceStatus {
                    current_state: ServiceState::Running,
                    accepts_stop: true,
                    exit_code: ExitCode::Win32(0),
                    checkpoint: 0,
                    wait_hint_secs: 0,
                },
            ),
        ),
        windows_step(WindowsService::Announcing, WindowsEvent::StatusSet { succeeded: true }, next) ==> next == (
            WindowsService::Polling,
            WindowsAction::Poll,
        ),
{
}

/// How the service ends: it looks at its worker every 200 milliseconds; it cancels the worker when
/// it is to end or the control handler is gone, and joins one that has finished by itself. How the
/// worker ended is reported, and decides how the service ends.
pub proof fn law_service_ends_with_its_worker(
    finished: bool,
    error: WindowsError,
    before: WindowsService,
    next: (WindowsService, WindowsAction),
)
    ensures
        windows_step(
            WindowsService::Polling,
            WindowsEvent::Polled { signal: ShutdownSignal::Requested, finished },
            next,
        ) ==> next == (WindowsService::Joining, WindowsAction::CancelWorker),
        windows_step(
            WindowsService::Polling,
            WindowsEvent::Polled { signal: ShutdownSignal::Disconnected, finished },
            next,
        ) ==> next == (WindowsService::Joining, WindowsAction::CancelWorker),
        windows_step(
            WindowsService::Polling,
            WindowsEvent::Polled { signal: ShutdownSignal::Empty, finished },
            next,
        ) ==> next == if finished {
            (WindowsService::Joining, WindowsAction::JoinWorker)
        } else {
            (WindowsService::Polling, WindowsAction::Sleep(200))
        },
        windows_step(WindowsService::Joining, WindowsEvent::WorkerJoined(TaskOutcome::Finished), next) ==> next
            == (
                WindowsService::Stopping { error: None },
                WindowsAction::SetStatus(
                    ServiceStatus {
                        current_state: ServiceState::Stopped,
                        accepts_stop: false,
                        exit_code: ExitCode::Win32(0),
                        checkpoint: 0,
                        wait_hint_secs: 0,
                    },
                ),
            ),
        windows_step(WindowsService::Joining, WindowsEvent::WorkerJoined(TaskOutcome::SchedulerFailed), next) ==> next
            == (
                WindowsService::Stopping { error: Some(WindowsError::Scheduler) },
                WindowsAction::SetStatus(
                    ServiceStatus {
                        current_state: ServiceState::Stopped,
                        accepts_stop: false,
                        exit_code: ExitCode::ServiceSpecific(1),
                        checkpoint: 0,
                        wait_hint_secs: 0,
                    },
                ),
            ),
        windows_step(WindowsService::Joining, WindowsEvent::WorkerJoined(TaskOutcome::TaskFailed), next) ==> next == (
            WindowsService::Ended,
            WindowsAction::Failed(WindowsError::Task),
        ),
        windows_step(
            WindowsService::Stopping { error: Some(error) },
            WindowsEvent::StatusSet { succeeded: true },
            next,
        ) ==> next == (WindowsService::Ended, WindowsAction::Failed(error)),
        windows_step(WindowsService::Stopping { error: None }, WindowsEvent::StatusSet { succeeded: true }, next) ==> next
            == (WindowsService::Ended, WindowsAction::Done),
        windows_step(before, WindowsEvent::StatusSet { succeeded: false }, next) ==> next == (
            WindowsService::Ended,
            WindowsAction::Failed(WindowsError::Status),
        ),
{
}

/// What the service waits for.
pub proof fn law_service_waits_for_its_last_action(event: WindowsEvent, error: Option<WindowsError>)
    ensures
        WindowsService::Logging.awaits(event) <==> event is LogOpened,
        WindowsService::Pending.awaits(event) <==> event is StatusSet,
        WindowsService::Preparation.awaits(event) <==> event is Prepared,
        WindowsService::Configuration.awaits(event) <==> event is ConfigLoaded,
        WindowsService::Worker.awaits(event) <==> event is WorkerStarted,
        WindowsService::Announcing.awaits(event) <==> event is StatusSet,
        WindowsService::Polling.awaits(event) <==> event is Polled,
        WindowsService::Joining.awaits(event) <==> event is WorkerJoined,
        (WindowsService::Stopping { error }).awaits(event) <==> event is StatusSet,
        !WindowsService::Ended.awaits(event),
{
}

/// A message is encoded character by character and in order. A character is its own unit, or a high
/// surrogate and a low one that together stand for it.
pub proof fn law_characters_are_encoded(first: Seq<char>, second: Seq<char>, c: char)
    ensures
        utf16_units(first + second) == utf16_units(first) + utf16_units(second),
        utf16_units(Seq::empty()) == Seq::<u16>::empty(),
        (c as u32) < 0x1_0000 ==> utf16_units(seq![c]).len() == 1 && utf16_units(seq![c])[0] == c as u32,
        (c as u32) >= 0x1_0000 ==> {
            let units = utf16_units(seq![c]);
            &&& units.len() == 2
            &&& 0xd800 <= units[0] < 0xdc00
            &&& 0xdc00 <= units[1] < 0xe000
            &&& 0x1_0000 + (units[0] - 0xd800) * 0x400 + (units[1] - 0xdc00) == c as u32
        },
    decreases second.len(),
{
    if second.len() == 0 {
        assert(first + second =~= first);
        assert(utf16_units(first + second) =~= utf16_units(first) + utf16_units(second));
    } else {
        assert((first + second).drop_last() =~= first + second.drop_last());
        law_characters_are_encoded(first, second.drop_last(), c);
        assert(utf16_units(first + second) =~= utf16_units(first) + utf16_units(second));
    }
    let one = seq![c];
    assert(one.drop_last() =~= Seq::<char>::empty());
    assert(utf16_units(one.drop_last()) =~= Seq::<u16>::empty());
    assert(utf16_units(one) =~= char_units(c));
    assert(c as u32 <= 0x10_ffff);
}

} // verus!
