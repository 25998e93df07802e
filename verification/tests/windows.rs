use firehol::service::TaskOutcome;
use firehol::windows::{
    event_type, handle_control, output_dir, run_service, wide, Control, ControlReply, EventType, ExitCode, Level,
    OutputDir, ServiceState, ServiceStatus, ShutdownSignal, WindowsAction, WindowsError, WindowsEvent,
    WindowsService,
};

fn go(service: WindowsService, event: WindowsEvent) -> (WindowsService, WindowsAction) {
    assert!(service.accepts(&event));
    service.step(event)
}

fn stopped(exit_code: ExitCode) -> WindowsAction {
    WindowsAction::SetStatus(ServiceStatus {
        current_state: ServiceState::Stopped,
        accepts_stop: false,
        exit_code,
        checkpoint: 0,
        wait_hint_secs: 0,
    })
}

const SET: WindowsEvent = WindowsEvent::StatusSet { succeeded: true };

fn preparing() -> WindowsService {
    let (service, action) = go(run_service(), WindowsEvent::LogOpened { succeeded: true });
    assert_eq!(
        action,
        WindowsAction::SetStatus(ServiceStatus {
            current_state: ServiceState::StartPending,
            accepts_stop: false,
            exit_code: ExitCode::Win32(0),
            checkpoint: 1,
            wait_hint_secs: 10,
        }),
    );
    let (service, action) = go(service, SET);
    assert_eq!(action, WindowsAction::Prepare);
    service
}

fn configuring() -> WindowsService {
    let (service, action) = go(preparing(), WindowsEvent::Prepared { succeeded: true });
    assert_eq!(action, WindowsAction::LoadConfig);
    service
}

fn polling() -> WindowsService {
    let (service, action) = go(configuring(), WindowsEvent::ConfigLoaded { succeeded: true });
    assert_eq!(action, WindowsAction::StartWorker);
    let (service, action) = go(service, WindowsEvent::WorkerStarted);
    assert_eq!(
        action,
        WindowsAction::SetStatus(ServiceStatus {
            current_state: ServiceState::Running,
            accepts_stop: true,
            exit_code: ExitCode::Win32(0),
            checkpoint: 0,
            wait_hint_secs: 0,
        }),
    );
    let (service, action) = go(service, SET);
    assert_eq!(action, WindowsAction::Poll);
    service
}

fn joining() -> WindowsService {
    let event = WindowsEvent::Polled { signal: ShutdownSignal::Requested, finished: false };
    let (service, action) = go(polling(), event);
    assert_eq!(action, WindowsAction::CancelWorker);
    service
}

#[test]
fn requested_shutdown_ends_the_windows_service() {
    let (service, action) = go(joining(), WindowsEvent::WorkerJoined(TaskOutcome::Finished));
    assert_eq!(action, stopped(ExitCode::Win32(0)));
    let (service, action) = go(service, SET);
    assert_eq!(action, WindowsAction::Done);
    assert!(!service.accepts(&SET));
}

#[test]
fn worker_is_watched() {
    let quiet = WindowsEvent::Polled { signal: ShutdownSignal::Empty, finished: false };
    let (service, action) = go(polling(), quiet);
    assert_eq!(action, WindowsAction::Sleep(200));
    let finished = WindowsEvent::Polled { signal: ShutdownSignal::Empty, finished: true };
    let (_, action) = go(service, finished);
    assert_eq!(action, WindowsAction::JoinWorker);
    let gone = WindowsEvent::Polled { signal: ShutdownSignal::Disconnected, finished: true };
    let (_, action) = go(service, gone);
    assert_eq!(action, WindowsAction::CancelWorker);
}

#[test]
fn failed_scheduler_is_reported() {
    let (service, action) = go(joining(), WindowsEvent::WorkerJoined(TaskOutcome::SchedulerFailed));
    assert_eq!(action, stopped(ExitCode::ServiceSpecific(1)));
    let (_, action) = go(service, SET);
    assert_eq!(action, WindowsAction::Failed(WindowsError::Scheduler));
    let (_, action) = go(joining(), WindowsEvent::WorkerJoined(TaskOutcome::TaskFailed));
    assert_eq!(action, WindowsAction::Failed(WindowsError::Task));
}

#[test]
fn failed_start_is_reported() {
    let (service, action) = go(run_service(), WindowsEvent::LogOpened { succeeded: false });
    assert_eq!(action, stopped(ExitCode::ServiceSpecific(1)));
    let (_, action) = go(service, SET);
    assert_eq!(action, WindowsAction::Failed(WindowsError::Logging));
    let (service, action) = go(configuring(), WindowsEvent::ConfigLoaded { succeeded: false });
    assert_eq!(action, stopped(ExitCode::ServiceSpecific(1)));
    let (_, action) = go(service, SET);
    assert_eq!(action, WindowsAction::Failed(WindowsError::Configuration));
}

#[test]
fn some_failures_cannot_be_reported() {
    let (_, action) = go(preparing(), WindowsEvent::Prepared { succeeded: false });
    assert_eq!(action, WindowsAction::Failed(WindowsError::Preparation));
    let (service, _) = go(run_service(), WindowsEvent::LogOpened { succeeded: true });
    let (_, action) = go(service, WindowsEvent::StatusSet { succeeded: false });
    assert_eq!(action, WindowsAction::Failed(WindowsError::Status));
}

#[test]
fn controls_are_answered() {
    let end = ControlReply { shutdown: true, implemented: true };
    assert_eq!(handle_control(Control::Stop), end);
    assert_eq!(handle_control(Control::Shutdown), end);
    assert_eq!(handle_control(Control::Interrogate), ControlReply { shutdown: false, implemented: true });
    assert_eq!(handle_control(Control::Other), ControlReply { shutdown: false, implemented: false });
}

#[test]
fn relative_paths_lie_in_the_data_directory() {
    assert_eq!(output_dir(true, false, false), OutputDir::DataDir);
    assert_eq!(output_dir(false, true, false), OutputDir::DataDir);
    assert_eq!(output_dir(false, false, true), OutputDir::Configured);
    assert_eq!(output_dir(false, false, false), OutputDir::WithinDataDir);
}

#[test]
fn messages_are_written_in_utf16_with_a_zero() {
    assert_eq!(wide(""), vec![0]);
    assert_eq!(wide("Az"), vec![0x41, 0x7a, 0]);
    let message = "\u{e9}\u{20ac}\u{ffff}\u{10000}\u{1f525}\u{10ffff}";
    let mut expected: Vec<u16> = message.encode_utf16().collect();
    expected.push(0);
    assert_eq!(wide(message), expected);
}

#[test]
fn messages_up_to_information_are_logged() {
    assert_eq!(event_type(Level::Error), Some(EventType::Error));
    assert_eq!(event_type(Level::Warn), Some(EventType::Warning));
    assert_eq!(event_type(Level::Info), Some(EventType::Information));
    assert_eq!(event_type(Level::Debug), None);
    assert_eq!(event_type(Level::Trace), None);
}
