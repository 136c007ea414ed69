use std::time::Duration;
use zenith::protocol::{
    CpuInfo, Derived, ErrorCode, ErrorDetail, ErrorEnvelope, SampleEnvelope, Source, Status,
    WorkerMessage,
};
use zenith::supervisor::{CbState, CircuitBreaker};
use zenith::worker_supervisor::{
    choose_worker_exe, WorkerExe, HANG_TIMEOUT_MS,
    controller_step, mock_flag_enabled, on_reader_event, ControllerAction, ControllerEvent,
    ReaderEvent,
};

fn error_message() -> WorkerMessage {
    WorkerMessage::Error(ErrorEnvelope {
        protocol: 1,
        timestamp_ms: 1,
        status: Status::Degraded,
        source: Source::NoSource,
        error: ErrorDetail { code: ErrorCode::MsrFailed, message: "MsrFailed".into() },
    })
}

fn healthy_message() -> WorkerMessage {
    WorkerMessage::Sample(SampleEnvelope {
        protocol: 1,
        timestamp_ms: 2,
        status: Status::Healthy,
        source: Source::Mock,
        cpu: CpuInfo { vendor: "GenuineIntel".into(), family: 6, model: 158, cores: 1, threads: 2 },
        sensors: Vec::new(),
        derived: Derived { hottest_core_mc: 0, coolest_core_mc: 0, core_delta_mc: 0 },
    })
}

#[test]
fn healthy_messages_reset_failures_through_reader() {
    let mut cb = CircuitBreaker::new().with_healthy_reset(2);
    cb.on_failure();
    cb.on_respawn();
    let mut latest = None;
    assert!(on_reader_event(&mut cb, &mut latest, ReaderEvent::Message(healthy_message())));
    assert_eq!(cb.consecutive_healthy(), 1);
    assert_eq!(cb.consecutive_failures(), 1);
    assert!(on_reader_event(&mut cb, &mut latest, ReaderEvent::Message(healthy_message())));
    assert_eq!(cb.consecutive_failures(), 0);
    assert_eq!(latest, Some(healthy_message()));
}

#[test]
fn controller_walks_ladder_then_gives_up() {
    let mut cb = CircuitBreaker::new().with_backoff(vec![10, 20]);
    assert_eq!(controller_step(&mut cb, ControllerEvent::ChildExited, true), ControllerAction::Wait(Duration::from_millis(10)));
    assert_eq!(controller_step(&mut cb, ControllerEvent::WaitFinished, true), ControllerAction::SpawnChild);
    assert_eq!(cb.state(), CbState::Running);
    assert_eq!(controller_step(&mut cb, ControllerEvent::ChildExited, true), ControllerAction::Wait(Duration::from_millis(20)));
    assert_eq!(controller_step(&mut cb, ControllerEvent::WaitFinished, true), ControllerAction::SpawnChild);
    assert_eq!(
        controller_step(&mut cb, ControllerEvent::ChildExited, true),
        ControllerAction::GiveUp("worker stopped after repeated failures".to_string())
    );
    assert_eq!(cb.state(), CbState::Failed);
}

#[test]
fn controller_stops_when_app_exits() {
    let mut cb = CircuitBreaker::new();
    assert_eq!(controller_step(&mut cb, ControllerEvent::ChildExited, false), ControllerAction::Stop);
    assert_eq!(cb.consecutive_failures(), 0);
    cb.on_failure();
    assert_eq!(controller_step(&mut cb, ControllerEvent::WaitFinished, false), ControllerAction::Stop);
    assert_eq!(cb.state(), CbState::Waiting);
}

#[test]
fn reader_events_update_latest_and_breaker() {
    let mut cb = CircuitBreaker::new().with_healthy_reset(1);
    cb.on_failure();
    cb.on_respawn();
    let mut latest = None;
    assert!(on_reader_event(&mut cb, &mut latest, ReaderEvent::Message(error_message())));
    assert_eq!(latest, Some(error_message()));
    assert_eq!(cb.consecutive_failures(), 1);
    assert!(!on_reader_event(&mut cb, &mut latest, ReaderEvent::Ended));
    assert_eq!(latest, Some(error_message()));
}

#[test]
fn mock_flag_values() {
    assert!(mock_flag_enabled("1"));
    assert!(mock_flag_enabled("true"));
    assert!(mock_flag_enabled("TRUE"));
    assert!(mock_flag_enabled("tRuE"));
    assert!(!mock_flag_enabled("0"));
    assert!(!mock_flag_enabled("yes"));
    assert!(!mock_flag_enabled("true "));
    assert!(!mock_flag_enabled(""));
    assert!(!mock_flag_enabled("11"));
}

#[test]
fn worker_exe_preference_order() {
    assert_eq!(choose_worker_exe(false, true, true, true), WorkerExe::Override);
    assert_eq!(choose_worker_exe(false, false, true, true), WorkerExe::Release);
    assert_eq!(choose_worker_exe(false, false, false, true), WorkerExe::Debug);
    assert_eq!(choose_worker_exe(false, false, false, false), WorkerExe::Bare);
    assert_eq!(choose_worker_exe(false, true, false, false), WorkerExe::Override);
}

#[test]
fn release_build_takes_shipped_worker() {
    assert_eq!(choose_worker_exe(true, true, true, true), WorkerExe::Bare);
    assert_eq!(choose_worker_exe(true, false, true, false), WorkerExe::Bare);
    assert_eq!(choose_worker_exe(true, false, false, false), WorkerExe::Bare);
}

#[test]
fn silent_worker_ends_the_run() {
    let mut cb = CircuitBreaker::new();
    let mut latest = Some(error_message());
    assert!(!on_reader_event(&mut cb, &mut latest, ReaderEvent::Silent));
    assert_eq!(latest, Some(error_message()));
    assert_eq!(cb.consecutive_failures(), 0);
    assert_eq!(HANG_TIMEOUT_MS, 3_000);
    // the ended run is then reported as an exit, which starts the backoff
    assert_eq!(
        controller_step(&mut cb, ControllerEvent::ChildExited, true),
        ControllerAction::Wait(Duration::from_millis(250))
    );
}
