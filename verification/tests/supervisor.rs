use stocksman::supervisor::{
    current_runtime_info, next_step, ready_endpoint, update_status, BackendState, BackendStatus,
    RuntimeInfo, SupervisorAction, SupervisorEvent, SupervisorPhase,
};

#[test]
fn status_transitions_clear_stale_endpoints() {
    let mut status = BackendStatus {
        state: BackendState::Ready,
        endpoint: Some("http://127.0.0.1:1234".to_owned()),
    };

    update_status(&mut status, BackendState::Reconnecting, None);

    assert_eq!(
        status,
        BackendStatus {
            state: BackendState::Reconnecting,
            endpoint: None,
        }
    );
}

#[test]
fn reports_ready_from_the_tokio_runtime() {
    let status = BackendStatus {
        state: BackendState::Ready,
        endpoint: Some("http://127.0.0.1:1234".to_owned()),
    };

    assert_eq!(
        current_runtime_info(status),
        RuntimeInfo {
            application: "Stocksman",
            runtime: "Rust + Tokio",
            backend: BackendStatus {
                state: BackendState::Ready,
                endpoint: Some("http://127.0.0.1:1234".to_owned()),
            },
        }
    );
}

#[test]
fn a_started_backend_is_reported_ready_at_its_port() {
    assert_eq!(ready_endpoint(1234), "http://127.0.0.1:1234");
    let (phase, status, action) =
        next_step(SupervisorPhase::Starting, SupervisorEvent::Started { port: 41_000 });
    assert_eq!(phase, SupervisorPhase::Running);
    assert_eq!(action, SupervisorAction::WatchBackend);
    assert_eq!(
        status,
        Some(BackendStatus {
            state: BackendState::Ready,
            endpoint: Some("http://127.0.0.1:41000".to_owned()),
        })
    );
}

#[test]
fn exits_and_failures_clear_the_endpoint_and_schedule_a_restart() {
    let (phase, status, action) = next_step(SupervisorPhase::Running, SupervisorEvent::Exited);
    assert_eq!(phase, SupervisorPhase::Waiting);
    assert_eq!(action, SupervisorAction::PauseBeforeRestart);
    assert_eq!(
        status,
        Some(BackendStatus {
            state: BackendState::Reconnecting,
            endpoint: None,
        })
    );

    let (phase, status, action) = next_step(SupervisorPhase::Starting, SupervisorEvent::StartFailed);
    assert_eq!(phase, SupervisorPhase::Waiting);
    assert_eq!(action, SupervisorAction::PauseBeforeRestart);
    assert_eq!(
        status,
        Some(BackendStatus {
            state: BackendState::Unavailable,
            endpoint: None,
        })
    );

    let (phase, status, action) = next_step(SupervisorPhase::Waiting, SupervisorEvent::RestartDue);
    assert_eq!(phase, SupervisorPhase::Starting);
    assert_eq!(action, SupervisorAction::StartBackend);
    assert_eq!(
        status,
        Some(BackendStatus {
            state: BackendState::Reconnecting,
            endpoint: None,
        })
    );
}

#[test]
fn shutdown_stops_a_running_backend_and_is_final() {
    let (phase, status, action) =
        next_step(SupervisorPhase::Running, SupervisorEvent::ShutdownRequested);
    assert_eq!(phase, SupervisorPhase::Stopped);
    assert_eq!(status, None);
    assert_eq!(action, SupervisorAction::StopBackend);

    let (phase, _, action) = next_step(SupervisorPhase::Waiting, SupervisorEvent::ShutdownRequested);
    assert_eq!(phase, SupervisorPhase::Stopped);
    assert_eq!(action, SupervisorAction::Finish);

    let (phase, status, action) =
        next_step(SupervisorPhase::Stopped, SupervisorEvent::Started { port: 1 });
    assert_eq!(phase, SupervisorPhase::Stopped);
    assert_eq!(status, None);
    assert_eq!(action, SupervisorAction::Finish);
}
