//! The desktop shell's view of its backend companion process: the status it
//! reports, and the decisions of the loop that starts and restarts it.
use vstd::prelude::*;

use crate::text::{decimal_digits, joined, u64_text};

verus! {

#[derive(Clone, Copy, Debug, PartialEq, Eq, Structural)]
pub enum BackendState {
    Reconnecting,
    Ready,
    Unavailable,
}

#[derive(Debug, PartialEq)]
pub struct BackendStatus {
    pub state: BackendState,
    pub endpoint: Option<String>,
}

pub struct StatusModel {
    pub state: BackendState,
    pub endpoint: Option<Seq<char>>,
}

impl View for BackendStatus {
    type V = StatusModel;

    open spec fn view(&self) -> StatusModel {
        StatusModel {
            state: self.state,
            endpoint: match self.endpoint {
                Some(e) => Some(e@),
                None => None,
            },
        }
    }
}

impl Clone for BackendStatus {
    fn clone(&self) -> (r: Self)
        ensures
            r@ == self@,
    {
        BackendStatus {
            state: self.state,
            endpoint: match &self.endpoint {
                Some(e) => Some(e.clone()),
                None => None,
            },
        }
    }
}

/// Replaces the reported status: a new state always comes with its own
/// endpoint, so a stale endpoint never outlives the state it belonged to.
pub fn update_status(status: &mut BackendStatus, state: BackendState, endpoint: Option<String>)
    ensures
        final(status)@ == (StatusModel {
            state,
            endpoint: match endpoint {
                Some(e) => Some(e@),
                None => None,
            },
        }),
{
    *status = BackendStatus { state, endpoint };
}

/// The loopback address of a backend listening on `port`.
pub fn ready_endpoint(port: u16) -> (r: String)
    ensures
        r@ == "http://127.0.0.1:"@ + decimal_digits(port as nat),
{
    let digits = u64_text(port as u64);
    joined("http://127.0.0.1:", digits.as_str())
}

/// What the supervisor is waiting for.
#[derive(Clone, Copy, Debug, PartialEq, Eq, Structural)]
pub enum SupervisorPhase {
    /// A new round is about to start the backend.
    Starting,
    /// The backend is running.
    Running,
    /// The backend stopped or could not start; a restart is pending.
    Waiting,
    /// The supervisor has stopped.
    Stopped,
}

/// What happened since the last decision.
#[derive(Clone, Copy, Debug, PartialEq, Eq, Structural)]
pub enum SupervisorEvent {
    /// The backend reported that it listens on this port.
    Started { port: u16 },
    /// The backend could not be started or did not report ready.
    StartFailed,
    /// The running backend exited.
    Exited,
    /// The shell is shutting down.
    ShutdownRequested,
    /// The pause before a restart is over.
    RestartDue,
}

/// What the supervisor does next.
#[derive(Clone, Copy, Debug, PartialEq, Eq, Structural)]
pub enum SupervisorAction {
    StartBackend,
    WatchBackend,
    PauseBeforeRestart,
    StopBackend,
    Finish,
}

/// The status a supervisor reports for a state, with the endpoint of a ready
/// backend.
pub open spec fn reported(state: BackendState, port: Option<u16>) -> StatusModel {
    StatusModel {
        state,
        endpoint: match port {
            Some(p) => Some("http://127.0.0.1:"@ + decimal_digits(p as nat)),
            None => None,
        },
    }
}

/// One decision of the supervisor: the next phase, the status to report (if
/// it changes) and the action to take.
pub open spec fn supervisor_step(phase: SupervisorPhase, event: SupervisorEvent) -> (
    SupervisorPhase,
    Option<StatusModel>,
    SupervisorAction,
) {
    match (phase, event) {
        (SupervisorPhase::Stopped, _) => (SupervisorPhase::Stopped, None, SupervisorAction::Finish),
        (_, SupervisorEvent::ShutdownRequested) => if phase == SupervisorPhase::Running {
            (SupervisorPhase::Stopped, None, SupervisorAction::StopBackend)
        } else {
            (SupervisorPhase::Stopped, None, SupervisorAction::Finish)
        },
        (SupervisorPhase::Starting, SupervisorEvent::Started { port }) => (
            SupervisorPhase::Running,
            Some(reported(BackendState::Ready, Some(port))),
            SupervisorAction::WatchBackend,
        ),
        (SupervisorPhase::Starting, SupervisorEvent::StartFailed) => (
            SupervisorPhase::Waiting,
            Some(reported(BackendState::Unavailable, None)),
            SupervisorAction::PauseBeforeRestart,
        ),
        (SupervisorPhase::Running, SupervisorEvent::Exited) => (
            SupervisorPhase::Waiting,
            Some(reported(BackendState::Reconnecting, None)),
            SupervisorAction::PauseBeforeRestart,
        ),
        (SupervisorPhase::Waiting, SupervisorEvent::RestartDue) => (
            SupervisorPhase::Starting,
            Some(reported(BackendState::Reconnecting, None)),
            SupervisorAction::StartBackend,
        ),
        (SupervisorPhase::Starting, _) => (phase, None, SupervisorAction::StartBackend),
        (SupervisorPhase::Running, _) => (phase, None, SupervisorAction::WatchBackend),
        (SupervisorPhase::Waiting, _) => (phase, None, SupervisorAction::PauseBeforeRestart),
    }
}

pub open spec fn status_option(s: Option<BackendStatus>) -> Option<StatusModel> {
    match s {
        Some(v) => Some(v@),
        None => None,
    }
}

/// Decides the supervisor's next step.
pub fn next_step(phase: SupervisorPhase, event: SupervisorEvent) -> (r: (
    SupervisorPhase,
    Option<BackendStatus>,
    SupervisorAction,
))
    ensures
        (r.0, status_option(r.1), r.2) == supervisor_step(phase, event),
{
    match (phase, event) {
        (SupervisorPhase::Stopped, _) => (SupervisorPhase::Stopped, None, SupervisorAction::Finish),
        (_, SupervisorEvent::ShutdownRequested) => if phase == SupervisorPhase::Running {
            (SupervisorPhase::Stopped, None, SupervisorAction::StopBackend)
        } else {
            (SupervisorPhase::Stopped, None, SupervisorAction::Finish)
        },
        (SupervisorPhase::Starting, SupervisorEvent::Started { port }) => (
            SupervisorPhase::Running,
            Some(BackendStatus { state: BackendState::Ready, endpoint: Some(ready_endpoint(port)) }),
            SupervisorAction::WatchBackend,
        ),
        (SupervisorPhase::Starting, SupervisorEvent::StartFailed) => (
            SupervisorPhase::Waiting,
            Some(BackendStatus { state: BackendState::Unavailable, endpoint: None }),
            SupervisorAction::PauseBeforeRestart,
        ),
        (SupervisorPhase::Running, SupervisorEvent::Exited) => (
            SupervisorPhase::Waiting,
            Some(BackendStatus { state: BackendState::Reconnecting, endpoint: None }),
            SupervisorAction::PauseBeforeRestart,
        ),
        (SupervisorPhase::Waiting, SupervisorEvent::RestartDue) => (
            SupervisorPhase::Starting,
            Some(BackendStatus { state: BackendState::Reconnecting, endpoint: None }),
            SupervisorAction::StartBackend,
        ),
        (SupervisorPhase::Starting, _) => (phase, None, SupervisorAction::StartBackend),
        (SupervisorPhase::Running, _) => (phase, None, SupervisorAction::WatchBackend),
        (SupervisorPhase::Waiting, _) => (phase, None, SupervisorAction::PauseBeforeRestart),
    }
}

/// What the desktop shell reports about itself.
#[derive(Debug, PartialEq)]
pub struct RuntimeInfo {
    pub application: &'static str,
    pub runtime: &'static str,
    pub backend: BackendStatus,
}

pub fn current_runtime_info(backend: BackendStatus) -> (r: RuntimeInfo)
    ensures
        r.application@ == "Stocksman"@,
        r.runtime@ == "Rust + Tokio"@,
        r.backend@ == backend@,
{
    RuntimeInfo { application: "Stocksman", runtime: "Rust + Tokio", backend }
}

/// Every status the supervisor reports carries an endpoint exactly when the
/// backend is ready, so no stale endpoint is ever reported.
pub proof fn law_endpoint_only_when_ready(phase: SupervisorPhase, event: SupervisorEvent)
    ensures
        supervisor_step(phase, event).1 matches Some(status) ==> (status.endpoint is Some
            <==> status.state == BackendState::Ready),
{
}

/// Once stopped, the supervisor stays stopped and does nothing more; it
/// stops a backend only when one is running.
pub proof fn law_stopping_is_final(phase: SupervisorPhase, event: SupervisorEvent)
    ensures
        phase == SupervisorPhase::Stopped ==> supervisor_step(phase, event) == (
            SupervisorPhase::Stopped,
            None::<StatusModel>,
            SupervisorAction::Finish,
        ),
        supervisor_step(phase, event).2 == SupervisorAction::StopBackend ==> phase
            == SupervisorPhase::Running,
        event == SupervisorEvent::ShutdownRequested ==> supervisor_step(phase, event).0
            == SupervisorPhase::Stopped,
{
}

} // verus!
