//! The decisions of the daemon's control loop.
//!
//! The loop waits for a tick of the clock, a signal or a request. What it
//! learns becomes an event, and the loop performs the action that
//! [`ControlLoop::step`] returns for it.

use vstd::prelude::*;
use super::protocol::{
    ControlRequest, ControlResponse, ControlResponseView, SessionState, SessionStatus,
};
use crate::error::{view_error, Error, ErrorView, Result};
use crate::net::IpAddr;

verus! {

/// The first wait before a reconnection, in seconds.
pub const AUTO_RECONNECT_INITIAL_DELAY: u64 = 2;

/// The longest wait before a reconnection, in seconds.
pub const AUTO_RECONNECT_MAX_DELAY: u64 = 60;

/// The initial wait, doubled `n` times.
pub open spec fn doubled_delay(n: nat) -> nat
    decreases n,
{
    if n == 0 {
        AUTO_RECONNECT_INITIAL_DELAY as nat
    } else {
        2 * doubled_delay((n - 1) as nat)
    }
}

/// How often the wait is doubled for an attempt: once for each attempt before
/// it, five times at most.
pub open spec fn doublings(attempt: u32) -> nat {
    if attempt == 0 {
        0
    } else if attempt - 1 < 5 {
        (attempt - 1) as nat
    } else {
        5
    }
}

/// The wait before a reconnection attempt, in seconds.
pub open spec fn delay_before(attempt: u32) -> nat {
    let delay = doubled_delay(doublings(attempt));
    if delay < AUTO_RECONNECT_MAX_DELAY {
        delay
    } else {
        AUTO_RECONNECT_MAX_DELAY as nat
    }
}

/// The wait before a reconnection attempt, in seconds.
pub fn reconnect_delay(attempt: u32) -> (r: u64)
    ensures
        r == delay_before(attempt),
{
    let before: u32 = attempt.saturating_sub(1);
    let exponent: u32 = if before < 5 {
        before
    } else {
        5
    };
    let mut delay: u64 = AUTO_RECONNECT_INITIAL_DELAY;
    let mut i: u32 = 0;
    while i < exponent
        invariant
            i <= exponent <= 5,
            delay == doubled_delay(i as nat),
            i == 0 ==> delay == 2,
            i == 1 ==> delay == 4,
            i == 2 ==> delay == 8,
            i == 3 ==> delay == 16,
            i == 4 ==> delay == 32,
            i == 5 ==> delay == 64,
        decreases exponent - i,
    {
        delay = delay * 2;
        i += 1;
    }
    if delay < AUTO_RECONNECT_MAX_DELAY {
        delay
    } else {
        AUTO_RECONNECT_MAX_DELAY
    }
}

/// The wait grows from attempt to attempt, and stays between its bounds.
pub proof fn lemma_backoff(a: u32, b: u32)
    requires
        a <= b,
    ensures
        AUTO_RECONNECT_INITIAL_DELAY <= delay_before(a) <= delay_before(b)
            <= AUTO_RECONNECT_MAX_DELAY,
{
    reveal_with_fuel(doubled_delay, 6);
}

/// What is known of a running session.
#[derive(Clone, Copy, Debug, PartialEq, Eq, Structural)]
pub struct SessionFacts {
    pub pid: Option<u32>,
    pub vpn_ip: Option<IpAddr>,
}

/// The status of a session in a given phase.
pub open spec fn status_of(
    session: SessionFacts,
    state: SessionState,
    daemon_pid: u32,
) -> SessionStatus {
    SessionStatus { state, daemon_pid, openvpn_pid: session.pid, vpn_ip: session.vpn_ip }
}

/// The status without a session in a given phase.
pub open spec fn bare_status(state: SessionState, daemon_pid: u32) -> SessionStatus {
    SessionStatus { state, daemon_pid, openvpn_pid: None, vpn_ip: None }
}

/// The status of a session in a given phase.
pub fn session_status(session: &SessionFacts, state: SessionState, daemon_pid: u32) -> (r:
    SessionStatus)
    ensures
        r == status_of(*session, state, daemon_pid),
{
    SessionStatus { state, daemon_pid, openvpn_pid: session.pid, vpn_ip: session.vpn_ip }
}

/// The status while there is no session yet.
pub fn connecting_status(daemon_pid: u32) -> (r: SessionStatus)
    ensures
        r == bare_status(SessionState::Connecting, daemon_pid),
{
    SessionStatus {
        state: SessionState::Connecting,
        daemon_pid,
        openvpn_pid: None,
        vpn_ip: None,
    }
}

/// How far a reconnection attempt has come.
#[derive(Clone, Copy, Debug, PartialEq, Eq, Structural)]
pub enum AttemptState {
    /// It is still under way, or there is none.
    Pending,
    /// It brought a session.
    Connected(SessionFacts),
    /// It failed.
    Failed,
}

/// What the control loop waits for.
#[derive(Debug)]
pub enum LoopStage {
    /// The session runs; the loop waits for whatever comes.
    Active,
    /// An attempt to reconnect runs; the loop waits for whatever comes.
    Reconnecting { attempt: u32 },
    /// An attempt to reconnect is about to start.
    Starting { attempt: u32 },
    /// The state file is being written because an attempt has started.
    Noting { attempt: u32 },
    /// The state file is being written because there is a new session.
    Adopting,
    /// The status is being sent. The attempt under way, if any, goes on.
    Replying { resume: Option<u32> },
    /// The state file is being written because a client asked for the end.
    Announcing,
    /// The session, or the attempt under way, is being ended.
    Closing { answer: bool },
    /// The outcome is being sent to the client that asked for the end.
    Answering { failure: Option<Error> },
    /// The daemon's files are being removed.
    Cleaning { failure: Option<Error> },
    /// The loop has ended.
    Ended,
}

/// What happened.
#[derive(Debug)]
pub enum LoopEvent {
    /// The clock ticked: whether the session's process has exited, and how far
    /// the attempt to reconnect has come.
    Tick { exited: Result<bool>, attempt: AttemptState },
    /// The attempt to reconnect was started.
    AttemptStarted,
    /// The state file was written, or could not be written.
    StateWritten(Result<()>),
    /// A signal asked for the end, or signals could not be received.
    Signal(Result<()>),
    /// A request came in, or could not be received; the running session.
    Request { request: Result<ControlRequest>, session: Option<SessionFacts> },
    /// The response was sent, or could not be sent.
    ResponseWritten(Result<()>),
    /// The session, or the attempt under way, was ended.
    SessionClosed(Result<()>),
    /// The daemon's files were removed.
    CleanedUp,
}

/// What the loop does next.
#[derive(Debug)]
pub enum LoopAction {
    /// Wait for the next event.
    Wait,
    /// Forget the session, if any, and start an attempt to reconnect after a
    /// delay in seconds.
    StartAttempt { attempt: u32, delay: u64 },
    /// Write the state file.
    WriteState(SessionStatus),
    /// Send a response.
    Respond(ControlResponse),
    /// End the session, or give up the attempt under way.
    Close,
    /// Remove the daemon's files.
    Cleanup,
    /// Return from the loop.
    Finish(Result<()>),
}

/// The model of a stage.
pub enum LoopStageView {
    Active,
    Reconnecting { attempt: u32 },
    Starting { attempt: u32 },
    Noting { attempt: u32 },
    Adopting,
    Replying { resume: Option<u32> },
    Announcing,
    Closing { answer: bool },
    Answering { failure: Option<ErrorView> },
    Cleaning { failure: Option<ErrorView> },
    Ended,
}

/// The model of an event.
pub enum LoopEventView {
    Tick { exited: std::result::Result<bool, ErrorView>, attempt: AttemptState },
    AttemptStarted,
    StateWritten(std::result::Result<(), ErrorView>),
    Signal(std::result::Result<(), ErrorView>),
    Request {
        request: std::result::Result<ControlRequest, ErrorView>,
        session: Option<SessionFacts>,
    },
    ResponseWritten(std::result::Result<(), ErrorView>),
    SessionClosed(std::result::Result<(), ErrorView>),
    CleanedUp,
}

/// The model of an action.
pub enum LoopActionView {
    Wait,
    StartAttempt { attempt: u32, delay: u64 },
    WriteState(SessionStatus),
    Respond(ControlResponseView),
    Close,
    Cleanup,
    Finish(std::result::Result<(), ErrorView>),
}

/// The model of an optional error.
pub open spec fn view_failure(failure: Option<Error>) -> Option<ErrorView> {
    match failure {
        Some(e) => Some(e@),
        None => None,
    }
}

/// The result that an optional error stands for.
pub open spec fn outcome(failure: Option<ErrorView>) -> std::result::Result<(), ErrorView> {
    match failure {
        Some(e) => Err(e),
        None => Ok(()),
    }
}

/// The error of a result.
pub open spec fn failure_of(result: std::result::Result<(), ErrorView>) -> Option<ErrorView> {
    match result {
        Ok(_) => None,
        Err(e) => Some(e),
    }
}

impl View for LoopStage {
    type V = LoopStageView;

    open spec fn view(&self) -> LoopStageView {
        match self {
            LoopStage::Active => LoopStageView::Active,
            LoopStage::Reconnecting { attempt } => LoopStageView::Reconnecting {
                attempt: *attempt,
            },
            LoopStage::Starting { attempt } => LoopStageView::Starting { attempt: *attempt },
            LoopStage::Noting { attempt } => LoopStageView::Noting { attempt: *attempt },
            LoopStage::Adopting => LoopStageView::Adopting,
            LoopStage::Replying { resume } => LoopStageView::Replying { resume: *resume },
            LoopStage::Announcing => LoopStageView::Announcing,
            LoopStage::Closing { answer } => LoopStageView::Closing { answer: *answer },
            LoopStage::Answering { failure } => LoopStageView::Answering {
                failure: view_failure(*failure),
            },
            LoopStage::Cleaning { failure } => LoopStageView::Cleaning {
                failure: view_failure(*failure),
            },
            LoopStage::Ended => LoopStageView::Ended,
        }
    }
}

impl View for LoopEvent {
    type V = LoopEventView;

    open spec fn view(&self) -> LoopEventView {
        match self {
            LoopEvent::Tick { exited, attempt } => LoopEventView::Tick {
                exited: view_error(*exited),
                attempt: *attempt,
            },
            LoopEvent::AttemptStarted => LoopEventView::AttemptStarted,
            LoopEvent::StateWritten(result) => LoopEventView::StateWritten(view_error(*result)),
            LoopEvent::Signal(result) => LoopEventView::Signal(view_error(*result)),
            LoopEvent::Request { request, session } => LoopEventView::Request {
                request: view_error(*request),
                session: *session,
            },
            LoopEvent::ResponseWritten(result) => LoopEventView::ResponseWritten(
                view_error(*result),
            ),
            LoopEvent::SessionClosed(result) => LoopEventView::SessionClosed(view_error(*result)),
            LoopEvent::CleanedUp => LoopEventView::CleanedUp,
        }
    }
}

impl View for LoopAction {
    type V = LoopActionView;

    open spec fn view(&self) -> LoopActionView {
        match self {
            LoopAction::Wait => LoopActionView::Wait,
            LoopAction::StartAttempt { attempt, delay } => LoopActionView::StartAttempt {
                attempt: *attempt,
                delay: *delay,
            },
            LoopAction::WriteState(status) => LoopActionView::WriteState(*status),
            LoopAction::Respond(response) => LoopActionView::Respond(response@),
            LoopAction::Close => LoopActionView::Close,
            LoopAction::Cleanup => LoopActionView::Cleanup,
            LoopAction::Finish(result) => LoopActionView::Finish(view_error(*result)),
        }
    }
}

/// The loop ends with an error.
pub open spec fn fail(e: ErrorView) -> (LoopStageView, LoopActionView) {
    (LoopStageView::Ended, LoopActionView::Finish(Err(e)))
}

/// An attempt to reconnect begins.
pub open spec fn begin(attempt: u32) -> (LoopStageView, LoopActionView) {
    (
        LoopStageView::Starting { attempt },
        LoopActionView::StartAttempt { attempt, delay: delay_before(attempt) as u64 },
    )
}

/// The number of the attempt that follows a failed one.
pub open spec fn next_attempt(attempt: u32) -> u32 {
    if attempt < u32::MAX {
        (attempt + 1) as u32
    } else {
        u32::MAX
    }
}

/// The number of the attempt that is under way.
pub open spec fn under_way(stage: LoopStageView) -> Option<u32> {
    match stage {
        LoopStageView::Reconnecting { attempt } => Some(attempt),
        _ => None,
    }
}

/// The session that is up: none while an attempt to reconnect is under way.
pub open spec fn session_up(stage: LoopStageView, session: Option<SessionFacts>) -> Option<
    SessionFacts,
> {
    if under_way(stage) is Some {
        None
    } else {
        session
    }
}

/// The status that a client is told: connected while the session is up, and
/// connecting otherwise.
pub open spec fn told_status(
    stage: LoopStageView,
    session: Option<SessionFacts>,
    daemon_pid: u32,
) -> SessionStatus {
    match session_up(stage, session) {
        Some(session) => status_of(session, SessionState::Connected, daemon_pid),
        None => bare_status(SessionState::Connecting, daemon_pid),
    }
}

/// The status that is noted when a client asks for the end.
pub open spec fn ending_status(
    stage: LoopStageView,
    session: Option<SessionFacts>,
    daemon_pid: u32,
) -> SessionStatus {
    match session_up(stage, session) {
        Some(session) => status_of(session, SessionState::Disconnecting, daemon_pid),
        None => bare_status(SessionState::Disconnecting, daemon_pid),
    }
}

/// What a client that asked for the end is told.
pub open spec fn ending_response(
    result: std::result::Result<(), ErrorView>,
) -> ControlResponseView {
    match result {
        Ok(_) => ControlResponseView::Disconnected,
        Err(e) => ControlResponseView::Error(e.text()),
    }
}

/// A signal or a request, which come while the loop waits.
pub open spec fn interrupted(
    stage: LoopStageView,
    event: LoopEventView,
    daemon_pid: u32,
) -> (LoopStageView, LoopActionView) {
    match event {
        LoopEventView::Signal(Ok(_)) => (
            LoopStageView::Closing { answer: false },
            LoopActionView::Close,
        ),
        LoopEventView::Signal(Err(e)) => fail(e),
        LoopEventView::Request { request: Err(e), .. } => fail(e),
        LoopEventView::Request { request: Ok(ControlRequest::Status), session } => (
            LoopStageView::Replying { resume: under_way(stage) },
            LoopActionView::Respond(
                ControlResponseView::Status(told_status(stage, session, daemon_pid)),
            ),
        ),
        LoopEventView::Request { request: Ok(ControlRequest::Disconnect), session } => (
            LoopStageView::Announcing,
            LoopActionView::WriteState(ending_status(stage, session, daemon_pid)),
        ),
        _ => (stage, LoopActionView::Wait),
    }
}

/// The next stage and the action for an event. An event that the stage does
/// not wait for changes nothing.
pub open spec fn next_step(stage: LoopStageView, event: LoopEventView, daemon_pid: u32) -> (
    LoopStageView,
    LoopActionView,
) {
    match (stage, event) {
        (LoopStageView::Active, LoopEventView::Tick { exited, .. }) => match exited {
            Err(e) => fail(e),
            Ok(true) => begin(1),
            Ok(false) => (stage, LoopActionView::Wait),
        },
        (LoopStageView::Reconnecting { attempt }, LoopEventView::Tick { attempt: found, .. }) => {
            match found {
                AttemptState::Pending => (stage, LoopActionView::Wait),
                AttemptState::Connected(session) => (
                    LoopStageView::Adopting,
                    LoopActionView::WriteState(
                        status_of(session, SessionState::Connected, daemon_pid),
                    ),
                ),
                AttemptState::Failed => begin(next_attempt(attempt)),
            }
        },
        (LoopStageView::Active, _) => interrupted(stage, event, daemon_pid),
        (LoopStageView::Reconnecting { .. }, _) => interrupted(stage, event, daemon_pid),
        (LoopStageView::Starting { attempt }, LoopEventView::AttemptStarted) => (
            LoopStageView::Noting { attempt },
            LoopActionView::WriteState(bare_status(SessionState::Connecting, daemon_pid)),
        ),
        (LoopStageView::Noting { attempt }, LoopEventView::StateWritten(_)) => (
            LoopStageView::Reconnecting { attempt },
            LoopActionView::Wait,
        ),
        (LoopStageView::Adopting, LoopEventView::StateWritten(result)) => match result {
            Ok(_) => (LoopStageView::Active, LoopActionView::Wait),
            Err(e) => fail(e),
        },
        (LoopStageView::Replying { resume }, LoopEventView::ResponseWritten(result)) => {
            match (result, resume) {
                (Err(e), _) => fail(e),
                (Ok(_), None) => (LoopStageView::Active, LoopActionView::Wait),
                (Ok(_), Some(attempt)) => (
                    LoopStageView::Reconnecting { attempt },
                    LoopActionView::Wait,
                ),
            }
        },
        (LoopStageView::Announcing, LoopEventView::StateWritten(_)) => (
            LoopStageView::Closing { answer: true },
            LoopActionView::Close,
        ),
        (LoopStageView::Closing { answer }, LoopEventView::SessionClosed(result)) => if answer {
            (
                LoopStageView::Answering { failure: failure_of(result) },
                LoopActionView::Respond(ending_response(result)),
            )
        } else {
            (LoopStageView::Cleaning { failure: failure_of(result) }, LoopActionView::Cleanup)
        },
        (LoopStageView::Answering { failure }, LoopEventView::ResponseWritten(result)) => {
            match result {
                Ok(_) => (LoopStageView::Cleaning { failure }, LoopActionView::Cleanup),
                Err(e) => fail(e),
            }
        },
        (LoopStageView::Cleaning { failure }, LoopEventView::CleanedUp) => (
            LoopStageView::Ended,
            LoopActionView::Finish(outcome(failure)),
        ),
        _ => (stage, LoopActionView::Wait),
    }
}

/// The control loop of a daemon.
#[derive(Debug)]
pub struct ControlLoop {
    pub stage: LoopStage,
    pub daemon_pid: u32,
}

impl ControlLoop {
    /// The loop for a session that has just been made.
    pub fn new(daemon_pid: u32) -> (r: ControlLoop)
        ensures
            r.stage@ == LoopStageView::Active,
            r.daemon_pid == daemon_pid,
    {
        ControlLoop { stage: LoopStage::Active, daemon_pid }
    }

    /// Handles a signal or a request while the attempt `attempt`, if any, is
    /// under way.
    fn interrupt(&mut self, attempt: Option<u32>, event: LoopEvent) -> (r: LoopAction)
        requires
            attempt == under_way(old(self).stage@),
        ensures
            (final(self).stage@, r@) == interrupted(
                old(self).stage@,
                event@,
                old(self).daemon_pid,
            ),
            final(self).daemon_pid == old(self).daemon_pid,
    {
        match event {
            LoopEvent::Signal(Ok(())) => {
                self.stage = LoopStage::Closing { answer: false };
                LoopAction::Close
            },
            LoopEvent::Signal(Err(e)) => {
                self.stage = LoopStage::Ended;
                LoopAction::Finish(Err(e))
            },
            LoopEvent::Request { request, session } => match request {
                Err(e) => {
                    self.stage = LoopStage::Ended;
                    LoopAction::Finish(Err(e))
                },
                Ok(ControlRequest::Status) => {
                    let status = match session {
                        Some(session) if attempt.is_none() => session_status(
                            &session,
                            SessionState::Connected,
                            self.daemon_pid,
                        ),
                        _ => connecting_status(self.daemon_pid),
                    };
                    self.stage = LoopStage::Replying { resume: attempt };
                    LoopAction::Respond(ControlResponse::Status(status))
                },
                Ok(ControlRequest::Disconnect) => {
                    let session = match session {
                        Some(session) if attempt.is_none() => session,
                        _ => SessionFacts { pid: None, vpn_ip: None },
                    };
                    let status = session_status(
                        &session,
                        SessionState::Disconnecting,
                        self.daemon_pid,
                    );
                    self.stage = LoopStage::Announcing;
                    LoopAction::WriteState(status)
                },
            },
            _ => LoopAction::Wait,
        }
    }

    /// Starts an attempt to reconnect.
    fn start(&mut self, attempt: u32) -> (r: LoopAction)
        ensures
            (final(self).stage@, r@) == begin(attempt),
            final(self).daemon_pid == old(self).daemon_pid,
    {
        self.stage = LoopStage::Starting { attempt };
        LoopAction::StartAttempt { attempt, delay: reconnect_delay(attempt) }
    }

    /// Takes an event and returns the action for it.
    pub fn step(&mut self, event: LoopEvent) -> (r: LoopAction)
        ensures
            (final(self).stage@, r@) == next_step(old(self).stage@, event@, old(self).daemon_pid),
            final(self).daemon_pid == old(self).daemon_pid,
    {
        let mut stage = LoopStage::Ended;
        std::mem::swap(&mut stage, &mut self.stage);
        match (stage, event) {
            (LoopStage::Active, LoopEvent::Tick { exited, attempt: _ }) => match exited {
                Err(e) => LoopAction::Finish(Err(e)),
                Ok(true) => self.start(1),
                Ok(false) => {
                    self.stage = LoopStage::Active;
                    LoopAction::Wait
                },
            },
            (
                LoopStage::Reconnecting { attempt },
                LoopEvent::Tick { exited: _, attempt: found },
            ) => match found {
                AttemptState::Pending => {
                    self.stage = LoopStage::Reconnecting { attempt };
                    LoopAction::Wait
                },
                AttemptState::Connected(session) => {
                    self.stage = LoopStage::Adopting;
                    LoopAction::WriteState(
                        session_status(&session, SessionState::Connected, self.daemon_pid),
                    )
                },
                AttemptState::Failed => self.start(attempt.saturating_add(1)),
            },
            (LoopStage::Active, event) => {
                self.stage = LoopStage::Active;
                self.interrupt(None, event)
            },
            (LoopStage::Reconnecting { attempt }, event) => {
                self.stage = LoopStage::Reconnecting { attempt };
                self.interrupt(Some(attempt), event)
            },
            (LoopStage::Starting { attempt }, LoopEvent::AttemptStarted) => {
                self.stage = LoopStage::Noting { attempt };
                LoopAction::WriteState(connecting_status(self.daemon_pid))
            },
            (LoopStage::Noting { attempt }, LoopEvent::StateWritten(_)) => {
                self.stage = LoopStage::Reconnecting { attempt };
                LoopAction::Wait
            },
            (LoopStage::Adopting, LoopEvent::StateWritten(result)) => match result {
                Ok(()) => {
                    self.stage = LoopStage::Active;
                    LoopAction::Wait
                },
                Err(e) => LoopAction::Finish(Err(e)),
            },
            (LoopStage::Replying { resume }, LoopEvent::ResponseWritten(result)) => match (
                result,
                resume,
            ) {
                (Err(e), _) => LoopAction::Finish(Err(e)),
                (Ok(()), None) => {
                    self.stage = LoopStage::Active;
                    LoopAction::Wait
                },
                (Ok(()), Some(attempt)) => {
                    self.stage = LoopStage::Reconnecting { attempt };
                    LoopAction::Wait
                },
            },
            (LoopStage::Announcing, LoopEvent::StateWritten(_)) => {
                self.stage = LoopStage::Closing { answer: true };
                LoopAction::Close
            },
            (LoopStage::Closing { answer }, LoopEvent::SessionClosed(result)) => if answer {
                match result {
                    Ok(()) => {
                        self.stage = LoopStage::Answering { failure: None };
                        LoopAction::Respond(ControlResponse::Disconnected)
                    },
                    Err(e) => {
                        let message = e.message();
                        self.stage = LoopStage::Answering { failure: Some(e) };
                        LoopAction::Respond(ControlResponse::Error(message))
                    },
                }
            } else {
                match result {
                    Ok(()) => self.stage = LoopStage::Cleaning { failure: None },
                    Err(e) => self.stage = LoopStage::Cleaning { failure: Some(e) },
                }
                LoopAction::Cleanup
            },
            (LoopStage::Answering { failure }, LoopEvent::ResponseWritten(result)) => match result {
                Ok(()) => {
                    self.stage = LoopStage::Cleaning { failure };
                    LoopAction::Cleanup
                },
                Err(e) => LoopAction::Finish(Err(e)),
            },
            (LoopStage::Cleaning { failure }, LoopEvent::CleanedUp) => match failure {
                Some(e) => LoopAction::Finish(Err(e)),
                None => LoopAction::Finish(Ok(())),
            },
            (stage, _) => {
                self.stage = stage;
                LoopAction::Wait
            },
        }
    }
}

/// The stages in which the loop waits for whatever comes.
pub open spec fn waiting(stage: LoopStageView) -> bool {
    stage is Active || stage is Reconnecting
}

/// A status request leaves the loop as it was: once the answer has been sent
/// it waits in the same stage. While an attempt to reconnect is under way the
/// answer is that the daemon is connecting.
pub proof fn lemma_status_changes_nothing(
    stage: LoopStageView,
    session: Option<SessionFacts>,
    daemon_pid: u32,
)
    requires
        waiting(stage),
    ensures
        ({
            let request = LoopEventView::Request { request: Ok(ControlRequest::Status), session };
            let (replying, action) = next_step(stage, request, daemon_pid);
            &&& action == LoopActionView::Respond(
                ControlResponseView::Status(told_status(stage, session, daemon_pid)),
            )
            &&& stage is Reconnecting ==> action == LoopActionView::Respond(
                ControlResponseView::Status(bare_status(SessionState::Connecting, daemon_pid)),
            )
            &&& next_step(replying, LoopEventView::ResponseWritten(Ok(())), daemon_pid) == (
                stage,
                LoopActionView::Wait,
            )
        }),
{
}

/// A result is what its error stands for.
proof fn lemma_outcome(result: std::result::Result<(), ErrorView>)
    ensures
        outcome(failure_of(result)) == result,
{
    if let Ok(nothing) = result {
        assert(nothing == ());
    }
}

/// A client that asks for the end is told the outcome. Once it has been told,
/// the daemon's files are removed and the loop returns that outcome; whether
/// the state file could be written does not matter.
pub proof fn lemma_disconnect_is_answered(
    stage: LoopStageView,
    session: Option<SessionFacts>,
    written: std::result::Result<(), ErrorView>,
    closed: std::result::Result<(), ErrorView>,
    daemon_pid: u32,
)
    requires
        waiting(stage),
    ensures
        ({
            let request = LoopEventView::Request {
                request: Ok(ControlRequest::Disconnect),
                session,
            };
            let (s1, a1) = next_step(stage, request, daemon_pid);
            let (s2, a2) = next_step(s1, LoopEventView::StateWritten(written), daemon_pid);
            let (s3, a3) = next_step(s2, LoopEventView::SessionClosed(closed), daemon_pid);
            let (s4, a4) = next_step(s3, LoopEventView::ResponseWritten(Ok(())), daemon_pid);
            let (s5, a5) = next_step(s4, LoopEventView::CleanedUp, daemon_pid);
            &&& a1 == LoopActionView::WriteState(ending_status(stage, session, daemon_pid))
            &&& a2 == LoopActionView::Close
            &&& a3 == LoopActionView::Respond(ending_response(closed))
            &&& a4 == LoopActionView::Cleanup
            &&& a5 == LoopActionView::Finish(closed)
            &&& s5 == LoopStageView::Ended
        }),
{
    lemma_outcome(closed);
}

/// A signal ends the session, removes the daemon's files and returns the
/// outcome.
pub proof fn lemma_signal_ends_the_session(
    stage: LoopStageView,
    closed: std::result::Result<(), ErrorView>,
    daemon_pid: u32,
)
    requires
        waiting(stage),
    ensures
        ({
            let (s1, a1) = next_step(stage, LoopEventView::Signal(Ok(())), daemon_pid);
            let (s2, a2) = next_step(s1, LoopEventView::SessionClosed(closed), daemon_pid);
            let (s3, a3) = next_step(s2, LoopEventView::CleanedUp, daemon_pid);
            &&& a1 == LoopActionView::Close
            &&& a2 == LoopActionView::Cleanup
            &&& a3 == LoopActionView::Finish(closed)
        }),
{
    lemma_outcome(closed);
}

/// An unexpected exit of the session's process keeps the daemon alive: the
/// first attempt to reconnect starts, and the loop goes on whether or not the
/// state file could be written.
pub proof fn lemma_exit_is_followed_by_a_reconnection(
    attempt: AttemptState,
    written: std::result::Result<(), ErrorView>,
    daemon_pid: u32,
)
    ensures
        ({
            let tick = LoopEventView::Tick { exited: Ok(true), attempt };
            let (s1, a1) = next_step(LoopStageView::Active, tick, daemon_pid);
            let (s2, a2) = next_step(s1, LoopEventView::AttemptStarted, daemon_pid);
            let (s3, a3) = next_step(s2, LoopEventView::StateWritten(written), daemon_pid);
            &&& a1 == LoopActionView::StartAttempt { attempt: 1, delay: delay_before(1) as u64 }
            &&& a2 == LoopActionView::WriteState(bare_status(SessionState::Connecting, daemon_pid))
            &&& s3 == LoopStageView::Reconnecting { attempt: 1 }
            &&& a3 == LoopActionView::Wait
        }),
{
}

/// A failed attempt to reconnect is followed by the next one, and never ends
/// the loop.
pub proof fn lemma_failed_attempt_is_repeated(
    attempt: u32,
    exited: std::result::Result<bool, ErrorView>,
    written: std::result::Result<(), ErrorView>,
    daemon_pid: u32,
)
    ensures
        ({
            let stage = LoopStageView::Reconnecting { attempt };
            let tick = LoopEventView::Tick { exited, attempt: AttemptState::Failed };
            let (s1, a1) = next_step(stage, tick, daemon_pid);
            let (s2, a2) = next_step(s1, LoopEventView::AttemptStarted, daemon_pid);
            let (s3, a3) = next_step(s2, LoopEventView::StateWritten(written), daemon_pid);
            let next = next_attempt(attempt);
            &&& a1 == LoopActionView::StartAttempt {
                attempt: next,
                delay: delay_before(next) as u64,
            }
            &&& a2 == LoopActionView::WriteState(bare_status(SessionState::Connecting, daemon_pid))
            &&& s3 == LoopStageView::Reconnecting { attempt: next }
            &&& a3 == LoopActionView::Wait
        }),
{
}

/// An attempt to reconnect that succeeds brings the daemon back to where it
/// was before the exit: the new session is noted, and a client that asks is
/// told of it.
pub proof fn lemma_new_session_is_adopted(
    attempt: u32,
    exited: std::result::Result<bool, ErrorView>,
    session: SessionFacts,
    daemon_pid: u32,
)
    ensures
        ({
            let stage = LoopStageView::Reconnecting { attempt };
            let tick = LoopEventView::Tick { exited, attempt: AttemptState::Connected(session) };
            let request = LoopEventView::Request {
                request: Ok(ControlRequest::Status),
                session: Some(session),
            };
            let connected = status_of(session, SessionState::Connected, daemon_pid);
            let (s1, a1) = next_step(stage, tick, daemon_pid);
            let (s2, a2) = next_step(s1, LoopEventView::StateWritten(Ok(())), daemon_pid);
            let (s3, a3) = next_step(s2, request, daemon_pid);
            &&& a1 == LoopActionView::WriteState(connected)
            &&& s2 == LoopStageView::Active
            &&& a2 == LoopActionView::Wait
            &&& a3 == LoopActionView::Respond(ControlResponseView::Status(connected))
        }),
{
}

/// The waits before reconnections: two seconds before the first attempt, twice
/// as long before each of the next four, and a minute from the sixth on.
pub proof fn lemma_waits(attempt: u32)
    ensures
        attempt <= 1 ==> delay_before(attempt) == 2,
        1 <= attempt <= 4 ==> delay_before((attempt + 1) as u32) == 2 * delay_before(attempt),
        attempt >= 6 ==> delay_before(attempt) == 60,
{
    reveal_with_fuel(doubled_delay, 6);
}

/// A client that asks while a session is up is told that it is connected, with
/// the process and the address of the session; without one it is told that the
/// daemon is connecting.
pub proof fn lemma_client_is_told_the_session(session: Option<SessionFacts>, daemon_pid: u32)
    ensures
        ({
            let request = LoopEventView::Request { request: Ok(ControlRequest::Status), session };
            next_step(LoopStageView::Active, request, daemon_pid).1 == LoopActionView::Respond(
                ControlResponseView::Status(
                    match session {
                        Some(facts) => SessionStatus {
                            state: SessionState::Connected,
                            daemon_pid,
                            openvpn_pid: facts.pid,
                            vpn_ip: facts.vpn_ip,
                        },
                        None => SessionStatus {
                            state: SessionState::Connecting,
                            daemon_pid,
                            openvpn_pid: None,
                            vpn_ip: None,
                        },
                    },
                ),
            )
        }),
{
}

/// What is noted when a client asks for the end: that the session, if there is
/// one, is being ended.
pub proof fn lemma_end_is_noted(stage: LoopStageView, session: SessionFacts, daemon_pid: u32)
    requires
        waiting(stage),
    ensures
        ({
            let request = LoopEventView::Request {
                request: Ok(ControlRequest::Disconnect),
                session: Some(session),
            };
            next_step(stage, request, daemon_pid).1 == LoopActionView::WriteState(
                SessionStatus {
                    state: SessionState::Disconnecting,
                    daemon_pid,
                    openvpn_pid: if stage is Active {
                        session.pid
                    } else {
                        None
                    },
                    vpn_ip: if stage is Active {
                        session.vpn_ip
                    } else {
                        None
                    },
                },
            )
        }),
{
}

/// A client that asked for the end is told so, or why the session could not be
/// ended, in the words of that error.
pub proof fn lemma_outcome_is_told(closed: std::result::Result<(), ErrorView>, daemon_pid: u32)
    ensures
        next_step(
            LoopStageView::Closing { answer: true },
            LoopEventView::SessionClosed(closed),
            daemon_pid,
        ).1 == LoopActionView::Respond(
            match closed {
                Ok(_) => ControlResponseView::Disconnected,
                Err(e) => ControlResponseView::Error(e.text()),
            },
        ),
{
}

/// Attempts are counted: each failed one is followed by the next number, with
/// the wait for that number.
pub proof fn lemma_attempts_are_counted(
    attempt: u32,
    exited: std::result::Result<bool, ErrorView>,
    daemon_pid: u32,
)
    requires
        attempt < u32::MAX,
    ensures
        ({
            let tick = LoopEventView::Tick { exited, attempt: AttemptState::Failed };
            let (stage, action) = next_step(
                LoopStageView::Reconnecting { attempt },
                tick,
                daemon_pid,
            );
            &&& stage == LoopStageView::Starting { attempt: (attempt + 1) as u32 }
            &&& action matches LoopActionView::StartAttempt { attempt: next, delay }
            &&& next == attempt + 1
            &&& 2 <= delay <= 60
            &&& attempt >= 5 ==> delay == 60
            &&& attempt == 1 ==> delay == 4
        }),
{
    reveal_with_fuel(doubled_delay, 6);
}

/// While the session runs, or an attempt is still under way, a tick of the
/// clock changes nothing.
pub proof fn lemma_quiet_ticks(
    attempt: u32,
    found: AttemptState,
    exited: std::result::Result<bool, ErrorView>,
    daemon_pid: u32,
)
    ensures
        next_step(
            LoopStageView::Active,
            LoopEventView::Tick { exited: Ok(false), attempt: found },
            daemon_pid,
        ) == (LoopStageView::Active, LoopActionView::Wait),
        next_step(
            LoopStageView::Reconnecting { attempt },
            LoopEventView::Tick { exited, attempt: AttemptState::Pending },
            daemon_pid,
        ) == (LoopStageView::Reconnecting { attempt }, LoopActionView::Wait),
{
}

/// An error of the process, of signals, of requests or of a response ends the
/// loop with that error.
pub proof fn lemma_errors_end_the_loop(
    stage: LoopStageView,
    e: ErrorView,
    found: AttemptState,
    session: Option<SessionFacts>,
    resume: Option<u32>,
    daemon_pid: u32,
)
    requires
        waiting(stage),
    ensures
        ({
            let ended = (LoopStageView::Ended, LoopActionView::Finish(Err(e)));
            &&& next_step(
                LoopStageView::Active,
                LoopEventView::Tick { exited: Err(e), attempt: found },
                daemon_pid,
            ) == ended
            &&& next_step(stage, LoopEventView::Signal(Err(e)), daemon_pid) == ended
            &&& next_step(
                stage,
                LoopEventView::Request { request: Err(e), session },
                daemon_pid,
            ) == ended
            &&& next_step(
                LoopStageView::Replying { resume },
                LoopEventView::ResponseWritten(Err(e)),
                daemon_pid,
            ) == ended
            &&& next_step(
                LoopStageView::Adopting,
                LoopEventView::StateWritten(Err(e)),
                daemon_pid,
            ) == ended
        }),
{
}

/// The loop returns exactly when it ends: no other action leads out of it, and
/// once it has ended it does nothing more.
pub proof fn lemma_loop_ends_once(stage: LoopStageView, event: LoopEventView, daemon_pid: u32)
    ensures
        ({
            let (next, action) = next_step(stage, event, daemon_pid);
            &&& action is Finish ==> next is Ended
            &&& stage is Ended ==> next is Ended && action is Wait
            &&& !(stage is Ended) && next is Ended ==> action is Finish
        }),
{
}

} // verus!
