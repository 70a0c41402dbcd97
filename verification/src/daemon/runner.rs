//! Starting the daemon, and what its parent learns of the start.

use vstd::prelude::*;
use super::control::{bare_status, connecting_status, session_status, status_of, SessionFacts};
use super::protocol::{ControlResponse, SessionState, SessionStatus};
use crate::error::{view_error, view_result, Error, ErrorView, Result};
use crate::event::{VpnEvent, VpnEventView};
use crate::number::{decimal, to_decimal};
use crate::split::{ended_lines, with_line_ends};
use crate::text::{
    after_prefix, cat, chars, extend, is_text, option_text, string, strip_prefix, texts,
};

verus! {

/// The line that tells the parent that the session is up.
pub open spec fn ready_line() -> Seq<char> {
    "__AWSVPN_DAEMON_READY__"@
}

/// What comes before an error for the parent.
pub open spec fn error_prefix() -> Seq<char> {
    "__AWSVPN_DAEMON_ERROR__\t"@
}

/// The line that tells the parent of an error.
pub fn startup_error_line(err: &Error) -> (r: String)
    ensures
        r@ == error_prefix() + err@.text(),
{
    cat("__AWSVPN_DAEMON_ERROR__\t", err.message().as_str())
}

/// What the parent sees while the daemon starts.
#[derive(Debug)]
pub enum StartupEvent {
    /// The daemon has printed a line.
    Line(String),
    /// The daemon's output could not be read.
    ReadFailed(String),
    /// The daemon has exited with a status.
    Exited(String),
    /// A signal came, or signals could not be received.
    Signal(Result<()>),
}

/// What the parent does next.
#[derive(Debug)]
pub enum StartupAction {
    /// Print the line and read on.
    Print(String),
    /// Return: the session is up.
    Ready,
    /// Wait for the daemon to exit and return the error.
    WaitAndFail(Error),
    /// Kill the daemon and return the error.
    KillAndFail(Error),
    /// Return the error.
    Fail(Error),
}

/// The model of what the parent does next.
pub enum StartupActionView {
    Print(Seq<char>),
    Ready,
    WaitAndFail(ErrorView),
    KillAndFail(ErrorView),
    Fail(ErrorView),
}

impl View for StartupAction {
    type V = StartupActionView;

    open spec fn view(&self) -> StartupActionView {
        match self {
            StartupAction::Print(line) => StartupActionView::Print(line@),
            StartupAction::Ready => StartupActionView::Ready,
            StartupAction::WaitAndFail(e) => StartupActionView::WaitAndFail(e@),
            StartupAction::KillAndFail(e) => StartupActionView::KillAndFail(e@),
            StartupAction::Fail(e) => StartupActionView::Fail(e@),
        }
    }
}

/// What the parent does with a line of the daemon.
pub open spec fn line_action(line: Seq<char>) -> StartupActionView {
    if line == ready_line() {
        StartupActionView::Ready
    } else {
        match strip_prefix(line, error_prefix()) {
            Some(message) => StartupActionView::WaitAndFail(ErrorView::DaemonControl(message)),
            None => StartupActionView::Print(line),
        }
    }
}

/// Decides what the parent does while the daemon starts.
pub fn run_daemon_connect(event: StartupEvent) -> (r: StartupAction)
    ensures
        r@ == (match event {
            StartupEvent::Line(line) => line_action(line@),
            StartupEvent::ReadFailed(cause) => StartupActionView::Fail(
                ErrorView::OpenVpnProcess(cause@),
            ),
            StartupEvent::Exited(status) => StartupActionView::Fail(
                ErrorView::DaemonControl(
                    "daemon exited before reporting startup status: "@ + status@,
                ),
            ),
            StartupEvent::Signal(Ok(_)) => StartupActionView::KillAndFail(ErrorView::Interrupted),
            StartupEvent::Signal(Err(e)) => StartupActionView::Fail(e@),
        }),
{
    match event {
        StartupEvent::Line(line) => {
            let text = chars(line.as_str());
            if is_text(text.as_slice(), "__AWSVPN_DAEMON_READY__") {
                return StartupAction::Ready;
            }
            match after_prefix(text.as_slice(), "__AWSVPN_DAEMON_ERROR__\t") {
                Some(message) => StartupAction::WaitAndFail(
                    Error::DaemonControl(string(message.as_slice())),
                ),
                None => StartupAction::Print(line),
            }
        },
        StartupEvent::ReadFailed(cause) => StartupAction::Fail(Error::OpenVpnProcess(cause)),
        StartupEvent::Exited(status) => StartupAction::Fail(
            Error::DaemonControl(
                cat("daemon exited before reporting startup status: ", status.as_str()),
            ),
        ),
        StartupEvent::Signal(Ok(())) => StartupAction::KillAndFail(Error::Interrupted),
        StartupEvent::Signal(Err(e)) => StartupAction::Fail(e),
    }
}

/// The line for an error that stops the daemon's start is read by the parent
/// as that error.
pub proof fn lemma_startup_error_is_reported(e: ErrorView)
    ensures
        line_action(error_prefix() + e.text()) == StartupActionView::WaitAndFail(
            ErrorView::DaemonControl(e.text()),
        ),
{
    let line = error_prefix() + e.text();
    reveal_strlit("__AWSVPN_DAEMON_READY__");
    reveal_strlit("__AWSVPN_DAEMON_ERROR__\t");
    assert(line[9] == error_prefix()[9]);
    assert(line[16] != ready_line()[16]);
    let n = error_prefix().len() as int;
    assert(line.subrange(0, n) =~= error_prefix());
    assert(line.skip(n) =~= e.text());
}

/// The line for an event while the daemon starts, if it has one.
pub open spec fn event_line(event: VpnEventView) -> Option<Seq<char>> {
    match event {
        VpnEventView::Log { line } => Some(line),
        VpnEventView::Warning { message } => Some("warning: "@ + message),
        VpnEventView::OpenVpnStarted { pid } => Some(
            "openvpn started: pid "@ + decimal(pid as nat),
        ),
        VpnEventView::ManagementConnected => Some("management connected"@),
        VpnEventView::AuthPromptReceived => Some("auth prompt received"@),
        VpnEventView::SamlChallengeReceived => Some("saml challenge received"@),
        VpnEventView::SamlLoginUrl { url } => Some(url),
        VpnEventView::BrowserOpened => Some("browser opened"@),
        VpnEventView::SamlAssertionReceived => Some("saml assertion received"@),
        VpnEventView::Connected { vpn_ip: Some(ip) } => Some("vpn connected: "@ + ip.text()),
        VpnEventView::Connected { vpn_ip: None } => Some("vpn connected"@),
        VpnEventView::Reconnecting { .. } => None,
        VpnEventView::Disconnected => None,
    }
}

/// The line for an event while the daemon starts, if it has one.
pub fn startup_event_line(event: &VpnEvent) -> (r: Option<String>)
    ensures
        match r {
            Some(line) => event_line(event@) == Some(line@),
            None => event_line(event@) is None,
        },
{
    match event {
        VpnEvent::Log { line } => Some(line.clone()),
        VpnEvent::Warning { message } => Some(cat("warning: ", message.as_str())),
        VpnEvent::OpenVpnStarted { pid } => Some(
            cat("openvpn started: pid ", string(to_decimal(*pid as u64).as_slice()).as_str()),
        ),
        VpnEvent::ManagementConnected => Some("management connected".to_owned()),
        VpnEvent::AuthPromptReceived => Some("auth prompt received".to_owned()),
        VpnEvent::SamlChallengeReceived => Some("saml challenge received".to_owned()),
        VpnEvent::SamlLoginUrl { url } => Some(url.clone()),
        VpnEvent::BrowserOpened => Some("browser opened".to_owned()),
        VpnEvent::SamlAssertionReceived => Some("saml assertion received".to_owned()),
        VpnEvent::Connected { vpn_ip } => match vpn_ip {
            Some(ip) => Some(cat("vpn connected: ", ip.render().as_str())),
            None => Some("vpn connected".to_owned()),
        },
        VpnEvent::Reconnecting { .. } => None,
        VpnEvent::Disconnected => None,
    }
}

// ---------------------------------------------------------------------------
// The daemon's own start

/// What is being done to start the daemon.
#[derive(Clone, Copy, Debug, PartialEq, Eq, Structural)]
pub enum RunnerStage {
    Binding,
    Noting,
    Connecting,
    Confirming,
    Ended,
}

/// What an action of the start has brought.
#[derive(Debug)]
pub enum RunnerEvent {
    /// The control socket listens.
    Bound(Result<()>),
    /// The state file was written.
    StateWritten(Result<()>),
    /// The session is up.
    Connected(Result<SessionFacts>),
}

/// What the daemon does next.
#[derive(Debug)]
pub enum RunnerAction {
    /// Write the state file.
    WriteState(SessionStatus),
    /// Connect, and print the events on the way.
    Connect,
    /// Print the line for the parent and run the control loop.
    Serve { line: String },
    /// Remove the daemon's files if asked to, print the line for the parent if
    /// there is one, and return the error.
    Fail { cleanup: bool, report: Option<String>, error: Error },
    /// Nothing: the event was not awaited.
    Wait,
}

/// The model of what an action has brought.
pub enum RunnerEventView {
    Bound(std::result::Result<(), ErrorView>),
    StateWritten(std::result::Result<(), ErrorView>),
    Connected(std::result::Result<SessionFacts, ErrorView>),
}

/// The model of what the daemon does next.
pub enum RunnerActionView {
    WriteState(SessionStatus),
    Connect,
    Serve { line: Seq<char> },
    Fail { cleanup: bool, report: Option<Seq<char>>, error: ErrorView },
    Wait,
}

impl View for RunnerEvent {
    type V = RunnerEventView;

    open spec fn view(&self) -> RunnerEventView {
        match self {
            RunnerEvent::Bound(r) => RunnerEventView::Bound(view_error(*r)),
            RunnerEvent::StateWritten(r) => RunnerEventView::StateWritten(view_error(*r)),
            RunnerEvent::Connected(r) => RunnerEventView::Connected(view_error(*r)),
        }
    }
}

impl View for RunnerAction {
    type V = RunnerActionView;

    open spec fn view(&self) -> RunnerActionView {
        match self {
            RunnerAction::WriteState(status) => RunnerActionView::WriteState(*status),
            RunnerAction::Connect => RunnerActionView::Connect,
            RunnerAction::Serve { line } => RunnerActionView::Serve { line: line@ },
            RunnerAction::Fail { cleanup, report, error } => RunnerActionView::Fail {
                cleanup: *cleanup,
                report: option_text(*report),
                error: error@,
            },
            RunnerAction::Wait => RunnerActionView::Wait,
        }
    }
}

/// The start fails, and the parent is told.
pub open spec fn reported_failure(cleanup: bool, e: ErrorView) -> (RunnerStage, RunnerActionView) {
    (
        RunnerStage::Ended,
        RunnerActionView::Fail { cleanup, report: Some(error_prefix() + e.text()), error: e },
    )
}

/// The next stage and the action for an event. An event that the stage does
/// not wait for changes nothing.
pub open spec fn runner_step(stage: RunnerStage, event: RunnerEventView, daemon_pid: u32) -> (
    RunnerStage,
    RunnerActionView,
) {
    match (stage, event) {
        (RunnerStage::Binding, RunnerEventView::Bound(r)) => match r {
            Err(e) => reported_failure(false, e),
            Ok(_) => (
                RunnerStage::Noting,
                RunnerActionView::WriteState(bare_status(SessionState::Connecting, daemon_pid)),
            ),
        },
        (RunnerStage::Noting, RunnerEventView::StateWritten(_)) => (
            RunnerStage::Connecting,
            RunnerActionView::Connect,
        ),
        (RunnerStage::Connecting, RunnerEventView::Connected(r)) => match r {
            Err(e) => reported_failure(true, e),
            Ok(session) => (
                RunnerStage::Confirming,
                RunnerActionView::WriteState(
                    status_of(session, SessionState::Connected, daemon_pid),
                ),
            ),
        },
        (RunnerStage::Confirming, RunnerEventView::StateWritten(r)) => match r {
            Err(e) => (
                RunnerStage::Ended,
                RunnerActionView::Fail { cleanup: false, report: None, error: e },
            ),
            Ok(_) => (RunnerStage::Ended, RunnerActionView::Serve { line: ready_line() }),
        },
        _ => (stage, RunnerActionView::Wait),
    }
}

/// The start of a daemon.
#[derive(Debug)]
pub struct DaemonRunner {
    pub stage: RunnerStage,
    pub daemon_pid: u32,
}

impl DaemonRunner {
    /// The start of the daemon `daemon_pid`, whose control socket is to be
    /// made first.
    pub fn new(daemon_pid: u32) -> (r: DaemonRunner)
        ensures
            r.stage == RunnerStage::Binding,
            r.daemon_pid == daemon_pid,
    {
        DaemonRunner { stage: RunnerStage::Binding, daemon_pid }
    }

    /// Takes what an action has brought and returns the next action.
    pub fn run_daemon_runner(&mut self, event: RunnerEvent) -> (r: RunnerAction)
        ensures
            (final(self).stage, r@) == runner_step(old(self).stage, event@, old(self).daemon_pid),
            final(self).daemon_pid == old(self).daemon_pid,
    {
        match (self.stage, event) {
            (RunnerStage::Binding, RunnerEvent::Bound(r)) => match r {
                Err(e) => {
                    self.stage = RunnerStage::Ended;
                    RunnerAction::Fail {
                        cleanup: false,
                        report: Some(startup_error_line(&e)),
                        error: e,
                    }
                },
                Ok(()) => {
                    self.stage = RunnerStage::Noting;
                    RunnerAction::WriteState(connecting_status(self.daemon_pid))
                },
            },
            (RunnerStage::Noting, RunnerEvent::StateWritten(_)) => {
                self.stage = RunnerStage::Connecting;
                RunnerAction::Connect
            },
            (RunnerStage::Connecting, RunnerEvent::Connected(r)) => match r {
                Err(e) => {
                    self.stage = RunnerStage::Ended;
                    RunnerAction::Fail {
                        cleanup: true,
                        report: Some(startup_error_line(&e)),
                        error: e,
                    }
                },
                Ok(session) => {
                    self.stage = RunnerStage::Confirming;
                    RunnerAction::WriteState(
                        session_status(&session, SessionState::Connected, self.daemon_pid),
                    )
                },
            },
            (RunnerStage::Confirming, RunnerEvent::StateWritten(r)) => {
                self.stage = RunnerStage::Ended;
                match r {
                    Err(e) => RunnerAction::Fail { cleanup: false, report: None, error: e },
                    Ok(()) => RunnerAction::Serve { line: "__AWSVPN_DAEMON_READY__".to_owned() },
                }
            },
            _ => RunnerAction::Wait,
        }
    }
}

// ---------------------------------------------------------------------------
// Clients of the daemon

/// The lines that tell of a session.
pub open spec fn status_lines(status: SessionStatus) -> Seq<Seq<char>> {
    seq![
        "state: "@ + status.state.text(),
        "daemon pid: "@ + decimal(status.daemon_pid as nat),
    ] + (match status.openvpn_pid {
        Some(pid) => seq!["openvpn pid: "@ + decimal(pid as nat)],
        None => Seq::empty(),
    }) + (match status.vpn_ip {
        Some(ip) => seq!["vpn ip: "@ + ip.text()],
        None => Seq::empty(),
    })
}

/// A session in words.
pub fn render_status(status: &SessionStatus) -> (r: String)
    ensures
        r@ == ended_lines(status_lines(*status)),
{
    let mut list: Vec<Vec<char>> = Vec::new();
    list.push(chars(cat("state: ", status.state.as_str()).as_str()));
    let mut daemon = chars("daemon pid: ");
    extend(&mut daemon, to_decimal(status.daemon_pid as u64).as_slice());
    list.push(daemon);
    if let Some(pid) = status.openvpn_pid {
        let mut line = chars("openvpn pid: ");
        extend(&mut line, to_decimal(pid as u64).as_slice());
        list.push(line);
    }
    if let Some(ip) = status.vpn_ip {
        let mut line = chars("vpn ip: ");
        extend(&mut line, ip.render_chars().as_slice());
        list.push(line);
    }
    assert(texts(list@) =~= status_lines(*status));
    string(with_line_ends(&list).as_slice())
}

/// What a client does with the answer to its request for the end.
#[derive(Debug)]
pub enum DisconnectAction {
    /// Remove what is left of the resolver settings: the session has ended.
    CleanUp,
    /// Print the text: the session goes on.
    Print(String),
    /// Return the error.
    Fail(Error),
}

/// The model of what a client does.
pub enum DisconnectActionView {
    CleanUp,
    Print(Seq<char>),
    Fail(ErrorView),
}

impl View for DisconnectAction {
    type V = DisconnectActionView;

    open spec fn view(&self) -> DisconnectActionView {
        match self {
            DisconnectAction::CleanUp => DisconnectActionView::CleanUp,
            DisconnectAction::Print(text) => DisconnectActionView::Print(text@),
            DisconnectAction::Fail(e) => DisconnectActionView::Fail(e@),
        }
    }
}

/// Decides what a client does with the answer to its request for the end.
/// Without a daemon there is no session.
pub fn disconnect_daemon(reply: Result<ControlResponse>) -> (r: DisconnectAction)
    ensures
        r@ == (match reply {
            Err(Error::DaemonUnavailable) => DisconnectActionView::CleanUp,
            Err(e) => DisconnectActionView::Fail(e@),
            Ok(ControlResponse::Disconnected) => DisconnectActionView::CleanUp,
            Ok(ControlResponse::Status(status)) => DisconnectActionView::Print(
                ended_lines(status_lines(status)),
            ),
            Ok(ControlResponse::Error(message)) => DisconnectActionView::Fail(
                ErrorView::DaemonControl(message@),
            ),
        }),
{
    match reply {
        Err(Error::DaemonUnavailable) => DisconnectAction::CleanUp,
        Err(e) => DisconnectAction::Fail(e),
        Ok(response) => handle_disconnect_response(response),
    }
}

/// Decides what a client does with the daemon's answer to its request for the
/// end.
pub fn handle_disconnect_response(response: ControlResponse) -> (r: DisconnectAction)
    ensures
        r@ == (match response {
            ControlResponse::Disconnected => DisconnectActionView::CleanUp,
            ControlResponse::Status(status) => DisconnectActionView::Print(
                ended_lines(status_lines(status)),
            ),
            ControlResponse::Error(message) => DisconnectActionView::Fail(
                ErrorView::DaemonControl(message@),
            ),
        }),
{
    match response {
        ControlResponse::Disconnected => DisconnectAction::CleanUp,
        ControlResponse::Status(status) => DisconnectAction::Print(render_status(&status)),
        ControlResponse::Error(message) => DisconnectAction::Fail(Error::DaemonControl(message)),
    }
}

/// What a client prints for the daemon's answer to a status request.
pub fn status_daemon(reply: Result<ControlResponse>) -> (r: Result<String>)
    ensures
        view_result(r) == (match reply {
            Err(e) => Err::<Seq<char>, ErrorView>(e@),
            Ok(ControlResponse::Status(status)) => Ok(ended_lines(status_lines(status))),
            Ok(ControlResponse::Disconnected) => Ok("disconnected\n"@),
            Ok(ControlResponse::Error(message)) => Err(ErrorView::DaemonControl(message@)),
        }),
{
    match reply {
        Err(e) => Err(e),
        Ok(ControlResponse::Status(status)) => Ok(render_status(&status)),
        Ok(ControlResponse::Disconnected) => Ok("disconnected\n".to_owned()),
        Ok(ControlResponse::Error(message)) => Err(Error::DaemonControl(message)),
    }
}

/// Whether a client that waits for the daemon's end waits on: until the socket
/// is gone, or the deadline has passed.
pub fn wait_for_daemon_shutdown(socket_exists: bool, deadline_passed: bool) -> (r: Result<bool>)
    ensures
        view_error(r) == (if !socket_exists {
            Ok(false)
        } else if deadline_passed {
            Err(
                ErrorView::DaemonControl(
                    "timed out waiting for daemon control socket cleanup"@,
                ),
            )
        } else {
            Ok(true)
        }),
{
    if !socket_exists {
        return Ok(false);
    }
    if deadline_passed {
        return Err(
            Error::DaemonControl("timed out waiting for daemon control socket cleanup".to_owned()),
        );
    }
    Ok(true)
}

/// What a client that reconnects does after it has asked for the end.
#[derive(Debug)]
pub enum ReconnectAction {
    /// Wait for the daemon's end, and connect.
    WaitAndConnect,
    /// Connect: there was no daemon.
    Connect,
    /// Return the error.
    Fail(Error),
}

/// Decides what a client that reconnects does after it has asked for the end.
pub fn reconnect(disconnected: Result<()>) -> (r: ReconnectAction)
    ensures
        match (disconnected, r) {
            (Ok(_), ReconnectAction::WaitAndConnect) => true,
            (Err(Error::DaemonUnavailable), ReconnectAction::Connect) => true,
            (Err(e), ReconnectAction::Fail(found)) => !(e is DaemonUnavailable) && found@ == e@,
            _ => false,
        },
{
    match disconnected {
        Ok(()) => ReconnectAction::WaitAndConnect,
        Err(Error::DaemonUnavailable) => ReconnectAction::Connect,
        Err(e) => ReconnectAction::Fail(e),
    }
}

/// What the parent does with the lines of the daemon: the mark of a session
/// that is up ends the wait, the mark of an error turns the rest of the line
/// into that error, and every other line is printed as it is.
pub proof fn lemma_daemon_lines(line: Seq<char>, message: Seq<char>)
    ensures
        line_action("__AWSVPN_DAEMON_READY__"@) == StartupActionView::Ready,
        line_action("__AWSVPN_DAEMON_ERROR__\t"@ + message) == StartupActionView::WaitAndFail(
            ErrorView::DaemonControl(message),
        ),
        line != "__AWSVPN_DAEMON_READY__"@ && !(line.len() >= 24 && line.take(24)
            == "__AWSVPN_DAEMON_ERROR__\t"@) ==> line_action(line) == StartupActionView::Print(
            line,
        ),
{
    let told = "__AWSVPN_DAEMON_ERROR__\t"@ + message;
    reveal_strlit("__AWSVPN_DAEMON_READY__");
    reveal_strlit("__AWSVPN_DAEMON_ERROR__\t");
    assert(told[16] != ready_line()[16]);
    assert(told.subrange(0, 24) =~= error_prefix());
    assert(told.skip(24) =~= message);
    if line.len() >= 24 {
        assert(line.subrange(0, 24) =~= line.take(24));
    }
}

/// The lines that tell of events carry what the events carry, whole.
pub proof fn lemma_event_lines(text: Seq<char>, pid: u32, ip: crate::net::IpAddr)
    ensures
        event_line(VpnEventView::Log { line: text }) == Some(text),
        event_line(VpnEventView::Warning { message: text }) == Some("warning: "@ + text),
        event_line(VpnEventView::SamlLoginUrl { url: text }) == Some(text),
        event_line(VpnEventView::OpenVpnStarted { pid }) == Some(
            "openvpn started: pid "@ + decimal(pid as nat),
        ),
        event_line(VpnEventView::Connected { vpn_ip: Some(ip) }) == Some(
            "vpn connected: "@ + ip.text(),
        ),
        event_line(VpnEventView::Connected { vpn_ip: None }) == Some("vpn connected"@),
        event_line(VpnEventView::ManagementConnected) == Some("management connected"@),
        event_line(VpnEventView::AuthPromptReceived) == Some("auth prompt received"@),
        event_line(VpnEventView::SamlChallengeReceived) == Some("saml challenge received"@),
        event_line(VpnEventView::BrowserOpened) == Some("browser opened"@),
        event_line(VpnEventView::SamlAssertionReceived) == Some("saml assertion received"@),
        event_line(VpnEventView::Reconnecting { reason: Some(text) }) is None,
        event_line(VpnEventView::Disconnected) is None,
{
}

/// A daemon starts: its socket listens, the start is noted, whether or not that
/// can be written, the session is made and noted, and the parent is told.
pub proof fn lemma_daemon_starts(
    noted: std::result::Result<(), ErrorView>,
    session: SessionFacts,
    daemon_pid: u32,
)
    ensures
        ({
            let (s1, a1) = runner_step(
                RunnerStage::Binding,
                RunnerEventView::Bound(Ok(())),
                daemon_pid,
            );
            let (s2, a2) = runner_step(s1, RunnerEventView::StateWritten(noted), daemon_pid);
            let (s3, a3) = runner_step(s2, RunnerEventView::Connected(Ok(session)), daemon_pid);
            let (s4, a4) = runner_step(s3, RunnerEventView::StateWritten(Ok(())), daemon_pid);
            &&& a1 == RunnerActionView::WriteState(
                SessionStatus {
                    state: SessionState::Connecting,
                    daemon_pid,
                    openvpn_pid: None,
                    vpn_ip: None,
                },
            )
            &&& a2 == RunnerActionView::Connect
            &&& a3 == RunnerActionView::WriteState(
                SessionStatus {
                    state: SessionState::Connected,
                    daemon_pid,
                    openvpn_pid: session.pid,
                    vpn_ip: session.vpn_ip,
                },
            )
            &&& a4 == RunnerActionView::Serve { line: "__AWSVPN_DAEMON_READY__"@ }
            &&& s4 == RunnerStage::Ended
        }),
{
}

/// A daemon that cannot listen or cannot connect tells its parent why. Only
/// after it has listened are there files to be removed.
pub proof fn lemma_failed_start_is_told(e: ErrorView, daemon_pid: u32)
    ensures
        runner_step(RunnerStage::Binding, RunnerEventView::Bound(Err(e)), daemon_pid) == (
            RunnerStage::Ended,
            RunnerActionView::Fail {
                cleanup: false,
                report: Some("__AWSVPN_DAEMON_ERROR__\t"@ + e.text()),
                error: e,
            },
        ),
        runner_step(RunnerStage::Connecting, RunnerEventView::Connected(Err(e)), daemon_pid) == (
            RunnerStage::Ended,
            RunnerActionView::Fail {
                cleanup: true,
                report: Some("__AWSVPN_DAEMON_ERROR__\t"@ + e.text()),
                error: e,
            },
        ),
        runner_step(RunnerStage::Confirming, RunnerEventView::StateWritten(Err(e)), daemon_pid) == (
            RunnerStage::Ended,
            RunnerActionView::Fail { cleanup: false, report: None, error: e },
        ),
{
}

/// A session in words: its phase and its processes and its address, each on a
/// line of its own; what is not known is left out.
pub proof fn lemma_status_in_words(status: SessionStatus)
    ensures
        ended_lines(status_lines(status)) == "state: "@ + status.state.text() + "\ndaemon pid: "@
            + decimal(status.daemon_pid as nat) + "\n"@ + (match status.openvpn_pid {
            Some(pid) => "openvpn pid: "@ + decimal(pid as nat) + "\n"@,
            None => Seq::<char>::empty(),
        }) + (match status.vpn_ip {
            Some(ip) => "vpn ip: "@ + ip.text() + "\n"@,
            None => Seq::<char>::empty(),
        }),
{
    reveal_strlit("\n");
    reveal_strlit("daemon pid: ");
    reveal_strlit("\ndaemon pid: ");
    let state = "state: "@ + status.state.text();
    let daemon = "daemon pid: "@ + decimal(status.daemon_pid as nat);
    let none = Seq::<Seq<char>>::empty();
    let two = seq![state, daemon];
    assert(two.drop_last() =~= seq![state]);
    assert(seq![state].drop_last() =~= none);
    assert(ended_lines(none) =~= Seq::<char>::empty());
    assert(ended_lines(seq![state]) =~= state + "\n"@);
    let front = "state: "@ + status.state.text() + "\ndaemon pid: "@ + decimal(
        status.daemon_pid as nat,
    ) + "\n"@;
    assert(ended_lines(two) =~= front);
    let process = match status.openvpn_pid {
        Some(pid) => "openvpn pid: "@ + decimal(pid as nat) + "\n"@,
        None => Seq::<char>::empty(),
    };
    let three = match status.openvpn_pid {
        Some(pid) => two.push("openvpn pid: "@ + decimal(pid as nat)),
        None => two,
    };
    if status.openvpn_pid is Some {
        assert(three.drop_last() =~= two);
    }
    assert(ended_lines(three) =~= front + process);
    let address = match status.vpn_ip {
        Some(ip) => "vpn ip: "@ + ip.text() + "\n"@,
        None => Seq::<char>::empty(),
    };
    let four = match status.vpn_ip {
        Some(ip) => three.push("vpn ip: "@ + ip.text()),
        None => three,
    };
    if status.vpn_ip is Some {
        assert(four.drop_last() =~= three);
    }
    assert(ended_lines(four) =~= front + process + address);
    assert(four =~= status_lines(status));
}

} // verus!
