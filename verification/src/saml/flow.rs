//! Logging in over OpenVPN's management interface.
//!
//! What OpenVPN reports is handed to [`SamlFlowState`], which answers with
//! effects to perform in order and with what comes after them. A command that
//! cannot be sent ends the login with that error.

use vstd::prelude::*;
use super::acs::{valid_assertion, SamlAssertion};
use super::browser::BrowserOpenResult;
use crate::error::{view_error, view_result, Error, ErrorView, Result};
use crate::event::{VpnEvent, VpnEventView};
use crate::net::{IpAddr, Ipv4Addr};
use crate::openvpn::command::{
    acs_command, acs_password, auth_username, lemma_command_is_one_line, response_command,
    saml_response_password, username_command, CommandView, ManagementCommand,
};
use crate::openvpn::management::{enable_notifications_and_release_hold, view_commands};
use crate::openvpn::parser::{
    parse_pushed_options, pushed_options, LoginUrl, LoginUrlView, ManagementEvent,
    ManagementEventView, PushedRoute, SamlChallengeView,
};
use crate::text::{control, equal, option_text};

verus! {

/// What a login has brought.
#[derive(Debug, PartialEq, Eq)]
pub struct SamlAuthOutcome {
    pub vpn_ip: Option<IpAddr>,
    pub dns_servers: Vec<Ipv4Addr>,
    pub routes: Vec<PushedRoute>,
}

/// The model of what a login has brought.
#[verifier::ext_equal]
pub struct OutcomeView {
    pub vpn_ip: Option<IpAddr>,
    pub dns_servers: Seq<Ipv4Addr>,
    pub routes: Seq<PushedRoute>,
}

impl View for SamlAuthOutcome {
    type V = OutcomeView;

    open spec fn view(&self) -> OutcomeView {
        OutcomeView {
            vpn_ip: self.vpn_ip,
            dns_servers: self.dns_servers@,
            routes: self.routes@,
        }
    }
}

/// How far a login has come.
#[derive(Debug)]
pub struct SamlFlowState {
    /// The state of the challenge that was answered last.
    pub active_state_id: Option<String>,
    /// The answer to it.
    pub saml_response: Option<String>,
    /// The state of the challenge that is being answered.
    pub awaiting: Option<String>,
    /// The answer to it, until that has been sent.
    pub received: Option<String>,
    /// The resolvers that the server has pushed.
    pub dns_servers: Vec<Ipv4Addr>,
    /// The routes that the server has pushed.
    pub routes: Vec<PushedRoute>,
}

/// The model of how far a login has come.
#[verifier::ext_equal]
pub struct FlowView {
    pub active_state_id: Option<Seq<char>>,
    pub saml_response: Option<Seq<char>>,
    pub awaiting: Option<Seq<char>>,
    pub received: Option<Seq<char>>,
    pub dns_servers: Seq<Ipv4Addr>,
    pub routes: Seq<PushedRoute>,
}

impl View for SamlFlowState {
    type V = FlowView;

    open spec fn view(&self) -> FlowView {
        FlowView {
            active_state_id: option_text(self.active_state_id),
            saml_response: option_text(self.saml_response),
            awaiting: option_text(self.awaiting),
            received: option_text(self.received),
            dns_servers: self.dns_servers@,
            routes: self.routes@,
        }
    }
}

/// Something to be done for a login.
#[derive(Debug)]
pub enum FlowEffect {
    /// An event is reported.
    Emit(VpnEvent),
    /// A command is sent to OpenVPN.
    Send(ManagementCommand),
}

/// The model of something to be done.
pub enum FlowEffectView {
    Emit(VpnEventView),
    Send(CommandView),
}

impl View for FlowEffect {
    type V = FlowEffectView;

    open spec fn view(&self) -> FlowEffectView {
        match self {
            FlowEffect::Emit(event) => FlowEffectView::Emit(event@),
            FlowEffect::Send(command) => FlowEffectView::Send(command@),
        }
    }
}

/// What comes after the effects.
#[derive(Debug)]
pub enum FlowNext {
    /// The next report of OpenVPN is awaited.
    Continue,
    /// The login page is shown.
    ShowLogin(LoginUrl),
    /// The callback is awaited.
    ReceiveAssertion,
    /// It is told whether the commands have been sent.
    ConfirmResponse,
    /// The login has succeeded.
    Connected(SamlAuthOutcome),
    /// The login has failed.
    Fail(Error),
}

/// The model of what comes after the effects.
pub enum FlowNextView {
    Continue,
    ShowLogin(LoginUrlView),
    ReceiveAssertion,
    ConfirmResponse,
    Connected(OutcomeView),
    Fail(ErrorView),
}

impl View for FlowNext {
    type V = FlowNextView;

    open spec fn view(&self) -> FlowNextView {
        match self {
            FlowNext::Continue => FlowNextView::Continue,
            FlowNext::ShowLogin(url) => FlowNextView::ShowLogin(url@),
            FlowNext::ReceiveAssertion => FlowNextView::ReceiveAssertion,
            FlowNext::ConfirmResponse => FlowNextView::ConfirmResponse,
            FlowNext::Connected(outcome) => FlowNextView::Connected(outcome@),
            FlowNext::Fail(e) => FlowNextView::Fail(e@),
        }
    }
}

/// Effects and what comes after them.
#[derive(Debug)]
pub struct FlowStep {
    pub effects: Vec<FlowEffect>,
    pub next: FlowNext,
}

/// The model of effects and what comes after them.
#[verifier::ext_equal]
pub struct FlowStepView {
    pub effects: Seq<FlowEffectView>,
    pub next: FlowNextView,
}

impl View for FlowStep {
    type V = FlowStepView;

    open spec fn view(&self) -> FlowStepView {
        FlowStepView {
            effects: self.effects@.map_values(|e: FlowEffect| e@),
            next: self.next@,
        }
    }
}

/// No effects, and what comes next.
pub open spec fn only(next: FlowNextView) -> FlowStepView {
    FlowStepView { effects: Seq::empty(), next }
}

/// The state before a login.
pub open spec fn new_flow() -> FlowView {
    FlowView {
        active_state_id: None,
        saml_response: None,
        awaiting: None,
        received: None,
        dns_servers: Seq::empty(),
        routes: Seq::empty(),
    }
}

/// The state once nothing is being answered any more.
pub open spec fn settled(state: FlowView) -> FlowView {
    FlowView { awaiting: None, received: None, ..state }
}

/// The first step of a login: OpenVPN is told to report its state, its log and
/// what it echoes, and to go on.
pub open spec fn start_step() -> FlowStepView {
    FlowStepView {
        effects: seq![
            FlowEffectView::Send(CommandView::StateOn),
            FlowEffectView::Send(CommandView::LogOn),
            FlowEffectView::Send(CommandView::EchoOn),
            FlowEffectView::Send(CommandView::HoldRelease),
        ],
        next: FlowNextView::Continue,
    }
}

/// The commands that answer a challenge.
pub open spec fn response_effects(state_id: Seq<char>, response: Seq<char>) -> Seq<FlowEffectView> {
    seq![
        FlowEffectView::Send(username_command()),
        FlowEffectView::Send(response_command(state_id, response)),
    ]
}

/// The effects of a prompt for credentials: the answer to the last challenge
/// is sent again; without one, the port of the callback server is sent.
pub open spec fn prompt_effects(state: FlowView, acs_port: u16) -> Seq<FlowEffectView> {
    seq![FlowEffectView::Emit(VpnEventView::AuthPromptReceived)] + (match (
        state.active_state_id,
        state.saml_response,
    ) {
        (Some(state_id), Some(response)) => response_effects(state_id, response),
        _ => seq![
            FlowEffectView::Send(username_command()),
            FlowEffectView::Send(acs_command(acs_port)),
        ],
    })
}

/// The effects of a challenge.
pub open spec fn challenge_effects(url: Seq<char>, print_login_url: bool) -> Seq<FlowEffectView> {
    let received = seq![FlowEffectView::Emit(VpnEventView::SamlChallengeReceived)];
    if print_login_url {
        received.push(FlowEffectView::Emit(VpnEventView::SamlLoginUrl { url }))
    } else {
        received
    }
}

/// Whether a challenge has been answered already.
pub open spec fn answered(state: FlowView, challenge: SamlChallengeView) -> bool {
    state.active_state_id == Some(challenge.state_id) && state.saml_response is Some
}

/// The step for a new attempt of OpenVPN. A refused login is tried again if a
/// challenge was answered, or if the session was up before.
pub open spec fn reconnecting_step(
    state: FlowView,
    reason: Option<Seq<char>>,
    allow_auth_failure_reconnect: bool,
) -> FlowStepView {
    let report = seq![FlowEffectView::Emit(VpnEventView::Reconnecting { reason })];
    if reason != Some("auth-failure"@) {
        FlowStepView { effects: report, next: FlowNextView::Continue }
    } else if allow_auth_failure_reconnect || state.active_state_id is Some {
        FlowStepView {
            effects: report.push(FlowEffectView::Send(CommandView::HoldRelease)),
            next: FlowNextView::Continue,
        }
    } else {
        FlowStepView {
            effects: report,
            next: FlowNextView::Fail(ErrorView::AuthFailed("auth-failure"@)),
        }
    }
}

/// The next state and the step for a report of OpenVPN.
pub open spec fn event_step(
    state: FlowView,
    acs_port: u16,
    print_login_url: bool,
    allow_auth_failure_reconnect: bool,
    event: ManagementEventView,
) -> (FlowView, FlowStepView) {
    match event {
        ManagementEventView::AuthPrompt => (
            state,
            FlowStepView {
                effects: prompt_effects(state, acs_port),
                next: FlowNextView::Continue,
            },
        ),
        ManagementEventView::SamlChallenge(challenge) => if answered(state, challenge) {
            (state, only(FlowNextView::Continue))
        } else {
            (
                FlowView { awaiting: Some(challenge.state_id), ..state },
                FlowStepView {
                    effects: challenge_effects(challenge.url.text, print_login_url),
                    next: FlowNextView::ShowLogin(challenge.url),
                },
            )
        },
        ManagementEventView::Connected { vpn_ip } => (
            FlowView { active_state_id: None, saml_response: None, ..state },
            only(
                FlowNextView::Connected(
                    OutcomeView { vpn_ip, dns_servers: state.dns_servers, routes: state.routes },
                ),
            ),
        ),
        ManagementEventView::AuthFailed(message) => (
            state,
            only(FlowNextView::Fail(ErrorView::AuthFailed(message))),
        ),
        ManagementEventView::Fatal(message) => (
            state,
            only(FlowNextView::Fail(ErrorView::FatalOpenVpn(message))),
        ),
        ManagementEventView::Reconnecting { reason } => (
            state,
            reconnecting_step(state, reason, allow_auth_failure_reconnect),
        ),
        ManagementEventView::Log(message) => (
            match pushed_options(message) {
                Some(options) => FlowView {
                    dns_servers: options.dns_servers,
                    routes: options.routes,
                    ..state
                },
                None => state,
            },
            only(FlowNextView::Continue),
        ),
        ManagementEventView::Ignored => (state, only(FlowNextView::Continue)),
    }
}

/// The next state and the step once the login page has been shown, or could
/// not be shown.
pub open spec fn browser_step(
    state: FlowView,
    shown: std::result::Result<BrowserOpenResult, ErrorView>,
) -> (FlowView, FlowStepView) {
    match shown {
        Err(e) => (settled(state), only(FlowNextView::Fail(e))),
        Ok(BrowserOpenResult::Opened) => (
            state,
            FlowStepView {
                effects: seq![FlowEffectView::Emit(VpnEventView::BrowserOpened)],
                next: FlowNextView::ReceiveAssertion,
            },
        ),
        Ok(BrowserOpenResult::Disabled) => (state, only(FlowNextView::ReceiveAssertion)),
    }
}

/// The next state and the step once the callback has come, or has failed.
pub open spec fn assertion_step(
    state: FlowView,
    received: std::result::Result<Seq<char>, ErrorView>,
) -> (FlowView, FlowStepView) {
    match (received, state.awaiting) {
        (Err(e), _) => (settled(state), only(FlowNextView::Fail(e))),
        (Ok(_), None) => (state, only(FlowNextView::Continue)),
        (Ok(response), Some(state_id)) => (
            FlowView { received: Some(response), ..state },
            FlowStepView {
                effects: seq![FlowEffectView::Emit(VpnEventView::SamlAssertionReceived)]
                    + response_effects(state_id, response),
                next: FlowNextView::ConfirmResponse,
            },
        ),
    }
}

/// The next state and the step once the answer to a challenge has been sent,
/// or could not be sent. Only an answer that has been sent is remembered.
pub open spec fn sent_step(
    state: FlowView,
    written: std::result::Result<(), ErrorView>,
) -> (FlowView, FlowStepView) {
    match (written, state.awaiting, state.received) {
        (Err(e), _, _) => (settled(state), only(FlowNextView::Fail(e))),
        (Ok(_), Some(state_id), Some(response)) => (
            settled(
                FlowView {
                    active_state_id: Some(state_id),
                    saml_response: Some(response),
                    ..state
                },
            ),
            only(FlowNextView::Continue),
        ),
        (Ok(_), _, _) => (state, only(FlowNextView::Continue)),
    }
}

/// The model of what was received: a report, or nothing at the end of the
/// conversation.
pub open spec fn view_received(received: Result<Option<ManagementEvent>>) -> std::result::Result<
    Option<ManagementEventView>,
    ErrorView,
> {
    match received {
        Ok(Some(event)) => Ok(Some(event@)),
        Ok(None) => Ok(None),
        Err(e) => Err(e@),
    }
}

/// The next state and the step of a login for what was received.
pub open spec fn drive_step(
    state: FlowView,
    acs_port: u16,
    print_login_url: bool,
    received: std::result::Result<Option<ManagementEventView>, ErrorView>,
) -> (FlowView, FlowStepView) {
    match received {
        Ok(Some(event)) => event_step(state, acs_port, print_login_url, false, event),
        Ok(None) => (
            state,
            only(
                FlowNextView::Fail(
                    ErrorView::ManagementProtocol(
                        "management socket closed before VPN connected"@,
                    ),
                ),
            ),
        ),
        Err(e) => (state, only(FlowNextView::Fail(e))),
    }
}

/// The next state and the step of the watch over a session for what was
/// received; nothing at the end of the conversation. A refused login is tried
/// again.
pub open spec fn monitor_step(
    state: FlowView,
    acs_port: u16,
    print_login_url: bool,
    received: std::result::Result<Option<ManagementEventView>, ErrorView>,
) -> Option<(FlowView, FlowStepView)> {
    match received {
        Ok(Some(event)) => Some(event_step(state, acs_port, print_login_url, true, event)),
        Ok(None) => None,
        Err(e) => Some((state, only(FlowNextView::Fail(e)))),
    }
}

/// A copy of an optional text.
fn copy_text(text: &Option<String>) -> (r: Option<String>)
    ensures
        option_text(r) == option_text(*text),
{
    match text {
        Some(text) => Some(text.clone()),
        None => None,
    }
}

/// Appends the commands that answer a challenge.
fn push_response(effects: &mut Vec<FlowEffect>, state_id: &str, response: &str)
    ensures
        final(effects)@.map_values(|e: FlowEffect| e@) == old(effects)@.map_values(
            |e: FlowEffect| e@,
        ) + response_effects(state_id@, response@),
{
    let ghost before = effects@.map_values(|e: FlowEffect| e@);
    effects.push(FlowEffect::Send(auth_username()));
    effects.push(FlowEffect::Send(saml_response_password(state_id, response)));
    assert(effects@.map_values(|e: FlowEffect| e@) =~= before + response_effects(
        state_id@,
        response@,
    ));
}

impl SamlFlowState {
    /// The state before a login.
    pub fn new() -> (r: SamlFlowState)
        ensures
            r@ == new_flow(),
    {
        SamlFlowState {
            active_state_id: None,
            saml_response: None,
            awaiting: None,
            received: None,
            dns_servers: Vec::new(),
            routes: Vec::new(),
        }
    }

    /// Starts a login.
    pub fn start() -> (r: (SamlFlowState, FlowStep))
        ensures
            r.0@ == new_flow(),
            r.1@ == start_step(),
    {
        let mut effects: Vec<FlowEffect> = Vec::new();
        let mut commands = enable_notifications_and_release_hold();
        let ghost all = view_commands(commands@);
        assert(all.skip(0) =~= all);
        while commands.len() > 0
            invariant
                effects@.len() + commands@.len() == all.len(),
                view_commands(commands@) == all.skip(effects@.len() as int),
                forall|j: int|
                    0 <= j < effects@.len() ==> (#[trigger] effects@[j])@ == FlowEffectView::Send(
                        all[j],
                    ),
            decreases commands@.len(),
        {
            let ghost before = view_commands(commands@);
            let ghost i = effects@.len() as int;
            let command = commands.remove(0);
            assert(before[0] == command@);
            assert(all.skip(i)[0] == all[i]);
            assert(view_commands(commands@) =~= before.skip(1));
            assert(before.skip(1) =~= all.skip(i + 1));
            effects.push(FlowEffect::Send(command));
        }
        let step = FlowStep { effects, next: FlowNext::Continue };
        assert(step@.effects =~= start_step().effects);
        (SamlFlowState::new(), step)
    }

    /// Handles a report of OpenVPN.
    pub fn handle_saml_management_event(
        &mut self,
        acs_port: u16,
        print_login_url: bool,
        allow_auth_failure_reconnect: bool,
        event: ManagementEvent,
    ) -> (r: FlowStep)
        ensures
            (final(self)@, r@) == event_step(
                old(self)@,
                acs_port,
                print_login_url,
                allow_auth_failure_reconnect,
                event@,
            ),
    {
        let ghost (next, step) = event_step(
            self@,
            acs_port,
            print_login_url,
            allow_auth_failure_reconnect,
            event@,
        );
        let mut effects: Vec<FlowEffect> = Vec::new();
        let after: FlowNext = match event {
            ManagementEvent::AuthPrompt => {
                effects.push(FlowEffect::Emit(VpnEvent::AuthPromptReceived));
                match (&self.active_state_id, &self.saml_response) {
                    (Some(state_id), Some(response)) => {
                        push_response(&mut effects, state_id.as_str(), response.as_str());
                    },
                    _ => {
                        effects.push(FlowEffect::Send(auth_username()));
                        effects.push(FlowEffect::Send(acs_password(acs_port)));
                    },
                }
                FlowNext::Continue
            },
            ManagementEvent::SamlChallenge(challenge) => {
                let known = match &self.active_state_id {
                    Some(state_id) => equal(state_id.as_str(), challenge.state_id.as_str()),
                    None => false,
                };
                if known && self.saml_response.is_some() {
                    FlowNext::Continue
                } else {
                    effects.push(FlowEffect::Emit(VpnEvent::SamlChallengeReceived));
                    if print_login_url {
                        effects.push(
                            FlowEffect::Emit(
                                VpnEvent::SamlLoginUrl { url: challenge.url.text.clone() },
                            ),
                        );
                    }
                    self.awaiting = Some(challenge.state_id);
                    FlowNext::ShowLogin(challenge.url)
                }
            },
            ManagementEvent::Connected { vpn_ip } => {
                let outcome = SamlAuthOutcome {
                    vpn_ip,
                    dns_servers: copy_addresses(&self.dns_servers),
                    routes: copy_routes(&self.routes),
                };
                self.active_state_id = None;
                self.saml_response = None;
                FlowNext::Connected(outcome)
            },
            ManagementEvent::AuthFailed(message) => FlowNext::Fail(Error::AuthFailed(message)),
            ManagementEvent::Fatal(message) => FlowNext::Fail(Error::FatalOpenVpn(message)),
            ManagementEvent::Reconnecting { reason } => {
                effects.push(
                    FlowEffect::Emit(VpnEvent::Reconnecting { reason: copy_text(&reason) }),
                );
                let refused = match &reason {
                    Some(reason) => equal(reason.as_str(), "auth-failure"),
                    None => false,
                };
                if !refused {
                    FlowNext::Continue
                } else if allow_auth_failure_reconnect || self.active_state_id.is_some() {
                    effects.push(FlowEffect::Send(ManagementCommand::HoldRelease));
                    FlowNext::Continue
                } else {
                    FlowNext::Fail(Error::AuthFailed("auth-failure".to_owned()))
                }
            },
            ManagementEvent::Log(message) => {
                if let Some(options) = parse_pushed_options(message.as_str()) {
                    self.dns_servers = options.dns_servers;
                    self.routes = options.routes;
                }
                FlowNext::Continue
            },
            ManagementEvent::Ignored => FlowNext::Continue,
        };
        let r = FlowStep { effects, next: after };
        assert(r@.effects =~= step.effects);
        assert(self@ =~= next);
        r
    }

    /// Goes on with a login once OpenVPN has reported something, or could not
    /// be read. The end of the conversation is an error.
    pub fn drive_saml_auth(
        &mut self,
        acs_port: u16,
        print_login_url: bool,
        received: Result<Option<ManagementEvent>>,
    ) -> (r: FlowStep)
        ensures
            (final(self)@, r@) == drive_step(
                old(self)@,
                acs_port,
                print_login_url,
                view_received(received),
            ),
    {
        match received {
            Ok(Some(event)) => self.handle_saml_management_event(
                acs_port,
                print_login_url,
                false,
                event,
            ),
            Ok(None) => {
                let r = FlowStep {
                    effects: Vec::new(),
                    next: FlowNext::Fail(
                        Error::ManagementProtocol(
                            "management socket closed before VPN connected".to_owned(),
                        ),
                    ),
                };
                assert(r@.effects =~= Seq::empty());
                r
            },
            Err(e) => {
                let r = FlowStep { effects: Vec::new(), next: FlowNext::Fail(e) };
                assert(r@.effects =~= Seq::empty());
                r
            },
        }
    }

    /// Goes on with the watch over a session once OpenVPN has reported
    /// something, or could not be read. The end of the conversation ends the
    /// watch, which gives no step.
    pub fn monitor_reconnects(
        &mut self,
        acs_port: u16,
        print_login_url: bool,
        received: Result<Option<ManagementEvent>>,
    ) -> (r: Option<FlowStep>)
        ensures
            match (
                r,
                monitor_step(old(self)@, acs_port, print_login_url, view_received(received)),
            ) {
                (Some(step), Some((state, want))) => step@ == want && final(self)@ == state,
                (None, None) => final(self)@ == old(self)@,
                _ => false,
            },
    {
        match received {
            Ok(Some(event)) => Some(
                self.handle_saml_management_event(acs_port, print_login_url, true, event),
            ),
            Ok(None) => None,
            Err(e) => {
                let r = FlowStep { effects: Vec::new(), next: FlowNext::Fail(e) };
                assert(r@.effects =~= Seq::empty());
                Some(r)
            },
        }
    }

    /// Goes on once the login page has been shown, or could not be shown.
    pub fn browser_shown(&mut self, shown: Result<BrowserOpenResult>) -> (r: FlowStep)
        ensures
            (final(self)@, r@) == browser_step(old(self)@, view_error(shown)),
    {
        let ghost (after, step) = browser_step(self@, view_error(shown));
        let mut effects: Vec<FlowEffect> = Vec::new();
        let next = match shown {
            Err(e) => {
                self.awaiting = None;
                self.received = None;
                FlowNext::Fail(e)
            },
            Ok(BrowserOpenResult::Opened) => {
                effects.push(FlowEffect::Emit(VpnEvent::BrowserOpened));
                FlowNext::ReceiveAssertion
            },
            Ok(BrowserOpenResult::Disabled) => FlowNext::ReceiveAssertion,
        };
        let r = FlowStep { effects, next };
        assert(r@.effects =~= step.effects);
        assert(self@ =~= after);
        r
    }

    /// Goes on once the callback has come, or has failed.
    pub fn assertion_received(&mut self, received: Result<SamlAssertion>) -> (r: FlowStep)
        ensures
            (final(self)@, r@) == assertion_step(old(self)@, view_result(received)),
    {
        let ghost (after, step) = assertion_step(self@, view_result(received));
        let mut effects: Vec<FlowEffect> = Vec::new();
        let next = match received {
            Err(e) => {
                self.awaiting = None;
                self.received = None;
                FlowNext::Fail(e)
            },
            Ok(assertion) => {
                if let Some(state_id) = &self.awaiting {
                    let response = assertion.expose_for_openvpn().to_owned();
                    effects.push(FlowEffect::Emit(VpnEvent::SamlAssertionReceived));
                    push_response(&mut effects, state_id.as_str(), response.as_str());
                    self.received = Some(response);
                    FlowNext::ConfirmResponse
                } else {
                    FlowNext::Continue
                }
            },
        };
        let r = FlowStep { effects, next };
        assert(r@.effects =~= step.effects);
        assert(self@ =~= after);
        r
    }

    /// Goes on once the answer to a challenge has been sent, or could not be
    /// sent.
    pub fn response_sent(&mut self, written: Result<()>) -> (r: FlowStep)
        ensures
            (final(self)@, r@) == sent_step(old(self)@, view_error(written)),
    {
        let ghost (after, step) = sent_step(self@, view_error(written));
        let next = match written {
            Err(e) => {
                self.awaiting = None;
                self.received = None;
                FlowNext::Fail(e)
            },
            Ok(()) => {
                if self.awaiting.is_some() && self.received.is_some() {
                    self.active_state_id = self.awaiting.take();
                    self.saml_response = self.received.take();
                }
                FlowNext::Continue
            },
        };
        let r = FlowStep { effects: Vec::new(), next };
        assert(r@.effects =~= step.effects);
        assert(self@ =~= after);
        r
    }
}

/// A copy of a list of addresses.
pub fn copy_addresses(list: &Vec<Ipv4Addr>) -> (r: Vec<Ipv4Addr>)
    ensures
        r@ == list@,
{
    let mut out: Vec<Ipv4Addr> = Vec::new();
    let mut i: usize = 0;
    while i < list.len()
        invariant
            i <= list@.len(),
            out@ == list@.take(i as int),
        decreases list@.len() - i,
    {
        out.push(list[i]);
        i += 1;
        assert(out@ =~= list@.take(i as int));
    }
    out
}

/// A copy of a list of routes.
pub fn copy_routes(list: &Vec<PushedRoute>) -> (r: Vec<PushedRoute>)
    ensures
        r@ == list@,
{
    let mut out: Vec<PushedRoute> = Vec::new();
    let mut i: usize = 0;
    while i < list.len()
        invariant
            i <= list@.len(),
            out@ == list@.take(i as int),
        decreases list@.len() - i,
    {
        out.push(list[i]);
        i += 1;
        assert(out@ =~= list@.take(i as int));
    }
    out
}

/// A login from its start to its end: the port of the callback server answers
/// the prompt, the response that the browser posts answers the challenge, and
/// the outcome tells the address of the tunnel and what the server has pushed.
pub proof fn lemma_login_succeeds(
    acs_port: u16,
    print_login_url: bool,
    challenge: SamlChallengeView,
    shown: BrowserOpenResult,
    response: Seq<char>,
    message: Seq<char>,
    vpn_ip: Option<IpAddr>,
)
    requires
        pushed_options(message) is Some,
    ensures
        ({
            let start = new_flow();
            let prompt = ManagementEventView::AuthPrompt;
            let challenged = ManagementEventView::SamlChallenge(challenge);
            let log = ManagementEventView::Log(message);
            let up = ManagementEventView::Connected { vpn_ip };
            let (s1, step1) = drive_step(start, acs_port, print_login_url, Ok(Some(prompt)));
            let (s2, step2) = drive_step(s1, acs_port, print_login_url, Ok(Some(challenged)));
            let (s3, step3) = browser_step(s2, Ok(shown));
            let (s4, step4) = assertion_step(s3, Ok(response));
            let (s5, step5) = sent_step(s4, Ok(()));
            let (s6, step6) = drive_step(s5, acs_port, print_login_url, Ok(Some(log)));
            let (s7, step7) = drive_step(s6, acs_port, print_login_url, Ok(Some(up)));
            let pushed = pushed_options(message)->0;
            &&& step1.effects == seq![
                FlowEffectView::Emit(VpnEventView::AuthPromptReceived),
                FlowEffectView::Send(username_command()),
                FlowEffectView::Send(acs_command(acs_port)),
            ]
            &&& step2.next == FlowNextView::ShowLogin(challenge.url)
            &&& step3.next == FlowNextView::ReceiveAssertion
            &&& step4.effects == seq![
                FlowEffectView::Emit(VpnEventView::SamlAssertionReceived),
                FlowEffectView::Send(username_command()),
                FlowEffectView::Send(response_command(challenge.state_id, response)),
            ]
            &&& step4.next == FlowNextView::ConfirmResponse
            &&& step5 == only(FlowNextView::Continue)
            &&& step6.next == FlowNextView::Continue
            &&& step7.next == FlowNextView::Connected(
                OutcomeView { vpn_ip, dns_servers: pushed.dns_servers, routes: pushed.routes },
            )
            &&& s7.saml_response is None
        }),
{
    assert(prompt_effects(new_flow(), acs_port) =~= seq![
        FlowEffectView::Emit(VpnEventView::AuthPromptReceived),
        FlowEffectView::Send(username_command()),
        FlowEffectView::Send(acs_command(acs_port)),
    ]);
    assert(seq![FlowEffectView::Emit(VpnEventView::SamlAssertionReceived)] + response_effects(
        challenge.state_id,
        response,
    ) =~= seq![
        FlowEffectView::Emit(VpnEventView::SamlAssertionReceived),
        FlowEffectView::Send(username_command()),
        FlowEffectView::Send(response_command(challenge.state_id, response)),
    ]);
}

/// The response that the browser posts is sent to OpenVPN as the answer to the
/// challenge: it goes out with the state of that challenge, unchanged.
pub proof fn lemma_challenge_is_answered(
    state: FlowView,
    acs_port: u16,
    print_login_url: bool,
    allow: bool,
    challenge: SamlChallengeView,
    shown: BrowserOpenResult,
    response: Seq<char>,
)
    requires
        !answered(state, challenge),
    ensures
        ({
            let (s1, step1) = event_step(
                state,
                acs_port,
                print_login_url,
                allow,
                ManagementEventView::SamlChallenge(challenge),
            );
            let (s2, step2) = browser_step(s1, Ok(shown));
            let (s3, step3) = assertion_step(s2, Ok(response));
            let (s4, step4) = sent_step(s3, Ok(()));
            &&& step1.next == FlowNextView::ShowLogin(challenge.url)
            &&& step2.next == FlowNextView::ReceiveAssertion
            &&& step3.effects == seq![FlowEffectView::Emit(VpnEventView::SamlAssertionReceived)]
                + response_effects(challenge.state_id, response)
            &&& step3.next == FlowNextView::ConfirmResponse
            &&& step4 == only(FlowNextView::Continue)
            &&& s4.active_state_id == Some(challenge.state_id)
            &&& s4.saml_response == Some(response)
            &&& answered(s4, challenge)
        }),
{
}

/// A challenge that is not answered leaves no trace: whether the login page
/// could not be shown, the callback failed or the answer could not be sent, the
/// login fails with that error and its state is the one before the challenge.
pub proof fn lemma_unanswered_challenge_leaves_no_trace(
    state: FlowView,
    acs_port: u16,
    print_login_url: bool,
    allow: bool,
    challenge: SamlChallengeView,
    shown: BrowserOpenResult,
    response: Seq<char>,
    failure: ErrorView,
)
    requires
        settled(state) == state,
        !answered(state, challenge),
    ensures
        ({
            let (s1, _) = event_step(
                state,
                acs_port,
                print_login_url,
                allow,
                ManagementEventView::SamlChallenge(challenge),
            );
            let (s2, _) = browser_step(s1, Ok(shown));
            let (s3, _) = assertion_step(s2, Ok(response));
            let failed = only(FlowNextView::Fail(failure));
            &&& browser_step(s1, Err(failure)) == (state, failed)
            &&& assertion_step(s2, Err(failure)) == (state, failed)
            &&& sent_step(s3, Err(failure)) == (state, failed)
        }),
{
}

/// A challenge that has been answered is ignored when it comes again: the
/// browser is not opened twice.
pub proof fn lemma_repeated_challenge_is_ignored(
    state: FlowView,
    acs_port: u16,
    print_login_url: bool,
    allow: bool,
    challenge: SamlChallengeView,
    response: Seq<char>,
)
    requires
        state.awaiting == Some(challenge.state_id),
    ensures
        ({
            let (s1, _) = sent_step(assertion_step(state, Ok(response)).0, Ok(()));
            event_step(
                s1,
                acs_port,
                print_login_url,
                allow,
                ManagementEventView::SamlChallenge(challenge),
            ) == (s1, only(FlowNextView::Continue))
        }),
{
}

/// Once a challenge has been answered, a prompt for credentials is answered
/// with the same response again.
pub proof fn lemma_prompt_replays_the_response(
    state: FlowView,
    acs_port: u16,
    print_login_url: bool,
    allow: bool,
    state_id: Seq<char>,
    response: Seq<char>,
)
    requires
        state.awaiting == Some(state_id),
    ensures
        ({
            let (s1, _) = sent_step(assertion_step(state, Ok(response)).0, Ok(()));
            let (s2, step) = event_step(
                s1,
                acs_port,
                print_login_url,
                allow,
                ManagementEventView::AuthPrompt,
            );
            &&& s2 == s1
            &&& step.effects == seq![FlowEffectView::Emit(VpnEventView::AuthPromptReceived)]
                + response_effects(state_id, response)
            &&& step.next == FlowNextView::Continue
        }),
{
}

/// Once the VPN is up, the response is forgotten: the next prompt is answered
/// with the port of the callback server.
pub proof fn lemma_response_is_forgotten(
    state: FlowView,
    acs_port: u16,
    print_login_url: bool,
    allow: bool,
    vpn_ip: Option<IpAddr>,
)
    ensures
        ({
            let (s1, step1) = event_step(
                state,
                acs_port,
                print_login_url,
                allow,
                ManagementEventView::Connected { vpn_ip },
            );
            let (_, step2) = event_step(
                s1,
                acs_port,
                print_login_url,
                allow,
                ManagementEventView::AuthPrompt,
            );
            &&& s1.saml_response is None
            &&& s1.active_state_id is None
            &&& step1.next == FlowNextView::Connected(
                OutcomeView { vpn_ip, dns_servers: state.dns_servers, routes: state.routes },
            )
            &&& step2.effects == seq![
                FlowEffectView::Emit(VpnEventView::AuthPromptReceived),
                FlowEffectView::Send(username_command()),
                FlowEffectView::Send(acs_command(acs_port)),
            ]
        }),
{
    let s1 = event_step(
        state,
        acs_port,
        print_login_url,
        allow,
        ManagementEventView::Connected { vpn_ip },
    ).0;
    assert(prompt_effects(s1, acs_port) =~= seq![
        FlowEffectView::Emit(VpnEventView::AuthPromptReceived),
        FlowEffectView::Send(username_command()),
        FlowEffectView::Send(acs_command(acs_port)),
    ]);
}

/// A refused login fails before a challenge was answered, and is tried again
/// after one was answered.
pub proof fn lemma_refused_login(state: FlowView, acs_port: u16, print_login_url: bool)
    ensures
        ({
            let refused = ManagementEventView::Reconnecting { reason: Some("auth-failure"@) };
            let (_, step) = event_step(state, acs_port, print_login_url, false, refused);
            &&& state.active_state_id is None ==> step.next == FlowNextView::Fail(
                ErrorView::AuthFailed("auth-failure"@),
            )
            &&& state.active_state_id is Some ==> step.next == FlowNextView::Continue
                && step.effects.last() == FlowEffectView::Send(CommandView::HoldRelease)
        }),
{
}

/// The answer to a challenge is a single line for OpenVPN: a valid response
/// cannot smuggle in a second command.
pub proof fn lemma_answer_is_one_line(state_id: Seq<char>, response: Seq<char>, c: char)
    requires
        c == '\r' || c == '\n',
        valid_assertion(response),
        !state_id.contains(c),
    ensures
        !response_command(state_id, response).text().contains(c),
{
    reveal_strlit("Auth");
    reveal_strlit("CRV1::");
    reveal_strlit("::");
    let value = "CRV1::"@ + state_id + "::"@ + response;
    assert(!value.contains(c)) by {
        if value.contains(c) {
            let i = choose|i: int| 0 <= i < value.len() && value[i] == c;
            let n = "CRV1::"@.len();
            let m = n + state_id.len();
            let k = m + "::"@.len();
            if i < n {
                assert("CRV1::"@[i] == c);
            } else if i < m {
                assert(state_id[i - n] == c);
            } else if i < k {
                assert("::"@[i - m] == c);
            } else {
                assert(control(response[i - k]));
            }
        }
    }
    lemma_command_is_one_line(response_command(state_id, response), c);
}

/// The events among effects.
pub open spec fn reported(effects: Seq<FlowEffectView>) -> Seq<VpnEventView>
    decreases effects.len(),
{
    if effects.len() == 0 {
        Seq::empty()
    } else {
        let before = reported(effects.drop_last());
        match effects.last() {
            FlowEffectView::Emit(event) => before.push(event),
            FlowEffectView::Send(_) => before,
        }
    }
}

/// Commands add no events.
proof fn lemma_commands_are_not_reported(before: Seq<FlowEffectView>, more: Seq<FlowEffectView>)
    requires
        forall|i: int| 0 <= i < more.len() ==> (#[trigger] more[i]) is Send,
    ensures
        reported(before + more) == reported(before),
    decreases more.len(),
{
    if more.len() == 0 {
        assert(before + more =~= before);
    } else {
        lemma_commands_are_not_reported(before, more.drop_last());
        assert((before + more).drop_last() =~= before + more.drop_last());
    }
}

/// What is reported does not depend on the response: it is the same whatever
/// response the browser has posted, and whatever response is sent again.
pub proof fn lemma_response_is_not_reported(
    state: FlowView,
    acs_port: u16,
    print_login_url: bool,
    allow: bool,
    event: ManagementEventView,
    a: Seq<char>,
    b: Seq<char>,
)
    ensures
        reported(assertion_step(state, Ok(a)).1.effects) == reported(
            assertion_step(state, Ok(b)).1.effects,
        ),
        ({
            let with_a = FlowView { saml_response: Some(a), ..state };
            let with_b = FlowView { saml_response: Some(b), ..state };
            reported(event_step(with_a, acs_port, print_login_url, allow, event).1.effects)
                == reported(event_step(with_b, acs_port, print_login_url, allow, event).1.effects)
        }),
{
    if let Some(state_id) = state.awaiting {
        let received = seq![FlowEffectView::Emit(VpnEventView::SamlAssertionReceived)];
        lemma_commands_are_not_reported(received, response_effects(state_id, a));
        lemma_commands_are_not_reported(received, response_effects(state_id, b));
    }
    if let Some(state_id) = state.active_state_id {
        let received = seq![FlowEffectView::Emit(VpnEventView::AuthPromptReceived)];
        lemma_commands_are_not_reported(received, response_effects(state_id, a));
        lemma_commands_are_not_reported(received, response_effects(state_id, b));
    }
}

/// The URL of the login page is reported only if that was asked for.
pub proof fn lemma_login_url_is_not_reported(
    state: FlowView,
    acs_port: u16,
    allow: bool,
    event: ManagementEventView,
    url: Seq<char>,
)
    ensures
        !event_step(state, acs_port, false, allow, event).1.effects.contains(
            FlowEffectView::Emit(VpnEventView::SamlLoginUrl { url }),
        ),
{
}

/// Once the session is up, a refused login does not end the watch over it: the
/// hold is released, so that OpenVPN tries again. Nor does the end of the
/// conversation fail.
pub proof fn lemma_watch_survives_a_refused_login(
    state: FlowView,
    acs_port: u16,
    print_login_url: bool,
)
    ensures
        ({
            let refused = ManagementEventView::Reconnecting { reason: Some("auth-failure"@) };
            &&& monitor_step(state, acs_port, print_login_url, Ok(Some(refused))) matches Some(
                (after, step),
            ) && after == state && step.next == FlowNextView::Continue && step.effects.last()
                == FlowEffectView::Send(CommandView::HoldRelease)
            &&& monitor_step(state, acs_port, print_login_url, Ok(None)) is None
        }),
{
}

/// A login starts with the commands that make OpenVPN report and go on, in this
/// order, and with nothing remembered.
pub proof fn lemma_login_starts()
    ensures
        start_step().effects == seq![
            FlowEffectView::Send(CommandView::StateOn),
            FlowEffectView::Send(CommandView::LogOn),
            FlowEffectView::Send(CommandView::EchoOn),
            FlowEffectView::Send(CommandView::HoldRelease),
        ],
        start_step().next == FlowNextView::Continue,
        new_flow().active_state_id is None && new_flow().saml_response is None,
        new_flow().dns_servers.len() == 0 && new_flow().routes.len() == 0,
{
}

/// A refusal, a fatal error and an error of the conversation end a login with
/// that error, and end the watch over a session too. The end of the
/// conversation ends a login with an error.
pub proof fn lemma_failures_end_the_login(
    state: FlowView,
    acs_port: u16,
    print_login_url: bool,
    message: Seq<char>,
    e: ErrorView,
)
    ensures
        ({
            let refused = Ok::<Option<ManagementEventView>, ErrorView>(
                Some(ManagementEventView::AuthFailed(message)),
            );
            let fatal = Ok::<Option<ManagementEventView>, ErrorView>(
                Some(ManagementEventView::Fatal(message)),
            );
            let failed = |e: ErrorView| (state, only(FlowNextView::Fail(e)));
            &&& drive_step(state, acs_port, print_login_url, refused) == failed(
                ErrorView::AuthFailed(message),
            )
            &&& drive_step(state, acs_port, print_login_url, fatal) == failed(
                ErrorView::FatalOpenVpn(message),
            )
            &&& drive_step(state, acs_port, print_login_url, Err(e)) == failed(e)
            &&& drive_step(state, acs_port, print_login_url, Ok(None)) == failed(
                ErrorView::ManagementProtocol("management socket closed before VPN connected"@),
            )
            &&& monitor_step(state, acs_port, print_login_url, refused) == Some(
                failed(ErrorView::AuthFailed(message)),
            )
            &&& monitor_step(state, acs_port, print_login_url, fatal) == Some(
                failed(ErrorView::FatalOpenVpn(message)),
            )
            &&& monitor_step(state, acs_port, print_login_url, Err(e)) == Some(failed(e))
        }),
{
}

/// What means nothing changes nothing, and so does a line of the log that tells
/// of no pushed options.
pub proof fn lemma_idle_reports_change_nothing(
    state: FlowView,
    acs_port: u16,
    print_login_url: bool,
    allow: bool,
    message: Seq<char>,
)
    requires
        pushed_options(message) is None,
    ensures
        event_step(state, acs_port, print_login_url, allow, ManagementEventView::Ignored) == (
            state,
            only(FlowNextView::Continue),
        ),
        event_step(state, acs_port, print_login_url, allow, ManagementEventView::Log(message)) == (
            state,
            only(FlowNextView::Continue),
        ),
{
}

/// A new attempt for any other reason than a refused login is reported with
/// that reason, and the login goes on as it was.
pub proof fn lemma_new_attempts_are_reported(
    state: FlowView,
    acs_port: u16,
    print_login_url: bool,
    allow: bool,
    reason: Option<Seq<char>>,
)
    requires
        reason != Some("auth-failure"@),
    ensures
        event_step(
            state,
            acs_port,
            print_login_url,
            allow,
            ManagementEventView::Reconnecting { reason },
        ) == (
            state,
            FlowStepView {
                effects: seq![FlowEffectView::Emit(VpnEventView::Reconnecting { reason })],
                next: FlowNextView::Continue,
            },
        ),
{
}

/// What the server pushes last is what the outcome tells, all of it.
pub proof fn lemma_last_push_counts(
    state: FlowView,
    acs_port: u16,
    print_login_url: bool,
    allow: bool,
    message: Seq<char>,
    vpn_ip: Option<IpAddr>,
)
    requires
        pushed_options(message) is Some,
    ensures
        ({
            let (s1, step1) = event_step(
                state,
                acs_port,
                print_login_url,
                allow,
                ManagementEventView::Log(message),
            );
            let (_, step2) = event_step(
                s1,
                acs_port,
                print_login_url,
                allow,
                ManagementEventView::Connected { vpn_ip },
            );
            &&& step1 == only(FlowNextView::Continue)
            &&& s1.active_state_id == state.active_state_id && s1.saml_response
                == state.saml_response && s1.awaiting == state.awaiting
            &&& step2.next matches FlowNextView::Connected(outcome)
            &&& outcome.vpn_ip == vpn_ip
            &&& outcome.dns_servers == pushed_options(message)->0.dns_servers
            &&& outcome.routes == pushed_options(message)->0.routes
        }),
{
}

/// The URL of the login page is reported, whole, if that was asked for; the
/// challenge itself is reported in any case.
pub proof fn lemma_login_url_is_reported(
    state: FlowView,
    acs_port: u16,
    allow: bool,
    challenge: SamlChallengeView,
)
    requires
        !answered(state, challenge),
    ensures
        ({
            let event = ManagementEventView::SamlChallenge(challenge);
            let told = event_step(state, acs_port, true, allow, event).1;
            let quiet = event_step(state, acs_port, false, allow, event).1;
            &&& told.effects == seq![
                FlowEffectView::Emit(VpnEventView::SamlChallengeReceived),
                FlowEffectView::Emit(VpnEventView::SamlLoginUrl { url: challenge.url.text }),
            ]
            &&& quiet.effects == seq![FlowEffectView::Emit(VpnEventView::SamlChallengeReceived)]
            &&& told.next == quiet.next
        }),
{
    let received = seq![FlowEffectView::Emit(VpnEventView::SamlChallengeReceived)];
    assert(received.push(FlowEffectView::Emit(VpnEventView::SamlLoginUrl { url: challenge.url.text }))
        =~= seq![
        FlowEffectView::Emit(VpnEventView::SamlChallengeReceived),
        FlowEffectView::Emit(VpnEventView::SamlLoginUrl { url: challenge.url.text }),
    ]);
}

/// A challenge with another state than the one that was answered is a new one,
/// and so is one to which no answer is known: the login page is shown again,
/// and an earlier answer stays until the new one has been sent.
pub proof fn lemma_new_challenge_is_shown(
    state: FlowView,
    acs_port: u16,
    print_login_url: bool,
    allow: bool,
    challenge: SamlChallengeView,
)
    requires
        state.active_state_id != Some(challenge.state_id) || state.saml_response is None,
    ensures
        ({
            let event = ManagementEventView::SamlChallenge(challenge);
            let (after, step) = event_step(state, acs_port, print_login_url, allow, event);
            &&& step.next == FlowNextView::ShowLogin(challenge.url)
            &&& after == (FlowView { awaiting: Some(challenge.state_id), ..state })
        }),
{
}

/// That the browser was opened is reported; where it is not to be opened the
/// callback is awaited all the same.
pub proof fn lemma_callback_is_awaited(state: FlowView)
    ensures
        browser_step(state, Ok(BrowserOpenResult::Opened)) == (
            state,
            FlowStepView {
                effects: seq![FlowEffectView::Emit(VpnEventView::BrowserOpened)],
                next: FlowNextView::ReceiveAssertion,
            },
        ),
        browser_step(state, Ok(BrowserOpenResult::Disabled)) == (
            state,
            FlowStepView { effects: Seq::empty(), next: FlowNextView::ReceiveAssertion },
        ),
{
}

/// While the connection is made, a login that OpenVPN gives up before any
/// challenge was answered ends it; once it is made, such a login is only tried
/// again. In both every other event does the same.
pub proof fn lemma_refusal_ends_only_the_first_login(
    state: FlowView,
    acs_port: u16,
    print_login_url: bool,
    event: ManagementEventView,
)
    ensures
        ({
            let refused = ManagementEventView::Reconnecting { reason: Some("auth-failure"@) };
            let (driven, first) = drive_step(state, acs_port, print_login_url, Ok(Some(event)));
            let watched = monitor_step(state, acs_port, print_login_url, Ok(Some(event)));
            &&& watched is Some
            &&& event == refused && state.active_state_id is None ==> first.next
                == FlowNextView::Fail(ErrorView::AuthFailed("auth-failure"@)) && (watched matches Some(
                (_, later),
            ) && later.next == FlowNextView::Continue)
            &&& event != refused || state.active_state_id is Some ==> watched == Some(
                (driven, first),
            )
        }),
{
}

} // verus!
