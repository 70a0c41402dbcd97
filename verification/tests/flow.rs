use awsvpn::connect::{reconnected, MonitorExit};
use awsvpn::net::{ip_from_str, ipv4_from_str, IpAddr};
use awsvpn::openvpn::management::{read_event, wire_line};
use awsvpn::openvpn::parser::ManagementEvent;
use awsvpn::saml::acs::SamlAssertion;
use awsvpn::saml::browser::BrowserOpenResult;
use awsvpn::saml::flow::{FlowEffect, FlowNext, FlowStep, SamlAuthOutcome, SamlFlowState};
use awsvpn::{Error, Result, VpnEvent};

const PORT: u16 = 35001;
const PROMPT: &str = ">PASSWORD:Need 'Auth' username/password";
const CHALLENGE: &str = ">PASSWORD:Verification Failed: 'Auth' ['CRV1:R:state123:b'Ti9B':https://idp.example.com/saml']";
const LOG_CHALLENGE: &str = ">LOG:1,,AUTH: Received control message: AUTH_FAILED,CRV1:R:state123:b'Ti9B':https://idp.example.com/saml";
const REFUSED: &str = ">STATE:1,RECONNECTING,auth-failure,,,,,";
const CONNECTED: &str = ">STATE:123,CONNECTED,SUCCESS,10.0.0.10,1.2.3.4,443,,";

/// A login with a browser that is switched off and a callback that brings a
/// given response.
struct Login {
    state: SamlFlowState,
    print_login_url: bool,
    monitoring: bool,
    response: &'static str,
    sent: Vec<String>,
    events: Vec<VpnEvent>,
    outcome: Option<Result<SamlAuthOutcome>>,
}

/// The lines that a step sends.
fn lines_of(step: FlowStep) -> Vec<String> {
    let mut lines = Vec::new();
    for effect in step.effects {
        match effect {
            FlowEffect::Send(command) => lines.push(wire_line(&command).trim_end().to_string()),
            FlowEffect::Emit(event) => panic!("{event:?}"),
        }
    }
    lines
}

/// A login that has begun, or the watch over a session.
fn login(print_login_url: bool, monitoring: bool, response: &'static str) -> Login {
    let (state, sent) = if monitoring {
        (SamlFlowState::new(), Vec::new())
    } else {
        let (state, first) = SamlFlowState::start();
        let sent = lines_of(first);
        assert_eq!(sent, ["state on", "log on", "echo on", "hold release"]);
        (state, sent)
    };
    Login {
        state,
        print_login_url,
        monitoring,
        response,
        sent,
        events: Vec::new(),
        outcome: None,
    }
}

impl Login {
    fn received(&mut self, event: Result<Option<ManagementEvent>>) -> Option<FlowStep> {
        if self.monitoring {
            self.state.monitor_reconnects(PORT, self.print_login_url, event)
        } else {
            Some(self.state.drive_saml_auth(PORT, self.print_login_url, event))
        }
    }

    /// Hands a line of OpenVPN to the login; returns what it has sent.
    fn line(&mut self, line: &str) -> Vec<String> {
        let before = self.sent.len();
        let event = match read_event(line) {
            Ok(None) => return Vec::new(),
            other => other,
        };
        let mut step = self.received(event).unwrap();
        loop {
            for effect in step.effects {
                match effect {
                    FlowEffect::Emit(event) => self.events.push(event),
                    FlowEffect::Send(command) => {
                        self.sent.push(wire_line(&command).trim_end().to_string());
                    }
                }
            }
            step = match step.next {
                FlowNext::Continue => break,
                FlowNext::ShowLogin(_) => self.state.browser_shown(Ok(BrowserOpenResult::Disabled)),
                FlowNext::ReceiveAssertion => {
                    self.state.assertion_received(SamlAssertion::new(self.response.to_string()))
                }
                FlowNext::ConfirmResponse => self.state.response_sent(Ok(())),
                FlowNext::Connected(outcome) => {
                    self.outcome = Some(Ok(outcome));
                    break;
                }
                FlowNext::Fail(err) => {
                    self.outcome = Some(Err(err));
                    break;
                }
            };
        }
        self.sent[before..].to_vec()
    }

    fn vpn_ip(self) -> Option<IpAddr> {
        self.outcome.unwrap().unwrap().vpn_ip
    }
}

fn initial() -> [String; 2] {
    [
        "username \"Auth\" N/A".to_string(),
        format!("password \"Auth\" ACS::{PORT}"),
    ]
}

fn answer(state: &str, response: &str) -> [String; 2] {
    [
        "username \"Auth\" N/A".to_string(),
        format!("password \"Auth\" CRV1::{state}::{response}"),
    ]
}

#[test]
fn drives_complete_saml_management_flow() {
    let mut login = login(true, false, "assertion-value");
    assert_eq!(login.line(PROMPT), initial());
    assert_eq!(login.line(CHALLENGE), answer("state123", "assertion-value"));
    assert!(login.line(CONNECTED).is_empty());

    assert!(login
        .events
        .iter()
        .any(|event| matches!(event, VpnEvent::SamlLoginUrl { url } if url == "https://idp.example.com/saml")));
    assert_eq!(login.vpn_ip(), Some(ip_from_str("10.0.0.10").unwrap()));
}

#[test]
fn ignores_auth_failure_reconnect_after_saml_challenge() {
    let mut login = login(false, false, "assertion-value");
    assert_eq!(login.line(PROMPT), initial());
    assert_eq!(login.line(LOG_CHALLENGE), answer("state123", "assertion-value"));
    assert_eq!(login.line(REFUSED), ["hold release"]);
    login.line(CONNECTED);

    assert_eq!(login.vpn_ip(), Some(ip_from_str("10.0.0.10").unwrap()));
}

#[test]
fn ignores_duplicate_saml_challenge_after_assertion_callback() {
    let mut login = login(false, false, "assertion-value");
    assert_eq!(login.line(PROMPT), initial());
    assert_eq!(login.line(LOG_CHALLENGE), answer("state123", "assertion-value"));
    assert!(login.line(LOG_CHALLENGE).is_empty());
    assert_eq!(login.line(REFUSED), ["hold release"]);
    login.line(CONNECTED);

    assert_eq!(login.vpn_ip(), Some(ip_from_str("10.0.0.10").unwrap()));
}

#[test]
fn replays_saml_response_when_openvpn_prompts_after_reconnect() {
    let mut login = login(false, false, "assertion-value");
    assert_eq!(login.line(PROMPT), initial());
    assert_eq!(login.line(CHALLENGE), answer("state123", "assertion-value"));
    assert_eq!(login.line(REFUSED), ["hold release"]);
    assert_eq!(login.line(PROMPT), answer("state123", "assertion-value"));
    login.line(CONNECTED);

    assert_eq!(login.vpn_ip(), Some(ip_from_str("10.0.0.10").unwrap()));
}

#[test]
fn maps_fatal_management_event_to_error() {
    let mut login = login(false, false, "");
    login.line(">FATAL:bad tun");
    assert!(
        matches!(login.outcome, Some(Err(Error::FatalOpenVpn(message))) if message == "bad tun")
    );
}

#[test]
fn reconnect_monitor_answers_saml_auth_after_connected_session() {
    let mut login = login(false, true, "assertion-after-reconnect");
    assert!(login.line(">STATE:1,RECONNECTING,ping-restart,,,,,").is_empty());
    assert_eq!(login.line(PROMPT), initial());
    assert_eq!(
        login.line(">PASSWORD:Verification Failed: 'Auth' ['CRV1:R:state456:b'Ti9B':https://idp.example.com/saml']"),
        answer("state456", "assertion-after-reconnect")
    );
    login.line(">STATE:2,CONNECTED,SUCCESS,10.0.0.11,1.2.3.4,443,,");

    assert!(login.events.contains(&VpnEvent::SamlChallengeReceived));
    let outcome = login.outcome.take().unwrap().unwrap();
    let (vpn_ip, event) = reconnected(&outcome);
    assert_eq!(vpn_ip, Some(ip_from_str("10.0.0.11").unwrap()));
    assert_eq!(event, VpnEvent::Connected { vpn_ip });
    assert!(login.received(Ok(None)).is_none());
}

#[test]
fn reconnect_monitor_reports_management_socket_closure() {
    let mut login = login(false, true, "");
    let exit = match login.received(Ok(None)) {
        None => MonitorExit::ManagementClosed,
        Some(step) => panic!("{step:?}"),
    };
    assert_eq!(exit, MonitorExit::ManagementClosed);
}

#[test]
fn reconnect_monitor_survives_a_refused_login() {
    let mut login = login(false, true, "");
    assert_eq!(login.line(REFUSED), ["hold release"]);
    assert!(login.outcome.is_none());
}

#[test]
fn a_refused_login_fails() {
    let mut login = login(false, false, "");
    assert!(login.line(REFUSED).is_empty());
    assert!(matches!(
        login.outcome,
        Some(Err(Error::AuthFailed(message))) if message == "auth-failure"
    ));
}

#[test]
fn the_end_of_the_conversation_fails_a_login() {
    let step = SamlFlowState::new().drive_saml_auth(PORT, false, Ok(None));
    match step.next {
        FlowNext::Fail(err) => assert_eq!(
            err.message(),
            "management protocol error: management socket closed before VPN connected"
        ),
        other => panic!("{other:?}"),
    }
}

#[test]
fn the_response_is_forgotten_once_connected() {
    let mut login = login(false, true, "assertion-value");
    login.line(CHALLENGE);
    login.line(CONNECTED);
    assert_eq!(login.line(PROMPT), initial());
}

#[test]
fn an_assertion_that_does_not_come_fails_the_login() {
    let mut login = login(false, false, "");
    assert!(login.line(CHALLENGE).is_empty());
    assert!(matches!(login.outcome, Some(Err(Error::SamlResponseMissing))));
}

#[test]
fn a_browser_that_was_opened_is_reported() {
    let mut state = SamlFlowState::new();
    let step = state.browser_shown(Ok(BrowserOpenResult::Opened));
    assert!(matches!(step.effects[..], [FlowEffect::Emit(VpnEvent::BrowserOpened)]));
    assert!(matches!(step.next, FlowNext::ReceiveAssertion));
    let step = state.browser_shown(Err(Error::BrowserLaunchFailed("x".to_string())));
    assert!(matches!(step.next, FlowNext::Fail(Error::BrowserLaunchFailed(_))));
}

#[test]
fn pushed_options_are_part_of_the_outcome() {
    let mut login = login(false, false, "");
    login.line(">LOG:1,,PUSH: 'PUSH_REPLY,dhcp-option DNS 10.0.0.2,route 10.1.0.0 255.255.0.0'");
    login.line(CONNECTED);
    let outcome = login.outcome.unwrap().unwrap();
    assert_eq!(outcome.dns_servers, [ipv4_from_str("10.0.0.2").unwrap()]);
    assert_eq!(outcome.routes.len(), 1);
}

#[test]
fn neither_the_response_nor_the_login_url_is_reported() {
    let mut login = login(false, false, "very-secret");
    login.line(CHALLENGE);
    login.line(PROMPT);
    login.line(CONNECTED);
    let told = format!("{:?}", login.events);
    assert!(told.contains("SamlAssertionReceived"));
    assert!(!told.contains("very-secret"));
    assert!(!told.contains("idp.example.com"));
}

/// A login that is about to answer a challenge.
fn challenged() -> SamlFlowState {
    let mut state = SamlFlowState::new();
    let step = state.drive_saml_auth(PORT, false, read_event(CHALLENGE));
    assert!(matches!(step.next, FlowNext::ShowLogin(_)));
    state
}

fn untouched(state: &SamlFlowState) -> bool {
    state.active_state_id.is_none()
        && state.saml_response.is_none()
        && state.awaiting.is_none()
        && state.received.is_none()
}

#[test]
fn a_login_begins_with_notifications_and_the_release_of_the_hold() {
    let (state, step) = SamlFlowState::start();
    assert!(matches!(step.next, FlowNext::Continue));
    assert_eq!(lines_of(step), ["state on", "log on", "echo on", "hold release"]);
    assert!(untouched(&state));
}

#[test]
fn an_answer_is_remembered_once_it_has_been_sent() {
    let mut state = challenged();
    state.browser_shown(Ok(BrowserOpenResult::Disabled));
    let step = state.assertion_received(SamlAssertion::new("assertion-value".to_string()));
    assert!(matches!(step.next, FlowNext::ConfirmResponse));
    assert_eq!(state.active_state_id, None);
    assert_eq!(state.saml_response, None);

    let step = state.response_sent(Ok(()));
    assert!(step.effects.is_empty());
    assert!(matches!(step.next, FlowNext::Continue));
    assert_eq!(state.active_state_id.as_deref(), Some("state123"));
    assert_eq!(state.saml_response.as_deref(), Some("assertion-value"));
    assert_eq!(state.awaiting, None);
    assert_eq!(state.received, None);
}

#[test]
fn an_answer_that_cannot_be_sent_is_not_remembered() {
    let mut state = challenged();
    state.browser_shown(Ok(BrowserOpenResult::Disabled));
    state.assertion_received(SamlAssertion::new("assertion-value".to_string()));
    let step = state.response_sent(Err(Error::ManagementIo("gone".to_string())));
    assert!(step.effects.is_empty());
    assert!(matches!(step.next, FlowNext::Fail(Error::ManagementIo(cause)) if cause == "gone"));
    assert!(untouched(&state));
}

#[test]
fn a_challenge_that_is_not_answered_leaves_no_trace() {
    let mut state = challenged();
    state.browser_shown(Err(Error::BrowserLaunchFailed("x".to_string())));
    assert!(untouched(&state));

    let mut state = challenged();
    state.browser_shown(Ok(BrowserOpenResult::Opened));
    let step = state.assertion_received(Err(Error::SamlTimeout));
    assert!(matches!(step.next, FlowNext::Fail(Error::SamlTimeout)));
    assert!(untouched(&state));
}
