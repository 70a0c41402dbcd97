//! What a session reports while it runs.

use vstd::prelude::*;
use crate::net::IpAddr;
use crate::text::option_text;

verus! {

/// Something that happened in a session.
#[derive(Debug, PartialEq, Eq)]
pub enum VpnEvent {
    OpenVpnStarted { pid: u32 },
    ManagementConnected,
    AuthPromptReceived,
    SamlChallengeReceived,
    SamlLoginUrl { url: String },
    BrowserOpened,
    SamlAssertionReceived,
    Connected { vpn_ip: Option<IpAddr> },
    Reconnecting { reason: Option<String> },
    Disconnected,
    Warning { message: String },
    Log { line: String },
}

/// The model of an event.
pub enum VpnEventView {
    OpenVpnStarted { pid: u32 },
    ManagementConnected,
    AuthPromptReceived,
    SamlChallengeReceived,
    SamlLoginUrl { url: Seq<char> },
    BrowserOpened,
    SamlAssertionReceived,
    Connected { vpn_ip: Option<IpAddr> },
    Reconnecting { reason: Option<Seq<char>> },
    Disconnected,
    Warning { message: Seq<char> },
    Log { line: Seq<char> },
}

impl View for VpnEvent {
    type V = VpnEventView;

    open spec fn view(&self) -> VpnEventView {
        match self {
            VpnEvent::OpenVpnStarted { pid } => VpnEventView::OpenVpnStarted { pid: *pid },
            VpnEvent::ManagementConnected => VpnEventView::ManagementConnected,
            VpnEvent::AuthPromptReceived => VpnEventView::AuthPromptReceived,
            VpnEvent::SamlChallengeReceived => VpnEventView::SamlChallengeReceived,
            VpnEvent::SamlLoginUrl { url } => VpnEventView::SamlLoginUrl { url: url@ },
            VpnEvent::BrowserOpened => VpnEventView::BrowserOpened,
            VpnEvent::SamlAssertionReceived => VpnEventView::SamlAssertionReceived,
            VpnEvent::Connected { vpn_ip } => VpnEventView::Connected { vpn_ip: *vpn_ip },
            VpnEvent::Reconnecting { reason } => VpnEventView::Reconnecting {
                reason: option_text(*reason),
            },
            VpnEvent::Disconnected => VpnEventView::Disconnected,
            VpnEvent::Warning { message } => VpnEventView::Warning { message: message@ },
            VpnEvent::Log { line } => VpnEventView::Log { line: line@ },
        }
    }
}

/// Why a session ended.
#[derive(Clone, Copy, Debug, PartialEq, Eq, Structural)]
pub enum ExitReason {
    Disconnected,
    Interrupted,
    OpenVpnExited,
}

} // verus!
