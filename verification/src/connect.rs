//! The steps from options to a session, and what a session reports at its end.
//!
//! The caller performs the action that [`ConnectFlow::step`] returns and hands
//! its outcome back as an event.

use vstd::prelude::*;
use crate::client::{ConnectOptions, ConnectView, DnsMode};
use crate::error::{view_error, view_result, Error, ErrorView, Result};
use crate::event::{ExitReason, VpnEvent, VpnEventView};
use crate::net::{IpAddr, Ipv4Addr};
use crate::openvpn::command::{CommandView, ManagementCommand};
use crate::openvpn::management::{shutdown, view_commands};
use crate::openvpn::parser::PushedRoute;
use crate::openvpn::process::{LaunchView, OpenVpnLaunchOptions};
use crate::platform::Platform;
use crate::saml::flow::{OutcomeView, SamlAuthOutcome};
use crate::text::cat;
use crate::timeout::Timeout;

verus! {

/// How long the management interface may take to answer, in seconds.
pub const MANAGEMENT_TIMEOUT: u64 = 10;

/// How long OpenVPN may take to exit after a failed login, in seconds.
pub const FAILED_LOGIN_TIMEOUT: u64 = 3;

/// How long OpenVPN may take to exit at the end of a session, in seconds.
pub const DISCONNECT_TIMEOUT: u64 = 5;

/// How far a connection has come: what is being done.
#[derive(Debug)]
pub enum ConnectStage {
    Validating,
    CleaningDns,
    Deploying,
    BindingAcs { binary: String },
    Preparing,
    Spawning { scripts: bool },
    Connecting { scripts: bool },
    Authenticating { scripts: bool },
    LoggingIn { scripts: bool },
    ShuttingDown { failure: Error },
    Terminating { failure: Error },
    Monitoring { scripts: bool, vpn_ip: Option<IpAddr>, dns_servers: Vec<Ipv4Addr> },
    ConfiguringDns { vpn_ip: Option<IpAddr> },
    Ended,
}

/// The model of how far a connection has come.
pub enum StageView {
    Validating,
    CleaningDns,
    Deploying,
    BindingAcs { binary: Seq<char> },
    Preparing,
    Spawning { scripts: bool },
    Connecting { scripts: bool },
    Authenticating { scripts: bool },
    LoggingIn { scripts: bool },
    ShuttingDown { failure: ErrorView },
    Terminating { failure: ErrorView },
    Monitoring { scripts: bool, vpn_ip: Option<IpAddr>, dns_servers: Seq<Ipv4Addr> },
    ConfiguringDns { vpn_ip: Option<IpAddr> },
    Ended,
}

impl View for ConnectStage {
    type V = StageView;

    open spec fn view(&self) -> StageView {
        match self {
            ConnectStage::Validating => StageView::Validating,
            ConnectStage::CleaningDns => StageView::CleaningDns,
            ConnectStage::Deploying => StageView::Deploying,
            ConnectStage::BindingAcs { binary } => StageView::BindingAcs { binary: binary@ },
            ConnectStage::Preparing => StageView::Preparing,
            ConnectStage::Spawning { scripts } => StageView::Spawning { scripts: *scripts },
            ConnectStage::Connecting { scripts } => StageView::Connecting { scripts: *scripts },
            ConnectStage::Authenticating { scripts } => StageView::Authenticating {
                scripts: *scripts,
            },
            ConnectStage::LoggingIn { scripts } => StageView::LoggingIn { scripts: *scripts },
            ConnectStage::ShuttingDown { failure } => StageView::ShuttingDown {
                failure: failure@,
            },
            ConnectStage::Terminating { failure } => StageView::Terminating { failure: failure@ },
            ConnectStage::Monitoring { scripts, vpn_ip, dns_servers } => StageView::Monitoring {
                scripts: *scripts,
                vpn_ip: *vpn_ip,
                dns_servers: dns_servers@,
            },
            ConnectStage::ConfiguringDns { vpn_ip } => StageView::ConfiguringDns {
                vpn_ip: *vpn_ip,
            },
            ConnectStage::Ended => StageView::Ended,
        }
    }
}

/// What an action has brought.
#[derive(Debug)]
pub enum ConnectEvent {
    /// The options were checked.
    Validated(Result<()>),
    /// What an earlier session left of its resolver settings was removed.
    DnsCleaned(Result<()>),
    /// The OpenVPN program is ready at a path.
    Deployed(Result<String>),
    /// The callback server listens.
    AcsBound(Result<()>),
    /// OpenVPN is ready to start; whether it configures the resolver.
    Prepared(Result<bool>),
    /// OpenVPN was started.
    Spawned(Result<()>),
    /// The management interface was reached.
    ManagementConnected(Result<()>),
    /// The management interface has accepted the password.
    Authenticated(Result<()>),
    /// The management interface did not answer in time.
    AuthenticationTimedOut,
    /// The login has come to its end.
    LoggedIn(Result<SamlAuthOutcome>),
    /// OpenVPN was asked to exit.
    ManagementShutDown,
    /// OpenVPN has exited.
    Terminated,
    /// The session is being watched.
    MonitorsStarted,
    /// The resolver was configured.
    DnsConfigured(Result<()>),
}

/// The model of what an action has brought.
pub enum EventView {
    Validated(std::result::Result<(), ErrorView>),
    DnsCleaned(std::result::Result<(), ErrorView>),
    Deployed(std::result::Result<Seq<char>, ErrorView>),
    AcsBound(std::result::Result<(), ErrorView>),
    Prepared(std::result::Result<bool, ErrorView>),
    Spawned(std::result::Result<(), ErrorView>),
    ManagementConnected(std::result::Result<(), ErrorView>),
    Authenticated(std::result::Result<(), ErrorView>),
    AuthenticationTimedOut,
    LoggedIn(std::result::Result<OutcomeView, ErrorView>),
    ManagementShutDown,
    Terminated,
    MonitorsStarted,
    DnsConfigured(std::result::Result<(), ErrorView>),
}

impl View for ConnectEvent {
    type V = EventView;

    open spec fn view(&self) -> EventView {
        match self {
            ConnectEvent::Validated(r) => EventView::Validated(view_error(*r)),
            ConnectEvent::DnsCleaned(r) => EventView::DnsCleaned(view_error(*r)),
            ConnectEvent::Deployed(r) => EventView::Deployed(view_result(*r)),
            ConnectEvent::AcsBound(r) => EventView::AcsBound(view_error(*r)),
            ConnectEvent::Prepared(r) => EventView::Prepared(view_error(*r)),
            ConnectEvent::Spawned(r) => EventView::Spawned(view_error(*r)),
            ConnectEvent::ManagementConnected(r) => EventView::ManagementConnected(view_error(*r)),
            ConnectEvent::Authenticated(r) => EventView::Authenticated(view_error(*r)),
            ConnectEvent::AuthenticationTimedOut => EventView::AuthenticationTimedOut,
            ConnectEvent::LoggedIn(r) => EventView::LoggedIn(view_result(*r)),
            ConnectEvent::ManagementShutDown => EventView::ManagementShutDown,
            ConnectEvent::Terminated => EventView::Terminated,
            ConnectEvent::MonitorsStarted => EventView::MonitorsStarted,
            ConnectEvent::DnsConfigured(r) => EventView::DnsConfigured(view_error(*r)),
        }
    }
}

/// What to do next. Times are in seconds, except for that of the login.
#[derive(Debug)]
pub enum ConnectAction {
    /// Nothing: the event was not awaited.
    Wait,
    /// Remove what an earlier session left of its resolver settings.
    CleanDns,
    /// Make the OpenVPN program ready.
    Deploy,
    /// Start the callback server.
    BindAcs { host: IpAddr, port: u16, auth_timeout: Timeout },
    /// Prepare the start of OpenVPN.
    Prepare(OpenVpnLaunchOptions),
    /// Start OpenVPN.
    Spawn,
    /// Reach the management interface.
    ConnectManagement { timeout: u64 },
    /// Report the event and send the password to the management interface.
    Authenticate { report: VpnEvent, timeout: u64 },
    /// Log in.
    LogIn,
    /// Ask OpenVPN to exit; whether it works does not matter.
    ShutDownManagement,
    /// Wait for OpenVPN to exit; whether it works does not matter.
    Terminate { timeout: u64 },
    /// Watch the session and the routes.
    StartMonitors { routes: Vec<PushedRoute> },
    /// Configure the resolver.
    ConfigureDns { servers: Vec<Ipv4Addr>, vpn_ip: Option<IpAddr> },
    /// Report the event and return the session.
    Finish { report: VpnEvent },
    /// Return the error.
    Fail(Error),
}

/// The model of what to do next.
pub enum ActionView {
    Wait,
    CleanDns,
    Deploy,
    BindAcs { host: IpAddr, port: u16, auth_timeout: nat },
    Prepare(LaunchView),
    Spawn,
    ConnectManagement { timeout: u64 },
    Authenticate { report: VpnEventView, timeout: u64 },
    LogIn,
    ShutDownManagement,
    Terminate { timeout: u64 },
    StartMonitors { routes: Seq<PushedRoute> },
    ConfigureDns { servers: Seq<Ipv4Addr>, vpn_ip: Option<IpAddr> },
    Finish { report: VpnEventView },
    Fail(ErrorView),
}

impl View for ConnectAction {
    type V = ActionView;

    open spec fn view(&self) -> ActionView {
        match self {
            ConnectAction::Wait => ActionView::Wait,
            ConnectAction::CleanDns => ActionView::CleanDns,
            ConnectAction::Deploy => ActionView::Deploy,
            ConnectAction::BindAcs { host, port, auth_timeout } => ActionView::BindAcs {
                host: *host,
                port: *port,
                auth_timeout: auth_timeout@,
            },
            ConnectAction::Prepare(options) => ActionView::Prepare(options@),
            ConnectAction::Spawn => ActionView::Spawn,
            ConnectAction::ConnectManagement { timeout } => ActionView::ConnectManagement {
                timeout: *timeout,
            },
            ConnectAction::Authenticate { report, timeout } => ActionView::Authenticate {
                report: report@,
                timeout: *timeout,
            },
            ConnectAction::LogIn => ActionView::LogIn,
            ConnectAction::ShutDownManagement => ActionView::ShutDownManagement,
            ConnectAction::Terminate { timeout } => ActionView::Terminate { timeout: *timeout },
            ConnectAction::StartMonitors { routes } => ActionView::StartMonitors {
                routes: routes@,
            },
            ConnectAction::ConfigureDns { servers, vpn_ip } => ActionView::ConfigureDns {
                servers: servers@,
                vpn_ip: *vpn_ip,
            },
            ConnectAction::Finish { report } => ActionView::Finish { report: report@ },
            ConnectAction::Fail(e) => ActionView::Fail(e@),
        }
    }
}

/// How OpenVPN is to be started: it configures the resolver itself, except on
/// macOS.
pub open spec fn launch_options(
    options: ConnectView,
    platform: Platform,
    binary: Seq<char>,
) -> LaunchView {
    LaunchView {
        binary,
        config: options.config_path,
        management_host: options.management_host,
        management_port: options.management_port,
        configure_dns: options.dns_mode == DnsMode::OpenVpnDefault && platform != Platform::MacOs,
        ignore_default_route: false,
        ignore_pushed_routes: false,
    }
}

/// Whether the client configures the resolver itself: it is to be configured,
/// OpenVPN does not do it, and the server has pushed resolvers.
pub open spec fn native_dns(mode: DnsMode, scripts: bool, servers: Seq<Ipv4Addr>) -> bool {
    mode == DnsMode::OpenVpnDefault && !scripts && servers.len() > 0
}

/// The connection ends with an error.
pub open spec fn give_up(e: ErrorView) -> (StageView, ActionView) {
    (StageView::Ended, ActionView::Fail(e))
}

/// The connection is up.
pub open spec fn finish(vpn_ip: Option<IpAddr>) -> (StageView, ActionView) {
    (StageView::Ended, ActionView::Finish { report: VpnEventView::Connected { vpn_ip } })
}

/// The next stage and the action for an event. An event that the stage does
/// not wait for changes nothing.
pub open spec fn connect_step(
    options: ConnectView,
    platform: Platform,
    stage: StageView,
    event: EventView,
) -> (StageView, ActionView) {
    match (stage, event) {
        (StageView::Validating, EventView::Validated(r)) => match r {
            Err(e) => give_up(e),
            Ok(_) => (StageView::CleaningDns, ActionView::CleanDns),
        },
        (StageView::CleaningDns, EventView::DnsCleaned(r)) => match r {
            Err(e) => give_up(e),
            Ok(_) => (StageView::Deploying, ActionView::Deploy),
        },
        (StageView::Deploying, EventView::Deployed(r)) => match r {
            Err(e) => give_up(e),
            Ok(binary) => (
                StageView::BindingAcs { binary },
                ActionView::BindAcs {
                    host: options.acs_host,
                    port: options.acs_port,
                    auth_timeout: options.auth_timeout,
                },
            ),
        },
        (StageView::BindingAcs { binary }, EventView::AcsBound(r)) => match r {
            Err(e) => give_up(e),
            Ok(_) => (
                StageView::Preparing,
                ActionView::Prepare(launch_options(options, platform, binary)),
            ),
        },
        (StageView::Preparing, EventView::Prepared(r)) => match r {
            Err(e) => give_up(e),
            Ok(scripts) => (StageView::Spawning { scripts }, ActionView::Spawn),
        },
        (StageView::Spawning { scripts }, EventView::Spawned(r)) => match r {
            Err(e) => give_up(e),
            Ok(_) => (
                StageView::Connecting { scripts },
                ActionView::ConnectManagement { timeout: MANAGEMENT_TIMEOUT },
            ),
        },
        (StageView::Connecting { scripts }, EventView::ManagementConnected(r)) => match r {
            Err(e) => give_up(e),
            Ok(_) => (
                StageView::Authenticating { scripts },
                ActionView::Authenticate {
                    report: VpnEventView::ManagementConnected,
                    timeout: MANAGEMENT_TIMEOUT,
                },
            ),
        },
        (StageView::Authenticating { .. }, EventView::AuthenticationTimedOut) => give_up(
            ErrorView::ManagementProtocol(
                "timed out waiting for OpenVPN management authentication"@,
            ),
        ),
        (StageView::Authenticating { scripts }, EventView::Authenticated(r)) => match r {
            Err(e) => give_up(e),
            Ok(_) => (StageView::LoggingIn { scripts }, ActionView::LogIn),
        },
        (StageView::LoggingIn { scripts }, EventView::LoggedIn(r)) => match r {
            Err(failure) => (
                StageView::ShuttingDown { failure },
                ActionView::ShutDownManagement,
            ),
            Ok(outcome) => (
                StageView::Monitoring {
                    scripts,
                    vpn_ip: outcome.vpn_ip,
                    dns_servers: outcome.dns_servers,
                },
                ActionView::StartMonitors { routes: outcome.routes },
            ),
        },
        (StageView::ShuttingDown { failure }, EventView::ManagementShutDown) => (
            StageView::Terminating { failure },
            ActionView::Terminate { timeout: FAILED_LOGIN_TIMEOUT },
        ),
        (StageView::Terminating { failure }, EventView::Terminated) => give_up(failure),
        (
            StageView::Monitoring { scripts, vpn_ip, dns_servers },
            EventView::MonitorsStarted,
        ) => if native_dns(options.dns_mode, scripts, dns_servers) {
            (
                StageView::ConfiguringDns { vpn_ip },
                ActionView::ConfigureDns { servers: dns_servers, vpn_ip },
            )
        } else {
            finish(vpn_ip)
        },
        (StageView::ConfiguringDns { vpn_ip }, EventView::DnsConfigured(r)) => match r {
            Err(e) => give_up(e),
            Ok(_) => finish(vpn_ip),
        },
        _ => (stage, ActionView::Wait),
    }
}

/// A connection that is being made.
#[derive(Debug)]
pub struct ConnectFlow {
    pub options: ConnectOptions,
    pub platform: Platform,
    pub stage: ConnectStage,
}

/// Makes connections.
#[derive(Clone, Copy, Debug, PartialEq, Eq, Structural)]
pub struct VpnClient;

impl VpnClient {
    /// A client.
    pub fn new() -> (r: VpnClient)
        ensures
            r == VpnClient,
    {
        VpnClient
    }

    /// A connection with given options, which are to be checked first.
    pub fn connect(&self, options: ConnectOptions, platform: Platform) -> (r: ConnectFlow)
        ensures
            r.options@ == options@,
            r.platform == platform,
            r.stage@ == StageView::Validating,
    {
        ConnectFlow { options, platform, stage: ConnectStage::Validating }
    }
}

impl ConnectFlow {
    /// How OpenVPN is to be started.
    fn launch(&self, binary: String) -> (r: OpenVpnLaunchOptions)
        ensures
            r@ == launch_options(self.options@, self.platform, binary@),
    {
        OpenVpnLaunchOptions {
            binary,
            config: self.options.config_path.clone(),
            management_host: self.options.management_host,
            management_port: self.options.management_port,
            configure_dns: self.options.dns_mode == DnsMode::OpenVpnDefault && self.platform
                != Platform::MacOs,
            ignore_default_route: false,
            ignore_pushed_routes: false,
        }
    }

    /// Takes what an action has brought and returns the next action.
    pub fn step(&mut self, event: ConnectEvent) -> (r: ConnectAction)
        ensures
            (final(self).stage@, r@) == connect_step(
                old(self).options@,
                old(self).platform,
                old(self).stage@,
                event@,
            ),
            final(self).options == old(self).options,
            final(self).platform == old(self).platform,
    {
        let mut stage = ConnectStage::Ended;
        std::mem::swap(&mut stage, &mut self.stage);
        match (stage, event) {
            (ConnectStage::Validating, ConnectEvent::Validated(r)) => match r {
                Err(e) => ConnectAction::Fail(e),
                Ok(()) => {
                    self.stage = ConnectStage::CleaningDns;
                    ConnectAction::CleanDns
                },
            },
            (ConnectStage::CleaningDns, ConnectEvent::DnsCleaned(r)) => match r {
                Err(e) => ConnectAction::Fail(e),
                Ok(()) => {
                    self.stage = ConnectStage::Deploying;
                    ConnectAction::Deploy
                },
            },
            (ConnectStage::Deploying, ConnectEvent::Deployed(r)) => match r {
                Err(e) => ConnectAction::Fail(e),
                Ok(binary) => {
                    self.stage = ConnectStage::BindingAcs { binary };
                    ConnectAction::BindAcs {
                        host: self.options.acs_host,
                        port: self.options.acs_port,
                        auth_timeout: self.options.auth_timeout,
                    }
                },
            },
            (ConnectStage::BindingAcs { binary }, ConnectEvent::AcsBound(r)) => match r {
                Err(e) => ConnectAction::Fail(e),
                Ok(()) => {
                    let launch = self.launch(binary);
                    self.stage = ConnectStage::Preparing;
                    ConnectAction::Prepare(launch)
                },
            },
            (ConnectStage::Preparing, ConnectEvent::Prepared(r)) => match r {
                Err(e) => ConnectAction::Fail(e),
                Ok(scripts) => {
                    self.stage = ConnectStage::Spawning { scripts };
                    ConnectAction::Spawn
                },
            },
            (ConnectStage::Spawning { scripts }, ConnectEvent::Spawned(r)) => match r {
                Err(e) => ConnectAction::Fail(e),
                Ok(()) => {
                    self.stage = ConnectStage::Connecting { scripts };
                    ConnectAction::ConnectManagement { timeout: MANAGEMENT_TIMEOUT }
                },
            },
            (
                ConnectStage::Connecting { scripts },
                ConnectEvent::ManagementConnected(r),
            ) => match r {
                Err(e) => ConnectAction::Fail(e),
                Ok(()) => {
                    self.stage = ConnectStage::Authenticating { scripts };
                    ConnectAction::Authenticate {
                        report: VpnEvent::ManagementConnected,
                        timeout: MANAGEMENT_TIMEOUT,
                    }
                },
            },
            (ConnectStage::Authenticating { scripts: _ }, ConnectEvent::AuthenticationTimedOut) => {
                ConnectAction::Fail(
                    Error::ManagementProtocol(
                        "timed out waiting for OpenVPN management authentication".to_owned(),
                    ),
                )
            },
            (ConnectStage::Authenticating { scripts }, ConnectEvent::Authenticated(r)) => match r {
                Err(e) => ConnectAction::Fail(e),
                Ok(()) => {
                    self.stage = ConnectStage::LoggingIn { scripts };
                    ConnectAction::LogIn
                },
            },
            (ConnectStage::LoggingIn { scripts }, ConnectEvent::LoggedIn(r)) => match r {
                Err(failure) => {
                    self.stage = ConnectStage::ShuttingDown { failure };
                    ConnectAction::ShutDownManagement
                },
                Ok(outcome) => {
                    let SamlAuthOutcome { vpn_ip, dns_servers, routes } = outcome;
                    self.stage = ConnectStage::Monitoring { scripts, vpn_ip, dns_servers };
                    ConnectAction::StartMonitors { routes }
                },
            },
            (ConnectStage::ShuttingDown { failure }, ConnectEvent::ManagementShutDown) => {
                self.stage = ConnectStage::Terminating { failure };
                ConnectAction::Terminate { timeout: FAILED_LOGIN_TIMEOUT }
            },
            (ConnectStage::Terminating { failure }, ConnectEvent::Terminated) => {
                ConnectAction::Fail(failure)
            },
            (
                ConnectStage::Monitoring { scripts, vpn_ip, dns_servers },
                ConnectEvent::MonitorsStarted,
            ) => {
                if self.options.dns_mode == DnsMode::OpenVpnDefault && !scripts && dns_servers.len()
                    > 0 {
                    self.stage = ConnectStage::ConfiguringDns { vpn_ip };
                    ConnectAction::ConfigureDns { servers: dns_servers, vpn_ip }
                } else {
                    ConnectAction::Finish { report: VpnEvent::Connected { vpn_ip } }
                }
            },
            (ConnectStage::ConfiguringDns { vpn_ip }, ConnectEvent::DnsConfigured(r)) => match r {
                Err(e) => ConnectAction::Fail(e),
                Ok(()) => ConnectAction::Finish { report: VpnEvent::Connected { vpn_ip } },
            },
            (stage, _) => {
                self.stage = stage;
                ConnectAction::Wait
            },
        }
    }
}

// ---------------------------------------------------------------------------
// Sessions

/// What waiting for a session brings: the error of the process comes before
/// that of the resolver.
pub fn wait_result(waited: Result<()>, restored: Result<()>) -> (r: Result<ExitReason>)
    ensures
        view_error(r) == (match (waited, restored) {
            (Err(e), _) => Err(e@),
            (Ok(_), Err(e)) => Err(e@),
            (Ok(_), Ok(_)) => Ok(ExitReason::OpenVpnExited),
        }),
{
    match (waited, restored) {
        (Err(e), _) => Err(e),
        (Ok(()), Err(e)) => Err(e),
        (Ok(()), Ok(())) => Ok(ExitReason::OpenVpnExited),
    }
}

/// What a look at a session brings: nothing while its process runs. The
/// resolver is restored once the process has exited.
pub fn try_wait_result(exited: Result<bool>, restored: Result<()>) -> (r: Result<
    Option<ExitReason>,
>)
    ensures
        view_error(r) == (match (exited, restored) {
            (Err(e), _) => Err(e@),
            (Ok(false), _) => Ok(None),
            (Ok(true), Err(e)) => Err(e@),
            (Ok(true), Ok(_)) => Ok(Some(ExitReason::OpenVpnExited)),
        }),
{
    match (exited, restored) {
        (Err(e), _) => Err(e),
        (Ok(false), _) => Ok(None),
        (Ok(true), Err(e)) => Err(e),
        (Ok(true), Ok(())) => Ok(Some(ExitReason::OpenVpnExited)),
    }
}

/// How far the end of a session has come: what is being done, and what has
/// failed first.
#[derive(Debug)]
pub enum EndStage {
    ShuttingDown,
    Terminating { failure: Option<Error> },
    Restoring { failure: Option<Error> },
    Ended,
}

/// The model of how far the end of a session has come.
pub enum EndStageView {
    ShuttingDown,
    Terminating { failure: Option<ErrorView> },
    Restoring { failure: Option<ErrorView> },
    Ended,
}

/// The model of an optional error.
pub open spec fn view_failure(failure: Option<Error>) -> Option<ErrorView> {
    match failure {
        Some(e) => Some(e@),
        None => None,
    }
}

impl View for EndStage {
    type V = EndStageView;

    open spec fn view(&self) -> EndStageView {
        match self {
            EndStage::ShuttingDown => EndStageView::ShuttingDown,
            EndStage::Terminating { failure } => EndStageView::Terminating {
                failure: view_failure(*failure),
            },
            EndStage::Restoring { failure } => EndStageView::Restoring {
                failure: view_failure(*failure),
            },
            EndStage::Ended => EndStageView::Ended,
        }
    }
}

/// What to do next at the end of a session.
#[derive(Debug)]
pub enum EndAction {
    /// Send these commands to OpenVPN.
    ShutDownManagement(Vec<ManagementCommand>),
    /// Make OpenVPN exit within so many seconds.
    Terminate { timeout: u64 },
    /// Stop watching the session and restore the resolver.
    Restore,
    /// Return.
    Finish(Result<()>),
}

/// The model of what to do next.
pub enum EndActionView {
    ShutDownManagement(Seq<CommandView>),
    Terminate { timeout: u64 },
    Restore,
    Finish(std::result::Result<(), ErrorView>),
}

impl View for EndAction {
    type V = EndActionView;

    open spec fn view(&self) -> EndActionView {
        match self {
            EndAction::ShutDownManagement(commands) => EndActionView::ShutDownManagement(
                view_commands(commands@),
            ),
            EndAction::Terminate { timeout } => EndActionView::Terminate { timeout: *timeout },
            EndAction::Restore => EndActionView::Restore,
            EndAction::Finish(r) => EndActionView::Finish(view_error(*r)),
        }
    }
}

/// The first failure, given the earlier one and the latest outcome.
pub open spec fn first_failure(
    failure: Option<ErrorView>,
    outcome: std::result::Result<(), ErrorView>,
) -> Option<ErrorView> {
    match (failure, outcome) {
        (Some(e), _) => Some(e),
        (None, Err(e)) => Some(e),
        (None, Ok(_)) => None,
    }
}

/// How the end of a session begins. OpenVPN is asked to exit, unless it has
/// exited already.
pub open spec fn end_start(exited: bool) -> (EndStageView, EndActionView) {
    if exited {
        (
            EndStageView::Terminating { failure: None },
            EndActionView::Terminate { timeout: DISCONNECT_TIMEOUT },
        )
    } else {
        (
            EndStageView::ShuttingDown,
            EndActionView::ShutDownManagement(
                seq![CommandView::Signal("SIGTERM"@), CommandView::Quit],
            ),
        )
    }
}

/// The next stage and the next action, given what came of the last one.
pub open spec fn end_step(
    stage: EndStageView,
    outcome: std::result::Result<(), ErrorView>,
) -> (EndStageView, EndActionView) {
    match stage {
        EndStageView::ShuttingDown => (
            EndStageView::Terminating { failure: first_failure(None, outcome) },
            EndActionView::Terminate { timeout: DISCONNECT_TIMEOUT },
        ),
        EndStageView::Terminating { failure } => (
            EndStageView::Restoring { failure: first_failure(failure, outcome) },
            EndActionView::Restore,
        ),
        EndStageView::Restoring { failure } => (
            EndStageView::Ended,
            EndActionView::Finish(
                match first_failure(failure, outcome) {
                    Some(e) => Err(e),
                    None => Ok(()),
                },
            ),
        ),
        EndStageView::Ended => (EndStageView::Ended, EndActionView::Finish(outcome)),
    }
}

/// The end of a session. The caller performs each action and hands its outcome
/// to [`SessionEnd::step`].
#[derive(Debug)]
pub struct SessionEnd {
    pub stage: EndStage,
}

/// The first failure, given the earlier one and the latest outcome.
fn keep_first(failure: Option<Error>, outcome: Result<()>) -> (r: Option<Error>)
    ensures
        view_failure(r) == first_failure(view_failure(failure), view_error(outcome)),
{
    match (failure, outcome) {
        (Some(e), _) => Some(e),
        (None, Err(e)) => Some(e),
        (None, Ok(())) => None,
    }
}

impl SessionEnd {
    /// Begins the end of a session whose OpenVPN may have exited already.
    pub fn disconnect(exited: bool) -> (r: (SessionEnd, EndAction))
        ensures
            (r.0.stage@, r.1@) == end_start(exited),
    {
        if exited {
            (
                SessionEnd { stage: EndStage::Terminating { failure: None } },
                EndAction::Terminate { timeout: DISCONNECT_TIMEOUT },
            )
        } else {
            (
                SessionEnd { stage: EndStage::ShuttingDown },
                EndAction::ShutDownManagement(shutdown()),
            )
        }
    }

    /// Goes on, given what came of the last action.
    pub fn step(&mut self, outcome: Result<()>) -> (r: EndAction)
        ensures
            (final(self).stage@, r@) == end_step(old(self).stage@, view_error(outcome)),
    {
        let mut stage = EndStage::Ended;
        std::mem::swap(&mut stage, &mut self.stage);
        match stage {
            EndStage::ShuttingDown => {
                self.stage = EndStage::Terminating { failure: keep_first(None, outcome) };
                EndAction::Terminate { timeout: DISCONNECT_TIMEOUT }
            },
            EndStage::Terminating { failure } => {
                self.stage = EndStage::Restoring { failure: keep_first(failure, outcome) };
                EndAction::Restore
            },
            EndStage::Restoring { failure } => EndAction::Finish(
                match keep_first(failure, outcome) {
                    Some(e) => Err(e),
                    None => Ok(()),
                },
            ),
            EndStage::Ended => EndAction::Finish(outcome),
        }
    }
}

/// The end of a session takes all its steps, whatever fails: OpenVPN is asked
/// to exit, unless it has exited already, and is made to exit, and the resolver
/// is restored even if that failed. The first error is returned.
pub proof fn lemma_resolver_is_always_restored(
    asked: std::result::Result<(), ErrorView>,
    terminated: std::result::Result<(), ErrorView>,
    restored: std::result::Result<(), ErrorView>,
)
    ensures
        ({
            let (s1, a1) = end_start(false);
            let (s2, a2) = end_step(s1, asked);
            let (s3, a3) = end_step(s2, terminated);
            let (_, a4) = end_step(s3, restored);
            &&& a1 == EndActionView::ShutDownManagement(
                seq![CommandView::Signal("SIGTERM"@), CommandView::Quit],
            )
            &&& a2 == EndActionView::Terminate { timeout: 5 }
            &&& a3 == EndActionView::Restore
            &&& a4 == EndActionView::Finish(
                match (asked, terminated, restored) {
                    (Err(e), _, _) => Err(e),
                    (Ok(_), Err(e), _) => Err(e),
                    (Ok(_), Ok(_), Err(e)) => Err(e),
                    (Ok(_), Ok(_), Ok(_)) => Ok(()),
                },
            )
        }),
        ({
            let (s1, a1) = end_start(true);
            let (s2, a2) = end_step(s1, terminated);
            let (_, a3) = end_step(s2, restored);
            &&& a1 == EndActionView::Terminate { timeout: 5 }
            &&& a2 == EndActionView::Restore
            &&& a3 == EndActionView::Finish(
                match (terminated, restored) {
                    (Err(e), _) => Err(e),
                    (Ok(_), Err(e)) => Err(e),
                    (Ok(_), Ok(_)) => Ok(()),
                },
            )
        }),
{
}

/// Why a session is no longer watched.
#[derive(Clone, Copy, Debug, PartialEq, Eq, Structural)]
pub enum MonitorExit {
    ManagementClosed,
}

/// The report that a session is no longer watched. It is a warning: the session
/// goes on.
pub fn monitor_warning(exit: &Result<MonitorExit>) -> (r: VpnEvent)
    ensures
        r@ == (VpnEventView::Warning {
            message: match *exit {
                Ok(MonitorExit::ManagementClosed) => {
                    "OpenVPN management socket closed; reconnect monitor stopped for this session"@
                },
                Err(e) => "OpenVPN management reconnect monitor stopped: "@ + e@.text(),
            },
        }),
{
    let message = match exit {
        Ok(MonitorExit::ManagementClosed) => {
            "OpenVPN management socket closed; reconnect monitor stopped for this session".to_owned()
        },
        Err(e) => cat("OpenVPN management reconnect monitor stopped: ", e.message().as_str()),
    };
    VpnEvent::Warning { message }
}

/// The address that a session has after a reconnection, and the report of it.
pub fn reconnected(outcome: &SamlAuthOutcome) -> (r: (Option<IpAddr>, VpnEvent))
    ensures
        r.0 == outcome.vpn_ip,
        r.1@ == (VpnEventView::Connected { vpn_ip: outcome.vpn_ip }),
{
    (outcome.vpn_ip, VpnEvent::Connected { vpn_ip: outcome.vpn_ip })
}

/// After a failed login OpenVPN is asked to exit and waited for before the
/// error of the login is returned.
pub proof fn lemma_failed_login_ends_openvpn(
    options: ConnectView,
    platform: Platform,
    scripts: bool,
    failure: ErrorView,
)
    ensures
        ({
            let stage = StageView::LoggingIn { scripts };
            let (s1, a1) = connect_step(
                options,
                platform,
                stage,
                EventView::LoggedIn(Err(failure)),
            );
            let (s2, a2) = connect_step(options, platform, s1, EventView::ManagementShutDown);
            let (s3, a3) = connect_step(options, platform, s2, EventView::Terminated);
            &&& a1 == ActionView::ShutDownManagement
            &&& a2 == ActionView::Terminate { timeout: FAILED_LOGIN_TIMEOUT }
            &&& a3 == ActionView::Fail(failure)
        }),
{
}

/// The resolver is left alone if it is not to be configured: no step asks
/// OpenVPN or the client to configure it.
pub proof fn lemma_dns_is_left_alone(
    options: ConnectView,
    platform: Platform,
    stage: StageView,
    event: EventView,
)
    requires
        options.dns_mode == DnsMode::Disabled,
    ensures
        match connect_step(options, platform, stage, event).1 {
            ActionView::ConfigureDns { .. } => false,
            ActionView::Prepare(launch) => !launch.configure_dns,
            _ => true,
        },
{
}

/// Only options that were checked lead anywhere: without success of the check
/// no further step is taken.
pub proof fn lemma_refused_options_stop(
    options: ConnectView,
    platform: Platform,
    e: ErrorView,
    event: EventView,
)
    ensures
        ({
            let (stage, action) = connect_step(
                options,
                platform,
                StageView::Validating,
                EventView::Validated(Err(e)),
            );
            &&& action == ActionView::Fail(e)
            &&& connect_step(options, platform, stage, event) == (
                StageView::Ended,
                ActionView::Wait,
            )
        }),
{
}

/// Nothing is done any more for a connection that has been made or has failed.
pub proof fn lemma_end_is_final(
    options: ConnectView,
    platform: Platform,
    stage: StageView,
    event: EventView,
    later: EventView,
)
    requires
        ({
            let (_, action) = connect_step(options, platform, stage, event);
            action is Finish || action is Fail
        }),
    ensures
        ({
            let (ended, _) = connect_step(options, platform, stage, event);
            connect_step(options, platform, ended, later) == (StageView::Ended, ActionView::Wait)
        }),
{
}

/// A connection is made step by step, each as the options ask for it, and ends
/// with the report of the address of the tunnel. The client configures the
/// resolver itself if it is to be configured, OpenVPN does not do it, and the
/// server has pushed resolvers.
pub proof fn lemma_connection_is_made(
    options: ConnectView,
    platform: Platform,
    binary: Seq<char>,
    scripts: bool,
    outcome: OutcomeView,
)
    ensures
        ({
            let go = |stage: StageView, event: EventView|
                connect_step(options, platform, stage, event);
            let (s1, a1) = go(StageView::Validating, EventView::Validated(Ok(())));
            let (s2, a2) = go(s1, EventView::DnsCleaned(Ok(())));
            let (s3, a3) = go(s2, EventView::Deployed(Ok(binary)));
            let (s4, a4) = go(s3, EventView::AcsBound(Ok(())));
            let (s5, a5) = go(s4, EventView::Prepared(Ok(scripts)));
            let (s6, a6) = go(s5, EventView::Spawned(Ok(())));
            let (s7, a7) = go(s6, EventView::ManagementConnected(Ok(())));
            let (s8, a8) = go(s7, EventView::Authenticated(Ok(())));
            let (s9, a9) = go(s8, EventView::LoggedIn(Ok(outcome)));
            let (s10, a10) = go(s9, EventView::MonitorsStarted);
            let (s11, a11) = go(s10, EventView::DnsConfigured(Ok(())));
            let up = ActionView::Finish {
                report: VpnEventView::Connected { vpn_ip: outcome.vpn_ip },
            };
            &&& a1 == ActionView::CleanDns
            &&& a2 == ActionView::Deploy
            &&& a3 == ActionView::BindAcs {
                host: options.acs_host,
                port: options.acs_port,
                auth_timeout: options.auth_timeout,
            }
            &&& a4 == ActionView::Prepare(
                LaunchView {
                    binary,
                    config: options.config_path,
                    management_host: options.management_host,
                    management_port: options.management_port,
                    configure_dns: options.dns_mode == DnsMode::OpenVpnDefault && platform
                        != Platform::MacOs,
                    ignore_default_route: false,
                    ignore_pushed_routes: false,
                },
            )
            &&& a5 == ActionView::Spawn
            &&& a6 == ActionView::ConnectManagement { timeout: 10 }
            &&& a7 == ActionView::Authenticate {
                report: VpnEventView::ManagementConnected,
                timeout: 10,
            }
            &&& a8 == ActionView::LogIn
            &&& a9 == ActionView::StartMonitors { routes: outcome.routes }
            &&& if options.dns_mode == DnsMode::OpenVpnDefault && !scripts
                && outcome.dns_servers.len() > 0 {
                a10 == ActionView::ConfigureDns {
                    servers: outcome.dns_servers,
                    vpn_ip: outcome.vpn_ip,
                } && a11 == up
            } else {
                a10 == up
            }
        }),
{
}

/// Whatever step fails before OpenVPN runs and is being logged in to, the
/// connection ends with that error.
pub proof fn lemma_failures_are_returned(
    options: ConnectView,
    platform: Platform,
    binary: Seq<char>,
    scripts: bool,
    vpn_ip: Option<IpAddr>,
    e: ErrorView,
)
    ensures
        ({
            let failed = (StageView::Ended, ActionView::Fail(e));
            let go = |stage: StageView, event: EventView|
                connect_step(options, platform, stage, event);
            &&& go(StageView::CleaningDns, EventView::DnsCleaned(Err(e))) == failed
            &&& go(StageView::Deploying, EventView::Deployed(Err(e))) == failed
            &&& go(StageView::BindingAcs { binary }, EventView::AcsBound(Err(e))) == failed
            &&& go(StageView::Preparing, EventView::Prepared(Err(e))) == failed
            &&& go(StageView::Spawning { scripts }, EventView::Spawned(Err(e))) == failed
            &&& go(StageView::Connecting { scripts }, EventView::ManagementConnected(Err(e)))
                == failed
            &&& go(StageView::Authenticating { scripts }, EventView::Authenticated(Err(e)))
                == failed
            &&& go(StageView::ConfiguringDns { vpn_ip }, EventView::DnsConfigured(Err(e)))
                == failed
            &&& go(StageView::Authenticating { scripts }, EventView::AuthenticationTimedOut) == (
                StageView::Ended,
                ActionView::Fail(
                    ErrorView::ManagementProtocol(
                        "timed out waiting for OpenVPN management authentication"@,
                    ),
                ),
            )
        }),
{
}

/// After a failed login OpenVPN is given three seconds to exit.
pub proof fn lemma_failed_login_is_ended_in_time(
    options: ConnectView,
    platform: Platform,
    failure: ErrorView,
)
    ensures
        connect_step(
            options,
            platform,
            StageView::ShuttingDown { failure },
            EventView::ManagementShutDown,
        ) == (StageView::Terminating { failure }, ActionView::Terminate { timeout: 3 }),
{
}

} // verus!
