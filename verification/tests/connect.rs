use awsvpn::connect::{
    monitor_warning, try_wait_result, wait_result, ConnectAction, ConnectEvent, ConnectFlow,
    EndAction, MonitorExit, SessionEnd,
};
use awsvpn::net::{ip_from_str, ipv4_from_str, IpAddr, Ipv4Addr};
use awsvpn::openvpn::management::wire_line;
use awsvpn::openvpn::runtime::FileKind;
use awsvpn::platform::Platform;
use awsvpn::saml::flow::SamlAuthOutcome;
use awsvpn::{
    BrowserMode, ConnectOptions, DnsMode, Error, ExitReason, LogLevel, OpenVpnRuntime, Result,
    Timeout, VpnClient, VpnEvent,
};

fn options() -> ConnectOptions {
    ConnectOptions::new("/c.ovpn".to_string())
}

fn outcome() -> SamlAuthOutcome {
    SamlAuthOutcome {
        vpn_ip: ip_from_str("10.0.0.9"),
        dns_servers: vec![ipv4_from_str("10.0.0.2").unwrap()],
        routes: Vec::new(),
    }
}

/// A connection up to the login.
fn logging_in(options: ConnectOptions, platform: Platform, scripts: bool) -> ConnectFlow {
    let timeout = options.auth_timeout;
    let mut flow = VpnClient::new().connect(options, platform);
    assert!(matches!(flow.step(ConnectEvent::Validated(Ok(()))), ConnectAction::CleanDns));
    assert!(matches!(flow.step(ConnectEvent::DnsCleaned(Ok(()))), ConnectAction::Deploy));
    assert!(matches!(
        flow.step(ConnectEvent::Deployed(Ok("/bin/openvpn".to_string()))),
        ConnectAction::BindAcs { port: 35001, auth_timeout, .. } if auth_timeout == timeout
    ));
    match flow.step(ConnectEvent::AcsBound(Ok(()))) {
        ConnectAction::Prepare(launch) => {
            assert_eq!(launch.binary, "/bin/openvpn");
            assert_eq!(launch.config, "/c.ovpn");
            assert_eq!(
                launch.configure_dns,
                platform != Platform::MacOs && flow.options.dns_mode == DnsMode::OpenVpnDefault
            );
        }
        other => panic!("{other:?}"),
    }
    assert!(matches!(flow.step(ConnectEvent::Prepared(Ok(scripts))), ConnectAction::Spawn));
    assert!(matches!(
        flow.step(ConnectEvent::Spawned(Ok(()))),
        ConnectAction::ConnectManagement { timeout: 10 }
    ));
    assert!(matches!(
        flow.step(ConnectEvent::ManagementConnected(Ok(()))),
        ConnectAction::Authenticate { report: VpnEvent::ManagementConnected, timeout: 10 }
    ));
    assert!(matches!(
        flow.step(ConnectEvent::Authenticated(Ok(()))),
        ConnectAction::LogIn
    ));
    flow
}

#[test]
fn connects_and_configures_the_resolver() {
    let mut flow = logging_in(options(), Platform::Linux, false);
    assert!(matches!(
        flow.step(ConnectEvent::LoggedIn(Ok(outcome()))),
        ConnectAction::StartMonitors { .. }
    ));
    match flow.step(ConnectEvent::MonitorsStarted) {
        ConnectAction::ConfigureDns { servers, vpn_ip } => {
            assert_eq!(servers, outcome().dns_servers);
            assert_eq!(vpn_ip, outcome().vpn_ip);
        }
        other => panic!("{other:?}"),
    }
    match flow.step(ConnectEvent::DnsConfigured(Ok(()))) {
        ConnectAction::Finish { report: VpnEvent::Connected { vpn_ip } } => {
            assert_eq!(vpn_ip, outcome().vpn_ip);
        }
        other => panic!("{other:?}"),
    }
    assert!(matches!(flow.step(ConnectEvent::MonitorsStarted), ConnectAction::Wait));
}

#[test]
fn leaves_the_resolver_alone_where_it_is_told_to() {
    for (options, scripts) in [
        (options().with_dns_mode(DnsMode::Disabled), false),
        (options(), true),
    ] {
        let mut flow = logging_in(options, Platform::Linux, scripts);
        flow.step(ConnectEvent::LoggedIn(Ok(outcome())));
        assert!(matches!(
            flow.step(ConnectEvent::MonitorsStarted),
            ConnectAction::Finish { .. }
        ));
    }
}

#[test]
fn a_failed_login_ends_openvpn() {
    let mut flow = logging_in(options(), Platform::MacOs, false);
    assert!(matches!(
        flow.step(ConnectEvent::LoggedIn(Err(Error::SamlTimeout))),
        ConnectAction::ShutDownManagement
    ));
    assert!(matches!(
        flow.step(ConnectEvent::ManagementShutDown),
        ConnectAction::Terminate { timeout: 3 }
    ));
    assert!(matches!(
        flow.step(ConnectEvent::Terminated),
        ConnectAction::Fail(Error::SamlTimeout)
    ));
}

#[test]
fn refused_options_stop_a_connection() {
    let mut flow = VpnClient::new().connect(options(), Platform::Linux);
    assert!(matches!(
        flow.step(ConnectEvent::Validated(Err(Error::OpenVpnNotFound))),
        ConnectAction::Fail(Error::OpenVpnNotFound)
    ));
    assert!(matches!(flow.step(ConnectEvent::Validated(Ok(()))), ConnectAction::Wait));
}

#[test]
fn options_have_defaults() {
    let found = options();
    let local = IpAddr::V4(Ipv4Addr::localhost());
    assert_eq!(found.openvpn_runtime, OpenVpnRuntime::Bundled);
    assert_eq!((found.management_host, found.management_port), (local, None));
    assert_eq!((found.acs_host, found.acs_port), (local, 35001));
    assert_eq!(found.auth_timeout, Timeout::from_secs(600));
    assert_eq!(found.browser, BrowserMode::System);
    assert_eq!(found.log_level, LogLevel::Info);
    assert_eq!(found.dns_mode, DnsMode::OpenVpnDefault);
    assert!(!found.print_login_url);
    let changed = found
        .with_openvpn_binary("/o".to_string())
        .with_browser_mode(BrowserMode::Disabled)
        .with_log_level(LogLevel::Debug)
        .with_print_login_url(true)
        .with_dns_mode(DnsMode::Disabled);
    assert_eq!(changed.openvpn_runtime, OpenVpnRuntime::External("/o".to_string()));
    assert_eq!(changed.copy(), changed);
    let bundled = changed.copy().with_openvpn_runtime(OpenVpnRuntime::Bundled);
    assert_eq!(bundled.openvpn_runtime, OpenVpnRuntime::Bundled);
    assert_ne!(changed, options());
}

#[test]
fn options_are_checked() {
    let good = || Ok("remote h 443\nauth-federate\n".to_string());
    let check = |options: ConnectOptions, config, contents, binary| {
        options.validate(config, contents, binary)
    };
    assert!(check(options(), FileKind::File, good(), FileKind::Missing).is_ok());
    assert!(matches!(
        check(options(), FileKind::Missing, good(), FileKind::File),
        Err(Error::ConfigNotFound(path)) if path == "/c.ovpn"
    ));
    assert!(matches!(
        check(options(), FileKind::File, Err("x".to_string()), FileKind::File),
        Err(Error::InvalidConfig(_))
    ));
    let external = || options().with_openvpn_binary("/o".to_string());
    assert!(check(external(), FileKind::File, good(), FileKind::File).is_ok());
    assert!(check(external(), FileKind::File, good(), FileKind::Missing).is_err());
    let anywhere = IpAddr::V4(Ipv4Addr::unspecified());
    let acs = ConnectOptions { acs_host: anywhere, ..options() };
    assert_eq!(
        check(acs, FileKind::File, good(), FileKind::File).unwrap_err().message(),
        "invalid VPN config: ACS host must be a loopback address"
    );
    let management = ConnectOptions { management_host: anywhere, ..options() };
    assert_eq!(
        check(management, FileKind::File, good(), FileKind::File).unwrap_err().message(),
        "invalid VPN config: management host must be a loopback address"
    );
}

#[test]
fn the_end_of_a_session_is_reported() {
    let bad = || Err(Error::DnsConfigurationFailed("x".to_string()));
    assert!(matches!(wait_result(Ok(()), Ok(())), Ok(ExitReason::OpenVpnExited)));
    assert!(matches!(
        wait_result(Err(Error::Interrupted), bad()),
        Err(Error::Interrupted)
    ));
    assert!(matches!(wait_result(Ok(()), bad()), Err(Error::DnsConfigurationFailed(_))));
    assert!(matches!(try_wait_result(Ok(false), Ok(())), Ok(None)));
    assert!(matches!(
        try_wait_result(Ok(true), Ok(())),
        Ok(Some(ExitReason::OpenVpnExited))
    ));
    assert!(try_wait_result(Ok(true), bad()).is_err());
}

/// Ends a session whose steps have the given outcomes; the last action must be
/// the return.
fn disconnect(exited: bool, outcomes: Vec<Result<()>>) -> (Vec<String>, Result<()>) {
    let mut taken = Vec::new();
    let (mut end, mut action) = SessionEnd::disconnect(exited);
    for outcome in outcomes {
        taken.push(match &action {
            EndAction::ShutDownManagement(commands) => {
                commands.iter().map(wire_line).collect::<Vec<String>>().concat()
            }
            EndAction::Terminate { timeout } => format!("terminate {timeout}"),
            EndAction::Restore => "restore".to_string(),
            EndAction::Finish(result) => panic!("{result:?}"),
        });
        action = end.step(outcome);
    }
    match action {
        EndAction::Finish(result) => (taken, result),
        other => panic!("{other:?}"),
    }
}

#[test]
fn ending_a_session_takes_every_step() {
    let steps = ["signal SIGTERM\nquit\n", "terminate 5", "restore"];
    let (taken, result) = disconnect(false, vec![Ok(()), Ok(()), Ok(())]);
    assert_eq!(taken, steps);
    assert!(result.is_ok());

    let (taken, result) = disconnect(
        false,
        vec![
            Err(Error::ManagementIo("gone".to_string())),
            Err(Error::Interrupted),
            Err(Error::DnsConfigurationFailed("x".to_string())),
        ],
    );
    assert_eq!(taken, steps);
    assert!(matches!(result, Err(Error::ManagementIo(_))));

    let (taken, result) = disconnect(false, vec![Ok(()), Err(Error::Interrupted), Ok(())]);
    assert_eq!(taken, steps);
    assert!(matches!(result, Err(Error::Interrupted)));

    let failed = Err(Error::DnsConfigurationFailed("x".to_string()));
    let (taken, result) = disconnect(false, vec![Ok(()), Ok(()), failed]);
    assert_eq!(taken, steps);
    assert!(matches!(result, Err(Error::DnsConfigurationFailed(_))));
}

#[test]
fn openvpn_that_has_exited_is_not_asked_to_exit() {
    let (taken, result) = disconnect(true, vec![Ok(()), Ok(())]);
    assert_eq!(taken, ["terminate 5", "restore"]);
    assert!(result.is_ok());
}

#[test]
fn the_end_of_the_watch_is_a_warning() {
    for exit in [Ok(MonitorExit::ManagementClosed), Err(Error::Interrupted)] {
        assert!(matches!(monitor_warning(&exit), VpnEvent::Warning { .. }));
    }
}

#[test]
fn a_login_may_have_less_than_a_second() {
    let short = Timeout::from_millis(10);
    assert_eq!((short.as_secs(), short.subsec_nanos()), (0, 10_000_000));
    let options = ConnectOptions { auth_timeout: short, ..options() };
    assert_eq!(options.copy().auth_timeout, short);
    logging_in(options, Platform::Linux, false);
}

#[test]
fn timeouts_carry_whole_seconds() {
    let parts = |timeout: Timeout| (timeout.as_secs(), timeout.subsec_nanos());
    assert_eq!(parts(Timeout::new(1, 2)), (1, 2));
    assert_eq!(parts(Timeout::new(1, 2_500_000_000)), (3, 500_000_000));
    assert_eq!(parts(Timeout::from_secs(u64::MAX)), (u64::MAX, 0));
    assert_eq!(parts(Timeout::from_millis(600_001)), (600, 1_000_000));
    assert_eq!(Timeout::from_secs(600), Timeout::from_millis(600_000));
}
