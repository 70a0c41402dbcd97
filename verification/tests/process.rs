use awsvpn::net::{IpAddr, Ipv4Addr};
use awsvpn::openvpn::process::{
    generate_management_password, is_script_directive, log_event, log_failure, password_file,
    prepare_dns_scripts, reserve_management_port, terminate, write_secret_file,
    validate_config_does_not_enable_scripts, OpenVpnLaunchOptions, OpenVpnPrepared,
    TerminateAction, TerminateEvent,
};
use awsvpn::{Error, VpnEvent};

fn launch(binary: &str, config: &str) -> OpenVpnLaunchOptions {
    OpenVpnLaunchOptions {
        binary: binary.to_string(),
        config: config.to_string(),
        management_host: IpAddr::V4(Ipv4Addr::localhost()),
        management_port: Some(47000),
        configure_dns: true,
        ignore_default_route: false,
        ignore_pushed_routes: false,
    }
}

fn prepare(options: OpenVpnLaunchOptions, scripts: bool) -> OpenVpnPrepared {
    let workdir = "/tmp/work".to_string();
    OpenVpnPrepared::new(options, 1, workdir, "secret".to_string(), scripts, None, false).unwrap()
}

fn value_of<'a>(args: &'a [String], name: &str) -> &'a str {
    let at = args.iter().position(|arg| arg == name).unwrap();
    &args[at + 1]
}

#[test]
fn refuses_non_loopback_management_port() {
    let err = reserve_management_port(IpAddr::V4(Ipv4Addr::unspecified())).unwrap_err();
    assert!(matches!(err, Error::InvalidConfig(_)));
}

#[test]
fn asks_for_any_free_port_of_the_local_host() {
    let host = IpAddr::V4(Ipv4Addr::localhost());
    let addr = reserve_management_port(host).unwrap();
    assert_eq!((addr.ip, addr.port), (host, 0));
}

#[test]
fn refuses_non_loopback_prepared_management_host() {
    let err = OpenVpnPrepared::new(
        OpenVpnLaunchOptions {
            management_host: IpAddr::V4(Ipv4Addr::unspecified()),
            ..launch("/bin/echo", "/tmp/client.ovpn")
        },
        1,
        "/tmp/work".to_string(),
        "secret".to_string(),
        false,
        None,
        false,
    )
    .unwrap_err();

    assert!(matches!(err, Error::InvalidConfig(_)));
}

#[test]
fn prepares_secure_management_password_file_and_args() {
    let prepared = prepare(launch("/bin/echo", "/tmp/client.ovpn"), false);

    assert_eq!(prepared.management_password_file, "/tmp/work/management-password");
    let file =
        write_secret_file(&prepared.management_password_file, prepared.management_password());
    assert_eq!(file.path, prepared.management_password_file);
    assert_eq!(file.contents, format!("{}\n", prepared.management_password()));
    assert_eq!(file.mode, 0o600);
    assert!(file.fresh);

    let args = prepared.args();
    assert!(args.contains(&"--management".to_string()));
    assert!(args.contains(&"127.0.0.1".to_string()));
    assert!(args.contains(&"47000".to_string()));
    assert!(args.contains(&"--management-query-passwords".to_string()));
    assert!(args.contains(&"--management-hold".to_string()));
}

#[test]
fn starts_openvpn_with_exact_arguments() {
    let options = OpenVpnLaunchOptions {
        management_port: None,
        configure_dns: false,
        ..launch("/bin/echo", "/tmp/client.ovpn")
    };
    let prepared = OpenVpnPrepared::new(
        options,
        4711,
        "/tmp/work".to_string(),
        "secret".to_string(),
        true,
        Some("client\n".to_string()),
        false,
    )
    .unwrap();
    assert_eq!(prepared.management_addr().port, 4711);
    assert!(!prepared.uses_dns_scripts());
    assert_eq!(
        prepared.args(),
        [
            "--config",
            "/tmp/client.ovpn",
            "--management",
            "127.0.0.1",
            "4711",
            "/tmp/work/management-password",
            "--management-query-passwords",
            "--management-hold",
            "--auth-nocache",
        ]
    );
}

#[test]
fn adds_aws_macos_dns_scripts_when_present() {
    let options = launch("/opt/openvpn/acvc-openvpn", "/home/user/configs/example.ovpn");
    let links = prepare_dns_scripts(&options, "/tmp/work", false).unwrap();
    assert_eq!(links.up_script, "/opt/openvpn/client.up");
    assert_eq!(links.down_script, "/opt/openvpn/client.down");

    let prepared = prepare(options, true);
    assert!(prepared.uses_dns_scripts());
    let args = prepared.args();
    let up_arg = value_of(&args, "--up");
    let down_arg = value_of(&args, "--down");
    assert_eq!(up_arg, links.up_link);
    assert_eq!(down_arg, links.down_link);
    assert!(up_arg.ends_with("client-up"));
    assert!(down_arg.ends_with("client-down"));
    assert!(!up_arg.contains(' '));
    assert!(!down_arg.contains(' '));
    assert!(args.contains(&"--script-security".to_string()));
    assert!(args
        .windows(3)
        .any(|window| window == ["--setenv", "TUNNELBLICK_CONFIG_FOLDER", "/home/user/configs"]));
    assert!(args
        .windows(3)
        .any(|window| window == ["--setenv", "CVPN_CONN_PROFILE_NAME", "example"]));
}

#[test]
fn skips_dns_scripts_when_disabled() {
    let options = OpenVpnLaunchOptions {
        configure_dns: false,
        ..launch("/opt/openvpn/acvc-openvpn", "/tmp/client.ovpn")
    };
    assert_eq!(prepare_dns_scripts(&options, "/tmp/work", false), None);
    let args = prepare(options, true).args();
    assert!(!args.contains(&"--up".to_string()));
    assert!(!args.contains(&"--down".to_string()));
    assert!(!args.contains(&"--script-security".to_string()));
}

#[test]
fn skips_dns_scripts_that_are_not_installed() {
    let args = prepare(launch("/opt/openvpn/acvc-openvpn", "/tmp/client.ovpn"), false).args();
    assert!(!args.contains(&"--up".to_string()));
}

#[test]
fn can_ignore_pushed_default_route() {
    let prepared = prepare(
        OpenVpnLaunchOptions {
            configure_dns: false,
            ignore_default_route: true,
            ..launch("/bin/echo", "/tmp/client.ovpn")
        },
        false,
    );

    assert!(prepared
        .args()
        .windows(3)
        .any(|window| window == ["--pull-filter", "ignore", "redirect-gateway"]));
}

#[test]
fn can_ignore_all_pushed_routes() {
    let prepared = prepare(
        OpenVpnLaunchOptions {
            configure_dns: false,
            ignore_pushed_routes: true,
            ..launch("/bin/echo", "/tmp/client.ovpn")
        },
        false,
    );

    let args = prepared.args();
    assert!(args.contains(&"--route-nopull".to_string()));
    assert!(!args.contains(&"--pull-filter".to_string()));
}

#[test]
fn rejects_config_script_directives() {
    let err = OpenVpnPrepared::new(
        OpenVpnLaunchOptions {
            configure_dns: false,
            ..launch("/bin/echo", "/tmp/client.ovpn")
        },
        1,
        "/tmp/work".to_string(),
        "secret".to_string(),
        false,
        Some("client\nup /tmp/pwn\n".to_string()),
        false,
    )
    .unwrap_err();

    assert!(matches!(err, Error::InvalidConfig(message) if message.contains("script directive")));
}

#[test]
fn tells_script_directives_from_others() {
    for directive in ["up", "down", "route-up", "tls-verify", "plugin", "script-security"] {
        assert!(is_script_directive(directive), "{directive}");
        let config = Some(format!("  {directive} x"));
        assert!(validate_config_does_not_enable_scripts(&config).is_err());
        let comment = Some(format!("# {directive} x\n;{directive} y"));
        assert!(validate_config_does_not_enable_scripts(&comment).is_ok());
    }
    assert!(!is_script_directive("remote"));
    assert!(validate_config_does_not_enable_scripts(&None).is_ok());
}

#[test]
fn refuses_script_directives_in_quotes_and_behind_dashes() {
    let script_words = [
        "script-security", "up", "down", "ipchange", "route-up", "route-pre-down",
        "client-connect", "client-disconnect", "learn-address", "auth-user-pass-verify",
        "tls-verify", "tls-crypt-v2-verify", "plugin",
    ];
    for word in script_words {
        for dressed in [
            format!("\"--{word}\""),
            format!("--\"{word}\""),
            format!("'--{word}'"),
            format!("--'{word}'"),
            format!("\"'{word}'\""),
            format!("'\"{word}\"'"),
            format!("----{word}"),
            format!("--\"--'{word}'\""),
        ] {
            let config = format!("client\n  {dressed} /tmp/x\n");
            match validate_config_does_not_enable_scripts(&Some(config)) {
                Err(Error::InvalidConfig(message)) => assert_eq!(
                    message,
                    format!("config contains unsupported script directive: {word}")
                ),
                other => panic!("{dressed}: {other:?}"),
            }
        }
    }
    for harmless in ["-up x", "\"\" up", "--", "remote \"up\"", "up-delay", "u\"p\""] {
        let config = Some(format!("client\n{harmless}\n"));
        assert!(validate_config_does_not_enable_scripts(&config).is_ok(), "{harmless}");
    }
}

#[test]
fn passwords_are_random_letters_and_digits() {
    let first = generate_management_password();
    let second = generate_management_password();
    assert_eq!(first.len(), 48);
    assert!(first.chars().all(|c| c.is_ascii_alphanumeric()));
    assert_ne!(first, second);
    assert_eq!(password_file("/w", false), "/w/management-password");
}

#[test]
fn streams_redacted_openvpn_output() {
    let mut logs = Vec::new();
    for (source, line) in [
        ("openvpn stdout", "password \"Auth\" CRV1::state::secret"),
        ("openvpn stderr", "SAMLResponse=secret&x=y"),
    ] {
        if let VpnEvent::Log { line } = log_event(source, line) {
            logs.push(line);
        }
    }

    assert!(logs.iter().any(|line| line.contains("[REDACTED]")));
    assert!(!logs.iter().any(|line| line.contains("secret")));
    assert_eq!(logs[1], "openvpn stderr: SAMLResponse=[REDACTED]&x=y");
    assert_eq!(
        log_failure("openvpn stdout", "broken"),
        VpnEvent::Warning { message: "openvpn stdout log stream failed: broken".to_string() }
    );
}

#[test]
fn kills_openvpn_if_it_does_not_exit_in_time() {
    assert!(matches!(terminate(TerminateEvent::Polled { exited: true }), TerminateAction::Done));
    assert!(matches!(terminate(TerminateEvent::Polled { exited: false }), TerminateAction::Wait));
    assert!(matches!(terminate(TerminateEvent::Waited(Ok(()))), TerminateAction::Done));
    assert!(matches!(
        terminate(TerminateEvent::Waited(Err("x".to_string()))),
        TerminateAction::Fail(Error::OpenVpnProcess(cause)) if cause == "x"
    ));
    assert!(matches!(terminate(TerminateEvent::TimedOut), TerminateAction::Kill));
    assert!(matches!(terminate(TerminateEvent::Killed), TerminateAction::Done));
}

#[test]
fn the_password_is_no_argument() {
    let args = prepare(launch("/opt/openvpn/acvc-openvpn", "/tmp/client.ovpn"), true).args();
    assert!(!args.iter().any(|arg| arg.contains("secret")));
}

#[test]
fn finds_scripts_beside_a_program_on_windows() {
    let options = launch("C:\\VPN\\acvc-openvpn.exe", "C:\\Users\\ann\\work.ovpn");
    let links = prepare_dns_scripts(&options, "C:\\Temp\\x", true).unwrap();
    assert_eq!(links.up_script, "C:\\VPN\\client.up");
    assert_eq!(links.down_script, "C:\\VPN\\client.down");
    assert_eq!(links.up_link, "C:\\Temp\\x\\client-up");
    assert_eq!(links.down_link, "C:\\Temp\\x\\client-down");

    let prepared = OpenVpnPrepared::new(
        options,
        1,
        "C:\\Temp\\x".to_string(),
        "secret".to_string(),
        true,
        None,
        true,
    )
    .unwrap();
    assert_eq!(prepared.management_password_file, "C:\\Temp\\x\\management-password");
    let args = prepared.args();
    assert_eq!(value_of(&args, "TUNNELBLICK_CONFIG_FOLDER"), "C:\\Users\\ann");
    assert_eq!(value_of(&args, "CVPN_CONN_PROFILE_NAME"), "work");
    assert_eq!(value_of(&args, "--up"), "C:\\Temp\\x\\client-up");
}
