use awsvpn::dns::linux::{
    is_resolvectl_missing_interface_error, linux_interface_for_ipv4,
    parse_linux_interface_for_ipv4, render_resolvconf_config, restore_command, restore_linux_dns,
    LinuxDnsAction, LinuxDnsMethod, LinuxDnsSetup,
};
use awsvpn::dns::macos::{
    flush_macos_dns_cache, macos_dns_uses_local_proxy, macos_primary_service_id,
    macos_scutil_key_exists, needs_repair, render_macos_dns_cleanup, render_macos_dns_repair,
    render_macos_dns_setup, restore_macos_dns_guard_order, restore_macos_system_dns,
    scutil_array_contains, scutil_output, scutil_state_value, MacosDnsAction, MacosDnsSetup,
};
use awsvpn::dns::native::{configure_native_dns, DnsPlan};
use awsvpn::dns::proxy::{
    frame, frame_length, proxy_step, upstreams, Asked, Forward, ForwardStep, ListenStep, Listened,
};
use awsvpn::net::{ip_from_str, ipv4_from_str, Ipv4Addr};
use awsvpn::platform::{run_command, CommandOutcome, CommandSpec, Platform};
use awsvpn::Error;

fn ip(s: &str) -> Ipv4Addr {
    ipv4_from_str(s).unwrap()
}

fn words(command: &CommandSpec) -> String {
    format!("{} {}", command.program, command.args.join(" "))
}

#[test]
fn parses_linux_interface_for_assigned_ipv4() {
    let output = r#"
1: lo    inet 127.0.0.1/8 scope host lo\       valid_lft forever preferred_lft forever
7: tun0    inet 192.0.2.42/27 scope global tun0\       valid_lft forever preferred_lft forever
"#;

    assert_eq!(
        parse_linux_interface_for_ipv4(output, ip("192.0.2.42")),
        Some("tun0".to_string())
    );
}

#[test]
fn ignores_non_matching_linux_ipv4_addresses() {
    let output = "7: tun0    inet 192.0.2.42/27 scope global tun0";

    assert_eq!(
        parse_linux_interface_for_ipv4(output, ip("198.51.100.10")),
        None
    );
}

#[test]
fn interfaces_lose_their_colon_and_must_be_found() {
    let output = "7: tun0: inet 192.0.2.42/27\n8: tun1 inet6 ::1/128\n9: tun2 inet 192.0.2.42/27";
    assert_eq!(linux_interface_for_ipv4(output, ip("192.0.2.42")).unwrap(), "tun0");
    assert!(matches!(
        linux_interface_for_ipv4("", ip("192.0.2.42")),
        Err(Error::DnsConfigurationFailed(message)) if message.contains("192.0.2.42")
    ));
}

#[test]
fn renders_resolvconf_config() {
    let config = render_resolvconf_config(&[ip("192.0.2.53"), ip("198.51.100.53")]);

    assert_eq!(
        config,
        "search openvpn\nnameserver 192.0.2.53\nnameserver 198.51.100.53\n"
    );
}

#[test]
fn detects_local_proxy_in_scutil_dns_array() {
    let output = r#"
<dictionary> {
  SearchDomains : <array> {
    0 : openvpn
  }
  ServerAddresses : <array> {
    0 : 127.0.0.1
  }
}
"#;

    assert!(scutil_array_contains(
        output,
        "ServerAddresses",
        "127.0.0.1"
    ));
    assert!(!scutil_array_contains(
        output,
        "ServerAddresses",
        "172.31.0.2"
    ));
}

#[test]
fn renders_macos_dns_repair_without_overwriting_saved_state() {
    let commands = render_macos_dns_repair("C51D613A-60BE-42A3-888D-D15432602660");

    assert!(commands.contains("d.add ServerAddresses * 127.0.0.1"));
    assert!(
        commands.contains("set State:/Network/Service/C51D613A-60BE-42A3-888D-D15432602660/DNS")
    );
    assert!(!commands.contains("OldDNSState"));
    assert!(!commands.contains("remove State:/Network/awsvpn"));
}

#[test]
fn stops_macos_dns_monitor_before_restore_and_proxy_after() {
    let (events, result) = restore_macos_dns_guard_order(
        Vec::new(),
        |mut events: Vec<&str>| {
            events.push("monitor");
            events
        },
        |mut events: Vec<&str>| {
            events.push("restore");
            (events, Ok(()))
        },
        |mut events: Vec<&str>| {
            events.push("proxy");
            events
        },
    );
    result.unwrap();

    assert_eq!(events, ["monitor", "restore", "proxy"]);
}

#[test]
fn stops_macos_dns_proxy_after_restore_failure() {
    let (events, result) = restore_macos_dns_guard_order(
        Vec::new(),
        |mut events: Vec<&str>| {
            events.push("monitor");
            events
        },
        |mut events: Vec<&str>| {
            events.push("restore");
            (events, Err(Error::DnsConfigurationFailed("restore failed".to_string())))
        },
        |mut events: Vec<&str>| {
            events.push("proxy");
            events
        },
    );

    assert!(result.is_err());
    assert_eq!(events, ["monitor", "restore", "proxy"]);
}

#[test]
fn treats_missing_systemd_resolved_interface_as_already_restored() {
    let error = r#"resolvectl exited with status exit status: 1: Failed to resolve interface "tun0": No such device"#;

    assert!(is_resolvectl_missing_interface_error(error));
}

#[test]
fn restores_what_was_configured() {
    let resolved = LinuxDnsMethod::SystemdResolved { interface: "tun0".to_string() };
    let registered = LinuxDnsMethod::Resolvconf { key: "tun0.awsvpn".to_string() };
    assert_eq!(words(&restore_command(&resolved)), "resolvectl revert tun0");
    assert_eq!(words(&restore_command(&registered)), "resolvconf -d tun0.awsvpn");
    let gone = || Err("Failed to resolve interface: No such device".to_string());
    assert!(restore_linux_dns(&resolved, Ok(())).is_ok());
    assert!(restore_linux_dns(&resolved, gone()).is_ok());
    assert!(restore_linux_dns(&resolved, Err("x".to_string())).is_err());
    assert!(restore_linux_dns(&registered, gone()).is_err());
}

#[test]
fn configures_systemd_resolved() {
    let (mut setup, command) =
        LinuxDnsSetup::configure_linux_dns("tun0".to_string(), vec![ip("10.0.0.2"), ip("10.0.0.3")]);
    assert_eq!(words(&command), "resolvectl dns tun0 10.0.0.2 10.0.0.3");
    match setup.step(Ok(())) {
        LinuxDnsAction::Run(command) => assert_eq!(words(&command), "resolvectl domain tun0 ~."),
        other => panic!("{other:?}"),
    }
    assert!(matches!(
        setup.step(Ok(())),
        LinuxDnsAction::Done(LinuxDnsMethod::SystemdResolved { interface }) if interface == "tun0"
    ));
    assert!(matches!(setup.step(Ok(())), LinuxDnsAction::Idle));
}

#[test]
fn falls_back_to_resolvconf() {
    let (mut setup, _) =
        LinuxDnsSetup::configure_linux_dns("tun0".to_string(), vec![ip("10.0.0.2")]);
    setup.step(Ok(()));
    match setup.step(Err("first".to_string())) {
        LinuxDnsAction::Run(command) => assert_eq!(words(&command), "resolvectl revert tun0"),
        other => panic!("{other:?}"),
    }
    match setup.step(Err("ignored".to_string())) {
        LinuxDnsAction::Feed(command, input) => {
            assert_eq!(words(&command), "resolvconf -a tun0.awsvpn");
            assert_eq!(input, "search openvpn\nnameserver 10.0.0.2\n");
        }
        other => panic!("{other:?}"),
    }
    match setup.step(Err("second".to_string())) {
        LinuxDnsAction::Fail(err) => assert_eq!(
            err.message(),
            "DNS configuration failed: could not configure Linux DNS with systemd-resolved or resolvconf: first; second"
        ),
        other => panic!("{other:?}"),
    }

    let (mut setup, _) =
        LinuxDnsSetup::configure_linux_dns("tun0".to_string(), vec![ip("10.0.0.2")]);
    assert!(matches!(setup.step(Err("x".to_string())), LinuxDnsAction::Feed(..)));
    assert!(matches!(
        setup.step(Ok(())),
        LinuxDnsAction::Done(LinuxDnsMethod::Resolvconf { key }) if key == "tun0.awsvpn"
    ));
}

#[test]
fn chooses_how_the_resolver_is_configured() {
    let servers = [ip("10.0.0.2")];
    let v4 = ip_from_str("10.0.0.9");
    assert_eq!(configure_native_dns(Platform::Windows, &[], None).unwrap(), DnsPlan::Nothing);
    assert_eq!(configure_native_dns(Platform::MacOs, &servers, None).unwrap(), DnsPlan::MacOs);
    assert_eq!(
        configure_native_dns(Platform::Linux, &servers, v4).unwrap(),
        DnsPlan::Linux(ip("10.0.0.9"))
    );
    assert!(configure_native_dns(Platform::Linux, &servers, None).is_err());
    assert!(configure_native_dns(Platform::Linux, &servers, ip_from_str("::1")).is_err());
    assert!(configure_native_dns(Platform::Windows, &servers, v4).is_err());
}

#[test]
fn reads_what_scutil_prints() {
    let output = "<dictionary> {\n  PrimaryService : ABC-1\n  HadDNS : 1\n}\n";
    assert_eq!(scutil_state_value(output, "HadDNS"), Some("1".to_string()));
    assert_eq!(scutil_state_value(output, "Other"), None);
    assert_eq!(macos_primary_service_id(output).unwrap(), "ABC-1");
    assert!(matches!(
        macos_primary_service_id("PrimaryService : a;b\n"),
        Err(Error::DnsConfigurationFailed(_))
    ));
    assert!(macos_scutil_key_exists(output));
    assert!(!macos_scutil_key_exists("  No such key\n"));
    assert!(macos_dns_uses_local_proxy("ServerAddresses : <array> {\n0 : 127.0.0.1\n}\n"));
    assert!(!macos_dns_uses_local_proxy("ServerAddresses : <array> {\n0 : 10.0.0.2\n}\n"));
    assert!(!scutil_array_contains("A : <array> {\n0 : x\n} end\n1 : y", "A", "y"));
    let output = "<dictionary> {\n  ServerAddresses : <array> {\n    0 : 8.8.8.8\n  }\n  SortList : <array> {\n    0 : 127.0.0.1\n  }\n}\n";
    assert!(!scutil_array_contains(output, "ServerAddresses", "127.0.0.1"));
    assert!(scutil_array_contains(output, "ServerAddresses", "8.8.8.8"));
    assert!(scutil_array_contains(output, "SortList", "127.0.0.1"));
    assert_eq!(
        scutil_output(CommandOutcome::Succeeded {
            stdout: "x".to_string(),
            stderr: String::new()
        })
        .unwrap(),
        "x"
    );
    assert!(scutil_output(CommandOutcome::NotRun("gone".to_string())).is_err());
}

#[test]
fn restores_the_settings_that_were_kept() {
    let service = Some("S".to_string());
    assert_eq!(
        render_macos_dns_cleanup(&service, true),
        "get State:/Network/awsvpn/OldDNSState\nset State:/Network/Service/S/DNS\nremove State:/Network/Service/com.amazonaws.acvc/DNS\nremove State:/Network/Service/com.amazonaws.acvc/SMB\nremove State:/Network/awsvpn/OldDNSState\nremove State:/Network/awsvpn\n"
    );
    assert!(render_macos_dns_cleanup(&service, false)
        .starts_with("remove State:/Network/Service/S/DNS\n"));
    assert_eq!(
        restore_macos_system_dns("PrimaryService : S\nHadDNS : 1\n"),
        render_macos_dns_cleanup(&service, true)
    );
    assert_eq!(
        restore_macos_system_dns("PrimaryService : S\n"),
        render_macos_dns_cleanup(&service, false)
    );
    assert_eq!(
        restore_macos_system_dns("No such key"),
        "remove State:/Network/Service/com.amazonaws.acvc/DNS\nremove State:/Network/Service/com.amazonaws.acvc/SMB\n"
    );
}

#[test]
fn configures_the_resolver_of_macos() {
    let (mut setup, input) = MacosDnsSetup::start();
    assert_eq!(input, "show State:/Network/awsvpn\n");
    let scutil = |action: MacosDnsAction| match action {
        MacosDnsAction::Scutil(input) => input,
        other => panic!("{other:?}"),
    };
    assert!(scutil(setup.step(Ok("No such key".to_string()))).contains("com.amazonaws.acvc"));
    assert!(matches!(setup.step(Ok(String::new())), MacosDnsAction::StartProxy));
    assert_eq!(scutil(setup.step(Ok(String::new()))), "show State:/Network/Global/IPv4\n");
    assert_eq!(
        scutil(setup.step(Ok("PrimaryService : S-1".to_string()))),
        "show State:/Network/Service/S-1/DNS\n"
    );
    assert_eq!(
        scutil(setup.step(Ok("<dictionary> {}".to_string()))),
        render_macos_dns_setup("S-1", true)
    );
    assert!(matches!(
        setup.step(Ok(String::new())),
        MacosDnsAction::Watch { service } if service == "S-1"
    ));
    assert!(matches!(setup.step(Ok(String::new())), MacosDnsAction::Idle));

    let (mut setup, _) = MacosDnsSetup::start();
    assert!(matches!(
        setup.step(Err(Error::Interrupted)),
        MacosDnsAction::Fail(Error::Interrupted)
    ));
}

#[test]
fn settings_are_repaired_when_they_have_changed() {
    assert!(needs_repair(&Ok(false)));
    assert!(!needs_repair(&Ok(true)));
    assert!(!needs_repair(&Err(Error::Interrupted)));
    assert_eq!(
        flush_macos_dns_cache().iter().map(words).collect::<Vec<_>>(),
        [
            "dscacheutil -flushcache",
            "killall -HUP mDNSResponder",
            "killall -HUP mDNSResponderHelper"
        ]
    );
}

#[test]
fn tcp_messages_are_framed_with_their_length() {
    assert_eq!(frame_length(0, 0), None);
    for size in [1, 255, 256, 65535] {
        let message = vec![7; size];
        let sent = frame(&message);
        assert_eq!(frame_length(sent[0], sent[1]), Some(size));
        assert_eq!(&sent[2..], &message[..]);
    }
    assert_eq!(frame(&[9, 8])[..], [0, 2, 9, 8]);
}

#[test]
fn asks_one_resolver_after_the_other() {
    let list = upstreams(&[ip("10.0.0.1"), ip("10.0.0.2")]);
    assert_eq!(list[1].port, 53);
    let mut query = Forward::new(list.clone());
    assert_eq!(query.step(None), ForwardStep::Ask(list[0]));
    assert_eq!(query.step(Some(Asked::Empty)), ForwardStep::Ask(list[1]));
    assert_eq!(query.step(Some(Asked::Answered(vec![1]))), ForwardStep::Answer(vec![1]));
    let mut query = Forward::new(list.clone());
    assert_eq!(query.step(Some(Asked::Answered(Vec::new()))), ForwardStep::Answer(Vec::new()));
    query.step(None);
    assert_eq!(query.step(Some(Asked::Silent)), ForwardStep::Ask(list[1]));
    assert_eq!(query.step(Some(Asked::Silent)), ForwardStep::Drop);
    assert_eq!(Forward::new(list).step(Some(Asked::Broken)), ForwardStep::Drop);
    assert_eq!(proxy_step(Listened::Query), ListenStep::Serve);
    assert_eq!(proxy_step(Listened::Quiet), ListenStep::Wait);
    assert_eq!(proxy_step(Listened::Empty), ListenStep::Wait);
    assert_eq!(proxy_step(Listened::Broken), ListenStep::Stop);
}

#[test]
fn failed_commands_say_why() {
    assert_eq!(
        run_command(
            "resolvectl",
            CommandOutcome::Failed {
                status: "exit status: 1".to_string(),
                stderr: " no \n".to_string()
            }
        ),
        Err("resolvectl exited with status exit status: 1: no".to_string())
    );
    assert_eq!(
        run_command("resolvectl", CommandOutcome::NotRun("gone".to_string())),
        Err("resolvectl: gone".to_string())
    );
}

#[test]
fn every_key_that_is_set_is_restored_or_removed() {
    for had_dns in [false, true] {
        let restore = render_macos_dns_cleanup(&Some("S".to_string()), had_dns);
        for line in render_macos_dns_setup("S", had_dns).lines() {
            if let Some(key) = line.strip_prefix("set ") {
                assert!(
                    restore.lines().any(|undo| undo == format!("remove {key}"))
                        || (had_dns && restore.lines().any(|undo| undo == line))
                );
            }
        }
    }
}
