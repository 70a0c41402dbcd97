use awsvpn::diagnose::{
    diagnostic_output, format_dns_servers, parse_dns_servers, parse_routes, render_diagnostics,
    script_log,
};
use awsvpn::net::ipv4_from_str;
use awsvpn::platform::CommandOutcome;
use awsvpn::{collect_diagnostics, RouteEntry};

#[test]
fn parses_unique_ipv4_dns_servers() {
    let output = r#"
resolver #1
  nameserver[0] : 172.31.0.2
  nameserver[1] : 172.31.0.2
resolver #2
  nameserver[0] : 170.250.249.249
"#;

    assert_eq!(
        parse_dns_servers(output),
        vec![
            ipv4_from_str("172.31.0.2").unwrap(),
            ipv4_from_str("170.250.249.249").unwrap()
        ]
    );
}

#[test]
fn parses_utun_routes() {
    let output = r#"
Routing tables

Internet:
Destination        Gateway            Flags               Netif Expire
default            192.168.4.1        UGScg                 en0
10.28/16           192.168.104.129    UGSc                utun6
172.31             192.168.104.129    UGSc                utun6
"#;

    assert_eq!(
        parse_routes(output),
        vec![
            RouteEntry {
                destination: "10.28/16".to_string(),
                gateway: "192.168.104.129".to_string(),
                interface: "utun6".to_string(),
            },
            RouteEntry {
                destination: "172.31".to_string(),
                gateway: "192.168.104.129".to_string(),
                interface: "utun6".to_string(),
            },
        ]
    );
}

#[test]
fn prints_what_was_found() {
    let mut routes = String::new();
    for n in 0..10 {
        routes.push_str(&format!("10.{n}/16 1.1.1.1 UGSc utun3\n"));
    }
    let found = collect_diagnostics("nameserver[0] : 10.0.0.2\n", &routes, true, false);
    assert!(found.vpn_dns_present && found.vpn_routes_present);
    let text = render_diagnostics(&found);
    assert!(text.starts_with(
        "DNS servers: 10.0.0.2\nVPN DNS present: yes\nutun routes: 10\nVPN routes present: yes\nAWS up log present: yes\nAWS down log present: no\nSample VPN routes:\n  10.0/16 via 1.1.1.1 dev utun3\n"
    ));
    assert_eq!(text.lines().count(), 15);

    let nothing = collect_diagnostics("nameserver[0] : 8.8.8.8", "", false, false);
    assert!(!nothing.vpn_dns_present && !nothing.vpn_routes_present);
    assert!(render_diagnostics(&nothing).ends_with("AWS down log present: no\n"));
    assert_eq!(format_dns_servers(&Vec::new()), "none");
}

#[test]
fn reports_commands_that_fail() {
    let failed = CommandOutcome::Failed {
        status: "exit status: 1".to_string(),
        stderr: "x".to_string(),
    };
    assert_eq!(
        diagnostic_output("scutil", failed).unwrap_err().message(),
        "diagnostic failed: scutil exited with status exit status: 1"
    );
    assert_eq!(
        diagnostic_output("scutil", CommandOutcome::NotRun("gone".to_string()))
            .unwrap_err()
            .message(),
        "diagnostic failed: scutil: gone"
    );
    assert_eq!(
        script_log("up.log"),
        "/Library/Application Support/AWSVPNClient/up.log"
    );
}
