use awsvpn::net::ipv4_from_str;
use awsvpn::openvpn::parser::PushedRoute;
use awsvpn::platform::{CommandOutcome, Platform};
use awsvpn::routes::{
    macos_pushed_routes_present, netmask_prefix, parse_macos_route_destination, prefix_mask, pushed_route_key,
    pushed_routes_present_in_netstat, route_drift_warning_message, route_monitor_step,
    watches_routes,
};
use awsvpn::text::chars;
use awsvpn::{Error, VpnEvent};

fn route(network: &str, netmask: &str) -> PushedRoute {
    PushedRoute {
        network: ipv4_from_str(network).unwrap(),
        netmask: ipv4_from_str(netmask).unwrap(),
    }
}

#[test]
fn detects_expected_pushed_routes_in_macos_netstat() {
    let output = r#"
Routing tables

Internet:
Destination        Gateway            Flags               Netif Expire
default            192.168.4.1        UGScg                 en0
10.24/16           10.0.0.1           UGSc                utun6
203.0.113/24       10.0.0.1           UGSc                utun6
"#;

    assert!(pushed_routes_present_in_netstat(
        output,
        &[
            PushedRoute {
                network: ipv4_from_str("10.24.0.0").unwrap(),
                netmask: ipv4_from_str("255.255.0.0").unwrap(),
            },
            PushedRoute {
                network: ipv4_from_str("203.0.113.0").unwrap(),
                netmask: ipv4_from_str("255.255.255.0").unwrap(),
            },
        ],
    ));
}

#[test]
fn detects_missing_pushed_route_in_macos_netstat() {
    let output = r#"
Routing tables

Internet:
Destination        Gateway            Flags               Netif Expire
10.24/16           10.0.0.1           UGSc                utun6
"#;

    assert!(!pushed_routes_present_in_netstat(
        output,
        &[PushedRoute {
            network: ipv4_from_str("203.0.113.0").unwrap(),
            netmask: ipv4_from_str("255.255.255.0").unwrap(),
        }],
    ));
}

#[test]
fn route_drift_warning_does_not_request_restart() {
    let message = route_drift_warning_message();

    assert!(message.contains("route table drift"));
    assert!(!message.contains("restart"));
    assert!(!message.contains("restarting"));
}

#[test]
fn prefixes_are_read_back_from_masks() {
    for prefix in 0..=32_u8 {
        let mask = prefix_mask(prefix);
        assert_eq!(mask.count_ones(), prefix as u32);
        assert_eq!(mask.leading_ones(), prefix as u32);
        assert_eq!(
            netmask_prefix(awsvpn::net::Ipv4Addr::from_number(mask)),
            Some(prefix)
        );
    }
    assert_eq!(netmask_prefix(ipv4_from_str("255.0.255.0").unwrap()), None);
}

#[test]
fn networks_are_compared_by_their_first_address() {
    let first = |s: &str| ipv4_from_str(s).unwrap();
    assert_eq!(
        pushed_route_key(&route("10.24.3.4", "255.255.0.0")),
        (first("10.24.0.0"), 16)
    );
    assert_eq!(
        pushed_route_key(&route("10.24.3.4", "255.0.255.0")),
        (first("10.24.3.4"), 32)
    );
    let found = |s: &str| parse_macos_route_destination(&chars(s));
    assert_eq!(found("default"), Some((first("0.0.0.0"), 0)));
    assert_eq!(found("10.24/16"), Some((first("10.24.0.0"), 16)));
    assert_eq!(found("10.24.3.4/16"), Some((first("10.24.0.0"), 16)));
    for bad in ["10.24", "10/33", "10.256/16", "1.2.3.4.5/8", "x/8", "10/x"] {
        assert_eq!(found(bad), None, "{bad}");
    }
}

#[test]
fn warns_once_routes_have_disappeared() {
    assert_eq!(
        route_monitor_step(&Ok(false)),
        Some(VpnEvent::Warning { message: route_drift_warning_message().to_string() })
    );
    assert_eq!(route_monitor_step(&Ok(true)), None);
    assert_eq!(route_monitor_step(&Err(Error::Interrupted)), None);
    let routes = [route("10.0.0.0", "255.0.0.0")];
    assert!(watches_routes(Platform::MacOs, &routes));
    assert!(!watches_routes(Platform::MacOs, &[]));
    assert!(!watches_routes(Platform::Linux, &routes));
}

#[test]
fn a_failing_netstat_tells_nothing_of_the_routes() {
    let routes = [route("10.24.0.0", "255.255.0.0")];
    let failed = CommandOutcome::Failed { status: "exit status: 1".to_string(), stderr: String::new() };
    assert!(matches!(
        macos_pushed_routes_present(failed, &routes),
        Err(Error::OpenVpnProcess(cause)) if cause == "netstat exited with status exit status: 1"
    ));
    assert!(matches!(
        macos_pushed_routes_present(CommandOutcome::NotRun("gone".to_string()), &routes),
        Err(Error::OpenVpnProcess(cause)) if cause == "gone"
    ));
    for (stdout, present) in [("10.24/16 10.0.0.1 UGSc utun6\n", true), ("", false)] {
        let ran = CommandOutcome::Succeeded { stdout: stdout.to_string(), stderr: String::new() };
        assert!(matches!(macos_pushed_routes_present(ran, &routes), Ok(found) if found == present));
    }
}
