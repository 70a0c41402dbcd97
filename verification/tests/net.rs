use awsvpn::net::{ip_from_str, ipv4_from_str, IpAddr, Ipv4Addr, Ipv6Addr};

const SAMPLES: [&str; 40] = [
    "0.0.0.0", "127.0.0.1", "255.255.255.255", "256.0.0.1", "1.2.3", "1.2.3.4.5", "01.2.3.4",
    "1.2.3.+4", "1..2.3", "", "a.b.c.d", "1.2.3.4 ", "::", "::1", "1::", "1::2", "fe80::1",
    "1:2:3:4:5:6:7:8", "1:2:3:4:5:6:7::", "1:2:3:4:5:6:7", "1:2:3:4:5:6:7:8:9", "::ffff:1.2.3.4",
    "::1.2.3.4", "1:2:3:4:5:6:1.2.3.4", "1:2:3:4:5:6:7:1.2.3.4", "1.2.3.4::", "1:::2", "1::2::3",
    ":1", "1:", "12345::", "g::", "FFFF::abcd", "::1.2.3", "0:0:1:0:0:0:1:0", "1:0:0:2:0:0:0:3",
    "1:2:3:4:5:6:7::8", "::2:3:4:5:6:7:8", "0001::", "::ffff:0:1",
];

#[test]
fn addresses_match_the_standard_library() {
    for s in SAMPLES {
        let found = ip_from_str(s).map(|ip| ip.render());
        let want = s.parse::<core::net::IpAddr>().ok().map(|ip| ip.to_string());
        assert_eq!(found, want, "{s}");
    }
}

#[test]
fn addresses_are_read_back() {
    for s in SAMPLES {
        if let Some(ip) = ip_from_str(s) {
            assert_eq!(ip_from_str(&ip.render()), Some(ip));
        }
    }
}

#[test]
fn knows_the_local_host() {
    assert!(IpAddr::V4(Ipv4Addr::localhost()).is_loopback());
    assert!(IpAddr::V4(Ipv4Addr::new(127, 9, 9, 9)).is_loopback());
    assert!(!IpAddr::V4(Ipv4Addr::unspecified()).is_loopback());
    assert!(ip_from_str("::1").unwrap().is_loopback());
    assert!(!ip_from_str("::2").unwrap().is_loopback());
    let one = Ipv6Addr { g0: 0, g1: 0, g2: 0, g3: 0, g4: 0, g5: 0, g6: 0, g7: 1 };
    assert_eq!(ip_from_str("0:0::1"), Some(IpAddr::V6(one)));
}

#[test]
fn knows_addresses_for_private_use() {
    for (s, private) in [
        ("10.1.2.3", true),
        ("172.15.0.1", false),
        ("172.16.0.1", true),
        ("172.31.255.1", true),
        ("172.32.0.1", false),
        ("192.168.0.1", true),
        ("192.169.0.1", false),
        ("8.8.8.8", false),
    ] {
        assert_eq!(ipv4_from_str(s).unwrap().is_private(), private, "{s}");
    }
}

#[test]
fn addresses_are_numbers() {
    let ip = ipv4_from_str("10.24.3.4").unwrap();
    assert_eq!(ip.to_number(), 169_345_796);
    assert_eq!(Ipv4Addr::from_number(169_345_796), ip);
}
