use awsvpn::config::ovpn::{OvpnConfigSummary, Remote};
use awsvpn::Error;

#[test]
fn parses_aws_client_vpn_config_summary() {
    let config = r#"
client
dev tun
proto udp
remote cvpn-endpoint-123.prod.clientvpn.us-east-1.amazonaws.com 443
remote-random-hostname
auth-user-pass
auth-retry interact
"#;

    let summary = OvpnConfigSummary::parse(config).unwrap();

    assert_eq!(
        summary.remotes,
        vec![Remote {
            host: "cvpn-endpoint-123.prod.clientvpn.us-east-1.amazonaws.com".to_string(),
            port: 443
        }]
    );
    assert!(summary.has_auth_user_pass);
    assert!(!summary.has_auth_federate);
    assert!(summary.supports_saml_auth_flow());
}

#[test]
fn parses_auth_federate_config() {
    let summary = OvpnConfigSummary::parse(
        r#"
remote example.com 443
auth-federate
"#,
    )
    .unwrap();

    assert!(summary.has_auth_federate);
    assert!(summary.supports_saml_auth_flow());
}

#[test]
fn rejects_remote_without_port() {
    let err = OvpnConfigSummary::parse("remote example.com").unwrap_err();
    assert!(matches!(err, Error::InvalidConfig(_)));
}

#[test]
fn rejects_invalid_remote_port() {
    let err = OvpnConfigSummary::parse("remote example.com nope").unwrap_err();
    assert!(matches!(err, Error::InvalidConfig(_)));
}

#[test]
fn names_what_is_wrong_with_a_remote() {
    let message = |s: &str| OvpnConfigSummary::parse(s).unwrap_err().message();
    assert_eq!(message("remote"), "invalid VPN config: remote directive is missing host");
    assert_eq!(
        message("remote example.com"),
        "invalid VPN config: remote directive is missing port"
    );
    assert_eq!(
        message("client\nremote h 70000"),
        "invalid VPN config: invalid remote port '70000': number too large to fit in target type"
    );
}

#[test]
fn ignores_comments_and_white_space() {
    let summary =
        OvpnConfigSummary::parse("# remote x\n; remote y\n \t\n  remote h 1 udp\r\nremote g 2")
            .unwrap();
    assert_eq!(
        summary.remotes,
        vec![
            Remote { host: "h".to_string(), port: 1 },
            Remote { host: "g".to_string(), port: 2 }
        ]
    );
    assert!(!summary.supports_saml_auth_flow());
}

#[test]
fn reports_a_file_that_cannot_be_read() {
    assert_eq!(
        OvpnConfigSummary::parse_file("/c", Err("denied".to_string()))
            .unwrap_err()
            .message(),
        "invalid VPN config: could not read /c: denied"
    );
    assert!(OvpnConfigSummary::parse_file("/c", Ok("auth-federate".to_string()))
        .unwrap()
        .has_auth_federate);
}
