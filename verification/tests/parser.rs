use awsvpn::net::{ip_from_str, ipv4_from_str};
use awsvpn::openvpn::parser::{
    build_challenge, check_saml_url, parse_crv1_challenge, parse_crv1_parts,
    parse_management_line, parse_pushed_options, validate_saml_url, LoginUrl, ManagementEvent,
    PushedRoute, SamlChallenge,
};
use awsvpn::text::chars;
use awsvpn::Error;
use url::Url;

fn login_url(text: &str) -> LoginUrl {
    let url = Url::parse(text).unwrap();
    LoginUrl {
        text: url.to_string(),
        scheme: url.scheme().to_string(),
        host: url.host_str().map(str::to_string),
    }
}

#[test]
fn parses_auth_prompt() {
    let event = parse_management_line(">PASSWORD:Need 'Auth' username/password").unwrap();
    assert_eq!(event, ManagementEvent::AuthPrompt);
}

#[test]
fn parses_crv1_saml_challenge() {
    let event = parse_management_line(
        ">PASSWORD:Verification Failed: 'Auth' ['CRV1:R:state123:b'Ti9B':https://idp.example.com/saml?x=1']",
    )
    .unwrap();

    assert_eq!(
        event,
        ManagementEvent::SamlChallenge(SamlChallenge {
            state_id: "state123".to_string(),
            url: login_url("https://idp.example.com/saml?x=1"),
        })
    );
}

#[test]
fn parses_auth_failed_crv1_log_saml_challenge() {
    let event = parse_management_line(
        ">LOG:123,,AUTH: Received control message: AUTH_FAILED,CRV1:R:instance-2/abc/uuid:b'Ti9B':https://accounts.google.com/o/saml2/idp?SAMLRequest=abc%3D",
    )
    .unwrap();

    assert_eq!(
        event,
        ManagementEvent::SamlChallenge(SamlChallenge {
            state_id: "instance-2/abc/uuid".to_string(),
            url: login_url("https://accounts.google.com/o/saml2/idp?SAMLRequest=abc%3D"),
        })
    );
}

#[test]
fn rejects_non_https_crv1_url() {
    let err = parse_management_line(
        ">PASSWORD:Verification Failed: 'Auth' ['CRV1:R:state123:b'Ti9B':http://idp.example.com/saml']",
    )
    .unwrap_err();

    assert!(matches!(err, Error::InvalidSamlUrl(_)));
}

#[test]
fn rejects_malformed_crv1_challenge() {
    let err = parse_management_line(
        ">PASSWORD:Verification Failed: 'Auth' ['CRV1:E:state123:b'Ti9B':https://idp.example.com/saml']",
    )
    .unwrap_err();

    assert!(matches!(err, Error::ManagementProtocol(_)));
}

#[test]
fn parses_connected_state() {
    let event =
        parse_management_line(">STATE:123,CONNECTED,SUCCESS,10.0.0.10,1.2.3.4,443,,").unwrap();

    assert_eq!(
        event,
        ManagementEvent::Connected {
            vpn_ip: Some(ip_from_str("10.0.0.10").unwrap())
        }
    );
}

#[test]
fn parses_reconnecting_state() {
    let event = parse_management_line(">STATE:123,RECONNECTING,auth-failure,,,,").unwrap();

    assert_eq!(
        event,
        ManagementEvent::Reconnecting {
            reason: Some("auth-failure".to_string())
        }
    );
}

#[test]
fn parses_fatal_line() {
    let event = parse_management_line(">FATAL:cannot allocate tun").unwrap();
    assert_eq!(
        event,
        ManagementEvent::Fatal("cannot allocate tun".to_string())
    );
}

#[test]
fn parses_other_lines() {
    assert_eq!(parse_management_line("INFO:hello").unwrap(), ManagementEvent::Ignored);
    assert_eq!(parse_management_line("").unwrap(), ManagementEvent::Ignored);
    assert_eq!(
        parse_management_line(">LOG:1,,hello").unwrap(),
        ManagementEvent::Log("1,,hello".to_string())
    );
    assert_eq!(
        parse_management_line(">LOG:1,,AUTH_FAILED").unwrap(),
        ManagementEvent::AuthFailed(">LOG:1,,AUTH_FAILED".to_string())
    );
    assert_eq!(
        parse_management_line(">STATE:1,CONNECTED,SUCCESS,,,,,").unwrap(),
        ManagementEvent::Connected { vpn_ip: None }
    );
    assert_eq!(
        parse_management_line(">STATE:1,RECONNECTING,,,,,").unwrap(),
        ManagementEvent::Reconnecting { reason: None }
    );
    assert_eq!(
        parse_management_line(">STATE:1,WAIT,,,,,").unwrap(),
        ManagementEvent::Ignored
    );
}

#[test]
fn login_urls_are_written_out_by_the_url_parser() {
    let url = validate_saml_url("HTTPS://Idp.Example.com:443/a/../b c").unwrap();
    assert_eq!(url.text, "https://idp.example.com/b%20c");
    assert_eq!(url.scheme, "https");
    assert_eq!(url.host, Some("idp.example.com".to_string()));
}

#[test]
fn names_what_is_wrong_with_a_login_url() {
    assert_eq!(
        validate_saml_url("nonsense").unwrap_err().message(),
        format!("invalid SAML URL: {}", Url::parse("nonsense").unwrap_err())
    );
    let hostless = LoginUrl { text: "https:x".to_string(), scheme: "https".to_string(), host: None };
    for parsed in [
        Ok(hostless),
        Ok(login_url("http://idp.example.com/")),
        Err("bad".to_string()),
    ] {
        assert!(matches!(check_saml_url(parsed), Err(Error::InvalidSamlUrl(_))));
    }
}

#[test]
fn challenges_keep_their_state_and_url() {
    let (state, url) = parse_crv1_parts(&chars("CRV1:R:a/b:b'Ti9B':https://x/y:z")).unwrap();
    assert_eq!(state, "a/b");
    assert_eq!(url, "https://x/y:z");
    assert!(matches!(
        build_challenge(state, Err("bad".to_string())),
        Err(Error::InvalidSamlUrl(_))
    ));
    let found = parse_crv1_challenge(
        ">PASSWORD:Verification Failed: 'Auth' ['CRV1:R:s:b'Ti9B':https://x/y']",
    )
    .unwrap();
    assert_eq!(found.state_id, "s");
    assert_eq!(found.url, login_url("https://x/y"));
    for body in ["", "CRV1:R:", "CRV1:R:state", "CRV1:R::b'Ti9B':https://x/", "CRV1:R:s:b'AAAA':https://x/", "R:s:b'Ti9B':https://x/"] {
        assert!(parse_crv1_parts(&chars(body)).is_err(), "{body}");
    }
}

#[test]
fn parses_pushed_options() {
    let options = parse_pushed_options(
        "1,I,PUSH: Received control message: 'PUSH_REPLY,dhcp-option DNS 172.31.0.2,dhcp-option DOMAIN x,route 10.24.0.0 255.255.0.0,route 203.0.113.7,route x 1.2.3.4,ping 1'",
    )
    .unwrap();
    assert_eq!(options.dns_servers, [ipv4_from_str("172.31.0.2").unwrap()]);
    assert_eq!(
        options.routes,
        [
            PushedRoute {
                network: ipv4_from_str("10.24.0.0").unwrap(),
                netmask: ipv4_from_str("255.255.0.0").unwrap(),
            },
            PushedRoute {
                network: ipv4_from_str("203.0.113.7").unwrap(),
                netmask: ipv4_from_str("255.255.255.255").unwrap(),
            },
        ]
    );
    assert_eq!(parse_pushed_options("route 10.0.0.0 255.0.0.0"), None);
}
