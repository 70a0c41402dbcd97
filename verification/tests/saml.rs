use awsvpn::net::{IpAddr, Ipv4Addr};
use awsvpn::openvpn::parser::LoginUrl;
use awsvpn::platform::{CommandSpec, Platform};
use awsvpn::saml::acs::{
    acs_address, after_answer, answer_callback, callback_ended, find_saml_response, parse_request,
    parse_saml_response, read_saml_assertion, receive_outcome, render_response, validate_request,
    CallbackStep, SamlAssertion, BODY_CHUNK_BYTES, HEADER_CHUNK_BYTES, MAX_FORM_BODY_BYTES,
    MAX_HEADER_BYTES, MAX_SAML_RESPONSE_BYTES,
};
use awsvpn::saml::browser::{
    browser_outcome, format_browser, open_browser, parse_browser, Browser, BrowserAction,
    BrowserOpenResult,
};
use awsvpn::{BrowserMode, Error, Result};

fn post(path: &str, body: &str) -> Vec<u8> {
    format!(
        "POST {path} HTTP/1.1\r\nHost: localhost\r\nContent-Type: application/x-www-form-urlencoded\r\nContent-Length: {}\r\n\r\n{body}",
        body.len()
    )
    .into_bytes()
}

/// Reads a request as it comes in and answers it.
fn serve(request: &[u8]) -> (String, Option<Result<SamlAssertion>>) {
    let mut come = 0;
    loop {
        let (limit, in_body) = match read_saml_assertion(&request[..come]) {
            CallbackStep::ReadHeaders(limit) => (limit, false),
            CallbackStep::ReadBody(limit) => (limit, true),
            CallbackStep::Done(read) => {
                let (response, next) = answer_callback(read);
                return (response, after_answer(next, Ok(())));
            }
        };
        if come == request.len() {
            let (response, next) = answer_callback(Err(callback_ended(in_body)));
            return (response, after_answer(next, Ok(())));
        }
        come = request.len().min(come + limit);
    }
}

fn received(request: &[u8]) -> (String, Result<SamlAssertion>) {
    let (response, result) = serve(request);
    (response, result.unwrap())
}

#[test]
fn receives_saml_response() {
    let (response, assertion) = received(&post("/", "SAMLResponse=assertion-value"));

    assert!(response.starts_with("HTTP/1.1 200 OK"));
    assert_eq!(assertion.unwrap().expose_for_openvpn(), "assertion-value");
}

#[test]
fn decodes_form_encoded_saml_response() {
    let (_, assertion) = received(&post("/", "RelayState=x&SAMLResponse=hello%2Bworld%3D"));

    assert_eq!(assertion.unwrap().expose_for_openvpn(), "hello+world=");
}

#[test]
fn rejects_missing_saml_response() {
    let (response, result) = received(&post("/", "RelayState=x"));

    assert!(response.starts_with("HTTP/1.1 400 Bad Request"));
    assert!(matches!(result.unwrap_err(), Error::SamlResponseMissing));
}

#[test]
fn rejects_oversized_decoded_saml_response() {
    let oversized = "a".repeat(MAX_SAML_RESPONSE_BYTES + 1);
    let (response, result) = received(&post("/", &format!("SAMLResponse={oversized}")));

    assert!(response.starts_with("HTTP/1.1 413 Payload Too Large"));
    assert!(matches!(result.unwrap_err(), Error::SamlResponseTooLarge));
}

#[test]
fn rejects_control_characters_in_saml_response() {
    let (response, result) = received(&post("/", "SAMLResponse=assertion%0D%0Apassword"));

    assert!(response.starts_with("HTTP/1.1 400 Bad Request"));
    assert!(
        matches!(result.unwrap_err(), Error::InvalidConfig(message) if message.contains("control characters"))
    );
}

#[test]
fn ignores_get_before_valid_post() {
    let (response, result) =
        serve(b"GET / HTTP/1.1\r\nHost: localhost\r\nContent-Length: 0\r\n\r\n");

    assert!(response.starts_with("HTTP/1.1 200 OK"));
    assert!(result.is_none());

    let (response, assertion) = received(&post("/", "SAMLResponse=assertion"));

    assert!(response.starts_with("HTTP/1.1 200 OK"));
    assert_eq!(assertion.unwrap().expose_for_openvpn(), "assertion");
}

#[test]
fn ignores_wrong_path_before_valid_post() {
    let (response, result) = serve(&post("/callback", "SAMLResponse=assertion"));

    assert!(response.starts_with("HTTP/1.1 404 Not Found"));
    assert!(result.is_none());

    let (response, assertion) = received(&post("/", "SAMLResponse=assertion"));

    assert!(response.starts_with("HTTP/1.1 200 OK"));
    assert_eq!(assertion.unwrap().expose_for_openvpn(), "assertion");
}

#[test]
fn refuses_non_loopback_bind_address() {
    let err = acs_address(IpAddr::V4(Ipv4Addr::unspecified()), 0).unwrap_err();

    assert!(matches!(err, Error::InvalidConfig(_)));
    let addr = acs_address(IpAddr::V4(Ipv4Addr::localhost()), 7).unwrap();
    assert_eq!(addr.port, 7);
}

#[test]
fn reads_callbacks_in_pieces() {
    assert!(matches!(
        read_saml_assertion(b"POST"),
        CallbackStep::ReadHeaders(n) if n == HEADER_CHUNK_BYTES
    ));
    let head = b"POST / HTTP/1.1\r\ncontent-length: 9000\r\n\r\n";
    assert!(matches!(
        read_saml_assertion(head),
        CallbackStep::ReadBody(n) if n == BODY_CHUNK_BYTES
    ));
    let head = b"POST / HTTP/1.1\r\nCONTENT-LENGTH : 5\r\n\r\nab";
    assert!(matches!(read_saml_assertion(head), CallbackStep::ReadBody(3)));
}

#[test]
fn bytes_after_the_form_are_ignored() {
    let mut request = post("/", "SAMLResponse=x");
    request.extend_from_slice(b"&more");
    assert_eq!(received(&request).1.unwrap().expose_for_openvpn(), "x");
}

#[test]
fn names_what_is_wrong_with_a_callback() {
    let reason = |request: &[u8]| received(request).1.unwrap_err().message();
    for (request, message) in [
        ("", "SAML callback ended before headers completed"),
        (" \r\n\r\n", "SAML callback missing method"),
        ("POST\r\n\r\n", "SAML callback missing path"),
        ("POST / HTTP/1.1\r\n\r\n", "SAML callback missing Content-Length"),
        (
            "POST / HTTP/1.1\r\nContent-Length: x\r\n\r\n",
            "invalid Content-Length: invalid digit found in string",
        ),
        (
            "POST / HTTP/1.1\r\nContent-Length: 5\r\n\r\nab",
            "SAML callback body ended early",
        ),
        (
            "POST / HTTP/1.1\r\nContent-Type: text/plain\r\n\r\n",
            "SAML callback content type must be application/x-www-form-urlencoded",
        ),
    ] {
        assert_eq!(
            reason(request.as_bytes()),
            format!("invalid VPN config: {message}"),
            "{request:?}"
        );
    }
    let cause = core::str::from_utf8(b"\xff\r\n\r\n").unwrap_err();
    assert_eq!(
        reason(b"\xff\r\n\r\n"),
        format!("invalid VPN config: SAML callback was not valid UTF-8: {cause}")
    );
    assert_eq!(
        reason(&vec![b'a'; MAX_HEADER_BYTES + 1]),
        "invalid VPN config: SAML callback headers are too large"
    );
    let huge = format!("POST / HTTP/1.1\r\nContent-Length: {}\r\n\r\n", MAX_FORM_BODY_BYTES + 1);
    assert!(matches!(
        received(huge.as_bytes()).1.unwrap_err(),
        Error::SamlResponseTooLarge
    ));
}

#[test]
fn the_last_value_of_a_header_counts() {
    let request = parse_request(
        b"POST / HTTP/1.1\r\nContent-Type: text/plain\r\ncontent-TYPE:  Application/X-WWW-form-urlencoded ; charset=x\r\n\r\n",
    )
    .unwrap();
    assert!(validate_request(&request).is_ok());
}

#[test]
fn the_first_field_with_the_name_counts() {
    assert_eq!(
        parse_saml_response(b"SAMLResponse=a+b&SAMLResponse=c").unwrap().expose_for_openvpn(),
        "a b"
    );
    let pair = |name: &str, value: &str| (name.to_string(), value.to_string());
    assert_eq!(
        find_saml_response(vec![pair("x", "1"), pair("SAMLResponse", "2"), pair("SAMLResponse", "3")])
            .unwrap()
            .expose_for_openvpn(),
        "2"
    );
    assert!(matches!(
        find_saml_response(vec![pair("SAMLResponse", "")]),
        Err(Error::SamlResponseMissing)
    ));
}

#[test]
fn forms_are_read_back() {
    for value in ["plain", "a b&c=d%+é☃", "PHNhbWw+"] {
        let mut form = url::form_urlencoded::Serializer::new(String::new());
        form.append_pair("RelayState", "a=b&c").append_pair("SAMLResponse", value);
        let body = form.finish();
        assert_eq!(
            parse_saml_response(body.as_bytes()).unwrap().expose_for_openvpn(),
            value
        );
    }
}

#[test]
fn assertions_are_measured_in_bytes() {
    let assertion = SamlAssertion::new("é☃".to_string()).unwrap();
    assert_eq!(assertion.len(), 5);
    assert!(!assertion.is_empty());
    assert!(SamlAssertion::new("é".repeat(MAX_SAML_RESPONSE_BYTES / 2)).is_ok());
    assert!(matches!(
        SamlAssertion::new("é".repeat(MAX_SAML_RESPONSE_BYTES / 2 + 1)),
        Err(Error::SamlResponseTooLarge)
    ));
    assert!(SamlAssertion::new("a\u{85}b".to_string()).is_err());
}

#[test]
fn responses_tell_their_length() {
    assert_eq!(
        render_response(200, "OK", "é"),
        "HTTP/1.1 200 OK\r\nContent-Type: text/html; charset=utf-8\r\nContent-Length: 2\r\nConnection: close\r\n\r\né"
    );
}

#[test]
fn a_response_that_cannot_be_sent_loses_the_assertion() {
    let (_, next) = answer_callback(SamlAssertion::new("x".to_string()));
    assert!(matches!(
        after_answer(next, Err(Error::AcsServer("gone".to_string()))),
        Some(Err(Error::AcsServer(_)))
    ));
    let (_, next) = answer_callback(Err(Error::SamlResponseMissing));
    assert!(matches!(
        after_answer(next, Err(Error::Interrupted)),
        Some(Err(Error::SamlResponseMissing))
    ));
}

fn login() -> LoginUrl {
    LoginUrl {
        text: "https://idp.example.com/saml".to_string(),
        scheme: "https".to_string(),
        host: Some("idp.example.com".to_string()),
    }
}

#[test]
fn disabled_mode_does_not_launch() {
    assert!(matches!(
        open_browser(&login(), BrowserMode::Disabled, Platform::Linux),
        BrowserAction::Skip(BrowserOpenResult::Disabled)
    ));
}

#[test]
fn shows_the_login_page() {
    let system = |platform| match open_browser(&login(), BrowserMode::System, platform) {
        BrowserAction::Run(command) => command,
        other => panic!("{other:?}"),
    };
    let url = "https://idp.example.com/saml";
    assert_eq!(system(Platform::MacOs), CommandSpec::new("open").arg(url));
    assert_eq!(system(Platform::Linux), CommandSpec::new("xdg-open").arg(url));
    assert_eq!(
        system(Platform::Windows),
        CommandSpec::new("rundll32").arg("url.dll,FileProtocolHandler").arg(url)
    );
    assert!(matches!(
        open_browser(&login(), BrowserMode::Specific(Browser::Opera), Platform::Linux),
        BrowserAction::Ask(Browser::Opera, text) if text == url
    ));
    assert_eq!(browser_outcome(Ok(())).unwrap(), BrowserOpenResult::Opened);
    assert!(matches!(
        browser_outcome(Err("x".to_string())),
        Err(Error::BrowserLaunchFailed(cause)) if cause == "x"
    ));
}

#[test]
fn browsers_are_read_back_from_their_arguments() {
    for (browser, argument) in [
        (Browser::Default, "default"),
        (Browser::Firefox, "firefox"),
        (Browser::InternetExplorer, "internetexplorer"),
        (Browser::Chrome, "chrome"),
        (Browser::Opera, "opera"),
        (Browser::Safari, "safari"),
        (Browser::WebPositive, "webpositive"),
    ] {
        assert_eq!(format_browser(browser), argument);
        assert_eq!(parse_browser(argument), Ok(browser));
        assert_eq!(parse_browser(&argument.to_uppercase()), Ok(browser));
    }
    assert_eq!(parse_browser("Internet Explorer"), Ok(Browser::InternetExplorer));
    assert_eq!(parse_browser("IE"), Ok(Browser::InternetExplorer));
    assert_eq!(
        parse_browser("lynx"),
        Err("expected one of: default, chrome, firefox, safari, opera".to_string())
    );
}

#[test]
fn times_out_waiting_for_callback() {
    let err = receive_outcome(None).unwrap_err();
    assert!(matches!(err, Error::SamlTimeout));
}

#[test]
fn what_came_in_time_is_delivered() {
    let received = receive_outcome(Some(SamlAssertion::new("response".to_string()))).unwrap();
    assert_eq!(received.expose_for_openvpn(), "response");
    let err = receive_outcome(Some(Err(Error::SamlResponseMissing))).unwrap_err();
    assert!(matches!(err, Error::SamlResponseMissing));
}
