use awsvpn::logredact::redact_line;
use awsvpn::openvpn::command::saml_response_password;

#[test]
fn redacts_auth_password_command() {
    let line = "password \"Auth\" CRV1::state::very-secret-assertion";
    assert_eq!(redact_line(line), "password \"Auth\" [REDACTED]");
}

#[test]
fn redacts_saml_response_form_param() {
    let line = "RelayState=abc&SAMLResponse=very-secret-assertion&other=value";
    assert_eq!(
        redact_line(line),
        "RelayState=abc&SAMLResponse=[REDACTED]&other=value"
    );
}

#[test]
fn redacts_crv1_assertion() {
    let line = "auth failed CRV1::state123::very-secret-assertion";
    assert_eq!(redact_line(line), "auth failed CRV1::state123::[REDACTED]");
}

#[test]
fn keeps_other_lines() {
    for line in ["", "hello", "password \"Other\" x", "CRV1::state", "SAMLRequest=x"] {
        assert_eq!(redact_line(line), line);
    }
    assert_eq!(redact_line("SAMLResponse="), "SAMLResponse=[REDACTED]");
}

#[test]
fn redacts_every_saml_response() {
    assert_eq!(
        redact_line("SAMLResponse=one&x=1&SAMLResponse=two"),
        "SAMLResponse=[REDACTED]&x=1&SAMLResponse=[REDACTED]"
    );
    assert_eq!(
        redact_line("SAMLResponse=one&SAMLResponse=two&SAMLResponse="),
        "SAMLResponse=[REDACTED]&SAMLResponse=[REDACTED]&SAMLResponse=[REDACTED]"
    );
    assert_eq!(
        redact_line("SAMLResponse=SAMLResponse=a&b"),
        "SAMLResponse=[REDACTED]&b"
    );
}

#[test]
fn redacts_an_answer_beside_other_credentials() {
    assert_eq!(
        redact_line("SAMLResponse=a&x CRV1::s::answer SAMLResponse=b password \"Auth\" c"),
        "SAMLResponse=[REDACTED]&x CRV1::s::[REDACTED]"
    );
    assert_eq!(
        redact_line("SAMLResponse=a&x password \"Auth\" CRV1::s::b&c"),
        "SAMLResponse=[REDACTED]&x password \"Auth\" [REDACTED]"
    );
}

#[test]
fn shows_nothing_of_a_password_that_is_sent() {
    for secret in ["a", "with space", "quote\"d", "", "SAMLResponse=x&y", "CRV1::a::b"] {
        let line = saml_response_password("state", secret).line();
        assert_eq!(redact_line(&line), "password \"Auth\" [REDACTED]");
    }
}
