use awsvpn::openvpn::command::{
    acs_password, auth_username, saml_response_password, ManagementCommand,
};

#[test]
fn formats_initial_saml_auth_commands() {
    assert_eq!(auth_username().line(), "username \"Auth\" N/A");
    assert_eq!(acs_password(35001).line(), "password \"Auth\" ACS::35001");
}

#[test]
fn formats_saml_response_password() {
    let command = saml_response_password("state123", "assertion");
    assert_eq!(
        command.line(),
        "password \"Auth\" CRV1::state123::assertion"
    );
}

#[test]
fn quotes_values_with_spaces() {
    let command = ManagementCommand::Password {
        name: "Auth".to_string(),
        value: "value with spaces".to_string(),
    };

    assert_eq!(command.line(), "password \"Auth\" \"value with spaces\"");
}

#[test]
fn escapes_quoted_values() {
    let command = ManagementCommand::Username {
        name: "A\"uth".to_string(),
        value: "N\\A".to_string(),
    };

    assert_eq!(command.line(), "username \"A\\\"uth\" \"N\\\\A\"");
}

#[test]
fn formats_plain_commands() {
    assert_eq!(ManagementCommand::StateOn.line(), "state on");
    assert_eq!(ManagementCommand::LogOn.line(), "log on");
    assert_eq!(ManagementCommand::EchoOn.line(), "echo on");
    assert_eq!(ManagementCommand::HoldRelease.line(), "hold release");
    assert_eq!(ManagementCommand::Signal("SIGTERM".to_string()).line(), "signal SIGTERM");
    assert_eq!(ManagementCommand::Signal(String::new()).line(), "signal \"\"");
    assert_eq!(ManagementCommand::Signal("é".to_string()).line(), "signal \"é\"");
    assert_eq!(ManagementCommand::Quit.line(), "quit");
}
