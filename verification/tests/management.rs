use awsvpn::openvpn::command::{acs_password, auth_username};
use awsvpn::openvpn::management::{
    authenticate, connect_with_retry, enable_notifications_and_release_hold, read_event, read_line,
    send_raw_line, shutdown, wire_line, AuthStep,
};
use awsvpn::openvpn::parser::ManagementEvent;
use awsvpn::Error;

#[test]
fn sends_management_commands() {
    let lines: Vec<String> = [auth_username(), acs_password(35001)].iter().map(wire_line).collect();
    assert_eq!(
        lines.iter().map(|line| line.trim_end()).collect::<Vec<_>>(),
        vec!["username \"Auth\" N/A", "password \"Auth\" ACS::35001"]
    );
    assert_eq!(lines[0], "username \"Auth\" N/A\n");
}

#[test]
fn reads_parsed_management_event() {
    let received = "INFO:OpenVPN Management Interface\n>PASSWORD:Verification Failed: 'Auth' ['CRV1:R:state123:b'Ti9B':https://idp.example.com/saml']\n";
    let events: Vec<ManagementEvent> = received
        .split_inclusive('\n')
        .filter_map(|line| read_event(&read_line(line).unwrap()).unwrap())
        .collect();
    match &events[..] {
        [ManagementEvent::SamlChallenge(challenge)] => {
            assert_eq!(challenge.state_id, "state123");
            assert_eq!(
                challenge.url.text,
                url::Url::parse("https://idp.example.com/saml").unwrap().to_string()
            );
        }
        other => panic!("{other:?}"),
    }
}

#[test]
fn sends_notification_setup_commands() {
    let commands = enable_notifications_and_release_hold();
    let lines: Vec<String> = commands.iter().map(|command| command.line()).collect();
    assert_eq!(lines, vec!["state on", "log on", "echo on", "hold release"]);
}

#[test]
fn authenticates_management_password_prompt() {
    let mut sent = Vec::new();
    let mut accepted = false;
    for received in [
        "INFO:OpenVPN Management Interface\n",
        "ENTER PASSWORD:\n",
        "SUCCESS: password is correct\n",
    ] {
        match authenticate(read_line(received)) {
            AuthStep::SendPassword => sent.push(send_raw_line("secret-management-password")),
            AuthStep::Accepted => accepted = true,
            AuthStep::Skip => {}
            AuthStep::Fail(err) => panic!("{}", err.message()),
        }
    }
    assert!(accepted);
    assert_eq!(sent, ["secret-management-password\n"]);
}

#[test]
fn refused_or_broken_authentication_fails() {
    match authenticate(read_line("ERROR: bad password\r\n")) {
        AuthStep::Fail(Error::ManagementProtocol(message)) => {
            assert_eq!(message, "ERROR: bad password");
        }
        other => panic!("{other:?}"),
    }
    match authenticate(read_line("")) {
        AuthStep::Fail(err) => assert_eq!(
            err.message(),
            "management protocol error: management socket closed during authentication"
        ),
        other => panic!("{other:?}"),
    }
}

#[test]
fn asks_openvpn_to_exit() {
    let lines: Vec<String> = shutdown().iter().map(|command| command.line()).collect();
    assert_eq!(lines, vec!["signal SIGTERM", "quit"]);
}

#[test]
fn lines_lose_their_ends() {
    assert_eq!(read_line("a\r\n").unwrap(), "a");
    assert_eq!(read_line("\n").unwrap(), "");
    assert_eq!(read_line("a").unwrap(), "a");
    assert_eq!(read_line(""), None);
}

#[test]
fn refused_connections_are_tried_again_until_the_deadline() {
    let refused = || Error::ManagementConnectFailed("refused".to_string());
    assert!(connect_with_retry(refused(), false).is_none());
    assert!(matches!(
        connect_with_retry(refused(), true),
        Some(Error::ManagementConnectFailed(cause)) if cause == "refused"
    ));
    assert!(matches!(
        connect_with_retry(Error::Interrupted, false),
        Some(Error::Interrupted)
    ));
}
