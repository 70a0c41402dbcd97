use awsvpn::daemon::runner::{
    disconnect_daemon, handle_disconnect_response, reconnect, render_status, run_daemon_connect,
    startup_error_line, startup_event_line, status_daemon, wait_for_daemon_shutdown, DaemonRunner,
    DisconnectAction, ReconnectAction, RunnerAction, RunnerEvent, StartupAction, StartupEvent,
};
use awsvpn::daemon::{
    map_connect_error, prepare_secure_dir, read_limited_line, reconnect_delay,
    remove_stale_socket, state_contents, write_state, AttemptState, ConnectErrorKind, ControlLoop,
    ControlRequest, ControlResponse, DaemonPaths, DirAction, DirEvent, DirMetadata, LoopAction,
    LoopEvent, LoopStage, SessionFacts, SessionState, SessionStatus,
};
use awsvpn::net::ip_from_str;
use awsvpn::{Error, VpnEvent};
use std::time::Duration;

#[test]
fn parses_control_requests() {
    assert_eq!(
        ControlRequest::parse("STATUS\n").unwrap(),
        ControlRequest::Status
    );
    assert_eq!(
        ControlRequest::parse("DISCONNECT\n").unwrap(),
        ControlRequest::Disconnect
    );
    assert!(ControlRequest::parse("PASSWORD secret\n").is_err());
}

#[test]
fn requests_are_read_back_from_their_lines() {
    for request in [ControlRequest::Status, ControlRequest::Disconnect] {
        assert_eq!(ControlRequest::parse(&request.line()).unwrap(), request);
    }
    assert_eq!(
        ControlRequest::parse("STATUS now\r\n").unwrap_err().message(),
        "daemon control error: unknown control request: STATUS now"
    );
}

#[test]
fn renders_and_parses_status_response() {
    let response = ControlResponse::Status(SessionStatus {
        state: SessionState::Connected,
        daemon_pid: 123,
        openvpn_pid: Some(456),
        vpn_ip: Some(ip_from_str("10.0.0.10").unwrap()),
    });

    assert_eq!(
        ControlResponse::parse(&response.render()).unwrap(),
        response
    );
}

#[test]
fn every_response_is_read_back() {
    for state in [
        SessionState::Connecting,
        SessionState::Connected,
        SessionState::Disconnecting,
        SessionState::Disconnected,
        SessionState::Failed,
    ] {
        assert_eq!(SessionState::parse(state.as_str()).unwrap(), state);
        for openvpn_pid in [None, Some(u32::MAX)] {
            for vpn_ip in [None, ip_from_str("10.0.0.1"), ip_from_str("fe80::1"), ip_from_str("::ffff:1.2.3.4")] {
                let status = SessionStatus { state, daemon_pid: 7, openvpn_pid, vpn_ip };
                let line = ControlResponse::Status(status).render();
                assert_eq!(
                    ControlResponse::parse(&line).unwrap(),
                    ControlResponse::Status(status)
                );
                assert_eq!(line.matches('\n').count(), 1);
                assert!(read_limited_line(line).is_ok());
            }
        }
    }
    assert_eq!(
        ControlResponse::parse(&ControlResponse::Disconnected.render()).unwrap(),
        ControlResponse::Disconnected
    );
    assert_eq!(
        ControlResponse::Status(SessionStatus {
            state: SessionState::Connected,
            daemon_pid: 1,
            openvpn_pid: Some(2),
            vpn_ip: ip_from_str("10.0.0.1"),
        })
        .render(),
        "OK\tstate=connected\tdaemon_pid=1\topenvpn_pid=2\tvpn_ip=10.0.0.1\n"
    );
}

#[test]
fn sanitizes_error_response_control_characters() {
    let rendered = ControlResponse::Error("bad\tthing\nsecret".to_string()).render();
    assert_eq!(rendered, "ERR\tbad thing secret\n");
}

#[test]
fn error_responses_are_read_back_without_control_characters() {
    let line = ControlResponse::Error("a\u{7f}b\r\n".to_string()).render();
    assert_eq!(
        ControlResponse::parse(&line).unwrap(),
        ControlResponse::Error("a b  ".to_string())
    );
}

#[test]
fn refuses_broken_responses() {
    for (line, message) in [
        ("NO\n", "invalid control response"),
        ("OK\n", "missing daemon state in response"),
        ("OK\tstate=connected\n", "missing daemon PID in response"),
        ("OK\tstate=up\n", "unknown daemon state: up"),
        ("OK\tdaemon_pid=x\n", "invalid daemon PID in response"),
        ("OK\topenvpn_pid=-1\n", "invalid OpenVPN PID in response"),
        ("OK\tvpn_ip=1.2.3\n", "invalid VPN IP in response"),
    ] {
        assert_eq!(
            ControlResponse::parse(line).unwrap_err().message(),
            format!("daemon control error: {message}")
        );
    }
    assert_eq!(
        ControlResponse::parse("OK\tnoise\tother=1\tstate=failed\tdaemon_pid=1\tdaemon_pid=2\n").unwrap(),
        ControlResponse::Status(SessionStatus {
            state: SessionState::Failed,
            daemon_pid: 2,
            openvpn_pid: None,
            vpn_ip: None,
        })
    );
}

#[test]
fn names_the_files_of_the_daemon() {
    let paths = DaemonPaths::new("/run/x".to_string());
    assert_eq!(paths.socket, "/run/x/control.sock");
    assert_eq!(paths.state, "/run/x/state");
    let user = |euid, runtime: Option<&str>| {
        DaemonPaths::default_for_current_user(euid, "/tmp", runtime.map(str::to_string)).dir
    };
    assert_eq!(user(0, Some("/run/user/0")), "/tmp/awsvpn-0");
    assert_eq!(user(501, Some("/run/user/501")), "/run/user/501/awsvpn");
    assert_eq!(user(501, None), "/tmp/awsvpn-501");
}

#[test]
fn writes_the_state_of_a_session() {
    let paths = DaemonPaths::new("/d".to_string());
    let status = SessionStatus {
        state: SessionState::Connected,
        daemon_pid: 3,
        openvpn_pid: None,
        vpn_ip: ip_from_str("10.0.0.2"),
    };
    assert_eq!(
        state_contents(&paths, &status),
        "state=connected\ndaemon_pid=3\nvpn_ip=10.0.0.2\nsocket=/d/control.sock\n"
    );
    let file = write_state(&paths, &status);
    assert_eq!(file.path, "/d/state");
    assert_eq!(file.contents, state_contents(&paths, &status));
    assert_eq!(file.mode, 0o600);
    assert!(!file.fresh);
}

#[test]
fn limits_control_lines() {
    assert_eq!(read_limited_line("STATUS\n".to_string()).unwrap(), "STATUS\n");
    assert!(read_limited_line("x".repeat(1024)).is_ok());
    assert_eq!(
        read_limited_line("é".repeat(513)).unwrap_err().message(),
        "daemon control error: daemon control line was too long"
    );
    assert_eq!(
        read_limited_line(String::new()).unwrap_err().message(),
        "daemon control error: daemon closed the control connection"
    );
}

#[test]
fn tells_a_missing_daemon_from_a_broken_one() {
    for kind in [ConnectErrorKind::NotFound, ConnectErrorKind::ConnectionRefused] {
        assert!(matches!(map_connect_error(kind, "gone", "/s"), Error::DaemonUnavailable));
    }
    assert_eq!(
        map_connect_error(ConnectErrorKind::Other, "denied", "/s").message(),
        "daemon control error: could not connect to daemon control socket /s: denied"
    );
    assert!(remove_stale_socket(Err(Error::DaemonUnavailable)).is_ok());
    assert_eq!(
        remove_stale_socket(Ok(ControlResponse::Disconnected)).unwrap_err().message(),
        "daemon control error: a VPN daemon is already running"
    );
    assert!(matches!(
        remove_stale_socket(Err(Error::Interrupted)),
        Err(Error::Interrupted)
    ));
}

#[test]
fn prepares_private_state_directory() {
    let found = DirMetadata { symlink: false, directory: true, uid: 5, mode: 0o40700 };
    let mut actions = Vec::new();
    for event in [
        DirEvent::Missing,
        DirEvent::Created(Ok(())),
        DirEvent::Restricted(Ok(())),
        DirEvent::CreatedInspected(found),
    ] {
        actions.push(prepare_secure_dir("/d", 5, event).unwrap());
    }
    assert_eq!(
        actions,
        [
            DirAction::Create,
            DirAction::Restrict { mode: 0o700 },
            DirAction::InspectCreated,
            DirAction::Ready
        ]
    );
}

#[test]
fn refuses_open_or_foreign_state_directories() {
    let good = DirMetadata { symlink: false, directory: true, uid: 5, mode: 0o40700 };
    let refuse = |event: DirEvent| {
        DaemonPaths::new("/d".to_string()).prepare_dir(5, event).unwrap_err().message()
    };
    assert_eq!(
        refuse(DirEvent::Inspected(DirMetadata { symlink: true, ..good })),
        "daemon control error: daemon state path is not a secure directory: /d"
    );
    assert_eq!(
        refuse(DirEvent::Inspected(DirMetadata { uid: 6, ..good })),
        "daemon control error: daemon state directory is owned by uid 6, expected 5: /d"
    );
    assert_eq!(
        refuse(DirEvent::CreatedInspected(DirMetadata { mode: 0o40701, ..good })),
        "daemon control error: daemon state directory must not be group/world accessible: /d"
    );
    for (event, verb) in [
        (DirEvent::InspectFailed("no".to_string()), "inspect"),
        (DirEvent::Created(Err("no".to_string())), "create"),
        (DirEvent::Restricted(Err("no".to_string())), "secure"),
    ] {
        assert_eq!(
            refuse(event),
            format!("daemon control error: could not {verb} daemon state directory /d: no")
        );
    }
    assert_eq!(
        prepare_secure_dir("/d", 5, DirEvent::Inspected(good)).unwrap(),
        DirAction::Ready
    );
}

#[test]
fn reconnect_delay_backs_off_and_caps() {
    let reconnect_delay = |attempt| Duration::from_secs(reconnect_delay(attempt));
    assert_eq!(reconnect_delay(1), Duration::from_secs(2));
    assert_eq!(reconnect_delay(2), Duration::from_secs(4));
    assert_eq!(reconnect_delay(3), Duration::from_secs(8));
    assert_eq!(reconnect_delay(10), Duration::from_secs(60));
}

#[test]
fn reconnect_delay_never_shrinks() {
    let mut last = 0;
    for attempt in 0..40 {
        let delay = reconnect_delay(attempt);
        assert!(last <= delay && (2..=60).contains(&delay));
        last = delay;
    }
    assert_eq!(reconnect_delay(5), 32);
    assert_eq!(reconnect_delay(6), 60);
    assert_eq!(reconnect_delay(u32::MAX), 60);
}

fn facts() -> SessionFacts {
    SessionFacts { pid: Some(9), vpn_ip: ip_from_str("10.0.0.3") }
}

fn tick(exited: bool, attempt: AttemptState) -> LoopEvent {
    LoopEvent::Tick { exited: Ok(exited), attempt }
}

#[test]
fn an_exit_is_followed_by_reconnections_until_one_succeeds() {
    let mut control = ControlLoop::new(1);
    assert!(matches!(control.step(tick(false, AttemptState::Pending)), LoopAction::Wait));
    assert!(matches!(
        control.step(tick(true, AttemptState::Pending)),
        LoopAction::StartAttempt { attempt: 1, delay: 2 }
    ));
    assert!(matches!(
        control.step(LoopEvent::AttemptStarted),
        LoopAction::WriteState(SessionStatus { state: SessionState::Connecting, .. })
    ));
    control.step(LoopEvent::StateWritten(Err(Error::Interrupted)));
    assert!(matches!(control.stage, LoopStage::Reconnecting { attempt: 1 }));
    assert!(matches!(control.step(tick(false, AttemptState::Pending)), LoopAction::Wait));
    assert!(matches!(
        control.step(tick(false, AttemptState::Failed)),
        LoopAction::StartAttempt { attempt: 2, delay: 4 }
    ));
    control.step(LoopEvent::AttemptStarted);
    control.step(LoopEvent::StateWritten(Ok(())));
    assert!(matches!(
        control.step(tick(false, AttemptState::Connected(facts()))),
        LoopAction::WriteState(SessionStatus {
            state: SessionState::Connected,
            daemon_pid: 1,
            openvpn_pid: Some(9),
            ..
        })
    ));
    control.step(LoopEvent::StateWritten(Ok(())));
    assert!(matches!(control.stage, LoopStage::Active));
}

#[test]
fn a_status_request_leaves_the_daemon_as_it_was() {
    let mut control = ControlLoop::new(1);
    let action = control.step(LoopEvent::Request {
        request: Ok(ControlRequest::Status),
        session: Some(facts()),
    });
    assert!(matches!(
        action,
        LoopAction::Respond(ControlResponse::Status(SessionStatus {
            state: SessionState::Connected,
            openvpn_pid: Some(9),
            ..
        }))
    ));
    assert!(matches!(control.step(LoopEvent::ResponseWritten(Ok(()))), LoopAction::Wait));
    assert!(matches!(control.stage, LoopStage::Active));

    control.stage = LoopStage::Reconnecting { attempt: 4 };
    let action = control.step(LoopEvent::Request {
        request: Ok(ControlRequest::Status),
        session: Some(SessionFacts { pid: Some(9), vpn_ip: None }),
    });
    assert!(matches!(
        action,
        LoopAction::Respond(ControlResponse::Status(SessionStatus {
            state: SessionState::Connecting,
            openvpn_pid: None,
            ..
        }))
    ));
    control.step(LoopEvent::ResponseWritten(Ok(())));
    assert!(matches!(control.stage, LoopStage::Reconnecting { attempt: 4 }));
}

#[test]
fn a_disconnect_request_is_answered_with_the_outcome() {
    for failed in [false, true] {
        let mut control = ControlLoop::new(1);
        assert!(matches!(
            control.step(LoopEvent::Request {
                request: Ok(ControlRequest::Disconnect),
                session: Some(facts()),
            }),
            LoopAction::WriteState(SessionStatus { state: SessionState::Disconnecting, .. })
        ));
        assert!(matches!(control.step(LoopEvent::StateWritten(Ok(()))), LoopAction::Close));
        let closed = if failed { Err(Error::DnsConfigurationFailed("x".to_string())) } else { Ok(()) };
        match control.step(LoopEvent::SessionClosed(closed)) {
            LoopAction::Respond(ControlResponse::Disconnected) => assert!(!failed),
            LoopAction::Respond(ControlResponse::Error(message)) => {
                assert!(failed);
                assert_eq!(message, "DNS configuration failed: x");
            }
            other => panic!("{other:?}"),
        }
        assert!(matches!(control.step(LoopEvent::ResponseWritten(Ok(()))), LoopAction::Cleanup));
        match control.step(LoopEvent::CleanedUp) {
            LoopAction::Finish(result) => assert_eq!(result.is_err(), failed),
            other => panic!("{other:?}"),
        }
    }
}

#[test]
fn a_signal_ends_the_daemon() {
    let mut control = ControlLoop::new(1);
    assert!(matches!(control.step(LoopEvent::Signal(Ok(()))), LoopAction::Close));
    assert!(matches!(control.step(LoopEvent::SessionClosed(Ok(()))), LoopAction::Cleanup));
    assert!(matches!(control.step(LoopEvent::CleanedUp), LoopAction::Finish(Ok(()))));
    assert!(matches!(control.step(LoopEvent::CleanedUp), LoopAction::Wait));
}

#[test]
fn a_broken_request_ends_the_daemon() {
    let mut control = ControlLoop::new(1);
    let action = control.step(LoopEvent::Request {
        request: Err(Error::Interrupted),
        session: None,
    });
    assert!(matches!(action, LoopAction::Finish(Err(Error::Interrupted))));
}

#[test]
fn the_parent_reads_the_start_of_the_daemon() {
    let line = |s: &str| run_daemon_connect(StartupEvent::Line(s.to_string()));
    assert!(matches!(line("__AWSVPN_DAEMON_READY__"), StartupAction::Ready));
    assert!(matches!(line("hello"), StartupAction::Print(text) if text == "hello"));
    let reported = startup_error_line(&Error::OpenVpnNotFound);
    assert_eq!(reported, "__AWSVPN_DAEMON_ERROR__\tOpenVPN binary was not found");
    assert!(matches!(
        line(&reported),
        StartupAction::WaitAndFail(Error::DaemonControl(message))
            if message == "OpenVPN binary was not found"
    ));
    assert!(matches!(
        run_daemon_connect(StartupEvent::Signal(Ok(()))),
        StartupAction::KillAndFail(Error::Interrupted)
    ));
    assert!(matches!(
        run_daemon_connect(StartupEvent::Signal(Err(Error::DaemonUnavailable))),
        StartupAction::Fail(Error::DaemonUnavailable)
    ));
    assert!(matches!(
        run_daemon_connect(StartupEvent::ReadFailed("pipe".to_string())),
        StartupAction::Fail(Error::OpenVpnProcess(cause)) if cause == "pipe"
    ));
    match run_daemon_connect(StartupEvent::Exited("exit status: 1".to_string())) {
        StartupAction::Fail(err) => assert_eq!(
            err.message(),
            "daemon control error: daemon exited before reporting startup status: exit status: 1"
        ),
        other => panic!("{other:?}"),
    }
}

#[test]
fn the_daemon_tells_its_parent_of_a_failed_start() {
    let mut runner = DaemonRunner::new(4);
    match runner.run_daemon_runner(RunnerEvent::Bound(Err(Error::DaemonUnavailable))) {
        RunnerAction::Fail { cleanup: false, report: Some(line), .. } => {
            assert_eq!(line, "__AWSVPN_DAEMON_ERROR__\tdaemon is not running");
        }
        other => panic!("{other:?}"),
    }

    let mut runner = DaemonRunner::new(4);
    assert!(matches!(
        runner.run_daemon_runner(RunnerEvent::Bound(Ok(()))),
        RunnerAction::WriteState(SessionStatus { state: SessionState::Connecting, daemon_pid: 4, .. })
    ));
    assert!(matches!(
        runner.run_daemon_runner(RunnerEvent::StateWritten(Err(Error::Interrupted))),
        RunnerAction::Connect
    ));
    assert!(matches!(
        runner.run_daemon_runner(RunnerEvent::Connected(Err(Error::SamlTimeout))),
        RunnerAction::Fail { cleanup: true, report: Some(_), error: Error::SamlTimeout }
    ));
}

#[test]
fn the_daemon_serves_once_it_is_connected() {
    let mut runner = DaemonRunner::new(4);
    runner.run_daemon_runner(RunnerEvent::Bound(Ok(())));
    runner.run_daemon_runner(RunnerEvent::StateWritten(Ok(())));
    assert!(matches!(
        runner.run_daemon_runner(RunnerEvent::Connected(Ok(facts()))),
        RunnerAction::WriteState(SessionStatus { state: SessionState::Connected, openvpn_pid: Some(9), .. })
    ));
    assert!(matches!(
        runner.run_daemon_runner(RunnerEvent::StateWritten(Ok(()))),
        RunnerAction::Serve { line } if line == "__AWSVPN_DAEMON_READY__"
    ));
}

#[test]
fn prints_events_of_the_start() {
    let line = |event: VpnEvent| startup_event_line(&event);
    assert_eq!(line(VpnEvent::OpenVpnStarted { pid: 12 }).unwrap(), "openvpn started: pid 12");
    assert_eq!(line(VpnEvent::Warning { message: "w".to_string() }).unwrap(), "warning: w");
    assert_eq!(line(VpnEvent::Log { line: "l".to_string() }).unwrap(), "l");
    assert_eq!(line(VpnEvent::SamlLoginUrl { url: "u".to_string() }).unwrap(), "u");
    assert_eq!(
        line(VpnEvent::Connected { vpn_ip: ip_from_str("10.0.0.1") }).unwrap(),
        "vpn connected: 10.0.0.1"
    );
    assert_eq!(line(VpnEvent::Connected { vpn_ip: None }).unwrap(), "vpn connected");
    assert_eq!(line(VpnEvent::Disconnected), None);
    assert_eq!(line(VpnEvent::Reconnecting { reason: None }), None);
}

#[test]
fn clients_read_the_daemons_answers() {
    let status = SessionStatus {
        state: SessionState::Connected,
        daemon_pid: 1,
        openvpn_pid: Some(2),
        vpn_ip: ip_from_str("10.0.0.1"),
    };
    let text = "state: connected\ndaemon pid: 1\nopenvpn pid: 2\nvpn ip: 10.0.0.1\n";
    assert_eq!(render_status(&status), text);
    assert_eq!(status_daemon(Ok(ControlResponse::Status(status))).unwrap(), text);
    assert_eq!(status_daemon(Ok(ControlResponse::Disconnected)).unwrap(), "disconnected\n");
    assert!(matches!(
        status_daemon(Ok(ControlResponse::Error("e".to_string()))),
        Err(Error::DaemonControl(message)) if message == "e"
    ));
    assert!(matches!(status_daemon(Err(Error::DaemonUnavailable)), Err(Error::DaemonUnavailable)));

    assert!(matches!(
        disconnect_daemon(Err(Error::DaemonUnavailable)),
        DisconnectAction::CleanUp
    ));
    assert!(matches!(
        disconnect_daemon(Err(Error::Interrupted)),
        DisconnectAction::Fail(Error::Interrupted)
    ));
    assert!(matches!(
        handle_disconnect_response(ControlResponse::Disconnected),
        DisconnectAction::CleanUp
    ));
    assert!(matches!(
        handle_disconnect_response(ControlResponse::Status(status)),
        DisconnectAction::Print(printed) if printed == text
    ));
    assert!(matches!(
        handle_disconnect_response(ControlResponse::Error("e".to_string())),
        DisconnectAction::Fail(Error::DaemonControl(message)) if message == "e"
    ));

    assert!(matches!(reconnect(Ok(())), ReconnectAction::WaitAndConnect));
    assert!(matches!(reconnect(Err(Error::DaemonUnavailable)), ReconnectAction::Connect));
    assert!(matches!(
        reconnect(Err(Error::Interrupted)),
        ReconnectAction::Fail(Error::Interrupted)
    ));

    assert!(!wait_for_daemon_shutdown(false, true).unwrap());
    assert!(wait_for_daemon_shutdown(true, false).unwrap());
    assert!(wait_for_daemon_shutdown(true, true).is_err());
}
