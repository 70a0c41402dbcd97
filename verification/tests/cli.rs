use awsvpn::cli::{
    connect_args_for_child, connect_options, default_config_home, default_config_path,
    format_dns_mode, parse_dns_mode, sudo_user_home, wants_runtime_hint, ConnectArgs,
};
use awsvpn::saml::browser::Browser;
use awsvpn::{BrowserMode, DnsMode, Error, LogLevel, OpenVpnRuntime};

fn args() -> ConnectArgs {
    ConnectArgs {
        config: None,
        openvpn: None,
        debug: false,
        no_browser: false,
        browser: None,
        print_login_url: false,
        dns: DnsMode::OpenVpnDefault,
    }
}

#[test]
fn arguments_make_options() {
    let found = connect_options(&args(), "/default.ovpn");
    assert_eq!(found.config_path, "/default.ovpn");
    assert_eq!(found.browser, BrowserMode::System);
    let found = connect_options(
        &ConnectArgs {
            config: Some("/c.ovpn".to_string()),
            openvpn: Some("/o".to_string()),
            debug: true,
            browser: Some(Browser::Safari),
            dns: DnsMode::Disabled,
            ..args()
        },
        "/default.ovpn",
    );
    assert_eq!(found.config_path, "/c.ovpn");
    assert_eq!(found.openvpn_runtime, OpenVpnRuntime::External("/o".to_string()));
    assert_eq!(found.log_level, LogLevel::Debug);
    assert_eq!(found.browser, BrowserMode::Specific(Browser::Safari));
    assert_eq!(found.dns_mode, DnsMode::Disabled);
    let found = connect_options(
        &ConnectArgs { no_browser: true, browser: Some(Browser::Safari), ..args() },
        "",
    );
    assert_eq!(found.browser, BrowserMode::Disabled);
}

#[test]
fn dns_modes_are_read_back() {
    for mode in [DnsMode::OpenVpnDefault, DnsMode::Disabled] {
        assert_eq!(parse_dns_mode(format_dns_mode(mode)), Ok(mode));
    }
    assert_eq!(
        parse_dns_mode("x"),
        Err("expected one of: openvpn, disabled".to_string())
    );
}

#[test]
fn children_get_the_same_arguments() {
    assert_eq!(connect_args_for_child(&args()), ["--dns", "openvpn"]);
    let all = ConnectArgs {
        config: Some("/c".to_string()),
        openvpn: Some("/o".to_string()),
        debug: true,
        no_browser: true,
        browser: Some(Browser::InternetExplorer),
        print_login_url: true,
        dns: DnsMode::Disabled,
    };
    assert_eq!(
        connect_args_for_child(&all),
        [
            "/c",
            "--openvpn",
            "/o",
            "--debug",
            "--no-browser",
            "--browser",
            "internetexplorer",
            "--print-login-url",
            "--dns",
            "disabled"
        ]
    );
}

#[test]
fn sudo_keeps_the_users_configuration() {
    let passwd = Some("root:x:0:0::/root:/bin/sh\nann:x:1:1::/home/ann:/bin/sh\nbob:x\n".to_string());
    let home = |user: &str| sudo_user_home(&Some(user.to_string()), &passwd);
    assert_eq!(home("ann"), Some("/home/ann".to_string()));
    assert_eq!(home("root"), None);
    assert_eq!(home("bob"), None);
    assert_eq!(home("eve"), None);
    assert_eq!(sudo_user_home(&None, &passwd), None);
    assert_eq!(
        default_config_path(default_config_home(home("ann"), Some("/root".to_string())), false),
        "/home/ann/.awsvpnunofficial/vpnconfig.ovpn"
    );
    assert_eq!(
        default_config_path(default_config_home(None, Some("/root".to_string())), false),
        "/root/.awsvpnunofficial/vpnconfig.ovpn"
    );
    assert_eq!(default_config_path(None, false), "./.awsvpnunofficial/vpnconfig.ovpn");
    assert_eq!(
        default_config_path(Some("C:\\Users\\ann".to_string()), true),
        "C:\\Users\\ann\\.awsvpnunofficial/vpnconfig.ovpn"
    );
}

#[test]
fn a_missing_program_calls_for_a_hint() {
    assert!(wants_runtime_hint(&Error::OpenVpnNotFound));
    assert!(wants_runtime_hint(&Error::BundledOpenVpnUnavailable { target: "t".to_string() }));
    assert!(!wants_runtime_hint(&Error::Interrupted));
}
