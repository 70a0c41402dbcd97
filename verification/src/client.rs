//! The options of a connection.

use vstd::prelude::*;
use crate::config::ovpn::{summary_of, OvpnConfigSummary, SummaryView};
use crate::error::{view_error, Error, ErrorView, Result};
use crate::net::{IpAddr, Ipv4Addr};
use crate::openvpn::runtime::{file_at, validate_file, FileKind};
use crate::runtime::{OpenVpnRuntime, RuntimeView};
use crate::saml::browser::BrowserMode;
use crate::text::cat;
use crate::timeout::Timeout;

verus! {

/// Who configures the resolver.
#[derive(Clone, Copy, Debug, PartialEq, Eq, Structural)]
pub enum DnsMode {
    /// OpenVPN, or the client in its place.
    OpenVpnDefault,
    /// Nobody.
    Disabled,
}

/// How much is logged.
#[derive(Clone, Copy, Debug, PartialEq, Eq, Structural)]
pub enum LogLevel {
    Info,
    Debug,
}

/// How to connect.
#[derive(Debug, PartialEq, Eq)]
pub struct ConnectOptions {
    pub config_path: String,
    pub openvpn_runtime: OpenVpnRuntime,
    pub management_host: IpAddr,
    pub management_port: Option<u16>,
    pub acs_host: IpAddr,
    pub acs_port: u16,
    pub auth_timeout: Timeout,
    pub browser: BrowserMode,
    pub log_level: LogLevel,
    pub dns_mode: DnsMode,
    pub print_login_url: bool,
}

/// The model of how to connect.
pub struct ConnectView {
    pub config_path: Seq<char>,
    pub openvpn_runtime: RuntimeView,
    pub management_host: IpAddr,
    pub management_port: Option<u16>,
    pub acs_host: IpAddr,
    pub acs_port: u16,
    /// How long the login may take, in nanoseconds.
    pub auth_timeout: nat,
    pub browser: BrowserMode,
    pub log_level: LogLevel,
    pub dns_mode: DnsMode,
    pub print_login_url: bool,
}

impl View for ConnectOptions {
    type V = ConnectView;

    open spec fn view(&self) -> ConnectView {
        ConnectView {
            config_path: self.config_path@,
            openvpn_runtime: self.openvpn_runtime@,
            management_host: self.management_host,
            management_port: self.management_port,
            acs_host: self.acs_host,
            acs_port: self.acs_port,
            auth_timeout: self.auth_timeout@,
            browser: self.browser,
            log_level: self.log_level,
            dns_mode: self.dns_mode,
            print_login_url: self.print_login_url,
        }
    }
}

/// The address of the local host.
pub open spec fn localhost() -> IpAddr {
    IpAddr::V4(Ipv4Addr { a: 127, b: 0, c: 0, d: 1 })
}

/// How to connect unless something else is asked for.
pub open spec fn default_options(config_path: Seq<char>) -> ConnectView {
    ConnectView {
        config_path,
        openvpn_runtime: RuntimeView::Bundled,
        management_host: localhost(),
        management_port: None,
        acs_host: localhost(),
        acs_port: 35001,
        auth_timeout: 600_000_000_000,
        browser: BrowserMode::System,
        log_level: LogLevel::Info,
        dns_mode: DnsMode::OpenVpnDefault,
        print_login_url: false,
    }
}

/// Whether a configuration can be used: it names a server, and the server may
/// ask for a login in the browser.
pub open spec fn usable(summary: SummaryView) -> std::result::Result<(), ErrorView> {
    if summary.remotes.len() == 0 {
        Err(ErrorView::InvalidConfig("config does not contain a remote directive"@))
    } else if !summary.has_auth_user_pass && !summary.has_auth_federate {
        Err(ErrorView::InvalidConfig("config must contain auth-user-pass or auth-federate"@))
    } else {
        Ok(())
    }
}

/// Whether the configuration file can be used, given what the file system has
/// at its path and what reading it has brought.
pub open spec fn usable_config(
    path: Seq<char>,
    kind: FileKind,
    contents: std::result::Result<Seq<char>, Seq<char>>,
) -> std::result::Result<(), ErrorView> {
    match kind {
        FileKind::Missing => Err(ErrorView::ConfigNotFound(path)),
        FileKind::Other => Err(ErrorView::InvalidConfig("expected a file path, got "@ + path)),
        FileKind::File => match contents {
            Err(cause) => Err(
                ErrorView::InvalidConfig("could not read "@ + path + ": "@ + cause),
            ),
            Ok(contents) => match summary_of(contents) {
                Err(e) => Err(e),
                Ok(summary) => usable(summary),
            },
        },
    }
}

/// Whether the options can be used.
pub open spec fn usable_options(
    options: ConnectView,
    config_kind: FileKind,
    contents: std::result::Result<Seq<char>, Seq<char>>,
    binary_kind: FileKind,
) -> std::result::Result<(), ErrorView> {
    match (
        usable_config(options.config_path, config_kind, contents),
        match options.openvpn_runtime {
            RuntimeView::External(path) => file_at(path, binary_kind, "OpenVPN binary"@),
            RuntimeView::Bundled => Ok(()),
        },
    ) {
        (Err(e), _) => Err(e),
        (Ok(_), Err(e)) => Err(e),
        (Ok(_), Ok(_)) => if !options.acs_host.loopback() {
            Err(ErrorView::InvalidConfig("ACS host must be a loopback address"@))
        } else if !options.management_host.loopback() {
            Err(ErrorView::InvalidConfig("management host must be a loopback address"@))
        } else {
            Ok(())
        },
    }
}

/// The model of what reading a file has brought.
pub open spec fn view_read(read: std::result::Result<String, String>) -> std::result::Result<
    Seq<char>,
    Seq<char>,
> {
    match read {
        Ok(contents) => Ok(contents@),
        Err(cause) => Err(cause@),
    }
}

/// Checks that the configuration file can be used.
fn validate_config(path: &str, kind: FileKind, contents: std::result::Result<String, String>) -> (r:
    Result<()>)
    ensures
        view_error(r) == usable_config(path@, kind, view_read(contents)),
{
    match kind {
        FileKind::Missing => Err(Error::ConfigNotFound(path.to_owned())),
        FileKind::Other => Err(Error::InvalidConfig(cat("expected a file path, got ", path))),
        FileKind::File => {
            let summary = match OvpnConfigSummary::parse_file(path, contents) {
                Ok(summary) => summary,
                Err(e) => {
                    return Err(e);
                },
            };
            assert(summary@.remotes.len() == summary.remotes@.len());
            if summary.remotes.len() == 0 {
                return Err(
                    Error::InvalidConfig("config does not contain a remote directive".to_owned()),
                );
            }
            if !summary.supports_saml_auth_flow() {
                return Err(
                    Error::InvalidConfig(
                        "config must contain auth-user-pass or auth-federate".to_owned(),
                    ),
                );
            }
            Ok(())
        },
    }
}

impl ConnectOptions {
    /// How to connect with a given configuration, unless something else is
    /// asked for.
    pub fn new(config_path: String) -> (r: ConnectOptions)
        ensures
            r@ == default_options(config_path@),
    {
        ConnectOptions {
            config_path,
            openvpn_runtime: OpenVpnRuntime::Bundled,
            management_host: IpAddr::V4(Ipv4Addr::localhost()),
            management_port: None,
            acs_host: IpAddr::V4(Ipv4Addr::localhost()),
            acs_port: 35001,
            auth_timeout: Timeout::from_secs(600),
            browser: BrowserMode::System,
            log_level: LogLevel::Info,
            dns_mode: DnsMode::OpenVpnDefault,
            print_login_url: false,
        }
    }

    /// The options with the OpenVPN program at a given path.
    pub fn with_openvpn_binary(self, path: String) -> (r: ConnectOptions)
        ensures
            r@ == (ConnectView { openvpn_runtime: RuntimeView::External(path@), ..self@ }),
    {
        let mut options = self;
        options.openvpn_runtime = OpenVpnRuntime::External(path);
        options
    }

    /// The options with a given OpenVPN program.
    pub fn with_openvpn_runtime(self, runtime: OpenVpnRuntime) -> (r: ConnectOptions)
        ensures
            r@ == (ConnectView { openvpn_runtime: runtime@, ..self@ }),
    {
        let mut options = self;
        options.openvpn_runtime = runtime;
        options
    }

    /// The options with a given way to show the login page.
    pub fn with_browser_mode(self, browser: BrowserMode) -> (r: ConnectOptions)
        ensures
            r@ == (ConnectView { browser, ..self@ }),
    {
        let mut options = self;
        options.browser = browser;
        options
    }

    /// The options with a given amount of logging.
    pub fn with_log_level(self, log_level: LogLevel) -> (r: ConnectOptions)
        ensures
            r@ == (ConnectView { log_level, ..self@ }),
    {
        let mut options = self;
        options.log_level = log_level;
        options
    }

    /// The options with or without the login page's URL in the output.
    pub fn with_print_login_url(self, print_login_url: bool) -> (r: ConnectOptions)
        ensures
            r@ == (ConnectView { print_login_url, ..self@ }),
    {
        let mut options = self;
        options.print_login_url = print_login_url;
        options
    }

    /// The options with a given way to configure the resolver.
    pub fn with_dns_mode(self, dns_mode: DnsMode) -> (r: ConnectOptions)
        ensures
            r@ == (ConnectView { dns_mode, ..self@ }),
    {
        let mut options = self;
        options.dns_mode = dns_mode;
        options
    }

    /// A copy of the options.
    pub fn copy(&self) -> (r: ConnectOptions)
        ensures
            r@ == self@,
    {
        ConnectOptions {
            config_path: self.config_path.clone(),
            openvpn_runtime: self.openvpn_runtime.copy(),
            management_host: self.management_host,
            management_port: self.management_port,
            acs_host: self.acs_host,
            acs_port: self.acs_port,
            auth_timeout: self.auth_timeout,
            browser: self.browser,
            log_level: self.log_level,
            dns_mode: self.dns_mode,
            print_login_url: self.print_login_url,
        }
    }

    /// Checks that the options can be used, given what the file system has at
    /// the path of the configuration, what reading it has brought, and what
    /// the file system has at the path of the OpenVPN program.
    pub fn validate(
        &self,
        config_kind: FileKind,
        contents: std::result::Result<String, String>,
        binary_kind: FileKind,
    ) -> (r: Result<()>)
        ensures
            view_error(r) == usable_options(self@, config_kind, view_read(contents), binary_kind),
    {
        match validate_config(self.config_path.as_str(), config_kind, contents) {
            Ok(()) => {},
            Err(e) => {
                return Err(e);
            },
        }
        if let OpenVpnRuntime::External(path) = &self.openvpn_runtime {
            match validate_file(path.as_str(), binary_kind, "OpenVPN binary") {
                Ok(()) => {},
                Err(e) => {
                    return Err(e);
                },
            }
        }
        if !self.acs_host.is_loopback() {
            return Err(Error::InvalidConfig("ACS host must be a loopback address".to_owned()));
        }
        if !self.management_host.is_loopback() {
            return Err(
                Error::InvalidConfig("management host must be a loopback address".to_owned()),
            );
        }
        Ok(())
    }
}

/// Options that can be used keep the callback server and the management
/// interface on the local host, and name a configuration with a server.
pub proof fn lemma_usable_options_are_local(
    options: ConnectView,
    config_kind: FileKind,
    contents: std::result::Result<Seq<char>, Seq<char>>,
    binary_kind: FileKind,
)
    requires
        usable_options(options, config_kind, contents, binary_kind) is Ok,
    ensures
        options.acs_host.loopback(),
        options.management_host.loopback(),
        config_kind == FileKind::File,
        contents is Ok,
        summary_of(contents->Ok_0) is Ok,
        summary_of(contents->Ok_0)->Ok_0.remotes.len() > 0,
{
}

/// Options can be used exactly if the configuration is a file that can be read,
/// names a server and lets the server ask for a login, an OpenVPN program that
/// was asked for is a file, and both the callback server and the management
/// interface are on the local host.
pub proof fn lemma_when_options_can_be_used(
    options: ConnectView,
    config_kind: FileKind,
    contents: std::result::Result<Seq<char>, Seq<char>>,
    binary_kind: FileKind,
)
    ensures
        usable_options(options, config_kind, contents, binary_kind) is Ok <==> {
            &&& config_kind == FileKind::File
            &&& contents is Ok
            &&& summary_of(contents->Ok_0) is Ok
            &&& summary_of(contents->Ok_0)->Ok_0.remotes.len() > 0
            &&& summary_of(contents->Ok_0)->Ok_0.has_auth_user_pass
                || summary_of(contents->Ok_0)->Ok_0.has_auth_federate
            &&& options.openvpn_runtime is External ==> binary_kind == FileKind::File
            &&& options.acs_host.loopback()
            &&& options.management_host.loopback()
        },
{
}

/// What is wrong with options that cannot be used is told: first what is wrong
/// with the configuration, then with the program, then with the addresses.
pub proof fn lemma_what_is_wrong_with_options(
    options: ConnectView,
    contents: Seq<char>,
    cause: Seq<char>,
    kind: FileKind,
)
    ensures
        usable_options(options, FileKind::Missing, Ok(contents), kind) == Err::<(), ErrorView>(
            ErrorView::ConfigNotFound(options.config_path),
        ),
        usable_options(options, FileKind::Other, Ok(contents), kind) == Err::<(), ErrorView>(
            ErrorView::InvalidConfig("expected a file path, got "@ + options.config_path),
        ),
        usable_options(options, FileKind::File, Err(cause), kind) == Err::<(), ErrorView>(
            ErrorView::InvalidConfig("could not read "@ + options.config_path + ": "@ + cause),
        ),
        summary_of(contents) is Err ==> usable_options(
            options,
            FileKind::File,
            Ok(contents),
            kind,
        ) == Err::<(), ErrorView>(summary_of(contents)->Err_0),
        summary_of(contents) is Ok && summary_of(contents)->Ok_0.remotes.len() == 0
            ==> usable_options(options, FileKind::File, Ok(contents), kind) == Err::<(), ErrorView>(
            ErrorView::InvalidConfig("config does not contain a remote directive"@),
        ),
{
}

/// How to connect unless something else is asked for.
pub proof fn lemma_defaults(config_path: Seq<char>)
    ensures
        ({
            let options = default_options(config_path);
            let local = IpAddr::V4(Ipv4Addr { a: 127, b: 0, c: 0, d: 1 });
            &&& options.config_path == config_path
            &&& options.openvpn_runtime == RuntimeView::Bundled
            &&& options.management_host == local && options.management_port is None
            &&& options.acs_host == local && options.acs_port == 35001
            &&& options.auth_timeout == 600 * 1_000_000_000
            &&& options.browser == BrowserMode::System
            &&& options.log_level == LogLevel::Info
            &&& options.dns_mode == DnsMode::OpenVpnDefault
            &&& !options.print_login_url
        }),
{
}

} // verus!
