//! The error type of the library.

use vstd::prelude::*;
use crate::text::cat;

verus! {

/// What can go wrong. The text of an error names its cause.
#[derive(Debug)]
pub enum Error {
    /// The configuration file is missing.
    ConfigNotFound(String),
    /// The configuration or an option is not valid.
    InvalidConfig(String),
    /// There is no OpenVPN program.
    OpenVpnNotFound,
    /// Process support is missing.
    OpenVpnProcessNotImplemented,
    /// The OpenVPN program could not be started.
    OpenVpnSpawnFailed(String),
    /// The OpenVPN process could not be handled.
    OpenVpnProcess(String),
    /// There is no bundled runtime for the target.
    BundledOpenVpnUnavailable { target: String },
    /// The bundled runtime is not valid.
    BundledOpenVpnInvalid(String),
    /// The management connection could not be made.
    ManagementConnectFailed(String),
    /// The management connection broke.
    ManagementIo(String),
    /// The management peer broke the protocol.
    ManagementProtocol(String),
    /// The callback server could not listen.
    AcsBindFailed(String),
    /// The callback server failed.
    AcsServer(String),
    /// The browser could not be started.
    BrowserLaunchFailed(String),
    /// The login URL is not acceptable.
    InvalidSamlUrl(String),
    /// No assertion came in time.
    SamlTimeout,
    /// The callback held no assertion.
    SamlResponseMissing,
    /// The callback was too large.
    SamlResponseTooLarge,
    /// The VPN refused the credentials.
    AuthFailed(String),
    /// OpenVPN reported a fatal error.
    FatalOpenVpn(String),
    /// A temporary file could not be written.
    TempFile(String),
    /// The resolver could not be configured.
    DnsConfigurationFailed(String),
    /// The daemon could not be controlled.
    DaemonControl(String),
    /// No daemon answers.
    DaemonUnavailable,
    /// A diagnostic command failed.
    DiagnosticFailed(String),
    /// A signal ended the operation.
    Interrupted,
}

/// The model of an error.
pub enum ErrorView {
    ConfigNotFound(Seq<char>),
    InvalidConfig(Seq<char>),
    OpenVpnNotFound,
    OpenVpnProcessNotImplemented,
    OpenVpnSpawnFailed(Seq<char>),
    OpenVpnProcess(Seq<char>),
    BundledOpenVpnUnavailable { target: Seq<char> },
    BundledOpenVpnInvalid(Seq<char>),
    ManagementConnectFailed(Seq<char>),
    ManagementIo(Seq<char>),
    ManagementProtocol(Seq<char>),
    AcsBindFailed(Seq<char>),
    AcsServer(Seq<char>),
    BrowserLaunchFailed(Seq<char>),
    InvalidSamlUrl(Seq<char>),
    SamlTimeout,
    SamlResponseMissing,
    SamlResponseTooLarge,
    AuthFailed(Seq<char>),
    FatalOpenVpn(Seq<char>),
    TempFile(Seq<char>),
    DnsConfigurationFailed(Seq<char>),
    DaemonControl(Seq<char>),
    DaemonUnavailable,
    DiagnosticFailed(Seq<char>),
    Interrupted,
}

/// The result of an operation of the library.
pub type Result<T> = std::result::Result<T, Error>;

impl View for Error {
    type V = ErrorView;

    open spec fn view(&self) -> ErrorView {
        match self {
            Error::ConfigNotFound(cause) => ErrorView::ConfigNotFound(cause@),
            Error::InvalidConfig(cause) => ErrorView::InvalidConfig(cause@),
            Error::OpenVpnNotFound => ErrorView::OpenVpnNotFound,
            Error::OpenVpnProcessNotImplemented => ErrorView::OpenVpnProcessNotImplemented,
            Error::OpenVpnSpawnFailed(cause) => ErrorView::OpenVpnSpawnFailed(cause@),
            Error::OpenVpnProcess(cause) => ErrorView::OpenVpnProcess(cause@),
            Error::BundledOpenVpnUnavailable { target } => {
                ErrorView::BundledOpenVpnUnavailable { target: target@ }
            },
            Error::BundledOpenVpnInvalid(cause) => ErrorView::BundledOpenVpnInvalid(cause@),
            Error::ManagementConnectFailed(cause) => ErrorView::ManagementConnectFailed(cause@),
            Error::ManagementIo(cause) => ErrorView::ManagementIo(cause@),
            Error::ManagementProtocol(cause) => ErrorView::ManagementProtocol(cause@),
            Error::AcsBindFailed(cause) => ErrorView::AcsBindFailed(cause@),
            Error::AcsServer(cause) => ErrorView::AcsServer(cause@),
            Error::BrowserLaunchFailed(cause) => ErrorView::BrowserLaunchFailed(cause@),
            Error::InvalidSamlUrl(cause) => ErrorView::InvalidSamlUrl(cause@),
            Error::SamlTimeout => ErrorView::SamlTimeout,
            Error::SamlResponseMissing => ErrorView::SamlResponseMissing,
            Error::SamlResponseTooLarge => ErrorView::SamlResponseTooLarge,
            Error::AuthFailed(cause) => ErrorView::AuthFailed(cause@),
            Error::FatalOpenVpn(cause) => ErrorView::FatalOpenVpn(cause@),
            Error::TempFile(cause) => ErrorView::TempFile(cause@),
            Error::DnsConfigurationFailed(cause) => ErrorView::DnsConfigurationFailed(cause@),
            Error::DaemonControl(cause) => ErrorView::DaemonControl(cause@),
            Error::DaemonUnavailable => ErrorView::DaemonUnavailable,
            Error::DiagnosticFailed(cause) => ErrorView::DiagnosticFailed(cause@),
            Error::Interrupted => ErrorView::Interrupted,
        }
    }
}

/// A result with the model of its error.
pub open spec fn view_error<T>(r: Result<T>) -> std::result::Result<T, ErrorView> {
    match r {
        Ok(v) => Ok(v),
        Err(e) => Err(e@),
    }
}

/// A result with the models of its value and of its error.
pub open spec fn view_result<T: View>(r: Result<T>) -> std::result::Result<T::V, ErrorView> {
    match r {
        Ok(v) => Ok(v@),
        Err(e) => Err(e@),
    }
}

impl ErrorView {
    /// The words for the error.
    pub open spec fn text(self) -> Seq<char> {
        match self {
            ErrorView::ConfigNotFound(cause) => "VPN config does not exist: "@ + cause,
            ErrorView::InvalidConfig(cause) => "invalid VPN config: "@ + cause,
            ErrorView::OpenVpnNotFound => "OpenVPN binary was not found"@,
            ErrorView::OpenVpnProcessNotImplemented => {
                "OpenVPN process support is not implemented yet"@
            },
            ErrorView::OpenVpnSpawnFailed(cause) => "failed to start OpenVPN: "@ + cause,
            ErrorView::OpenVpnProcess(cause) => "OpenVPN process error: "@ + cause,
            ErrorView::BundledOpenVpnUnavailable { target } => {
                "no bundled OpenVPN runtime is available for "@ + target
            },
            ErrorView::BundledOpenVpnInvalid(cause) => {
                "bundled OpenVPN runtime is invalid: "@ + cause
            },
            ErrorView::ManagementConnectFailed(cause) => {
                "failed to connect to the OpenVPN management interface: "@ + cause
            },
            ErrorView::ManagementIo(cause) => "OpenVPN management I/O error: "@ + cause,
            ErrorView::ManagementProtocol(cause) => "management protocol error: "@ + cause,
            ErrorView::AcsBindFailed(cause) => "failed to bind the SAML callback server: "@ + cause,
            ErrorView::AcsServer(cause) => "SAML callback server error: "@ + cause,
            ErrorView::BrowserLaunchFailed(cause) => "failed to open the browser: "@ + cause,
            ErrorView::InvalidSamlUrl(cause) => "invalid SAML URL: "@ + cause,
            ErrorView::SamlTimeout => "timed out waiting for the SAML response"@,
            ErrorView::SamlResponseMissing => "SAML response is missing"@,
            ErrorView::SamlResponseTooLarge => "SAML response is too large"@,
            ErrorView::AuthFailed(cause) => "VPN authentication failed: "@ + cause,
            ErrorView::FatalOpenVpn(cause) => "OpenVPN fatal error: "@ + cause,
            ErrorView::TempFile(cause) => "temporary file error: "@ + cause,
            ErrorView::DnsConfigurationFailed(cause) => "DNS configuration failed: "@ + cause,
            ErrorView::DaemonControl(cause) => "daemon control error: "@ + cause,
            ErrorView::DaemonUnavailable => "daemon is not running"@,
            ErrorView::DiagnosticFailed(cause) => "diagnostic failed: "@ + cause,
            ErrorView::Interrupted => "operation was interrupted"@,
        }
    }
}

impl Error {
    /// The words for the error.
    pub fn message(&self) -> (r: String)
        ensures
            r@ == self@.text(),
    {
        match self {
            Error::ConfigNotFound(cause) => cat("VPN config does not exist: ", cause.as_str()),
            Error::InvalidConfig(cause) => cat("invalid VPN config: ", cause.as_str()),
            Error::OpenVpnNotFound => "OpenVPN binary was not found".to_owned(),
            Error::OpenVpnProcessNotImplemented => {
                "OpenVPN process support is not implemented yet".to_owned()
            },
            Error::OpenVpnSpawnFailed(cause) => cat("failed to start OpenVPN: ", cause.as_str()),
            Error::OpenVpnProcess(cause) => cat("OpenVPN process error: ", cause.as_str()),
            Error::BundledOpenVpnUnavailable { target } => cat(
                "no bundled OpenVPN runtime is available for ",
                target.as_str(),
            ),
            Error::BundledOpenVpnInvalid(cause) => cat(
                "bundled OpenVPN runtime is invalid: ",
                cause.as_str(),
            ),
            Error::ManagementConnectFailed(cause) => cat(
                "failed to connect to the OpenVPN management interface: ",
                cause.as_str(),
            ),
            Error::ManagementIo(cause) => cat("OpenVPN management I/O error: ", cause.as_str()),
            Error::ManagementProtocol(cause) => cat("management protocol error: ", cause.as_str()),
            Error::AcsBindFailed(cause) => cat(
                "failed to bind the SAML callback server: ",
                cause.as_str(),
            ),
            Error::AcsServer(cause) => cat("SAML callback server error: ", cause.as_str()),
            Error::BrowserLaunchFailed(cause) => cat(
                "failed to open the browser: ",
                cause.as_str(),
            ),
            Error::InvalidSamlUrl(cause) => cat("invalid SAML URL: ", cause.as_str()),
            Error::SamlTimeout => "timed out waiting for the SAML response".to_owned(),
            Error::SamlResponseMissing => "SAML response is missing".to_owned(),
            Error::SamlResponseTooLarge => "SAML response is too large".to_owned(),
            Error::AuthFailed(cause) => cat("VPN authentication failed: ", cause.as_str()),
            Error::FatalOpenVpn(cause) => cat("OpenVPN fatal error: ", cause.as_str()),
            Error::TempFile(cause) => cat("temporary file error: ", cause.as_str()),
            Error::DnsConfigurationFailed(cause) => cat(
                "DNS configuration failed: ",
                cause.as_str(),
            ),
            Error::DaemonControl(cause) => cat("daemon control error: ", cause.as_str()),
            Error::DaemonUnavailable => "daemon is not running".to_owned(),
            Error::DiagnosticFailed(cause) => cat("diagnostic failed: ", cause.as_str()),
            Error::Interrupted => "operation was interrupted".to_owned(),
        }
    }
}

/// The words for an error tell its whole cause, after what has failed.
pub proof fn lemma_causes_are_told(cause: Seq<char>)
    ensures
        ErrorView::ConfigNotFound(cause).text() == "VPN config does not exist: "@ + cause,
        ErrorView::InvalidConfig(cause).text() == "invalid VPN config: "@ + cause,
        ErrorView::OpenVpnSpawnFailed(cause).text() == "failed to start OpenVPN: "@ + cause,
        ErrorView::OpenVpnProcess(cause).text() == "OpenVPN process error: "@ + cause,
        ErrorView::ManagementConnectFailed(cause).text()
            == "failed to connect to the OpenVPN management interface: "@ + cause,
        ErrorView::ManagementIo(cause).text() == "OpenVPN management I/O error: "@ + cause,
        ErrorView::ManagementProtocol(cause).text() == "management protocol error: "@ + cause,
        ErrorView::AcsBindFailed(cause).text() == "failed to bind the SAML callback server: "@
            + cause,
        ErrorView::AcsServer(cause).text() == "SAML callback server error: "@ + cause,
        ErrorView::BrowserLaunchFailed(cause).text() == "failed to open the browser: "@ + cause,
        ErrorView::InvalidSamlUrl(cause).text() == "invalid SAML URL: "@ + cause,
        ErrorView::AuthFailed(cause).text() == "VPN authentication failed: "@ + cause,
        ErrorView::FatalOpenVpn(cause).text() == "OpenVPN fatal error: "@ + cause,
        ErrorView::DnsConfigurationFailed(cause).text() == "DNS configuration failed: "@ + cause,
        ErrorView::DaemonControl(cause).text() == "daemon control error: "@ + cause,
        ErrorView::DiagnosticFailed(cause).text() == "diagnostic failed: "@ + cause,
{
}

} // verus!
