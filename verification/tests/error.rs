use awsvpn::Error;

#[test]
fn errors_have_words() {
    let cause = || "x".to_string();
    for (err, words) in [
        (Error::ConfigNotFound(cause()), "VPN config does not exist: x"),
        (Error::InvalidConfig(cause()), "invalid VPN config: x"),
        (Error::OpenVpnNotFound, "OpenVPN binary was not found"),
        (
            Error::OpenVpnProcessNotImplemented,
            "OpenVPN process support is not implemented yet",
        ),
        (Error::OpenVpnSpawnFailed(cause()), "failed to start OpenVPN: x"),
        (Error::OpenVpnProcess(cause()), "OpenVPN process error: x"),
        (
            Error::BundledOpenVpnUnavailable { target: cause() },
            "no bundled OpenVPN runtime is available for x",
        ),
        (
            Error::BundledOpenVpnInvalid(cause()),
            "bundled OpenVPN runtime is invalid: x",
        ),
        (
            Error::ManagementConnectFailed(cause()),
            "failed to connect to the OpenVPN management interface: x",
        ),
        (Error::ManagementIo(cause()), "OpenVPN management I/O error: x"),
        (Error::ManagementProtocol(cause()), "management protocol error: x"),
        (
            Error::AcsBindFailed(cause()),
            "failed to bind the SAML callback server: x",
        ),
        (Error::AcsServer(cause()), "SAML callback server error: x"),
        (Error::BrowserLaunchFailed(cause()), "failed to open the browser: x"),
        (Error::InvalidSamlUrl(cause()), "invalid SAML URL: x"),
        (Error::SamlTimeout, "timed out waiting for the SAML response"),
        (Error::SamlResponseMissing, "SAML response is missing"),
        (Error::SamlResponseTooLarge, "SAML response is too large"),
        (Error::AuthFailed(cause()), "VPN authentication failed: x"),
        (Error::FatalOpenVpn(cause()), "OpenVPN fatal error: x"),
        (Error::TempFile(cause()), "temporary file error: x"),
        (Error::DnsConfigurationFailed(cause()), "DNS configuration failed: x"),
        (Error::DaemonControl(cause()), "daemon control error: x"),
        (Error::DaemonUnavailable, "daemon is not running"),
        (Error::DiagnosticFailed(cause()), "diagnostic failed: x"),
        (Error::Interrupted, "operation was interrupted"),
    ] {
        assert_eq!(err.message(), words);
    }
}
