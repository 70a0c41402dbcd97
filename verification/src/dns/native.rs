//! Choosing how the resolver is configured.

use vstd::prelude::*;
use crate::error::{view_error, Error, ErrorView, Result};
use crate::net::{IpAddr, Ipv4Addr};
use crate::platform::Platform;

verus! {

/// How the resolver is configured.
#[derive(Clone, Copy, Debug, PartialEq, Eq, Structural)]
pub enum DnsPlan {
    /// It is left alone.
    Nothing,
    /// As on macOS.
    MacOs,
    /// As on Linux, for the interface with a given address.
    Linux(Ipv4Addr),
}

/// How the resolver is configured for the resolvers that were pushed and the
/// address of the tunnel.
pub open spec fn dns_plan(
    platform: Platform,
    servers: Seq<Ipv4Addr>,
    vpn_ip: Option<IpAddr>,
) -> std::result::Result<DnsPlan, ErrorView> {
    if servers.len() == 0 {
        Ok(DnsPlan::Nothing)
    } else {
        match platform {
            Platform::MacOs => Ok(DnsPlan::MacOs),
            Platform::Linux => match vpn_ip {
                Some(IpAddr::V4(ip)) => Ok(DnsPlan::Linux(ip)),
                _ => Err(
                    ErrorView::DnsConfigurationFailed(
                        "OpenVPN did not report an IPv4 tunnel address, so Linux DNS could not identify the tunnel interface"@,
                    ),
                ),
            },
            _ => Err(
                ErrorView::DnsConfigurationFailed(
                    "native DNS configuration is not implemented for this platform; use trusted OpenVPN helper scripts or --dns disabled"@,
                ),
            ),
        }
    }
}

/// Chooses how the resolver is configured.
pub fn configure_native_dns(platform: Platform, servers: &[Ipv4Addr], vpn_ip: Option<IpAddr>) -> (r:
    Result<DnsPlan>)
    ensures
        view_error(r) == dns_plan(platform, servers@, vpn_ip),
{
    if servers.len() == 0 {
        return Ok(DnsPlan::Nothing);
    }
    match platform {
        Platform::MacOs => Ok(DnsPlan::MacOs),
        Platform::Linux => match vpn_ip {
            Some(IpAddr::V4(ip)) => Ok(DnsPlan::Linux(ip)),
            _ => Err(
                Error::DnsConfigurationFailed(
                    "OpenVPN did not report an IPv4 tunnel address, so Linux DNS could not identify the tunnel interface".to_owned(),
                ),
            ),
        },
        _ => Err(
            Error::DnsConfigurationFailed(
                "native DNS configuration is not implemented for this platform; use trusted OpenVPN helper scripts or --dns disabled".to_owned(),
            ),
        ),
    }
}

/// The resolver is left alone exactly if no resolvers were pushed.
pub proof fn lemma_no_servers_no_plan(
    platform: Platform,
    servers: Seq<Ipv4Addr>,
    vpn_ip: Option<IpAddr>,
)
    ensures
        dns_plan(platform, servers, vpn_ip) == Ok::<DnsPlan, ErrorView>(DnsPlan::Nothing)
            <==> servers.len() == 0,
{
}

/// With pushed resolvers, macOS is configured in its way, and Linux for the
/// interface with the address of the tunnel, which must be one of version 4;
/// other systems are refused.
pub proof fn lemma_plans(servers: Seq<Ipv4Addr>, ip: Ipv4Addr, vpn_ip: Option<IpAddr>)
    requires
        servers.len() > 0,
    ensures
        dns_plan(Platform::MacOs, servers, vpn_ip) == Ok::<DnsPlan, ErrorView>(DnsPlan::MacOs),
        dns_plan(Platform::Linux, servers, Some(IpAddr::V4(ip))) == Ok::<DnsPlan, ErrorView>(
            DnsPlan::Linux(ip),
        ),
        !(vpn_ip matches Some(IpAddr::V4(_))) ==> dns_plan(
            Platform::Linux,
            servers,
            vpn_ip,
        ) matches Err(ErrorView::DnsConfigurationFailed(_)),
        dns_plan(Platform::Windows, servers, vpn_ip) matches Err(
            ErrorView::DnsConfigurationFailed(_),
        ),
        dns_plan(Platform::Other, servers, vpn_ip) matches Err(
            ErrorView::DnsConfigurationFailed(_),
        ),
{
}

} // verus!
