//! VPN configuration files.

pub mod ovpn;
