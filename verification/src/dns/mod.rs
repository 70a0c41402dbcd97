//! Pointing the resolver of the operating system at the VPN.

pub mod linux;
pub mod macos;
pub mod native;
pub mod proxy;
pub mod scutil;
