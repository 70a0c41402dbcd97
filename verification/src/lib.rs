//! Reusable AWS Client VPN orchestration logic.
//!
//! The library decides; whoever uses it acts. It parses what OpenVPN, the
//! browser, the daemon's clients and the operating system say, and answers
//! with what is to be done next. Files, sockets and processes are left to the
//! program around it.

pub mod cli;
pub mod client;
pub mod config;
pub mod connect;
pub mod daemon;
pub mod diagnose;
pub mod dns;
pub mod error;
pub mod event;
pub mod ipv6;
pub mod logredact;
pub mod net;
pub mod number;
pub mod openvpn;
pub mod path;
pub mod platform;
pub mod routes;
pub mod runtime;
pub mod saml;
pub mod split;
pub mod text;
pub mod timeout;

pub use client::{ConnectOptions, DnsMode, LogLevel};
pub use connect::VpnClient;
pub use diagnose::{collect_diagnostics, Diagnostics, RouteEntry};
pub use error::{Error, Result};
pub use event::{ExitReason, VpnEvent};
pub use runtime::{bundled_runtime_available, bundled_runtime_target, OpenVpnRuntime};
pub use saml::browser::BrowserMode;
pub use timeout::Timeout;
