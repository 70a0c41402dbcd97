//! Logging in with the browser.

pub mod acs;
pub mod browser;
pub mod flow;
