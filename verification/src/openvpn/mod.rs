//! Driving the OpenVPN program over its management interface.

pub mod command;
pub mod management;
pub mod parser;
pub mod process;
pub mod runtime;
