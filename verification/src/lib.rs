//! Verified core of a Lightning node daemon: command-line and configuration
//! argument expansion, the log line format, and the control-request answers.

pub mod text;
pub mod config;
pub mod config_file;
pub mod logger;
pub mod node;
