//! Scripted benchmark runner for Minecraft servers: the verified core.
//!
//! The crate holds the `.mcb` scenario language (parser and formatter), the
//! scenario runner as a state machine, the exporters' text, the command
//! line, and the decisions of the terminal interface (keys, line editing,
//! the settings form and the setup wizard).

pub mod text;
pub mod fmt;
pub mod duration;
pub mod pattern;
pub mod scenario;
pub mod script;
pub mod export;
pub mod config;
pub mod strings;
pub mod cli;
pub mod order;
pub mod runner;
pub mod trace;
pub mod tui;
