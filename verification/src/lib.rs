//! Watchdog logic that keeps a long-running Codex goal moving across
//! usage-limit interruptions: quota-status parsing, terminal capture
//! tracking, the watchdog state machine and shell command construction.

pub mod text;
pub mod time;
pub mod pattern;
pub mod label;
pub mod status;
pub mod tracker;
pub mod monitor;
pub mod watch_runs;
pub mod command;
pub mod tmux;
