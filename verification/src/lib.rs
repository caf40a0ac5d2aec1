//! Watches a command's output, matches regex rules against its lines and
//! decides which notifications to send; the verified core of the tool.

pub mod text;
pub mod pattern;
pub mod formatting;
pub mod rules;
pub mod config;
pub mod procfs;
pub mod run;
pub mod stream;
pub mod cli;
