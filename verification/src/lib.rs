//! Terminal UI linting: capture parsing, runtime rules, and source rules.

pub mod text;
pub mod capture;
pub mod palette;
pub mod findings;
pub mod pattern;
pub mod rules;
pub mod source_rules;
pub mod tmux;
pub mod engine;
pub mod staleness;
pub mod artifacts;
pub mod paths;
