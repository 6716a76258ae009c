//! Subcommands that reach outside chiba itself.
pub mod integration;
