//! The subcommands' logic: each computes what its command reads or writes.
pub mod config;
pub mod edit;
pub mod list;
pub mod new;
pub mod show;
