//! Verified core of a small command-line note keeper: notes are stored as
//! `flow/YYYY/MM/DD/YYYYMMDDTHHMMSSZ.md` files under a data directory, and
//! their ids, paths, listing filters and configuration values are computed here.
pub mod command;
pub mod config;
pub mod datetime;
pub mod flow;
pub mod text;
