//! `config`: manage the configuration values.
use vstd::prelude::*;

pub mod get;
pub mod list;
pub mod set;

verus! {

/// Arguments of `config`: whether to list the values.
pub struct Args {
    pub list: bool,
}

/// A key that names no configuration value: only `data_dir` and
/// `time_zone_offset` exist.
#[derive(Clone, Copy, Debug, PartialEq, Eq, Structural)]
pub struct UnknownConfigKey;

} // verus!
