//! `config get <key>`: the value of one configuration key.
use vstd::prelude::*;
use crate::command::config::UnknownConfigKey;
use crate::config::{Config, ConfigView};
use crate::text::str_eq;

verus! {

/// Arguments of `config get`.
pub struct Args {
    pub key: String,
}

/// The value of `key` in a configuration, if `key` names one.
pub open spec fn config_value(config: ConfigView, key: Seq<char>) -> Option<Seq<char>> {
    if key == "data_dir"@ {
        Some(config.data_dir)
    } else if key == "time_zone_offset"@ {
        Some(config.time_zone_offset)
    } else {
        None
    }
}

/// The value that `config get` prints for `key` (before its newline).
pub fn value<'a>(config: &'a Config, key: &str) -> (r: Result<&'a str, UnknownConfigKey>)
    ensures
        match r {
            Ok(v) => config_value(config@, key@) == Some(v@),
            Err(_) => config_value(config@, key@) is None,
        },
{
    if str_eq(key, "data_dir") {
        Ok(config.data_dir())
    } else if str_eq(key, "time_zone_offset") {
        Ok(config.time_zone_offset())
    } else {
        Err(UnknownConfigKey)
    }
}

} // verus!
