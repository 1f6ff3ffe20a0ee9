//! `config list`: every configuration value as `key=value`.
use vstd::prelude::*;
use crate::config::Config;

verus! {

/// The lines that `config list` prints: `data_dir=...` then `time_zone_offset=...`.
pub fn lines(config: &Config) -> (r: Vec<String>)
    ensures
        r@.len() == 2,
        r@[0]@ == "data_dir="@ + config@.data_dir,
        r@[1]@ == "time_zone_offset="@ + config@.time_zone_offset,
{
    let mut first = String::new();
    first.append("data_dir=");
    first.append(config.data_dir());
    let mut second = String::new();
    second.append("time_zone_offset=");
    second.append(config.time_zone_offset());
    let mut r = Vec::new();
    r.push(first);
    r.push(second);
    r
}

} // verus!
