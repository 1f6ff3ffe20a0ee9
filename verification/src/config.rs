//! The note keeper's configuration: where the notes live and which UTC
//! offset new notes are stamped with.
use vstd::prelude::*;

verus! {

/// The configuration, as read from the configuration file.
pub struct Config {
    data_dir: String,
    time_zone_offset: String,
}

/// The view of a `Config`: its two values.
pub struct ConfigView {
    /// e.g. `"/path/to/data_dir"`
    pub data_dir: Seq<char>,
    /// e.g. `"+09:00"`
    pub time_zone_offset: Seq<char>,
}

impl View for Config {
    type V = ConfigView;

    closed spec fn view(&self) -> ConfigView {
        ConfigView { data_dir: self.data_dir@, time_zone_offset: self.time_zone_offset@ }
    }
}

impl Config {
    /// A configuration holding the two values.
    pub fn new(data_dir: String, time_zone_offset: String) -> (r: Config)
        ensures
            r@ == (ConfigView { data_dir: data_dir@, time_zone_offset: time_zone_offset@ }),
    {
        Config { data_dir, time_zone_offset }
    }

    /// The directory that holds the notes.
    pub fn data_dir(&self) -> (r: &str)
        ensures
            r@ == self@.data_dir,
    {
        self.data_dir.as_str()
    }

    /// The UTC offset that new notes are stamped with, e.g. `+09:00`.
    pub fn time_zone_offset(&self) -> (r: &str)
        ensures
            r@ == self@.time_zone_offset,
    {
        self.time_zone_offset.as_str()
    }
}

} // verus!
