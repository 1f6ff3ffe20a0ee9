//! `config set <key> <value>`: change one value of the configuration file,
//! which may hold either value or neither.
use vstd::prelude::*;
use crate::command::config::get::config_value;
use crate::command::config::UnknownConfigKey;
use crate::config::ConfigView;
use crate::text::{opt_view, str_eq};

verus! {

/// Arguments of `config set`.
pub struct Args {
    pub key: String,
    pub value: String,
}

/// The configuration file's contents, where each value may be absent.
pub struct PartialConfig {
    pub data_dir: Option<String>,
    pub time_zone_offset: Option<String>,
}

/// The view of a `PartialConfig`.
pub struct PartialConfigView {
    pub data_dir: Option<Seq<char>>,
    pub time_zone_offset: Option<Seq<char>>,
}

impl View for PartialConfig {
    type V = PartialConfigView;

    open spec fn view(&self) -> PartialConfigView {
        PartialConfigView {
            data_dir: opt_view(self.data_dir),
            time_zone_offset: opt_view(self.time_zone_offset),
        }
    }
}

/// The configuration after setting `key` to `value`, if `key` names a value.
pub open spec fn set_spec(p: PartialConfigView, key: Seq<char>, value: Seq<char>) -> Option<
    PartialConfigView,
> {
    if key == "data_dir"@ {
        Some(PartialConfigView { data_dir: Some(value), ..p })
    } else if key == "time_zone_offset"@ {
        Some(PartialConfigView { time_zone_offset: Some(value), ..p })
    } else {
        None
    }
}

impl PartialConfig {
    /// Sets the value named by `key`; an unknown key leaves the configuration unchanged.
    pub fn set(&mut self, key: &str, value: String) -> (r: Result<(), UnknownConfigKey>)
        ensures
            match set_spec(old(self)@, key@, value@) {
                Some(p) => r is Ok && final(self)@ == p,
                None => r is Err && final(self)@ == old(self)@,
            },
    {
        if str_eq(key, "data_dir") {
            self.data_dir = Some(value);
            Ok(())
        } else if str_eq(key, "time_zone_offset") {
            self.time_zone_offset = Some(value);
            Ok(())
        } else {
            Err(UnknownConfigKey)
        }
    }
}

/// `config set` writes the value it is given under the key it is given, on
/// any configuration file (with both values, one, or none): the key's value is
/// then present and equal to the given value, and the other value is as it was.
/// Any other key is refused.
pub proof fn lemma_set_writes_the_value(p: PartialConfigView, key: Seq<char>, value: Seq<char>)
    ensures
        key == "data_dir"@ ==> (set_spec(p, key, value) matches Some(q) && q.data_dir == Some(
            value,
        ) && q.time_zone_offset == p.time_zone_offset),
        key == "time_zone_offset"@ ==> (set_spec(p, key, value) matches Some(q)
            && q.time_zone_offset == Some(value) && q.data_dir == p.data_dir),
        key != "data_dir"@ && key != "time_zone_offset"@ ==> set_spec(p, key, value) is None,
{
    reveal_strlit("data_dir");
    reveal_strlit("time_zone_offset");
    assert("data_dir"@ != "time_zone_offset"@) by {
        assert("data_dir"@.len() != "time_zone_offset"@.len());
    }
}

/// Once `config set` has written `key` and the file holds both values, `config get`
/// of `key` gives back the value that was set; the other value is unchanged.
pub proof fn lemma_get_after_set(p: PartialConfigView, key: Seq<char>, value: Seq<char>)
    requires
        set_spec(p, key, value) is Some,
        set_spec(p, key, value)->0.data_dir is Some,
        set_spec(p, key, value)->0.time_zone_offset is Some,
    ensures
        ({
            let q = set_spec(p, key, value)->0;
            let c = ConfigView {
                data_dir: q.data_dir->0,
                time_zone_offset: q.time_zone_offset->0,
            };
            &&& config_value(c, key) == Some(value)
            &&& key == "data_dir"@ ==> q.time_zone_offset == p.time_zone_offset
            &&& key == "time_zone_offset"@ ==> q.data_dir == p.data_dir
        }),
{
    reveal_strlit("data_dir");
    reveal_strlit("time_zone_offset");
    assert("data_dir"@ != "time_zone_offset"@) by {
        assert("data_dir"@.len() != "time_zone_offset"@.len());
    }
}

} // verus!
