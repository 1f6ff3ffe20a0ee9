use b2::command::config::get::value;
use b2::command::config::list::lines;
use b2::command::config::set::PartialConfig;
use b2::command::config::UnknownConfigKey;
use b2::config::Config;

fn config() -> Config {
    Config::new("/path/to/data_dir".to_string(), "+09:00".to_string())
}

#[test]
fn config_get_values() {
    let c = config();
    assert_eq!(value(&c, "data_dir"), Ok("/path/to/data_dir"));
    assert_eq!(value(&c, "time_zone_offset"), Ok("+09:00"));
    assert_eq!(value(&c, "foo"), Err(UnknownConfigKey));
    assert_eq!(value(&c, "data_dir "), Err(UnknownConfigKey));
    assert_eq!(c.data_dir(), "/path/to/data_dir");
    assert_eq!(c.time_zone_offset(), "+09:00");
}

#[test]
fn config_list_lines() {
    assert_eq!(
        lines(&config()),
        vec!["data_dir=/path/to/data_dir".to_string(), "time_zone_offset=+09:00".to_string()]
    );
}

#[test]
fn config_set_then_get() {
    let mut p = PartialConfig { data_dir: None, time_zone_offset: Some("+09:00".to_string()) };
    assert_eq!(p.set("data_dir", "/x".to_string()), Ok(()));
    assert_eq!(p.data_dir.as_deref(), Some("/x"));
    assert_eq!(p.time_zone_offset.as_deref(), Some("+09:00"));
    let c = Config::new(p.data_dir.clone().unwrap(), p.time_zone_offset.clone().unwrap());
    assert_eq!(value(&c, "data_dir"), Ok("/x"));
    assert_eq!(p.set("time_zone_offset", "-05:00".to_string()), Ok(()));
    assert_eq!(p.time_zone_offset.as_deref(), Some("-05:00"));
    assert_eq!(p.set("unknown", "v".to_string()), Err(UnknownConfigKey));
    assert_eq!(p.data_dir.as_deref(), Some("/x"));
    assert_eq!(p.time_zone_offset.as_deref(), Some("-05:00"));
}
