use lazydeck::paths::{plugin_cache_dir, plugin_log_path, secrets_dir};
use lazydeck::plugin_log::{format_log_message, log_entry};

fn args(a: &[&str]) -> Vec<String> {
    a.iter().map(|s| s.to_string()).collect()
}

#[test]
fn placeholders_are_filled_in_turn() {
    assert_eq!(format_log_message("loaded {} in {} ms", &args(&["docker", "12"])), "loaded docker in 12 ms");
}

#[test]
fn extra_placeholders_and_arguments_are_left() {
    assert_eq!(format_log_message("{} and {}", &args(&["one"])), "one and {}");
    assert_eq!(format_log_message("no placeholder", &args(&["x", "y"])), "no placeholder");
    assert_eq!(format_log_message("{}", &Vec::new()), "{}");
}

#[test]
fn a_placeholder_in_an_argument_is_filled_next() {
    assert_eq!(format_log_message("a {} b {}", &args(&["{}", "x"])), "a x b {}");
}

#[test]
fn log_entries_carry_time_and_level() {
    assert_eq!(log_entry("2024-01-02 03:04:05.006", "info", "hello"), "[2024-01-02 03:04:05.006][info] hello\n");
}

#[test]
fn plugin_storage_lives_under_home() {
    assert_eq!(plugin_cache_dir(Some("/home/u"), "/tmp"), "/home/u/.cache/lazydeck/cache");
    assert_eq!(plugin_cache_dir(None, "/tmp"), "/tmp/lazydeck_cache");
    assert_eq!(secrets_dir(Some("/home/u")), "/home/u/.config/lazydeck/secrets");
    assert_eq!(secrets_dir(None), "/tmp/lazydeck_secrets");
    assert_eq!(plugin_log_path(Some("/home/u/")), "/home/u/.local/state/lazydeck/lua.log");
    assert_eq!(plugin_log_path(None), "/tmp/lazydeck.log");
}
