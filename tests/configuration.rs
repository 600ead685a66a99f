use horst3::configuration::{
    default_config_text, parse_config, setting_or, split_size, unit_multiplier, Configuration,
    CACHE_SIZE_LIMIT_DEFAULT_IN_BYTES, GIB,
};
use std::collections::HashMap;

fn settings(v: Vec<(String, String)>) -> HashMap<String, String> {
    v.into_iter().collect()
}

fn expected(pairs: &[(&str, &str)]) -> HashMap<String, String> {
    pairs.iter().map(|(k, v)| (k.to_string(), v.to_string())).collect()
}

#[test]
fn test_parse_config() {
    let mut map = HashMap::new();
    assert_eq!(settings(parse_config("")), map);
    map.insert("a".to_string(), "b".to_string());
    assert_eq!(settings(parse_config("a=b")), map);
    assert_eq!(settings(parse_config("a = b")), map);
    map.insert("c".to_string(), "d".to_string());
    assert_eq!(settings(parse_config("a = b\nc = d")), map);
    assert_eq!(settings(parse_config("a = b\nc = d\n# comment")), map);
}

#[test]
fn parse_config_later_line_wins_and_keys_stay_distinct() {
    let r = parse_config("a = 1\nb = 2\na = 3\n");
    assert_eq!(r.len(), 2);
    assert_eq!(settings(r), expected(&[("a", "3"), ("b", "2")]));
}

#[test]
fn parse_config_splits_at_first_equals_and_trims() {
    let r = parse_config("  key \t=  x = y  \r\n   # k = v\nno pair here\n=\n");
    assert_eq!(settings(r), expected(&[("key", "x = y"), ("", "")]));
}

#[test]
fn parse_config_comment_only_after_trim() {
    let r = parse_config("   #a = b\nc#=d");
    assert_eq!(settings(r), expected(&[("c#", "d")]));
}

#[test]
fn test_split_size_and_units() {
    let (num, unit) = split_size("16GiB");
    assert_eq!((num.as_str(), unit.as_str()), ("16", "GiB"));
    assert_eq!(unit_multiplier(&unit), Some(1024 * 1024 * 1024));
    let (num, unit) = split_size("16 GiB");
    assert_eq!((num.as_str(), unit.as_str()), ("16", "GiB"));
    let (num, unit) = split_size("1024");
    assert_eq!((num.as_str(), unit.as_str()), ("1024", "B"));
    let (num, unit) = split_size("1.5 MB ");
    assert_eq!((num.as_str(), unit.as_str()), ("1.5", "MB"));
}

#[test]
fn unit_multipliers_are_exact() {
    assert_eq!(unit_multiplier("TiB"), Some(1u64 << 40));
    assert_eq!(unit_multiplier("TB"), Some(1_000_000_000_000));
    assert_eq!(unit_multiplier("GiB"), Some(GIB));
    assert_eq!(unit_multiplier("GB"), Some(1_000_000_000));
    assert_eq!(unit_multiplier("MiB"), Some(1 << 20));
    assert_eq!(unit_multiplier("MB"), Some(1_000_000));
    assert_eq!(unit_multiplier("KiB"), Some(1024));
    assert_eq!(unit_multiplier("KB"), Some(1000));
    assert_eq!(unit_multiplier("B"), Some(1));
    assert_eq!(unit_multiplier("gib"), None);
    assert_eq!(unit_multiplier(""), None);
}

#[test]
fn default_config_round_trips_through_the_parser() {
    let text = default_config_text();
    assert_eq!(text, "cache_path = ~/.cache/horst3\ncache_size_limit = 16GiB\n");
    let parsed = parse_config(&text);
    assert_eq!(setting_or(&parsed, "cache_path", "x"), "~/.cache/horst3");
    assert_eq!(setting_or(&parsed, "cache_size_limit", "x"), "16GiB");
    assert_eq!(setting_or(&parsed, "missing", "fallback"), "fallback");
}

#[test]
fn configuration_takes_settings_or_defaults() {
    let settings = parse_config("cache_path = /srv/cache\ncache_size_limit = 2 KiB\n");
    let conf = Configuration::from_settings(&settings, Some(2048));
    assert_eq!(conf.cache_path, "/srv/cache");
    assert_eq!(conf.cache_size_limit_in_bytes, 2048);

    let conf = Configuration::from_settings(&parse_config("other = 1"), None);
    assert_eq!(conf.cache_path, "~/.cache/horst3");
    assert_eq!(conf.cache_size_limit_in_bytes, CACHE_SIZE_LIMIT_DEFAULT_IN_BYTES);
    assert_eq!(CACHE_SIZE_LIMIT_DEFAULT_IN_BYTES, 16 * 1024 * 1024 * 1024);
}
