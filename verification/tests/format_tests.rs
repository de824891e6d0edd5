use wld::codec::{emit_config, parse_config};
use wld::Config;

fn round_trips(config: &Config) {
    let text = emit_config(config);
    let back = parse_config(&text).expect("emitted document should parse");
    assert_eq!(back.devices.len(), config.devices.len());
    for d in &config.devices {
        assert_eq!(back.lookup(&d.name), Some(d.address.clone()));
    }
    assert_eq!(back.default_device, config.default_device);
}

#[test]
fn test_emit_exact_document() {
    let mut config = Config::new();
    config.add_device("living_room".to_string(), "192.168.1.100".to_string());
    config.add_device("bedroom".to_string(), "192.168.1.101".to_string());

    let text = emit_config(&config);
    assert_eq!(
        text,
        "default_device = \"living_room\"\n\n[devices]\n\"living_room\" = \"192.168.1.100\"\n\"bedroom\" = \"192.168.1.101\"\n"
    );
}

#[test]
fn test_emit_empty_registry() {
    let config = Config::new();
    assert_eq!(emit_config(&config), "[devices]\n");
}

#[test]
fn test_round_trip_empty() {
    round_trips(&Config::new());
}

#[test]
fn test_round_trip_plain_names() {
    let mut config = Config::new();
    config.add_device("living_room".to_string(), "192.168.1.100".to_string());
    config.add_device("bedroom".to_string(), "192.168.1.101".to_string());
    config.set_default("bedroom").unwrap();
    round_trips(&config);
}

#[test]
fn test_round_trip_escaped_characters() {
    let mut config = Config::new();
    config.add_device("has \"quotes\"".to_string(), "back\\slash".to_string());
    config.add_device("line\nbreak".to_string(), "tab\there".to_string());
    config.add_device("carriage\rreturn".to_string(), "10.0.0.9".to_string());
    round_trips(&config);
}

#[test]
fn test_round_trip_empty_name_and_address() {
    let mut config = Config::new();
    config.add_device("".to_string(), "".to_string());
    round_trips(&config);
}

#[test]
fn test_round_trip_unicode() {
    let mut config = Config::new();
    config.add_device("wohnzimmer-\u{f6}stlich".to_string(), "\u{3042}.example".to_string());
    round_trips(&config);
}

#[test]
fn test_parse_without_default_line() {
    let config = parse_config("[devices]\n\"a\" = \"1\"\n").unwrap();
    assert_eq!(config.devices.len(), 1);
    assert_eq!(config.lookup("a"), Some("1".to_string()));
    assert_eq!(config.default_device, None);
}

#[test]
fn test_parse_dangling_default() {
    // A hand-edited file may name a default that no device carries.
    let config = parse_config("default_device = \"gone\"\n\n[devices]\n\"a\" = \"1\"\n").unwrap();
    assert_eq!(config.default_device, Some("gone".to_string()));
    let result = config.get_device_ip(None);
    assert_eq!(
        result.unwrap_err(),
        "No device specified and no default device set"
    );
}

#[test]
fn test_parse_rejects_empty_input() {
    assert!(parse_config("").is_none());
}

#[test]
fn test_parse_rejects_missing_header() {
    assert!(parse_config("\"a\" = \"1\"\n").is_none());
}

#[test]
fn test_parse_rejects_unterminated_line() {
    assert!(parse_config("[devices]\n\"a\" = \"1\"").is_none());
}

#[test]
fn test_parse_rejects_unterminated_quote() {
    assert!(parse_config("[devices]\n\"a\" = \"1\n").is_none());
}

#[test]
fn test_parse_rejects_bad_escape() {
    assert!(parse_config("[devices]\n\"a\" = \"\\x\"\n").is_none());
}

#[test]
fn test_parse_rejects_duplicate_names() {
    assert!(parse_config("[devices]\n\"a\" = \"1\"\n\"a\" = \"2\"\n").is_none());
}

#[test]
fn test_parse_rejects_missing_blank_line_after_default() {
    assert!(parse_config("default_device = \"a\"\n[devices]\n\"a\" = \"1\"\n").is_none());
}

#[test]
fn test_parse_rejects_trailing_garbage_line() {
    assert!(parse_config("[devices]\n\"a\" = \"1\"\nnot a device line\n").is_none());
}
