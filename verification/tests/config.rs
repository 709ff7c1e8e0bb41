use radioxide::config::{parse_relay_config, parse_streamer_config, ConfigError};

#[test]
fn streamer_config_parses_in_order() {
    let text = b"address: 127.0.0.1:2525\nquality: 4\nlatency: 50\ntls: false\n".to_vec();
    let cfg = parse_streamer_config(&text).expect("a well-formed file parses");
    assert_eq!(cfg.address, "127.0.0.1:2525");
    assert_eq!(cfg.quality, 4);
    assert_eq!(cfg.latency, 50);
    assert!(!cfg.tls);
}

#[test]
fn streamer_config_without_final_newline_parses() {
    let text = b"address: relay.example:2525\nquality: 9\nlatency: 65535\ntls: true".to_vec();
    let cfg = parse_streamer_config(&text).expect("the last line needs no newline");
    assert_eq!(cfg.address, "relay.example:2525");
    assert_eq!(cfg.quality, 9);
    assert_eq!(cfg.latency, 65535);
    assert!(cfg.tls);
}

#[test]
fn too_few_entries_are_rejected() {
    let text = b"address: x\nquality: 4\n".to_vec();
    assert_eq!(parse_streamer_config(&text).unwrap_err(), ConfigError::MissingEntry);
    let empty: Vec<u8> = Vec::new();
    assert_eq!(parse_streamer_config(&empty).unwrap_err(), ConfigError::MissingEntry);
}

#[test]
fn an_entry_without_a_separator_is_rejected() {
    let text = b"address 127.0.0.1\nquality: 4\nlatency: 50\ntls: false\n".to_vec();
    assert_eq!(parse_streamer_config(&text).unwrap_err(), ConfigError::MissingValue);
}

#[test]
fn a_bad_number_is_rejected() {
    let text = b"address: x\nquality: four\nlatency: 50\ntls: false\n".to_vec();
    assert_eq!(parse_streamer_config(&text).unwrap_err(), ConfigError::BadNumber);
    // out of range for the type
    let text = b"address: x\nquality: 4\nlatency: 99999\ntls: false\n".to_vec();
    assert_eq!(parse_streamer_config(&text).unwrap_err(), ConfigError::BadNumber);
    // empty value
    let text = b"address: x\nquality: \nlatency: 50\ntls: false\n".to_vec();
    assert_eq!(parse_streamer_config(&text).unwrap_err(), ConfigError::BadNumber);
}

#[test]
fn a_bad_boolean_is_rejected() {
    let text = b"address: x\nquality: 4\nlatency: 50\ntls: yes\n".to_vec();
    assert_eq!(parse_streamer_config(&text).unwrap_err(), ConfigError::BadBool);
}

#[test]
fn a_non_ascii_address_is_rejected() {
    let mut text = b"address: ".to_vec();
    text.push(0xC3);
    text.push(0xA9);
    text.extend_from_slice(b"\nquality: 4\nlatency: 50\ntls: false\n");
    assert_eq!(parse_streamer_config(&text).unwrap_err(), ConfigError::NotText);
}

#[test]
fn relay_config_parses_in_order() {
    let text = b"axum_address: 0.0.0.0:2323\nlistener_address: 0.0.0.0:2424\nstreamer_address: 0.0.0.0:2525\nlatency: 50\ntls: true\n".to_vec();
    let cfg = parse_relay_config(&text).expect("a well-formed file parses");
    assert_eq!(cfg.axum_address, "0.0.0.0:2323");
    assert_eq!(cfg.listener_address, "0.0.0.0:2424");
    assert_eq!(cfg.streamer_address, "0.0.0.0:2525");
    assert_eq!(cfg.latency, 50);
    assert!(cfg.tls);
}

#[test]
fn relay_config_needs_five_entries() {
    let text = b"axum_address: a\nlistener_address: b\nstreamer_address: c\nlatency: 50\n".to_vec();
    assert_eq!(parse_relay_config(&text).unwrap_err(), ConfigError::MissingEntry);
}

#[test]
fn a_value_may_hold_further_colons() {
    let text = b"address: ws://host:1234/path\nquality: 4\nlatency: 50\ntls: false\n".to_vec();
    let cfg = parse_streamer_config(&text).expect("colons without a space stay in the value");
    assert_eq!(cfg.address, "ws://host:1234/path");
}
