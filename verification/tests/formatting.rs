//! Text rendering, pin parsing, name lookup and configuration handling.

use raspi_silence_alerts::conf::Config;
use raspi_silence_alerts::names::{parse_u8, NameTable};
use raspi_silence_alerts::text::u64_string;
use raspi_silence_alerts::{format_duration, format_timestamp};

#[test]
fn durations_render_with_singular_and_plural_units() {
    assert_eq!(format_duration(0), "0 seconds");
    assert_eq!(format_duration(1), "1 second");
    assert_eq!(format_duration(2), "2 seconds");
    assert_eq!(format_duration(59), "59 seconds");
    assert_eq!(format_duration(60), "1 minute 0 seconds");
    assert_eq!(format_duration(61), "1 minute 1 second");
    assert_eq!(format_duration(75), "1 minute 15 seconds");
    assert_eq!(format_duration(120), "2 minutes 0 seconds");
    assert_eq!(format_duration(3601), "60 minutes 1 second");
}

#[test]
fn numbers_render_in_decimal() {
    assert_eq!(u64_string(0), "0");
    assert_eq!(u64_string(7), "7");
    assert_eq!(u64_string(10), "10");
    assert_eq!(u64_string(255), "255");
    assert_eq!(u64_string(18446744073709551615), "18446744073709551615");
}

#[test]
fn timestamp_is_always_eleven_characters() {
    let stamp = format_timestamp();
    assert_eq!(stamp.chars().count(), 11);
    assert_eq!(stamp.chars().nth(6), Some('T'));
}

#[test]
fn pin_numbers_parse_like_decimal_u8() {
    assert_eq!(parse_u8("0"), Some(0));
    assert_eq!(parse_u8("27"), Some(27));
    assert_eq!(parse_u8("255"), Some(255));
    assert_eq!(parse_u8("007"), Some(7));
    assert_eq!(parse_u8("+5"), Some(5));
    assert_eq!(parse_u8("256"), None);
    assert_eq!(parse_u8("999999999999"), None);
    assert_eq!(parse_u8(""), None);
    assert_eq!(parse_u8("+"), None);
    assert_eq!(parse_u8("-1"), None);
    assert_eq!(parse_u8("4a"), None);
    assert_eq!(parse_u8(" 4"), None);
    assert_eq!(parse_u8("vier"), None);
}

#[test]
fn name_table_skips_bad_pins_and_keeps_the_rest() {
    let pairs: Vec<(String, String)> = vec![
        ("door".to_string(), "4".to_string()),
        ("broken".to_string(), "xx".to_string()),
        ("hall".to_string(), "17".to_string()),
    ];
    let names = NameTable::build(&pairs);
    assert_eq!(names.name_of(4), "door");
    assert_eq!(names.name_of(17), "hall");
    assert_eq!(names.name_of(9), "unknown");
}

#[test]
fn later_pair_overwrites_an_earlier_pin() {
    let pairs: Vec<(String, String)> = vec![
        ("old".to_string(), "4".to_string()),
        ("new".to_string(), "4".to_string()),
    ];
    let names = NameTable::build(&pairs);
    assert_eq!(names.name_of(4), "new");
}

fn sample_config() -> Config {
    Config {
        threshold: 10,
        alert_repeat: 1,
        smtp_server: "smtp.example.org".to_string(),
        port: 465,
        tls: true,
        username: "watcher".to_string(),
        password: "SECRET-REDACTED".to_string(),
        fromname: "Watcher".to_string(),
        recipient: "carer@example.org".to_string(),
        pins: vec![("door".to_string(), "4".to_string())],
    }
}

#[test]
fn mail_config_copies_the_transport_fields() {
    let cfg = sample_config();
    let mail = cfg.mail_config();
    assert_eq!(mail.smtp_server, "smtp.example.org");
    assert_eq!(mail.port, 465);
    assert!(mail.tls);
    assert_eq!(mail.username, "watcher");
    assert_eq!(mail.password, "SECRET-REDACTED");
    assert_eq!(mail.recipient, "carer@example.org");
    assert_eq!(mail.fromname, "Watcher");
}

#[test]
fn alert_repeat_converts_minutes_to_seconds() {
    let cfg = sample_config();
    assert_eq!(cfg.alert_repeat_secs(), 60);
}
