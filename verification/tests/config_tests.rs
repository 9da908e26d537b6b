use vecstore::config::{
    parse_u32_digits, parse_u64_digits, Config, DEFAULT_CONNECTION_TIMEOUT_MS,
    DEFAULT_MAX_RETRIES, DEFAULT_REQUEST_TIMEOUT_MS, DEFAULT_RETRY_DELAY_MS,
};

#[test]
fn digits_parse_to_their_value() {
    assert_eq!(parse_u64_digits(&"0".to_string()), Some(0));
    assert_eq!(parse_u64_digits(&"12345".to_string()), Some(12345));
    assert_eq!(parse_u64_digits(&"060000".to_string()), Some(60000));
    assert_eq!(
        parse_u64_digits(&"18446744073709551615".to_string()),
        Some(u64::MAX)
    );
}

#[test]
fn non_digits_do_not_parse() {
    assert_eq!(parse_u64_digits(&String::new()), None);
    assert_eq!(parse_u64_digits(&"12a".to_string()), None);
    assert_eq!(parse_u64_digits(&"-5".to_string()), None);
    assert_eq!(parse_u64_digits(&" 5".to_string()), None);
    assert_eq!(parse_u64_digits(&"caf\u{e9}".to_string()), None);
}

#[test]
fn overflowing_values_do_not_parse() {
    assert_eq!(parse_u64_digits(&"18446744073709551616".to_string()), None);
    assert_eq!(parse_u64_digits(&"99999999999999999999999".to_string()), None);
    assert_eq!(parse_u32_digits(&"4294967295".to_string()), Some(u32::MAX));
    assert_eq!(parse_u32_digits(&"4294967296".to_string()), None);
}

#[test]
fn absent_values_fall_back_to_defaults() {
    let c = Config::resolve(None, None, None, None);
    assert_eq!(c.connection_timeout_ms, DEFAULT_CONNECTION_TIMEOUT_MS);
    assert_eq!(c.request_timeout_ms, DEFAULT_REQUEST_TIMEOUT_MS);
    assert_eq!(c.max_retries, DEFAULT_MAX_RETRIES);
    assert_eq!(c.retry_delay_ms, DEFAULT_RETRY_DELAY_MS);
    assert_eq!(c.connection_timeout_ms, 30_000);
    assert_eq!(c.request_timeout_ms, 60_000);
    assert_eq!(c.max_retries, 3);
    assert_eq!(c.retry_delay_ms, 1_000);
}

#[test]
fn parsable_values_are_taken() {
    let c = Config::resolve(
        Some("15000".to_string()),
        Some("45000".to_string()),
        Some("7".to_string()),
        Some("250".to_string()),
    );
    assert_eq!(c.connection_timeout_ms, 15_000);
    assert_eq!(c.request_timeout_ms, 45_000);
    assert_eq!(c.max_retries, 7);
    assert_eq!(c.retry_delay_ms, 250);
}

#[test]
fn unparsable_values_fall_back_to_defaults() {
    let c = Config::resolve(
        Some("soon".to_string()),
        Some("".to_string()),
        Some("many".to_string()),
        Some("99999999999999999999999".to_string()),
    );
    assert_eq!(c.connection_timeout_ms, 30_000);
    assert_eq!(c.request_timeout_ms, 60_000);
    assert_eq!(c.max_retries, 3);
    assert_eq!(c.retry_delay_ms, 1_000);
}
