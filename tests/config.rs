use rust_echo_server::config::{
    parse_backlog, parse_port, Config, ConfigError, DEFAULT_BACKLOG, DEFAULT_PORT,
};

#[test]
fn default_config_uses_documented_values() {
    let c = Config::default();
    assert_eq!(c.port, 49152);
    assert_eq!(c.backlog, 0);
    assert_eq!(c.port, DEFAULT_PORT);
    assert_eq!(c.backlog, DEFAULT_BACKLOG);
}

#[test]
fn port_accepts_decimal_numbers_in_range() {
    assert_eq!(parse_port("49152"), Ok(49152));
    assert_eq!(parse_port("1"), Ok(1));
    assert_eq!(parse_port("65535"), Ok(65535));
    assert_eq!(parse_port("+8080"), Ok(8080));
    assert_eq!(parse_port("00080"), Ok(80));
}

#[test]
fn port_rejects_non_numeric_text() {
    assert_eq!(parse_port("abc"), Err(ConfigError::NotANumber));
    assert_eq!(parse_port(""), Err(ConfigError::NotANumber));
    assert_eq!(parse_port("+"), Err(ConfigError::NotANumber));
    assert_eq!(parse_port("80a"), Err(ConfigError::NotANumber));
    assert_eq!(parse_port(" 80"), Err(ConfigError::NotANumber));
    assert_eq!(parse_port("8.0"), Err(ConfigError::NotANumber));
}

#[test]
fn port_rejects_values_out_of_range() {
    assert_eq!(parse_port("0"), Err(ConfigError::OutOfRange));
    assert_eq!(parse_port("65536"), Err(ConfigError::OutOfRange));
    assert_eq!(parse_port("-1"), Err(ConfigError::OutOfRange));
    assert_eq!(parse_port("99999999999999999999999"), Err(ConfigError::OutOfRange));
}

#[test]
fn backlog_accepts_non_negative_numbers() {
    assert_eq!(parse_backlog("0"), Ok(0));
    assert_eq!(parse_backlog("128"), Ok(128));
    assert_eq!(parse_backlog("-0"), Ok(0));
    assert_eq!(parse_backlog("2147483647"), Ok(2147483647));
}

#[test]
fn backlog_rejects_bad_text() {
    assert_eq!(parse_backlog("-1"), Err(ConfigError::OutOfRange));
    assert_eq!(parse_backlog("2147483648"), Err(ConfigError::OutOfRange));
    assert_eq!(parse_backlog("4294967296"), Err(ConfigError::OutOfRange));
    assert_eq!(parse_backlog("ten"), Err(ConfigError::NotANumber));
    assert_eq!(parse_backlog("-"), Err(ConfigError::NotANumber));
}
