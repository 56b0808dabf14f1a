use rust_buck3t_ui::consts::{
    parse_decimal, Config, DEFAULT_MAX_UPLOAD_BYTES, DEFAULT_UPSTREAM_TIMEOUT_SECS, PATH_HEALTHZ,
    PATH_OBJECTS,
};

fn config_with_base(base: &str) -> Config {
    Config::from_values(Some(base.to_string()), None, None, None, None)
}

#[test]
fn join_adds_the_missing_slash() {
    let cfg = config_with_base("http://127.0.0.1:8080");
    assert_eq!(cfg.join_backend(PATH_OBJECTS), "http://127.0.0.1:8080/objects");
    assert_eq!(cfg.join_backend(PATH_HEALTHZ), "http://127.0.0.1:8080/healthz");
}

#[test]
fn join_keeps_the_slash_that_is_there() {
    let cfg = config_with_base("http://127.0.0.1:8080/");
    assert_eq!(cfg.join_backend("objects"), "http://127.0.0.1:8080/objects");
    assert_eq!(cfg.join_backend("auth/login"), "http://127.0.0.1:8080/auth/login");
}

#[test]
fn join_gives_the_same_address_either_way() {
    let with = config_with_base("http://store.example/api/");
    let without = config_with_base("http://store.example/api");
    assert_eq!(with.join_backend("objects"), without.join_backend("objects"));
}

#[test]
fn join_with_empty_parts() {
    assert_eq!(config_with_base("").join_backend("objects"), "/objects");
    assert_eq!(config_with_base("http://h").join_backend(""), "http://h/");
    assert_eq!(config_with_base("http://h/").join_backend(""), "http://h/");
}

#[test]
fn join_sees_a_slash_behind_text_outside_ascii() {
    assert_eq!(config_with_base("http://h/\u{e9}/").join_backend("x"), "http://h/\u{e9}/x");
    assert_eq!(config_with_base("http://h/\u{e9}").join_backend("x"), "http://h/\u{e9}/x");
}

#[test]
fn missing_settings_take_their_defaults() {
    let cfg = Config::from_values(None, None, None, None, None);
    assert_eq!(cfg.backend_base, "http://127.0.0.1:8080");
    assert_eq!(cfg.ui_host, "127.0.0.1");
    assert_eq!(cfg.ui_port, 8085);
    assert_eq!(cfg.max_upload_bytes, 50 * 1024 * 1024);
    assert_eq!(cfg.max_upload_bytes, DEFAULT_MAX_UPLOAD_BYTES);
    assert_eq!(cfg.upstream_timeout_secs, 30);
    assert_eq!(cfg.upstream_timeout_secs, DEFAULT_UPSTREAM_TIMEOUT_SECS);
}

#[test]
fn given_settings_are_taken() {
    let cfg = Config::from_values(
        Some("http://store:9000/".to_string()),
        Some("0.0.0.0".to_string()),
        Some("9001".to_string()),
        Some("1024".to_string()),
        Some("5".to_string()),
    );
    assert_eq!(cfg.backend_base, "http://store:9000/");
    assert_eq!(cfg.ui_host, "0.0.0.0");
    assert_eq!(cfg.ui_port, 9001);
    assert_eq!(cfg.max_upload_bytes, 1024);
    assert_eq!(cfg.upstream_timeout_secs, 5);
}

#[test]
fn a_port_that_is_no_port_gives_the_default() {
    for text in ["", "abc", "65536", "-1", " 80", "80 ", "+", "8o", "\u{661}"] {
        let cfg = Config::from_values(None, None, Some(text.to_string()), None, None);
        assert_eq!(cfg.ui_port, 8085, "port text {:?}", text);
    }
}

#[test]
fn a_port_may_bring_a_plus_and_leading_zeros() {
    let cfg = Config::from_values(None, None, Some("+80".to_string()), None, None);
    assert_eq!(cfg.ui_port, 80);
    let cfg = Config::from_values(None, None, Some("00443".to_string()), None, None);
    assert_eq!(cfg.ui_port, 443);
    let cfg = Config::from_values(None, None, Some("65535".to_string()), None, None);
    assert_eq!(cfg.ui_port, 65535);
    let cfg = Config::from_values(None, None, Some("0".to_string()), None, None);
    assert_eq!(cfg.ui_port, 0);
}

#[test]
fn parse_decimal_reads_numbers_up_to_the_bound() {
    assert_eq!(parse_decimal("0", 10), Some(0));
    assert_eq!(parse_decimal("10", 10), Some(10));
    assert_eq!(parse_decimal("0010", 10), Some(10));
    assert_eq!(parse_decimal("+7", 10), Some(7));
    assert_eq!(parse_decimal("11", 10), None);
    assert_eq!(parse_decimal("5", 3), None);
    assert_eq!(parse_decimal("18446744073709551615", u64::MAX), Some(u64::MAX));
    assert_eq!(parse_decimal("18446744073709551616", u64::MAX), None);
    assert_eq!(parse_decimal("99999999999999999999999", u64::MAX), None);
}

#[test]
fn parse_decimal_agrees_with_the_standard_parser() {
    for text in ["", "+", "-", "-0", "++1", "+-1", "1+", "0x10", "1_000", "12a", "a12", "1.0", " 1", "007", "+007", "65535", "65536", "4294967296"] {
        let expected = text.parse::<u16>().ok().map(|v| v as u64);
        assert_eq!(parse_decimal(text, 65535), expected, "text {:?}", text);
        let expected = text.parse::<u64>().ok();
        assert_eq!(parse_decimal(text, u64::MAX), expected, "text {:?}", text);
    }
}
