//! Typed variables, their parsers and their cache.

use std::num::ParseIntError;
use std::str::FromStr;

use enventory::var::{classify_boolish, describe_parse_result};
use enventory::{option_repr, parse_boolish, Env, SetError, Var};

type PortVar = Var<u16, ParseIntError, fn(&str) -> Result<u16, ParseIntError>, fn() -> u16>;

fn port_default() -> u16 {
    8080
}

fn port_var(key: &'static str) -> PortVar {
    Var::new(
        key,
        u16::from_str as fn(&str) -> Result<u16, ParseIntError>,
        port_default as fn() -> u16,
    )
}

fn env_with(key: &str, value: &[u8]) -> Env {
    let mut env = Env::new();
    env.set(key, value.to_vec());
    env
}

#[test]
fn parse_boolish_accepts_documented_spellings() {
    assert_eq!(parse_boolish("yes"), Ok(true));
    assert_eq!(parse_boolish("OFF"), Ok(false));
    for word in ["true", "TRUE", "Yes", "on", "1"] {
        assert_eq!(parse_boolish(word), Ok(true), "{word}");
    }
    for word in ["false", "No", "oFf", "0"] {
        assert_eq!(parse_boolish(word), Ok(false), "{word}");
    }
}

#[test]
fn parse_boolish_rejects_other_words() {
    assert_eq!(parse_boolish("maybe"), Err("value was not a boolean".to_string()));
    assert_eq!(parse_boolish(""), Err("value was not a boolean".to_string()));
    assert_eq!(parse_boolish("yes "), Err("value was not a boolean".to_string()));
}

#[test]
fn classify_boolish_needs_lowercase_input() {
    assert_eq!(classify_boolish("on"), Some(true));
    assert_eq!(classify_boolish("0"), Some(false));
    assert_eq!(classify_boolish("ON"), None);
}

#[test]
fn describe_parse_result_keeps_values_and_renders_errors() {
    assert_eq!(describe_parse_result("42".parse::<u16>()), Ok(42u16));
    assert_eq!(
        describe_parse_result("abc".parse::<u16>()),
        Err("invalid digit found in string".to_string())
    );
}

#[test]
fn option_repr_formats_some_and_keeps_none() {
    assert_eq!(option_repr(Some(8080u16)), Some("8080".to_string()));
    assert_eq!(option_repr(None::<u16>), None);
}

#[test]
fn set_fills_an_empty_cache_once() {
    let mut var = port_var("PORT_SET");
    assert_eq!(var.get(), None);
    assert_eq!(var.set(1), Ok(()));
    assert_eq!(var.set(2), Err(2));
    assert_eq!(var.get(), Some(&1));
}

#[test]
fn set_from_str_caches_the_first_parsed_value() {
    let mut var = port_var("PORT_STR");
    assert!(var.set_from_str("9090").is_ok());
    assert!(var.set_from_str("7070").is_ok());
    assert_eq!(var.get(), Some(&9090));
}

#[test]
fn set_from_str_reports_rejections() {
    let mut var = port_var("PORT_BAD");
    let err = var.set_from_str("not-a-port").unwrap_err();
    assert_eq!(err.name(), "PORT_BAD");
    assert_eq!(err.value(), "not-a-port");
    assert_eq!(err.message(), "invalid digit found in string");
    assert_eq!(err.to_string(), "invalid digit found in string");
    assert_eq!(var.get(), None);
}

#[test]
fn parse_error_converts_into_set_error() {
    let mut var = port_var("PORT_CONVERT");
    let err = var.set_from_str("x").unwrap_err();
    let set_error: SetError = err.into();
    assert_eq!(set_error.message(), "invalid digit found in string");
}

#[test]
fn record_parse_applies_a_given_result() {
    let mut var = port_var("PORT_RECORD");
    let bad = var.record_parse("x", "x".parse::<u16>()).unwrap_err();
    assert_eq!(bad.value(), "x");
    assert_eq!(var.get(), None);
    assert!(var.record_parse("5", Ok(5)).is_ok());
    assert_eq!(var.get(), Some(&5));
}

#[test]
fn set_from_os_str_refuses_invalid_unicode() {
    let mut var = port_var("PORT_OS");
    let err = var.set_from_os_str(&[b'8', 0xff]).unwrap_err();
    assert_eq!(err.name(), "PORT_OS");
    assert_eq!(err.value(), "8\u{FFFD}");
    assert_eq!(err.message(), "value contains invalid unicode");
    assert!(var.set_from_os_str(b"81").is_ok());
    assert_eq!(var.get(), Some(&81));
}

#[test]
fn set_from_env_uses_the_default_when_unset() {
    let mut var = port_var("PORT_UNSET");
    assert!(var.set_from_env(&Env::new()).is_ok());
    assert_eq!(var.get(), Some(&8080));
}

#[test]
fn set_from_env_parses_a_set_variable() {
    let mut var = port_var("PORT_ENV");
    assert!(var.set_from_env(&env_with("PORT_ENV", b"3000")).is_ok());
    assert_eq!(var.get(), Some(&3000));
    let mut bad = port_var("PORT_ENV");
    let err = bad.set_from_env(&env_with("PORT_ENV", b"30x")).unwrap_err();
    assert_eq!(err.value(), "30x");
    assert_eq!(bad.get(), None);
}

#[test]
fn resolve_falls_back_to_the_default() {
    let mut unset = port_var("PORT_LAZY");
    assert_eq!(*unset.resolve(&Env::new()), 8080);
    let mut invalid = port_var("PORT_LAZY");
    assert_eq!(*invalid.resolve(&env_with("PORT_LAZY", b"oops")), 8080);
    let mut not_unicode = port_var("PORT_LAZY");
    assert_eq!(*not_unicode.resolve(&env_with("PORT_LAZY", &[0xfe])), 8080);
    let mut set = port_var("PORT_LAZY");
    assert_eq!(*set.resolve(&env_with("PORT_LAZY", b"1234")), 1234);
}

#[test]
fn resolve_keeps_the_cached_value() {
    let mut var = port_var("PORT_STABLE");
    assert_eq!(*var.resolve(&env_with("PORT_STABLE", b"1")), 1);
    assert_eq!(*var.resolve(&env_with("PORT_STABLE", b"2")), 1);
    assert!(var.set_from_str("3").is_ok());
    assert_eq!(var.get(), Some(&1));
}

#[test]
fn validated_value_is_what_resolve_serves() {
    let mut var = port_var("PORT_SERVED");
    assert!(var.set_from_str("4242").is_ok());
    assert_eq!(*var.resolve(&env_with("PORT_SERVED", b"1")), 4242);
}

#[test]
fn key_and_default_value_are_reported() {
    let var = port_var("PORT_KEY");
    assert_eq!(var.key(), "PORT_KEY");
    assert_eq!(var.default_value(), 8080);
}

#[test]
fn env_later_assignment_wins() {
    let mut env = Env::new();
    assert_eq!(env.get("A"), None);
    env.set("A", b"1".to_vec());
    env.set("B", b"2".to_vec());
    env.set("A", b"3".to_vec());
    assert_eq!(env.get("A"), Some(&b"3"[..]));
    assert_eq!(env.get("B"), Some(&b"2"[..]));
}
