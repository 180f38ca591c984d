//! Typed items initialized through registration entries.

use std::sync::Mutex;

use clap::Command;
use enventory::typed::{
    apply_matches, apply_matches_for, args, check_consistency,
    entry_arg_specs, first_entry, parse_boolish, validate_all, Item, ItemEntry, ParseError,
    ValidationErrors,
};
use enventory::Env;

type Parser = fn(&str) -> Result<u16, String>;
type Default = fn() -> u16;
type Init = fn(Option<&str>) -> Result<(), ParseError>;

fn parse_port(s: &str) -> Result<u16, String> {
    s.parse::<u16>().map_err(|e| e.to_string())
}

fn default_port() -> u16 {
    8080
}

fn port_item(name: &'static str) -> Item<u16, Parser, Default> {
    Item::new(name, "u16", default_port as Default, parse_port as Parser)
}

static INITS: Mutex<Vec<Option<String>>> = Mutex::new(Vec::new());

fn recording_init(v: Option<&str>) -> Result<(), ParseError> {
    INITS.lock().unwrap().push(v.map(|s| s.to_string()));
    match v {
        Some("bad") => Err(ParseError {
            name: "PORT",
            value_type: "u16",
            value: "bad".to_string(),
            message: "invalid digit found in string".to_string(),
        }),
        _ => Ok(()),
    }
}

fn failing_init(_: Option<&str>) -> Result<(), ParseError> {
    Err(ParseError {
        name: "BROKEN",
        value_type: "bool",
        value: "x".to_string(),
        message: "nope".to_string(),
    })
}

fn inits() -> Vec<Option<String>> {
    INITS.lock().unwrap().drain(..).collect()
}

fn entry(name: &'static str, description: &'static str, crate_name: &'static str, init: Init) -> ItemEntry<Init> {
    ItemEntry { name, description, value_type: "u16", default_repr: "8080", crate_name, init }
}

fn env_with(key: &str, value: &[u8]) -> Env {
    let mut env = Env::new();
    env.set(key, value.to_vec());
    env
}

#[test]
fn typed_parse_boolish_quotes_rejected_input() {
    assert_eq!(parse_boolish("On"), Ok(true));
    assert_eq!(parse_boolish("0"), Ok(false));
    assert_eq!(
        parse_boolish("maybe"),
        Err("expected a boolean (true/false/yes/no/on/off/1/0), got 'maybe'".to_string())
    );
}

#[test]
fn init_prefers_the_override_value() {
    let mut item = port_item("PORT_OVERRIDE");
    assert_eq!(item.name(), "PORT_OVERRIDE");
    assert!(item.init(Some("1111"), &env_with("PORT_OVERRIDE", b"2222")).is_ok());
    assert_eq!(item.get(), Some(&1111));
}

#[test]
fn init_reads_the_environment() {
    let mut item = port_item("PORT_TYPED_ENV");
    assert!(item.init(None, &env_with("PORT_TYPED_ENV", b"2222")).is_ok());
    assert_eq!(item.get(), Some(&2222));
    let mut unset = port_item("PORT_TYPED_ENV");
    assert!(unset.init(None, &Env::new()).is_ok());
    assert_eq!(unset.get(), Some(&8080));
}

#[test]
fn init_reports_rejections() {
    let mut item = port_item("PORT_TYPED_BAD");
    let err = item.init(Some("x1"), &Env::new()).unwrap_err();
    assert_eq!(err.name, "PORT_TYPED_BAD");
    assert_eq!(err.value_type, "u16");
    assert_eq!(err.value, "x1");
    assert_eq!(err.message, "invalid digit found in string");
    assert_eq!(
        err.to_string(),
        "PORT_TYPED_BAD=\"x1\": failed to parse as u16: invalid digit found in string"
    );
    assert_eq!(item.get(), None);
}

#[test]
fn init_refuses_invalid_unicode() {
    let mut item = port_item("PORT_TYPED_UNICODE");
    let err = item.init(None, &env_with("PORT_TYPED_UNICODE", &[0xff])).unwrap_err();
    assert_eq!(err.value, "<invalid unicode>");
    assert_eq!(err.message, "environment variable contains invalid unicode");
}

#[test]
fn init_keeps_a_cached_value() {
    let mut item = port_item("PORT_TYPED_CACHE");
    assert!(item.init(Some("1"), &Env::new()).is_ok());
    assert!(item.init(Some("2"), &Env::new()).is_ok());
    assert_eq!(item.get(), Some(&1));
}

#[test]
fn typed_resolve_uses_env_or_default() {
    let mut set = port_item("PORT_TYPED_LAZY");
    assert_eq!(*set.resolve(&env_with("PORT_TYPED_LAZY", b"77")), 77);
    let mut bad = port_item("PORT_TYPED_LAZY");
    assert_eq!(*bad.resolve(&env_with("PORT_TYPED_LAZY", b"x")), 8080);
}

#[test]
fn typed_validation_errors_report() {
    let errors = ValidationErrors {
        errors: vec![ParseError {
            name: "PORT",
            value_type: "u16",
            value: "a\"b".to_string(),
            message: "bad".to_string(),
        }],
    };
    assert_eq!(
        errors.to_string(),
        "Environment variable validation failed:\n  - PORT=\"a\\\"b\": failed to parse as u16: bad\n"
    );
}

#[test]
fn entry_conflicts_name_both_crates() {
    let entries = vec![
        entry("PORT", "Port", "lib-a", recording_init),
        entry("PORT", "Port", "lib-b", recording_init),
        entry("PORT", "Another port", "lib-c", recording_init),
    ];
    let conflict = check_consistency(&entries).unwrap_err();
    assert_eq!(
        conflict.message(),
        "conflicting registrations for environment variable 'PORT': registered by 'lib-a' and 'lib-c' with different configurations"
    );
    assert!(check_consistency(&entries[..2]).is_ok());
    assert!(first_entry(&entries, 0));
    assert!(!first_entry(&entries, 1));
}

#[test]
fn validate_all_initializes_each_variable_once() {
    inits();
    let entries = vec![
        entry("PORT", "Port", "lib-a", recording_init),
        entry("PORT", "Port", "lib-b", recording_init),
        entry("OTHER", "Other", "lib-a", recording_init),
    ];
    assert!(validate_all(&entries).is_ok());
    assert_eq!(inits(), vec![None, None]);
}

#[test]
fn validate_all_collects_failures() {
    let entries = vec![
        entry("BROKEN", "", "lib", failing_init),
        entry("FINE", "", "lib", recording_init),
    ];
    let errors = validate_all(&entries).unwrap_err();
    assert_eq!(errors.errors.len(), 1);
    assert_eq!(errors.errors[0].name, "BROKEN");
    inits();
}

#[test]
fn entry_args_use_the_default_repr_and_trimmed_description() {
    let entries = vec![
        entry("SECOND_VAR", "  Second variable \n", "lib", recording_init),
        entry("FIRST", "", "lib", recording_init),
    ];
    let specs = entry_arg_specs(&entries);
    let ids: Vec<&str> = specs.iter().map(|s| s.id()).collect();
    assert_eq!(ids, vec!["FIRST", "SECOND_VAR"]);
    assert_eq!(specs[0].help(), None);
    assert_eq!(specs[0].default_value(), Some("8080"));
    assert_eq!(specs[1].help(), Some("Second variable"));
    assert_eq!(specs[1].long(), "second-var");
    assert_eq!(args(&entries).len(), 2);
}

#[test]
fn entry_apply_matches_initializes_and_reports() {
    inits();
    let entries = vec![entry("PORT_CLI", "Port", "lib", recording_init)];
    let mut cmd = Command::new("test").args(args(&entries));
    let matches = cmd.clone().try_get_matches_from(["test", "--port-cli", "9"]).unwrap();
    assert!(apply_matches(&matches, &entries).is_ok());
    assert_eq!(inits(), vec![Some("9".to_string())]);

    let defaulted = cmd.clone().try_get_matches_from(["test"]).unwrap();
    assert!(apply_matches(&defaulted, &entries).is_ok());
    assert_eq!(inits(), Vec::<Option<String>>::new());

    let bad = cmd.clone().try_get_matches_from(["test", "--port-cli", "bad"]).unwrap();
    let err = apply_matches_for(&mut cmd, &bad, &entries).unwrap_err();
    assert_eq!(
        err.message(),
        "PORT=\"bad\": failed to parse as u16: invalid digit found in string\n"
    );
    inits();
}

#[test]
fn entry_apply_matches_skips_unknown_arguments() {
    inits();
    let entries = vec![entry("PORT_ELSEWHERE", "Port", "lib", recording_init)];
    let matches = Command::new("test").try_get_matches_from(["test"]).unwrap();
    assert!(apply_matches(&matches, &entries).is_ok());
    assert_eq!(inits(), Vec::<Option<String>>::new());
}
