//! Registered items, eager validation and the consistency check.

use std::sync::Mutex;

use enventory::validation::{check_consistency, possible_values_equivalent};
use enventory::{set_all_from_env, Env, Item, PossibleValue, SetError, ValidationErrors};

type Validator = fn(&[u8]) -> Result<(), SetError>;

static SEEN: Mutex<Vec<String>> = Mutex::new(Vec::new());

fn recording_validator(s: &[u8]) -> Result<(), SetError> {
    let text = String::from_utf8_lossy(s).into_owned();
    SEEN.lock().unwrap().push(text.clone());
    if text.parse::<u32>().is_ok() {
        Ok(())
    } else {
        Err(SetError::new(format!("{text} is not a number")))
    }
}

fn seen() -> Vec<String> {
    SEEN.lock().unwrap().drain(..).collect()
}

fn env_of(pairs: &[(&str, &str)]) -> Env {
    let mut env = Env::new();
    for (k, v) in pairs {
        env.set(k, v.as_bytes().to_vec());
    }
    env
}

#[test]
fn possible_value_builder_and_getters() {
    let plain = PossibleValue::new("auto");
    assert_eq!(plain.name(), "auto");
    assert_eq!(plain.help(), None);
    let helped = plain.with_help("Pick automatically");
    assert_eq!(helped.name(), "auto");
    assert_eq!(helped.help(), Some("Pick automatically"));
}

#[test]
fn item_builder_and_getters() {
    let item = Item::<Validator>::new("COLOR");
    assert_eq!(item.key(), "COLOR");
    assert_eq!(item.help(), None);
    assert_eq!(item.default_value(), None);
    assert!(item.possible_values().is_none());
    assert!(item.validate(b"anything").is_ok());

    let item = item
        .with_help("When to use color")
        .with_default_value(|| Some("auto".to_string()))
        .with_possible_values(vec![PossibleValue::new("auto")])
        .with_validator(recording_validator);
    assert_eq!(item.help(), Some("When to use color"));
    assert_eq!(item.default_value(), Some("auto".to_string()));
    assert_eq!(item.possible_values().map(|p| p.len()), Some(1));
    assert_eq!(item.validate(b"12").map_err(|e| e.message().to_string()), Ok(()));
    assert_eq!(
        item.validate(b"x").map_err(|e| e.message().to_string()),
        Err("x is not a number".to_string())
    );
    seen();
}

#[test]
fn possible_values_equivalence_compares_fields() {
    let a = [PossibleValue::new("a").with_help("first"), PossibleValue::new("b")];
    let same = [PossibleValue::new("a").with_help("first"), PossibleValue::new("b")];
    let other_help = [PossibleValue::new("a"), PossibleValue::new("b")];
    let shorter = [PossibleValue::new("a").with_help("first")];
    assert!(possible_values_equivalent(None, None));
    assert!(possible_values_equivalent(Some(&a), Some(&same)));
    assert!(!possible_values_equivalent(Some(&a), Some(&other_help)));
    assert!(!possible_values_equivalent(Some(&a), Some(&shorter)));
    assert!(!possible_values_equivalent(None, Some(&[])));
    assert!(possible_values_equivalent(Some(&[]), Some(&[])));
}

#[test]
fn identical_duplicates_are_consistent() {
    let items = vec![
        Item::<Validator>::new("A").with_help("h"),
        Item::<Validator>::new("B"),
        Item::<Validator>::new("A").with_help("h"),
    ];
    assert!(check_consistency(&items).is_ok());
}

#[test]
fn conflicting_duplicates_are_reported() {
    let items = vec![
        Item::<Validator>::new("A").with_default_value(|| Some("1".to_string())),
        Item::<Validator>::new("B"),
        Item::<Validator>::new("B"),
        Item::<Validator>::new("A").with_default_value(|| Some("2".to_string())),
    ];
    let conflict = check_consistency(&items).unwrap_err();
    assert_eq!(conflict.name(), "A");
    assert_eq!(
        conflict.message(),
        "conflicting registrations for environment variable 'A': two or more libraries registered it with different configurations"
    );
}

#[test]
fn set_all_from_env_validates_each_variable_once() {
    seen();
    let items = vec![
        Item::<Validator>::new("N").with_validator(recording_validator),
        Item::<Validator>::new("D")
            .with_default_value(|| Some("7".to_string()))
            .with_validator(recording_validator),
        Item::<Validator>::new("SKIPPED").with_validator(recording_validator),
        Item::<Validator>::new("N").with_validator(recording_validator),
    ];
    assert!(set_all_from_env(&items, &env_of(&[("N", "5")])).is_ok());
    assert_eq!(seen(), vec!["5".to_string(), "7".to_string()]);
}

#[test]
fn set_all_from_env_collects_every_rejection_in_order() {
    seen();
    let items = vec![
        Item::<Validator>::new("X").with_validator(recording_validator),
        Item::<Validator>::new("Y").with_validator(recording_validator),
        Item::<Validator>::new("Z").with_validator(recording_validator),
    ];
    let errors = set_all_from_env(&items, &env_of(&[("X", "a"), ("Y", "1"), ("Z", "b")]))
        .unwrap_err();
    let messages: Vec<&str> = errors.errors.iter().map(|e| e.message()).collect();
    assert_eq!(messages, vec!["a is not a number", "b is not a number"]);
    assert_eq!(
        errors.to_string(),
        "Environment variable validation failed:\n  - a is not a number\n  - b is not a number\n"
    );
    seen();
}

#[test]
fn validation_errors_report_lists_each_error() {
    let errors = ValidationErrors {
        errors: vec![SetError::new("first".to_string()), SetError::new("second".to_string())],
    };
    assert_eq!(
        errors.to_string(),
        "Environment variable validation failed:\n  - first\n  - second\n"
    );
    let none = ValidationErrors { errors: Vec::new() };
    assert_eq!(none.to_string(), "Environment variable validation failed:\n");
}
