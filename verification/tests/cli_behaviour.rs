//! Planning and building command-line arguments, and applying matches.

use std::sync::Mutex;

use clap::Command;
use enventory::cli::{
    applied_value, arg_specs, check_value, ValueOrigin,
};
use enventory::text::{long_flag, normalize_doc, str_less, trim_str};
use enventory::{apply_matches, apply_matches_for, args, Item, PossibleValue, SetError};

type Validator = fn(&[u8]) -> Result<(), SetError>;

static APPLIED: Mutex<Vec<String>> = Mutex::new(Vec::new());

fn even_validator(s: &[u8]) -> Result<(), SetError> {
    let text = String::from_utf8_lossy(s).into_owned();
    APPLIED.lock().unwrap().push(text.clone());
    match text.parse::<u32>() {
        Ok(n) if n % 2 == 0 => Ok(()),
        _ => Err(SetError::new(format!("{text} is not even"))),
    }
}

fn applied() -> Vec<String> {
    APPLIED.lock().unwrap().drain(..).collect()
}

#[test]
fn long_flag_lowercases_and_dashes() {
    assert_eq!(long_flag("MY_PORT"), "my-port");
    assert_eq!(long_flag("A_B_C"), "a-b-c");
    assert_eq!(long_flag("plain"), "plain");
}

#[test]
fn normalize_doc_strips_rustdoc_indentation() {
    assert_eq!(normalize_doc(" Port to listen on\n"), "Port to listen on");
    assert_eq!(normalize_doc(" first\n second\n"), "first\nsecond");
    assert_eq!(normalize_doc(" a\r\n b"), "a\nb");
    assert_eq!(normalize_doc("  two spaces"), "two spaces");
    assert_eq!(normalize_doc(""), "");
    assert_eq!(normalize_doc("\n\n"), "");
    assert_eq!(normalize_doc(" x\r"), "x");
}

#[test]
fn trim_str_drops_surrounding_white_space() {
    assert_eq!(trim_str("  hi \t\n"), "hi");
    assert_eq!(trim_str("   "), "");
}

#[test]
fn str_less_orders_by_code_point() {
    assert!(str_less("A", "B"));
    assert!(str_less("AB", "ABC"));
    assert!(!str_less("ABC", "AB"));
    assert!(!str_less("X", "X"));
    assert!(str_less("Z", "a"));
}

#[test]
fn arg_specs_are_sorted_and_unique() {
    let items = vec![
        Item::<Validator>::new("ZED_VALUE").with_help(" Last one\n"),
        Item::<Validator>::new("ALPHA").with_default_value(|| Some("1".to_string())),
        Item::<Validator>::new("ZED_VALUE").with_help("Duplicate"),
        Item::<Validator>::new("MIDDLE").with_help("   "),
    ];
    let specs = arg_specs(&items);
    let ids: Vec<&str> = specs.iter().map(|s| s.id()).collect();
    assert_eq!(ids, vec!["ALPHA", "MIDDLE", "ZED_VALUE"]);
    assert_eq!(specs[0].long(), "alpha");
    assert_eq!(specs[0].default_value(), Some("1"));
    assert_eq!(specs[0].help(), None);
    assert_eq!(specs[0].source(), 1);
    assert_eq!(specs[1].help(), None);
    assert_eq!(specs[2].long(), "zed-value");
    assert_eq!(specs[2].help(), Some("Last one"));
    assert_eq!(specs[2].source(), 0);
}

#[test]
fn args_follow_the_plan() {
    let items = vec![
        Item::<Validator>::new("B_VAR"),
        Item::<Validator>::new("A_VAR").with_help("The a variable"),
    ];
    let built = args(&items);
    let ids: Vec<String> = built.iter().map(|a| a.get_id().to_string()).collect();
    assert_eq!(ids, vec!["A_VAR".to_string(), "B_VAR".to_string()]);
    assert_eq!(built[0].get_long(), Some("a-var"));
}

#[test]
fn check_value_runs_the_validator() {
    let validator: Option<Validator> = Some(even_validator);
    assert_eq!(check_value(&validator, "4"), Ok("4".to_string()));
    assert_eq!(check_value(&validator, "3"), Err("3 is not even".to_string()));
    assert_eq!(check_value(&None::<Validator>, "x"), Ok("x".to_string()));
    applied();
}

#[test]
fn applied_value_skips_defaults_and_unknown_arguments() {
    let v = Some("7".to_string());
    assert_eq!(applied_value(true, Some(ValueOrigin::CommandLine), v.clone()), v);
    assert_eq!(applied_value(true, Some(ValueOrigin::EnvVariable), v.clone()), v);
    assert_eq!(applied_value(true, Some(ValueOrigin::DefaultValue), v.clone()), None);
    assert_eq!(applied_value(true, None, v.clone()), None);
    assert_eq!(applied_value(false, Some(ValueOrigin::CommandLine), v), None);
}

#[test]
fn value_parser_validates_and_rejects() {
    applied();
    let items = vec![Item::<Validator>::new("EVEN").with_validator(even_validator)];
    let cmd = Command::new("test").args(args(&items));
    assert!(cmd.clone().try_get_matches_from(["test", "--even", "4"]).is_ok());
    assert_eq!(applied(), vec!["4".to_string()]);
    let err = cmd.try_get_matches_from(["test", "--even", "5"]).unwrap_err();
    assert_eq!(format!("{:?}", err.kind()), "ValueValidation");
    assert!(err.to_string().contains("5 is not even"));
    applied();
}

#[test]
fn apply_matches_validates_explicit_values_only() {
    applied();
    let items = vec![
        Item::<Validator>::new("GIVEN").with_validator(even_validator),
        Item::<Validator>::new("DEFAULTED")
            .with_default_value(|| Some("2".to_string()))
            .with_validator(even_validator),
        Item::<Validator>::new("GIVEN").with_validator(even_validator),
    ];
    let mut cmd = Command::new("test").args(args(&items));
    let matches = cmd.clone().try_get_matches_from(["test", "--given", "8"]).unwrap();
    applied();
    let results = apply_matches(&matches, &items);
    assert_eq!(results.len(), 3);
    assert!(results.iter().all(|r| r.is_ok()));
    assert_eq!(applied(), vec!["8".to_string()]);
    let results = apply_matches_for(&mut cmd, &matches, &items);
    assert_eq!(results.len(), 3);
    assert!(results.iter().all(|r| r.is_ok()));
    assert_eq!(applied(), vec!["8".to_string()]);
}

#[test]
fn apply_matches_reports_each_validator_result() {
    applied();
    let items = vec![
        Item::<Validator>::new("ODD_ONE").with_validator(even_validator),
        Item::<Validator>::new("NOT_IN_MATCHES").with_validator(even_validator),
        Item::<Validator>::new("UNCHECKED"),
    ];
    // Hand-written arguments without value parsers, so that the rejected
    // value reaches the validator only through `apply_matches`.
    let cmd = Command::new("test")
        .arg(clap::Arg::new("ODD_ONE").long("odd-one"))
        .arg(clap::Arg::new("UNCHECKED").long("unchecked"));
    let matches = cmd.try_get_matches_from(["test", "--odd-one", "3", "--unchecked", "x"]).unwrap();
    let results = apply_matches(&matches, &items);
    assert_eq!(results.len(), 3);
    assert_eq!(results[0].as_ref().unwrap_err().message(), "3 is not even");
    assert!(results[1].is_ok());
    assert!(results[2].is_ok());
    assert_eq!(applied(), vec!["3".to_string()]);
}

#[test]
fn possible_values_are_enforced() {
    let items = vec![Item::<Validator>::new("MODE").with_possible_values(vec![
        PossibleValue::new("fast"),
        PossibleValue::new("slow"),
    ])];
    let cmd = Command::new("test").args(args(&items));
    assert!(cmd.clone().try_get_matches_from(["test", "--mode", "fast"]).is_ok());
    let err = cmd.try_get_matches_from(["test", "--mode", "medium"]).unwrap_err();
    assert_eq!(format!("{:?}", err.kind()), "InvalidValue");
}

#[test]
fn args_carry_the_planned_settings() {
    let items = vec![
        Item::<Validator>::new("COLOR_MODE")
            .with_help(" When to color\n")
            .with_default_value(|| Some("auto".to_string()))
            .with_possible_values(vec![
                PossibleValue::new("auto").with_help("Detect"),
                PossibleValue::new("never"),
            ]),
        Item::<Validator>::new("PLAIN"),
    ];
    let built = args(&items);
    let color = &built[0];
    assert_eq!(color.get_id().as_str(), "COLOR_MODE");
    assert_eq!(color.get_long(), Some("color-mode"));
    assert_eq!(color.get_env().and_then(|e| e.to_str()), Some("COLOR_MODE"));
    let defaults: Vec<&str> = color.get_default_values().iter().filter_map(|d| d.to_str()).collect();
    assert_eq!(defaults, vec!["auto"]);
    assert_eq!(color.get_help().map(|h| h.ansi().to_string()), Some("When to color".to_string()));
    let listed: Vec<(String, Option<String>)> = color
        .get_value_parser()
        .possible_values()
        .map(|pvs| pvs.map(|p| (p.get_name().to_string(), p.get_help().map(|h| h.ansi().to_string()))).collect())
        .unwrap_or_default();
    assert_eq!(
        listed,
        vec![("auto".to_string(), Some("Detect".to_string())), ("never".to_string(), None)]
    );
    let plain = &built[1];
    assert_eq!(plain.get_id().as_str(), "PLAIN");
    assert_eq!(plain.get_env().and_then(|e| e.to_str()), Some("PLAIN"));
    assert!(plain.get_default_values().is_empty());
    assert!(plain.get_help().is_none());
    assert!(plain.get_value_parser().possible_values().is_none());
}

#[test]
fn checked_entry_points_build_and_validate_consistent_registrations() {
    applied();
    let items = vec![
        Item::<Validator>::new("EVEN_TOO").with_help("Even").with_validator(even_validator),
        Item::<Validator>::new("EVEN_TOO").with_help("Even").with_validator(even_validator),
    ];
    let built = enventory::cli::args_checked(&items).ok().unwrap();
    assert_eq!(built.len(), 1);
    assert_eq!(built[0].get_id().as_str(), "EVEN_TOO");
    let mut env = enventory::Env::new();
    env.set("EVEN_TOO", b"7".to_vec());
    match enventory::validation::set_all_from_env_checked(&items, &env) {
        Err(enventory::validation::RegistryError::Invalid(errors)) => {
            assert_eq!(errors.errors.len(), 1);
            assert_eq!(errors.errors[0].message(), "7 is not even");
        }
        _ => panic!("expected the rejection of 7"),
    }
    assert_eq!(applied(), vec!["7".to_string()]);
}
