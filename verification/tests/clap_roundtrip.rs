//! `enventory`'s arguments render and validate like a hand-written `clap`
//! argument for the same variable.

use std::str::FromStr;
use std::sync::{LazyLock, Mutex};

use clap::Command;
use enventory::{Item, PossibleValue, SetError, Var};

#[derive(Debug, Clone, Copy, PartialEq, Eq)]
enum Color {
    Auto,
    Always,
    Never,
}

impl FromStr for Color {
    type Err = String;
    fn from_str(s: &str) -> Result<Self, Self::Err> {
        match s {
            "auto" => Ok(Color::Auto),
            "always" => Ok(Color::Always),
            "never" => Ok(Color::Never),
            _ => Err(format!("invalid variant: {s}")),
        }
    }
}

// Written by hand: the derive is not available here. The help texts are
// what the derive takes from the variants' doc comments.
impl clap::ValueEnum for Color {
    fn value_variants<'a>() -> &'a [Self] {
        &[Color::Auto, Color::Always, Color::Never]
    }

    fn to_possible_value(&self) -> Option<clap::builder::PossibleValue> {
        Some(match self {
            Color::Auto => clap::builder::PossibleValue::new("auto").help("Auto-detect based on the terminal"),
            Color::Always => clap::builder::PossibleValue::new("always").help("Always emit color codes"),
            Color::Never => clap::builder::PossibleValue::new("never").help("Never emit color codes"),
        })
    }
}

impl std::fmt::Display for Color {
    fn fmt(&self, f: &mut std::fmt::Formatter<'_>) -> std::fmt::Result {
        let name = match self {
            Color::Auto => "auto",
            Color::Always => "always",
            Color::Never => "never",
        };
        name.fmt(f)
    }
}

type ColorVar = Var<Color, String, fn(&str) -> Result<Color, String>, fn() -> Color>;
type Validator = fn(&[u8]) -> Result<(), SetError>;

fn color_default() -> Color {
    Color::Auto
}

static COLOR: LazyLock<Mutex<ColorVar>> = LazyLock::new(|| {
    Mutex::new(Var::new(
        "COLOR",
        <Color as FromStr>::from_str as fn(&str) -> Result<Color, String>,
        color_default as fn() -> Color,
    ))
});

fn color_validator(s: &[u8]) -> Result<(), SetError> {
    COLOR.lock().unwrap().set_from_os_str(s).map_err(Into::into)
}

fn color_item() -> Item<Validator> {
    let key = COLOR.lock().unwrap().key();
    let default = COLOR.lock().unwrap().default_value();
    Item::<Validator>::new(key)
        .with_help("When to use color output")
        .with_default_value(|| Some(format!("{}", default)))
        .with_validator(color_validator)
        .with_possible_values(vec![
            PossibleValue::new("auto").with_help("Auto-detect based on the terminal"),
            PossibleValue::new("always").with_help("Always emit color codes"),
            PossibleValue::new("never").with_help("Never emit color codes"),
        ])
}

fn enventory_color_arg() -> clap::Arg {
    enventory::args(&[color_item()])
        .into_iter()
        .find(|a| a.get_id() == "COLOR")
        .unwrap()
}

fn direct_color_arg() -> clap::Arg {
    clap::Arg::new("COLOR")
        .long("color")
        .env("COLOR")
        .help("When to use color output")
        .default_value("auto")
        .value_parser(clap::builder::EnumValueParser::<Color>::new())
}

fn enventory_color_cmd() -> Command {
    Command::new("test").arg(enventory_color_arg())
}

fn direct_color_cmd() -> Command {
    Command::new("test").arg(direct_color_arg())
}

fn subjects() -> [Command; 2] {
    [enventory_color_cmd(), direct_color_cmd()]
}

const VALID_INPUT: &str = "always";
const INVALID_INPUT: &str = "purple";

#[test]
fn help_long_renders_the_same() {
    let expected = "\
Usage: test [OPTIONS]

Options:
      --color <COLOR>
          When to use color output

          Possible values:
          - auto:   Auto-detect based on the terminal
          - always: Always emit color codes
          - never:  Never emit color codes
          
          [env: COLOR=]
          [default: auto]

  -h, --help
          Print help (see a summary with '-h')
";
    for cmd in subjects() {
        let output = cmd.try_get_matches_from(["test", "--help"]).unwrap_err().to_string();
        assert_eq!(output, expected);
    }
}

#[test]
fn help_short_renders_the_same() {
    let expected = "\
Usage: test [OPTIONS]

Options:
      --color <COLOR>  When to use color output [env: COLOR=] [default: auto] [possible values: auto, always, never]
  -h, --help           Print help (see more with '--help')
";
    for cmd in subjects() {
        let output = cmd.try_get_matches_from(["test", "-h"]).unwrap_err().to_string();
        assert_eq!(output, expected);
    }
}

#[test]
fn invalid_input_yields_same_error_kind() {
    for cmd in subjects() {
        let err = cmd.try_get_matches_from(["test", "--color", INVALID_INPUT]).unwrap_err();
        assert_eq!(format!("{:?}", err.kind()), "InvalidValue");
    }
}

#[test]
fn invalid_input_yields_same_error_message() {
    let expected = "\
error: invalid value 'purple' for '--color <COLOR>'
  [possible values: auto, always, never]

For more information, try '--help'.
";
    for cmd in subjects() {
        let err = cmd.try_get_matches_from(["test", "--color", INVALID_INPUT]).unwrap_err();
        assert_eq!(err.to_string(), expected);
    }
}

// Once validation succeeds the cache is set and subsequent validations will not affect it.
// Consequently we can have at most one happy path test per variable.

#[test]
fn valid_input_parses_to_same_value() {
    let valid_argv = ["test", "--color", VALID_INPUT];

    enventory_color_cmd().try_get_matches_from(valid_argv).unwrap();
    assert_eq!(COLOR.lock().unwrap().get().copied(), Some(Color::Always));

    let direct_matches = direct_color_cmd().try_get_matches_from(valid_argv).unwrap();
    assert_eq!(direct_matches.get_one::<Color>("COLOR"), Some(&Color::Always));
}
