//! The same environment variable registered twice with conflicting
//! descriptions is refused.

use std::num::ParseIntError;
use std::str::FromStr;
use std::sync::{LazyLock, Mutex};

use enventory::{Item, SetError, Var};

type PortVar = Var<u16, ParseIntError, fn(&str) -> Result<u16, ParseIntError>, fn() -> u16>;
type Validator = fn(&[u8]) -> Result<(), SetError>;

fn port_default() -> u16 {
    8080
}

static PORT: LazyLock<Mutex<PortVar>> = LazyLock::new(|| {
    Mutex::new(Var::new(
        "ENVENTORY_TEST_DUPLICATE_DIFFERENT_PORT",
        u16::from_str as fn(&str) -> Result<u16, ParseIntError>,
        port_default as fn() -> u16,
    ))
});

fn port_validator(s: &[u8]) -> Result<(), SetError> {
    PORT.lock().unwrap().set_from_os_str(s).map_err(Into::into)
}

fn registrations() -> Vec<Item<Validator>> {
    let key = PORT.lock().unwrap().key();
    let default = PORT.lock().unwrap().default_value();
    vec![
        Item::<Validator>::new(key)
            .with_help("Port to listen on")
            .with_default_value(|| Some(default.to_string()))
            .with_validator(port_validator),
        Item::<Validator>::new(key)
            .with_help("HTTP listen port, defaults to 8080")
            .with_default_value(|| Some(default.to_string()))
            .with_validator(port_validator),
    ]
}

const CONFLICT: &str = "conflicting registrations for environment variable \
'ENVENTORY_TEST_DUPLICATE_DIFFERENT_PORT': two or more libraries registered it with different \
configurations";

#[test]
#[should_panic(
    expected = "conflicting registrations for environment variable 'ENVENTORY_TEST_DUPLICATE_DIFFERENT_PORT'"
)]
fn set_all_from_env_rejects_conflicting_registrations_by_default() {
    let items = registrations();
    match enventory::validation::set_all_from_env_checked(&items, &enventory::Env::new()) {
        Err(enventory::validation::RegistryError::Conflict(conflict)) => {
            // Plain `assert!` with its own message, so that a wrong text
            // cannot satisfy `should_panic` through the assertion's report.
            assert!(conflict.name() == "ENVENTORY_TEST_DUPLICATE_DIFFERENT_PORT", "wrong variable named");
            assert!(conflict.message() == CONFLICT, "wrong conflict text");
            panic!("{}", conflict.message());
        }
        _ => {}
    }
}

#[test]
#[should_panic(
    expected = "conflicting registrations for environment variable 'ENVENTORY_TEST_DUPLICATE_DIFFERENT_PORT'"
)]
fn try_parse_from_env_args_rejects_conflicting_registrations_by_default() {
    let items = registrations();
    match enventory::cli::args_checked(&items) {
        Err(conflict) => {
            assert!(conflict.name() == "ENVENTORY_TEST_DUPLICATE_DIFFERENT_PORT", "wrong variable named");
            assert!(conflict.message() == CONFLICT, "wrong conflict text");
            panic!("{}", conflict.message());
        }
        Ok(args) => {
            let _ = clap::Command::new("test").args(args).try_get_matches_from(["test"]);
        }
    }
}
