//! A typed, self-documenting environment-variable registry.
//!
//! Libraries declare typed variables ([`Var`]) that are parsed once and
//! cached, and register a description of each ([`Item`]). Binaries validate
//! every registered variable eagerly ([`set_all_from_env`]) or expose them
//! as command-line options with an environment fallback ([`args`],
//! [`apply_matches`]).
use vstd::prelude::*;

mod clap_types;
pub mod cli;
pub mod env;
pub mod registry;
pub mod text;
pub mod typed;
pub mod validation;
pub mod var;

pub use cli::{apply_matches, apply_matches_for, args, EnvArgs};
pub use env::Env;
pub use registry::{Item, PossibleValue, SetError};
pub use validation::{set_all_from_env, ValidationErrors};
pub use var::{option_repr, parse_boolish, ParseError, Var};

verus! {

} // verus!
