//! The `clap` types that the command-line glue holds and passes on.
use vstd::prelude::*;

verus! {

#[verifier::external_type_specification]
#[verifier::external_body]
pub struct ExClapArg(clap::Arg);

#[verifier::external_type_specification]
#[verifier::external_body]
pub struct ExClapArgMatches(clap::ArgMatches);

#[verifier::external_type_specification]
#[verifier::external_body]
pub struct ExClapCommand(clap::Command);

} // verus!
