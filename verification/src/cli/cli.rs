//! The command line as a whole.

use crate::cli::cli_command::CliCommand;
use std::path::PathBuf;
use vstd::prelude::*;

verus! {

/// `std::path::PathBuf`: a path, carried through as it is. Nothing is
/// claimed of what it holds.
#[verifier::external_type_specification]
#[verifier::external_body]
pub struct ExPathBuf(PathBuf);

/// A command together with the options that stand before it.
#[derive(Debug, PartialEq, Eq)]
pub struct Cli {
    /// A storage location of the user's choice.
    pub storage: Option<PathBuf>,
    /// How often debugging was asked for.
    pub debug: u8,
    /// The command.
    pub command: CliCommand,
}

impl Cli {
    /// Where the registry is kept: where the user says, or else at the
    /// usual place, if there is one.
    pub fn storage_or(storage: Option<PathBuf>, usual: Option<PathBuf>) -> (place: Option<PathBuf>)
        ensures
            place == match storage {
                Some(chosen) => Some(chosen),
                None => usual,
            },
    {
        match storage {
            Some(chosen) => Some(chosen),
            None => usual,
        }
    }
}

} // verus!
