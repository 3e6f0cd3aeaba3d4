//! The commands.

use vstd::prelude::*;

verus! {

/// One command of the command line, with its arguments as they were given.
#[derive(Debug, PartialEq, Eq)]
#[allow(inconsistent_fields)]
pub enum CliCommand {
    /// Initialize a secret registry.
    Init { name: Option<String>, password: Option<String> },
    /// List the entries.
    Ls {  },
    /// Copy an entry's secret to the clipboard.
    Copy { name: String, password: Option<String> },
    /// Display an entry with its secret.
    Show { name: String, password: Option<String>, copy: bool },
    /// Add an entry.
    Add {
        name: String,
        description: Option<String>,
        secret: Option<String>,
        generate: Option<String>,
        copy: bool,
    },
    /// Change an entry.
    Update {
        name: String,
        new_name: Option<String>,
        description: Option<String>,
        secret: Option<String>,
        generate: Option<String>,
        copy: bool,
    },
    /// Delete an entry.
    Del { name: String },
}

/// What a command needs of the registry.
#[derive(Clone, Copy, Debug, PartialEq, Eq, Structural)]
pub enum Access {
    /// The registry is yet to be made.
    Create,
    /// The registry is opened without its password: secrets go in, none
    /// comes out.
    Encrypt,
    /// The registry is opened with its password.
    Decrypt,
}

impl CliCommand {
    /// What the command needs of the registry: only a command that hands a
    /// secret out needs the password.
    pub open spec fn spec_access(&self) -> Access {
        match *self {
            CliCommand::Init { .. } => Access::Create,
            CliCommand::Copy { .. } => Access::Decrypt,
            CliCommand::Show { .. } => Access::Decrypt,
            _ => Access::Encrypt,
        }
    }

    /// What the command needs of the registry.
    #[verifier::when_used_as_spec(spec_access)]
    pub fn access(&self) -> (access: Access)
        ensures
            access == self.spec_access(),
    {
        match self {
            CliCommand::Init { .. } => Access::Create,
            CliCommand::Copy { .. } => Access::Decrypt,
            CliCommand::Show { .. } => Access::Decrypt,
            _ => Access::Encrypt,
        }
    }
}

} // verus!
