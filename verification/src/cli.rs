//! The commands of the command line, and what each of them comes to.

pub mod cli;
pub mod cli_command;
pub mod session;

pub use cli::Cli;
pub use cli_command::CliCommand;
