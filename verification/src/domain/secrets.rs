//! Secrets made up for the user.

pub mod generator;

pub use generator::generate;
