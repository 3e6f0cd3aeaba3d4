//! What the registry means: entries, and the ledger that the log folds into.

pub mod entries;
pub mod passwords;
pub mod secrets;
