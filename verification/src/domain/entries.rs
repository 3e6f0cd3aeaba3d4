//! Entries and the service that keeps them.

pub mod clock;
pub mod entry_model;
pub mod entry_service;
pub mod entry_table;
pub mod hash_chain;
pub mod ledger;

pub use entry_model::EntryModel;
pub use entry_service::EntryService;
