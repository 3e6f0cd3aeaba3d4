//! The operations that the log records.

pub mod entry_operation_dto;

pub use entry_operation_dto::EntryOperationDto;
