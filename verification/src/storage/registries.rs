//! The registry image: header, key sections and log.

pub mod key_custodian;
pub mod registry_header;
pub mod registry_repository;

pub use registry_header::RegistryHeader;
pub use registry_repository::RegistryRepository;
