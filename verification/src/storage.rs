//! The on-disk format: byte-level fields, log records, header and registry.

pub mod entries;
pub mod little_endian;
pub mod registries;
pub mod wire;
