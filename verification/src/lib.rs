//! An encrypted, append-only secret registry.
//!
//! A registry is one byte image: a fixed-size header, the public key, the
//! password-sealed private key, and a hash-chained log of operations. The
//! current entries are never stored; they are the fold of the log.

pub mod cli;
pub mod domain;
pub mod errors;
pub mod storage;
