//! Where the registry's password comes from.

pub mod ensure_password;

pub use ensure_password::{ensure_new_password, ensure_password};
