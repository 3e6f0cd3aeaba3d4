//! The failures the registry reports.

use vstd::prelude::*;

verus! {

/// The way in which a log contradicts the entries it has built so far.
#[derive(Clone, Copy, Debug, PartialEq, Eq, Structural)]
pub enum LogFault {
    /// An `Add` names an entry that already exists.
    DuplicateAdd,
    /// A `Set` or a `Del` names an entry that does not exist.
    MissingEntry,
}

/// Every failure of the registry, as a value handed back to the caller.
#[derive(Clone, Copy, Debug, PartialEq, Eq, Structural)]
pub enum RegistryError {
    /// The image is shorter than the fixed header.
    TruncatedHeader,
    /// The image ends in the middle of a log record.
    TruncatedRecord,
    /// A log record starts with a code that names no operation.
    UnknownOperationCode,
    /// A length prefix below -1, a required field marked absent, or text
    /// that is not UTF-8.
    MalformedField,
    /// A field or key section is longer than a 32-bit length prefix can
    /// say, or a secret is longer than any field that could hold it.
    FieldTooLarge,
    /// The password is longer than the sealing cipher takes: more than
    /// 4294967295 bytes.
    PasswordTooLong,
    /// The sealed private key does not open under the given password.
    WrongPassword,
    /// The key sections are missing, cut short, or rejected by the cipher.
    CorruptKeyMaterial,
    /// Replay met a record that contradicts the state built so far.
    CorruptLog(LogFault),
    /// The system clock stands before 1970, so that no timestamp can be taken.
    ClockBeforeEpoch,
    /// A mutation names an entry that does not exist.
    EntryNotFound,
    /// An addition names an entry that already exists.
    EntryAlreadyExists,
}

} // verus!
