//! One entry of the registry, as the log has left it.

use crate::domain::entries::ledger::EntryView;
use vstd::prelude::*;

verus! {

/// An entry: when it was last changed, what it is for, and its secret as
/// ciphertext. The plaintext is never held.
#[derive(Debug, PartialEq, Eq)]
pub struct EntryModel {
    pub timestamp: u128,
    pub description: String,
    pub secret: Vec<u8>,
}

impl View for EntryModel {
    type V = EntryView;

    open spec fn view(&self) -> EntryView {
        EntryView {
            timestamp: self.timestamp,
            description: self.description@,
            secret: self.secret@,
        }
    }
}

} // verus!
