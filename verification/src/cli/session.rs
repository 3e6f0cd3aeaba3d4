//! What the commands come to, short of reading and writing.

use crate::domain::entries::entry_service::EntryService;
use crate::domain::entries::entry_table::{lemma_row, lemma_rows_len};
use crate::domain::entries::ledger::LedgerState;
use crate::storage::registries::key_custodian::decryption;
use crate::storage::wire::{option_string, option_vec, string_from_utf8};
use vstd::prelude::*;
use vstd::utf8::*;

verus! {

/// Where the secret of an addition or an update comes from.
#[derive(Debug, PartialEq, Eq)]
pub enum SecretSource {
    /// The secret was given on the command line.
    Given(String),
    /// The secret is to be made up after this format.
    Generate(String),
    /// There is no new secret.
    Keep,
}

/// The source as a mathematical value.
pub enum SecretSourceView {
    Given(Seq<char>),
    Generate(Seq<char>),
    Keep,
}

impl View for SecretSource {
    type V = SecretSourceView;

    open spec fn view(&self) -> SecretSourceView {
        match *self {
            SecretSource::Given(secret) => SecretSourceView::Given(secret@),
            SecretSource::Generate(format) => SecretSourceView::Generate(format@),
            SecretSource::Keep => SecretSourceView::Keep,
        }
    }
}

/// Where the secret comes from: a secret that is given goes before a
/// format to make one up.
pub fn secret_source(secret: Option<String>, generate: Option<String>) -> (source: SecretSource)
    ensures
        source@ == match (option_string(secret), option_string(generate)) {
            (Some(given), _) => SecretSourceView::Given(given),
            (None, Some(format)) => SecretSourceView::Generate(format),
            (None, None) => SecretSourceView::Keep,
        },
{
    match secret {
        Some(given) => SecretSource::Given(given),
        None => match generate {
            Some(format) => SecretSource::Generate(format),
            None => SecretSource::Keep,
        },
    }
}

/// What comes of looking a secret up.
#[derive(Debug, PartialEq, Eq)]
pub enum Shown {
    /// The entry and its secret in the clear.
    Secret { description: String, secret: String },
    /// The entry is there, but its secret does not decrypt.
    Undecryptable,
    /// The secret decrypts, but to bytes that are no text.
    NotText,
    /// No entry stands under the name.
    Missing,
}

/// The outcome as a mathematical value.
pub enum ShownView {
    Secret { description: Seq<char>, secret: Seq<char> },
    Undecryptable,
    NotText,
    Missing,
}

impl View for Shown {
    type V = ShownView;

    open spec fn view(&self) -> ShownView {
        match *self {
            Shown::Secret { description, secret } => ShownView::Secret {
                description: description@,
                secret: secret@,
            },
            Shown::Undecryptable => ShownView::Undecryptable,
            Shown::NotText => ShownView::NotText,
            Shown::Missing => ShownView::Missing,
        }
    }
}

/// What is shown of an entry with this description, given what its secret
/// decrypted to.
pub open spec fn shown(description: Seq<char>, plaintext: Option<Seq<u8>>) -> ShownView {
    match plaintext {
        None => ShownView::Undecryptable,
        Some(bytes) => if valid_utf8(bytes) {
            ShownView::Secret { description, secret: decode_utf8(bytes) }
        } else {
            ShownView::NotText
        },
    }
}

/// What comes of looking a name up in a ledger, with or without the
/// private key.
pub open spec fn looked_up(
    ledger: LedgerState,
    private_key: Option<Seq<u8>>,
    name: Seq<char>,
) -> ShownView {
    if ledger.entries.contains_key(name) {
        let entry = ledger.entries[name];
        shown(entry.description, decryption(private_key, entry.secret))
    } else {
        ShownView::Missing
    }
}

/// Puts together what is shown of an entry from its description and from
/// what its secret decrypted to.
pub fn show(description: &String, plaintext: Option<Vec<u8>>) -> (r: Shown)
    ensures
        r@ == shown(description@, option_vec(plaintext)),
{
    match plaintext {
        None => Shown::Undecryptable,
        Some(bytes) => match string_from_utf8(bytes) {
            Some(secret) => Shown::Secret { description: description.clone(), secret },
            None => Shown::NotText,
        },
    }
}

/// Looks an entry up and decrypts its secret. Without the private key no
/// secret is ever shown.
pub fn look_up(service: &EntryService, name: &String) -> (r: Shown)
    requires
        service.wf(),
    ensures
        r@ == looked_up(service.ledger(), service.registry().private_key, name@),
        service.registry().private_key is None ==> !(r@ is Secret),
{
    match service.get(name) {
        None => Shown::Missing,
        Some(entry) => show(&entry.description, service.decrypt_secret(&entry.secret)),
    }
}

/// The names and descriptions of all entries, in the order in which the
/// service keeps them.
pub fn listing(service: &EntryService) -> (lines: Vec<(String, String)>)
    requires
        service.wf(),
    ensures
        lines@.len() == service.ledger().entries.len(),
        forall|i: int|
            0 <= i < lines@.len() ==> service.ledger().entries.contains_key(
                (#[trigger] lines@[i]).0@,
            ) && service.ledger().entries[lines@[i].0@].description == lines@[i].1@,
        forall|i: int, j: int|
            0 <= i < j < lines@.len() ==> (#[trigger] lines@[i]).0@ != (#[trigger] lines@[j]).0@,
{
    let table = service.entries();
    let mut lines: Vec<(String, String)> = Vec::new();
    let mut i: usize = 0;
    proof {
        lemma_rows_len(table.rows());
    }
    while i < table.len()
        invariant
            i <= table.rows().len(),
            table.wf(),
            lines@.len() == i,
            forall|k: int|
                0 <= k < i ==> (#[trigger] lines@[k]).0@ == table.rows()[k].0 && lines@[k].1@
                    == table.rows()[k].1.description,
        decreases table.rows().len() - i,
    {
        let row = table.row(i);
        lines.push((row.name.clone(), row.model.description.clone()));
        i += 1;
    }
    proof {
        assert forall|k: int| 0 <= k < lines@.len() implies table@.contains_key(
            (#[trigger] lines@[k]).0@,
        ) && table@[lines@[k].0@].description == lines@[k].1@ by {
            lemma_row(table.rows(), k);
        }
    }
    lines
}

} // verus!
