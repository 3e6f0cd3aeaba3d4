//! The entry service: the ledger in memory, kept in step with the log.
//!
//! A service is built by replaying a registry's log. Every mutation is
//! checked against the entries, chained to the last hash, appended to the
//! log, and only then applied in memory, so that the entries are at every
//! moment the replay of the image.

use crate::domain::entries::clock::current_timestamp;
use crate::domain::entries::entry_model::EntryModel;
use crate::domain::entries::entry_table::EntryTable;
use crate::domain::entries::hash_chain::{chain_digest, chained, genesis_hash};
use crate::domain::entries::ledger::{
    apply, genesis, lemma_replay_append, mutation, refusal, replay, LedgerState,
};
use crate::errors::{LogFault, RegistryError};
use crate::storage::entries::entry_operation_dto::{
    lemma_record_advances, EntryOperationDto, LogRecord,
};
use crate::storage::registries::key_custodian::{ciphertext_length, decryption, CIPHER_LIMIT};
use crate::storage::registries::registry_repository::{
    parse_registry, RegistryRepository, RegistryView,
};
use crate::storage::wire::{option_string, option_vec};
use vstd::prelude::*;

verus! {

/// Whether an optional ciphertext can come of an optional secret: there is
/// one exactly where there is the other, and it is as long as the cipher
/// makes it.
pub open spec fn encrypted_as(secret: Option<Seq<u8>>, ciphertext: Option<Seq<u8>>) -> bool {
    match (secret, ciphertext) {
        (Some(plain), Some(bytes)) => ciphertext_length(plain.len(), bytes.len()),
        (None, None) => true,
        _ => false,
    }
}

/// The draft of an addition; its hash is yet to be set.
pub open spec fn add_draft(
    name: Seq<char>,
    description: Seq<char>,
    secret: Seq<u8>,
    timestamp: u128,
) -> LogRecord {
    LogRecord::Add { hash: genesis_hash(), timestamp, name, description, secret }
}

/// The draft of an update; its hash is yet to be set.
pub open spec fn update_draft(
    src_name: Seq<char>,
    dst_name: Option<Seq<char>>,
    dst_description: Option<Seq<char>>,
    dst_secret: Option<Seq<u8>>,
    timestamp: u128,
) -> LogRecord {
    LogRecord::Update {
        hash: genesis_hash(),
        timestamp,
        src_name,
        dst_name,
        dst_description,
        dst_secret,
    }
}

/// The draft of a deletion; its hash is yet to be set.
pub open spec fn del_draft(name: Seq<char>, timestamp: u128) -> LogRecord {
    LogRecord::Del { hash: genesis_hash(), timestamp, name }
}

/// Applies one operation to the entries and the last hash, or says how the
/// operation contradicts them and leaves both as they are.
pub fn apply_operation(
    entries: &mut EntryTable,
    last_hash: &mut [u8; 32],
    operation: EntryOperationDto,
) -> (r: Result<(), LogFault>)
    requires
        old(entries).wf(),
    ensures
        final(entries).wf(),
        match apply(
            LedgerState { entries: old(entries)@, last_hash: old(last_hash)@ },
            operation@,
        ) {
            Ok(next) => r is Ok && final(entries)@ == next.entries && final(last_hash)@
                == next.last_hash,
            Err(fault) => r matches Err(f) && f == fault && final(entries)@ == old(entries)@
                && final(last_hash)@ == old(last_hash)@,
        },
{
    match operation {
        EntryOperationDto::Add { hash, timestamp, name, description, secret } => {
            if entries.contains_key(&name) {
                return Err(LogFault::DuplicateAdd);
            }
            entries.insert(name, EntryModel { timestamp, description, secret });
            *last_hash = hash;
            Ok(())
        },
        EntryOperationDto::Update {
            hash,
            timestamp,
            src_name,
            dst_name,
            dst_description,
            dst_secret,
        } => {
            match entries.remove(&src_name) {
                Some(current) => {
                    let model = EntryModel {
                        timestamp,
                        description: match dst_description {
                            Some(text) => text,
                            None => current.description,
                        },
                        secret: match dst_secret {
                            Some(data) => data,
                            None => current.secret,
                        },
                    };
                    let name: String = match dst_name {
                        Some(text) => text,
                        None => src_name,
                    };
                    entries.insert(name, model);
                    *last_hash = hash;
                    Ok(())
                },
                None => {
                    assert(entries@ =~= old(entries)@);
                    Err(LogFault::MissingEntry)
                },
            }
        },
        EntryOperationDto::Del { hash, timestamp, name } => {
            match entries.remove(&name) {
                Some(_) => {
                    *last_hash = hash;
                    Ok(())
                },
                None => {
                    assert(entries@ =~= old(entries)@);
                    Err(LogFault::MissingEntry)
                },
            }
        },
    }
}

/// The entries of a registry, and the registry that they came from.
pub struct EntryService {
    registry_repository: RegistryRepository,
    last_hash: [u8; 32],
    entries: EntryTable,
}

impl EntryService {
    /// The ledger that the service holds.
    pub closed spec fn ledger(&self) -> LedgerState {
        LedgerState { entries: self.entries@, last_hash: self.last_hash@ }
    }

    /// The registry that the service writes to.
    pub closed spec fn registry(&self) -> RegistryView {
        self.registry_repository@
    }

    /// The entries are kept under distinct names.
    pub closed spec fn names_distinct(&self) -> bool {
        self.entries.wf()
    }

    /// The service is in step with its registry: the ledger is the replay
    /// of the whole log, and the cursor stands at the log's end.
    pub open spec fn wf(&self) -> bool {
        &&& self.registry().wf()
        &&& self.registry().at_end()
        &&& self.names_distinct()
        &&& self.ledger().last_hash.len() == 32
        &&& replay(genesis(), self.registry().image, self.registry().log_start) == Ok::<
            LedgerState,
            RegistryError,
        >(self.ledger())
    }

    /// Nothing has changed since `before`.
    pub open spec fn unchanged(&self, before: &Self) -> bool {
        self.ledger() == before.ledger() && self.registry() == before.registry()
    }

    /// The service has gone from `before` through the mutation that the
    /// draft stands for: the record is at the end of the log, and the
    /// ledger has taken it.
    pub open spec fn committed(&self, before: &Self, draft: LogRecord) -> bool {
        &&& mutation(before.ledger(), draft) matches Ok(record)
        &&& apply(before.ledger(), record) matches Ok(next)
        &&& self.ledger() == next
        &&& self.registry() == (RegistryView {
            image: before.registry().image + record.bytes(),
            position: before.registry().position + record.bytes().len(),
            ..before.registry()
        })
    }

    /// Builds the service by replaying the registry's log from its start.
    /// The first record that cannot be read, or that contradicts the
    /// entries built so far, ends the replay with its error.
    pub fn new(registry_repository: RegistryRepository) -> (r: Result<Self, RegistryError>)
        requires
            registry_repository@.wf(),
        ensures
            match replay(
                genesis(),
                registry_repository@.image,
                registry_repository@.log_start,
            ) {
                Ok(state) => r matches Ok(service) && service.wf() && service.ledger() == state
                    && service.registry() == (RegistryView {
                    position: registry_repository@.image.len() as int,
                    ..registry_repository@
                }),
                Err(e) => r matches Err(fault) && fault == e,
            },
    {
        let ghost start = registry_repository@;
        let mut registry = registry_repository;
        registry.rewind();
        let mut entries = EntryTable::new();
        let mut last_hash: [u8; 32] = [0u8; 32];
        assert(last_hash@ =~= genesis_hash());
        loop
            invariant
                start == registry_repository@,
                start.wf(),
                registry@.wf(),
                registry@ == (RegistryView { position: registry@.position, ..start }),
                entries.wf(),
                last_hash@.len() == 32,
                replay(genesis(), start.image, start.log_start) == replay(
                    LedgerState { entries: entries@, last_hash: last_hash@ },
                    start.image,
                    registry@.position,
                ),
            decreases start.image.len() - registry@.position,
        {
            let ghost at = registry@.position;
            let ghost state = LedgerState { entries: entries@, last_hash: last_hash@ };
            match registry.read_operation() {
                Err(e) => {
                    assert(replay(state, start.image, at) matches Err(fault) && fault == e);
                    return Err(e);
                },
                Ok(None) => {
                    assert(replay(state, start.image, at) matches Ok(last) && last == state);
                    return Ok(EntryService { registry_repository: registry, last_hash, entries });
                },
                Ok(Some(operation)) => {
                    proof {
                        lemma_record_advances(start.image, at);
                    }
                    let ghost record = operation@;
                    match apply_operation(&mut entries, &mut last_hash, operation) {
                        Err(fault) => {
                            assert(replay(state, start.image, at) matches Err(e) && e
                                == RegistryError::CorruptLog(fault));
                            return Err(RegistryError::CorruptLog(fault));
                        },
                        Ok(()) => {
                            assert(replay(state, start.image, at) == replay(
                                apply(state, record)->Ok_0,
                                start.image,
                                registry@.position,
                            ));
                        },
                    }
                },
            }
        }
    }

    /// The name of the registry.
    pub fn registry_name(&self) -> (name: &str)
        ensures
            name@ == self.registry().name,
    {
        self.registry_repository.name()
    }

    /// Decrypts a secret with the registry's private key. A registry that
    /// was opened without its password decrypts nothing, and a ciphertext
    /// that is not empty never gives an empty secret.
    pub fn decrypt_secret(&self, secret: &Vec<u8>) -> (r: Option<Vec<u8>>)
        ensures
            option_vec(r) == decryption(self.registry().private_key, secret@),
            self.registry().private_key is None ==> r is None,
            r matches Some(plaintext) ==> secret@.len() == 0 || plaintext@.len() > 0,
    {
        self.registry_repository.decrypt(secret.as_slice())
    }

    /// Adds an entry whose secret is already encrypted, at a given time.
    pub fn record_add(
        &mut self,
        name: String,
        description: String,
        secret: Vec<u8>,
        timestamp: u128,
    ) -> (r: Result<(), RegistryError>)
        requires
            old(self).wf(),
        ensures
            final(self).wf(),
            match mutation(
                old(self).ledger(),
                add_draft(name@, description@, secret@, timestamp),
            ) {
                Ok(_) => r is Ok && final(self).committed(
                    old(self),
                    add_draft(name@, description@, secret@, timestamp),
                ),
                Err(e) => r matches Err(fault) && fault == e && final(self).unchanged(old(self)),
            },
            !old(self).ledger().entries.contains_key(name@) && add_draft(
                name@,
                description@,
                secret@,
                timestamp,
            ).fields_fit() <==> r is Ok,
    {
        let hash: [u8; 32] = [0u8; 32];
        assert(hash@ =~= genesis_hash());
        self.commit(EntryOperationDto::Add { hash, timestamp, name, description, secret })
    }

    /// Changes an entry, at a given time. What is given replaces what the
    /// entry has; what is not given stays. A new secret is already
    /// encrypted.
    pub fn record_set(
        &mut self,
        src_name: String,
        dst_name: Option<String>,
        dst_description: Option<String>,
        dst_secret: Option<Vec<u8>>,
        timestamp: u128,
    ) -> (r: Result<(), RegistryError>)
        requires
            old(self).wf(),
        ensures
            final(self).wf(),
            match mutation(
                old(self).ledger(),
                update_draft(
                    src_name@,
                    option_string(dst_name),
                    option_string(dst_description),
                    option_vec(dst_secret),
                    timestamp,
                ),
            ) {
                Ok(_) => r is Ok && final(self).committed(
                    old(self),
                    update_draft(
                        src_name@,
                        option_string(dst_name),
                        option_string(dst_description),
                        option_vec(dst_secret),
                        timestamp,
                    ),
                ),
                Err(e) => r matches Err(fault) && fault == e && final(self).unchanged(old(self)),
            },
            old(self).ledger().entries.contains_key(src_name@) && update_draft(
                src_name@,
                option_string(dst_name),
                option_string(dst_description),
                option_vec(dst_secret),
                timestamp,
            ).fields_fit() <==> r is Ok,
    {
        let hash: [u8; 32] = [0u8; 32];
        assert(hash@ =~= genesis_hash());
        self.commit(
            EntryOperationDto::Update {
                hash,
                timestamp,
                src_name,
                dst_name,
                dst_description,
                dst_secret,
            },
        )
    }

    /// Deletes an entry, at a given time.
    pub fn record_del(&mut self, name: String, timestamp: u128) -> (r: Result<(), RegistryError>)
        requires
            old(self).wf(),
        ensures
            final(self).wf(),
            match mutation(old(self).ledger(), del_draft(name@, timestamp)) {
                Ok(_) => r is Ok && final(self).committed(old(self), del_draft(name@, timestamp)),
                Err(e) => r matches Err(fault) && fault == e && final(self).unchanged(old(self)),
            },
            old(self).ledger().entries.contains_key(name@) && del_draft(
                name@,
                timestamp,
            ).fields_fit() <==> r is Ok,
    {
        let hash: [u8; 32] = [0u8; 32];
        assert(hash@ =~= genesis_hash());
        self.commit(EntryOperationDto::Del { hash, timestamp, name })
    }

    /// Adds an entry: encrypts the secret to the registry's public key,
    /// takes the time, and records the addition. A name that is taken is
    /// refused before anything else is done. Which ciphertext and which
    /// time go into the record is not up to this library.
    pub fn add(&mut self, name: String, description: String, secret: Vec<u8>) -> (r: Result<
        (),
        RegistryError,
    >)
        requires
            old(self).wf(),
        ensures
            final(self).wf(),
            old(self).ledger().entries.contains_key(name@) ==> (r matches Err(e) && e
                == RegistryError::EntryAlreadyExists),
            r matches Err(e) ==> final(self).unchanged(old(self)) && (e
                == RegistryError::EntryAlreadyExists || e == RegistryError::CorruptKeyMaterial || e
                == RegistryError::ClockBeforeEpoch || e == RegistryError::FieldTooLarge),
            r matches Err(e) && e == RegistryError::EntryAlreadyExists ==> old(
                self,
            ).ledger().entries.contains_key(name@),
            !old(self).ledger().entries.contains_key(name@) && secret@.len() > CIPHER_LIMIT ==> (
            r matches Err(e) && e == RegistryError::FieldTooLarge),
            r is Ok ==> exists|ciphertext: Seq<u8>, timestamp: u128|
                ciphertext_length(secret@.len(), ciphertext.len()) && final(self).committed(
                    old(self),
                    #[trigger] add_draft(name@, description@, ciphertext, timestamp),
                ),
    {
        if self.entries.contains_key(&name) {
            return Err(RegistryError::EntryAlreadyExists);
        }
        let ciphertext: Vec<u8> = self.registry_repository.encrypt(secret.as_slice())?;
        let timestamp: u128 = current_timestamp()?;
        let ghost draft = add_draft(name@, description@, ciphertext@, timestamp);
        let r = self.record_add(name, description, ciphertext, timestamp);
        proof {
            if r is Ok {
                assert(self.committed(old(self), draft));
            }
        }
        r
    }

    /// Changes an entry: encrypts the new secret, if there is one, takes
    /// the time, and records the update. A name that is not there is
    /// refused before anything else is done.
    pub fn set(
        &mut self,
        src_name: String,
        dst_name: Option<String>,
        dst_description: Option<String>,
        dst_secret: Option<Vec<u8>>,
    ) -> (r: Result<(), RegistryError>)
        requires
            old(self).wf(),
        ensures
            final(self).wf(),
            !old(self).ledger().entries.contains_key(src_name@) ==> (r matches Err(e) && e
                == RegistryError::EntryNotFound),
            r matches Err(e) ==> final(self).unchanged(old(self)) && (e
                == RegistryError::EntryNotFound || e == RegistryError::CorruptKeyMaterial || e
                == RegistryError::ClockBeforeEpoch || e == RegistryError::FieldTooLarge),
            r matches Err(e) && e == RegistryError::EntryNotFound ==> !old(
                self,
            ).ledger().entries.contains_key(src_name@),
            old(self).ledger().entries.contains_key(src_name@) && (dst_secret matches Some(
                secret,
            ) && secret@.len() > CIPHER_LIMIT) ==> (r matches Err(e) && e
                == RegistryError::FieldTooLarge),
            r is Ok ==> exists|ciphertext: Option<Seq<u8>>, timestamp: u128|
                encrypted_as(option_vec(dst_secret), ciphertext) && final(self).committed(
                    old(self),
                    #[trigger] update_draft(
                        src_name@,
                        option_string(dst_name),
                        option_string(dst_description),
                        ciphertext,
                        timestamp,
                    ),
                ),
    {
        if !self.entries.contains_key(&src_name) {
            return Err(RegistryError::EntryNotFound);
        }
        let ciphertext: Option<Vec<u8>> = match &dst_secret {
            Some(plaintext) => Some(self.registry_repository.encrypt(plaintext.as_slice())?),
            None => None,
        };
        let timestamp: u128 = current_timestamp()?;
        let ghost draft = update_draft(
            src_name@,
            option_string(dst_name),
            option_string(dst_description),
            option_vec(ciphertext),
            timestamp,
        );
        let r = self.record_set(src_name, dst_name, dst_description, ciphertext, timestamp);
        proof {
            if r is Ok {
                assert(self.committed(old(self), draft));
            }
        }
        r
    }

    /// Deletes an entry: takes the time and records the deletion. A name
    /// that is not there is refused before anything else is done.
    pub fn del(&mut self, name: String) -> (r: Result<(), RegistryError>)
        requires
            old(self).wf(),
        ensures
            final(self).wf(),
            !old(self).ledger().entries.contains_key(name@) ==> (r matches Err(e) && e
                == RegistryError::EntryNotFound),
            r matches Err(e) ==> final(self).unchanged(old(self)) && (e
                == RegistryError::EntryNotFound || e == RegistryError::ClockBeforeEpoch || e
                == RegistryError::FieldTooLarge),
            r matches Err(e) && e == RegistryError::EntryNotFound ==> !old(
                self,
            ).ledger().entries.contains_key(name@),
            r is Ok ==> exists|timestamp: u128|
                final(self).committed(old(self), #[trigger] del_draft(name@, timestamp)),
    {
        if !self.entries.contains_key(&name) {
            return Err(RegistryError::EntryNotFound);
        }
        let timestamp: u128 = current_timestamp()?;
        let ghost draft = del_draft(name@, timestamp);
        let r = self.record_del(name, timestamp);
        proof {
            if r is Ok {
                assert(self.committed(old(self), draft));
            }
        }
        r
    }

    /// The entry under a name.
    pub fn get(&self, name: &String) -> (r: Option<&EntryModel>)
        requires
            self.wf(),
        ensures
            match r {
                Some(model) => self.ledger().entries.contains_key(name@) && model@
                    == self.ledger().entries[name@],
                None => !self.ledger().entries.contains_key(name@),
            },
    {
        self.entries.get(name)
    }

    /// Whether an entry stands under a name.
    pub fn contains(&self, name: &String) -> (b: bool)
        requires
            self.wf(),
        ensures
            b == self.ledger().entries.contains_key(name@),
    {
        self.entries.contains_key(name)
    }

    /// The entries, row by row.
    pub fn entries(&self) -> (table: &EntryTable)
        ensures
            table@ == self.ledger().entries,
            table.wf() == self.names_distinct(),
    {
        &self.entries
    }

    /// The hash of the last record, or 32 zero bytes where the log is empty.
    pub fn last_hash(&self) -> (hash: &[u8; 32])
        ensures
            hash@ == self.ledger().last_hash,
    {
        &self.last_hash
    }

    /// The registry that the service writes to.
    pub fn registry_repository(&self) -> (registry: &RegistryRepository)
        ensures
            registry@ == self.registry(),
    {
        &self.registry_repository
    }

    /// Checks a mutation against the entries, chains it, appends it to the
    /// log, and then applies it in memory. A refused mutation changes
    /// nothing, and is refused before its hash is taken.
    pub fn commit(&mut self, draft: EntryOperationDto) -> (r: Result<(), RegistryError>)
        requires
            old(self).wf(),
        ensures
            final(self).wf(),
            match mutation(old(self).ledger(), draft@) {
                Ok(_) => r is Ok && final(self).committed(old(self), draft@),
                Err(e) => r matches Err(fault) && fault == e && final(self).unchanged(old(self)),
            },
            apply(old(self).ledger(), draft@) is Ok && draft@.fields_fit() <==> r is Ok,
            r matches Err(e) ==> e == (match apply(old(self).ledger(), draft@) {
                Err(fault) => refusal(fault),
                Ok(_) => RegistryError::FieldTooLarge,
            }),
    {
        let present: bool = match &draft {
            EntryOperationDto::Add { name, .. } => self.entries.contains_key(name),
            EntryOperationDto::Update { src_name, .. } => self.entries.contains_key(src_name),
            EntryOperationDto::Del { name, .. } => self.entries.contains_key(name),
        };
        match &draft {
            EntryOperationDto::Add { .. } => {
                if present {
                    return Err(RegistryError::EntryAlreadyExists);
                }
            },
            _ => {
                if !present {
                    return Err(RegistryError::EntryNotFound);
                }
            },
        }
        if !draft.fits() {
            return Err(RegistryError::FieldTooLarge);
        }
        let hash: [u8; 32] = chain_digest(&self.last_hash, &draft);
        let operation = draft.with_hash(hash);
        let ghost record = operation@;
        let ghost before = self.registry();
        let ghost state = self.ledger();
        assert(record == chained(state.last_hash, draft@));
        assert(apply(state, record) is Ok);
        self.registry_repository.write_operation(&operation)?;
        assert(self.registry_repository@.image =~= before.image + record.bytes());
        proof {
            lemma_replay_append(genesis(), before.image, before.log_start, record);
        }
        let _ = apply_operation(&mut self.entries, &mut self.last_hash, operation);
        Ok(())
    }
}

/// Chain integrity, as the service keeps it. Whatever a service has been
/// through, the image that it leaves opens again, with the same public key
/// and the log in the same place, and replaying that log from its start
/// gives the very entries and the very last hash that the service holds.
pub proof fn ledger_is_replay_of_log(service: EntryService)
    requires
        service.wf(),
    ensures
        parse_registry(service.registry().image) matches Ok(preamble) && {
            &&& preamble.public_key == service.registry().public_key
            &&& preamble.log_start == service.registry().log_start
            &&& replay(genesis(), service.registry().image, preamble.log_start) matches Ok(
                replayed,
            ) && replayed == service.ledger()
        },
{
}

/// Idempotent replay. The ledger is a function of the image: two services
/// that are in step with the same image, however they came to it, hold the
/// same entries and the same last hash.
pub proof fn replays_agree(first: EntryService, second: EntryService)
    requires
        first.wf(),
        second.wf(),
        first.registry().image == second.registry().image,
    ensures
        first.ledger() == second.ledger(),
{
}

} // verus!
