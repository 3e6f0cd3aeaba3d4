//! The ledger: the entries and the chain hash that a log folds into.
//!
//! Replay starts from the empty ledger and applies the records in order.
//! Each record either changes the ledger or contradicts it; a log with a
//! contradiction has no ledger.

use crate::domain::entries::hash_chain::{
    chain_hash, chain_valid, chained, genesis_hash, hash_before,
};
use crate::errors::{LogFault, RegistryError};
use crate::storage::entries::entry_operation_dto::{
    lemma_record_advances, lemma_record_round_trip, lemma_record_stable, parse_record, LogRecord,
};
use vstd::prelude::*;

verus! {

/// An entry as a mathematical value.
pub struct EntryView {
    pub timestamp: u128,
    pub description: Seq<char>,
    pub secret: Seq<u8>,
}

/// The state that the log stands for.
pub struct LedgerState {
    pub entries: Map<Seq<char>, EntryView>,
    pub last_hash: Seq<u8>,
}

/// The ledger of an empty log.
pub open spec fn genesis() -> LedgerState {
    LedgerState { entries: Map::empty(), last_hash: genesis_hash() }
}

/// What is kept of an optional new value: the new one, or else the current.
pub open spec fn carried<T>(update: Option<T>, current: T) -> T {
    match update {
        Some(value) => value,
        None => current,
    }
}

/// The ledger after one record, or the way in which the record contradicts
/// the ledger. An update takes the entry away from its old name and puts
/// it under the new one, over whatever was there.
pub open spec fn apply(state: LedgerState, record: LogRecord) -> Result<LedgerState, LogFault> {
    match record {
        LogRecord::Add { hash, timestamp, name, description, secret } => {
            if state.entries.contains_key(name) {
                Err(LogFault::DuplicateAdd)
            } else {
                Ok(
                    LedgerState {
                        entries: state.entries.insert(
                            name,
                            EntryView { timestamp, description, secret },
                        ),
                        last_hash: hash,
                    },
                )
            }
        },
        LogRecord::Update { hash, timestamp, src_name, dst_name, dst_description, dst_secret } => {
            if !state.entries.contains_key(src_name) {
                Err(LogFault::MissingEntry)
            } else {
                let current = state.entries[src_name];
                Ok(
                    LedgerState {
                        entries: state.entries.remove(src_name).insert(
                            carried(dst_name, src_name),
                            EntryView {
                                timestamp,
                                description: carried(dst_description, current.description),
                                secret: carried(dst_secret, current.secret),
                            },
                        ),
                        last_hash: hash,
                    },
                )
            }
        },
        LogRecord::Del { hash, timestamp, name } => {
            if !state.entries.contains_key(name) {
                Err(LogFault::MissingEntry)
            } else {
                Ok(LedgerState { entries: state.entries.remove(name), last_hash: hash })
            }
        },
    }
}

/// The error that a mutation is refused with when the ledger would not
/// take its record.
pub open spec fn refusal(fault: LogFault) -> RegistryError {
    match fault {
        LogFault::DuplicateAdd => RegistryError::EntryAlreadyExists,
        LogFault::MissingEntry => RegistryError::EntryNotFound,
    }
}

/// What comes of a mutation on a ledger: the record that is appended, with
/// its hash chained to the ledger's last, or the reason why nothing is. A
/// record that the ledger would not take is refused first; then one that
/// cannot be encoded.
pub open spec fn mutation(state: LedgerState, draft: LogRecord) -> Result<LogRecord, RegistryError> {
    let record = chained(state.last_hash, draft);
    match apply(state, record) {
        Err(fault) => Err(refusal(fault)),
        Ok(_) => if record.fits() {
            Ok(record)
        } else {
            Err(RegistryError::FieldTooLarge)
        },
    }
}

/// The ledger after a mutation and the records appended so far: with the
/// record taken and appended, or both as they were where the mutation is
/// refused.
pub open spec fn perform(state: LedgerState, records: Seq<LogRecord>, draft: LogRecord) -> (
    LedgerState,
    Seq<LogRecord>,
) {
    match mutation(state, draft) {
        Ok(record) => (apply(state, record)->Ok_0, records.push(record)),
        Err(_) => (state, records),
    }
}

/// The ledger after a sequence of mutations on an empty registry, each
/// performed on what the one before it left, and the records that they
/// have appended.
pub open spec fn perform_all(drafts: Seq<LogRecord>) -> (LedgerState, Seq<LogRecord>)
    decreases drafts.len(),
{
    if drafts.len() == 0 {
        (genesis(), Seq::<LogRecord>::empty())
    } else {
        let (state, records) = perform_all(drafts.drop_last());
        perform(state, records, drafts.last())
    }
}

/// The log that holds the records, one behind the other.
pub open spec fn log_bytes(records: Seq<LogRecord>) -> Seq<u8>
    decreases records.len(),
{
    if records.len() == 0 {
        Seq::<u8>::empty()
    } else {
        log_bytes(records.drop_last()) + records.last().bytes()
    }
}

/// The ledger after all the records that lie in the image from `at` on,
/// or the first error met on the way: a record that cannot be read, or
/// one that contradicts the ledger built up to it.
pub open spec fn replay(state: LedgerState, image: Seq<u8>, at: int) -> Result<
    LedgerState,
    RegistryError,
>
    decreases image.len() - at,
    via replay_decreases
{
    if at >= image.len() {
        Ok(state)
    } else {
        match parse_record(image, at) {
            Err(e) => Err(e),
            Ok((record, behind)) => match apply(state, record) {
                Err(fault) => Err(RegistryError::CorruptLog(fault)),
                Ok(next) => replay(next, image, behind),
            },
        }
    }
}

#[via_fn]
proof fn replay_decreases(state: LedgerState, image: Seq<u8>, at: int) {
    if at < image.len() && parse_record(image, at) is Ok {
        lemma_record_advances(image, at);
    }
}

/// A log that replays to a ledger, with one more record behind it that the
/// ledger takes, replays to the ledger after that record.
pub proof fn lemma_replay_append(
    state: LedgerState,
    image: Seq<u8>,
    at: int,
    record: LogRecord,
)
    requires
        0 <= at <= image.len(),
        replay(state, image, at) is Ok,
        record.fits(),
        apply(replay(state, image, at)->Ok_0, record) is Ok,
    ensures
        replay(state, image + record.bytes(), at) matches Ok(after) && after == apply(
            replay(state, image, at)->Ok_0,
            record,
        )->Ok_0,
    decreases image.len() - at,
{
    let longer = image + record.bytes();
    if at >= image.len() {
        let after = apply(state, record)->Ok_0;
        lemma_record_round_trip(image, record, Seq::<u8>::empty());
        assert(longer =~= image + record.bytes() + Seq::<u8>::empty());
        let (found, behind) = parse_record(longer, at)->Ok_0;
        assert(found == record && behind == longer.len());
        assert(replay(after, longer, behind) == Ok::<LedgerState, RegistryError>(after));
    } else {
        lemma_record_advances(image, at);
        lemma_record_stable(image, at, record.bytes());
        let (first, behind) = parse_record(image, at)->Ok_0;
        assert(parse_record(longer, at) == parse_record(image, at));
        let next = apply(state, first)->Ok_0;
        assert(replay(state, image, at) == replay(next, image, behind));
        lemma_replay_append(next, image, behind, record);
        assert(replay(state, longer, at) == replay(next, longer, behind));
    }
}

/// Chain integrity. Whatever mutations are performed on an empty registry,
/// one after the other, the log that they leave replays to the very ledger
/// that they leave: the same entries and the same last hash.
pub proof fn replay_reproduces_ledger(drafts: Seq<LogRecord>)
    ensures
        ({
            let (state, records) = perform_all(drafts);
            replay(genesis(), log_bytes(records), 0) matches Ok(replayed) && replayed == state
        }),
    decreases drafts.len(),
{
    if drafts.len() > 0 {
        replay_reproduces_ledger(drafts.drop_last());
        let (state, records) = perform_all(drafts.drop_last());
        match mutation(state, drafts.last()) {
            Ok(record) => {
                lemma_replay_append(genesis(), log_bytes(records), 0, record);
                assert(records.push(record).drop_last() =~= records);
            },
            Err(_) => {},
        }
    }
}

/// The records that mutations append form a chain: the ledger's last hash
/// is the hash of the last record, and every record carries the digest of
/// the hash before it and of what the record says.
pub proof fn mutations_chain(drafts: Seq<LogRecord>)
    ensures
        ({
            let (state, records) = perform_all(drafts);
            &&& state.last_hash == hash_before(genesis_hash(), records, records.len() as int)
            &&& chain_valid(genesis_hash(), records)
            &&& forall|i: int| 0 <= i < records.len() ==> (#[trigger] records[i]).fits()
        }),
    decreases drafts.len(),
{
    if drafts.len() > 0 {
        mutations_chain(drafts.drop_last());
        let (state, records) = perform_all(drafts.drop_last());
        match mutation(state, drafts.last()) {
            Ok(record) => {
                let longer = records.push(record);
                assert forall|i: int| 0 <= i < longer.len() implies (#[trigger] longer[i]).hash()
                    == chain_hash(hash_before(genesis_hash(), longer, i), longer[i]) by {
                    if i < records.len() {
                        assert(longer[i] == records[i]);
                        assert(hash_before(genesis_hash(), longer, i) == hash_before(
                            genesis_hash(),
                            records,
                            i,
                        ));
                    }
                }
                assert forall|i: int| 0 <= i < longer.len() implies (#[trigger] longer[i]).fits() by {
                    if i < records.len() {
                        assert(longer[i] == records[i]);
                    }
                }
            },
            Err(_) => {},
        }
    }
}

} // verus!
