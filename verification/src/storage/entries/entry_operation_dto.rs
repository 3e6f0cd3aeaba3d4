//! Log records and their wire form.
//!
//! A record is a 4-byte operation code, the 32-byte chain hash, the 16-byte
//! timestamp, and the operation's fields in declaration order.

use crate::errors::RegistryError;
use crate::storage::little_endian::{lemma_u128_le, read_le, u128_from_le, u128_le, write_le};
use crate::storage::wire::{
    data_fits, field_bytes, field_fits, i32_at, i32_le, lemma_field_round_trip,
    lemma_field_stable, lemma_i32_le, lemma_text_round_trip, lemma_text_stable, option_string,
    option_vec, parse_code, parse_field, parse_required_field, parse_required_text, parse_text,
    read_bytes, read_bytes_array, read_i32, read_required_bytes, read_required_string,
    read_string, text_field, text_fits, write_bytes, write_i32, write_string,
};
use vstd::prelude::*;
use vstd::utf8::*;

verus! {

/// The width of the chain hash, which is the width of a SHA3-256 digest.
pub const HASH_SIZE: usize = 32;

/// The width of the timestamp: a 128-bit count of milliseconds.
pub const TIMESTAMP_SIZE: usize = 16;

/// The operation code of an addition.
pub const ADD_CODE: i32 = 1;

/// The operation code of an update.
pub const UPDATE_CODE: i32 = 2;

/// The operation code of a deletion.
pub const DEL_CODE: i32 = 3;

/// One operation of the log, as it is held in memory.
#[derive(Debug, PartialEq, Eq)]
pub enum EntryOperationDto {
    /// A new entry under a name that is free.
    Add { hash: [u8; 32], timestamp: u128, name: String, description: String, secret: Vec<u8> },
    /// A change to the entry under `src_name`: a new name, a new
    /// description, a new secret, each only where one is given.
    Update {
        hash: [u8; 32],
        timestamp: u128,
        src_name: String,
        dst_name: Option<String>,
        dst_description: Option<String>,
        dst_secret: Option<Vec<u8>>,
    },
    /// The end of the entry under a name.
    Del { hash: [u8; 32], timestamp: u128, name: String },
}

/// One operation of the log, as a mathematical value.
pub enum LogRecord {
    Add {
        hash: Seq<u8>,
        timestamp: u128,
        name: Seq<char>,
        description: Seq<char>,
        secret: Seq<u8>,
    },
    Update {
        hash: Seq<u8>,
        timestamp: u128,
        src_name: Seq<char>,
        dst_name: Option<Seq<char>>,
        dst_description: Option<Seq<char>>,
        dst_secret: Option<Seq<u8>>,
    },
    Del { hash: Seq<u8>, timestamp: u128, name: Seq<char> },
}

impl View for EntryOperationDto {
    type V = LogRecord;

    open spec fn view(&self) -> LogRecord {
        match *self {
            EntryOperationDto::Add { hash, timestamp, name, description, secret } => LogRecord::Add {
                hash: hash@,
                timestamp,
                name: name@,
                description: description@,
                secret: secret@,
            },
            EntryOperationDto::Update {
                hash,
                timestamp,
                src_name,
                dst_name,
                dst_description,
                dst_secret,
            } => LogRecord::Update {
                hash: hash@,
                timestamp,
                src_name: src_name@,
                dst_name: option_string(dst_name),
                dst_description: option_string(dst_description),
                dst_secret: option_vec(dst_secret),
            },
            EntryOperationDto::Del { hash, timestamp, name } => LogRecord::Del {
                hash: hash@,
                timestamp,
                name: name@,
            },
        }
    }
}

impl LogRecord {
    /// The chain hash that the record carries.
    pub open spec fn hash(self) -> Seq<u8> {
        match self {
            LogRecord::Add { hash, .. } => hash,
            LogRecord::Update { hash, .. } => hash,
            LogRecord::Del { hash, .. } => hash,
        }
    }

    /// The same record under another hash.
    pub open spec fn with_hash(self, hash: Seq<u8>) -> LogRecord {
        match self {
            LogRecord::Add { timestamp, name, description, secret, .. } => LogRecord::Add {
                hash,
                timestamp,
                name,
                description,
                secret,
            },
            LogRecord::Update {
                timestamp,
                src_name,
                dst_name,
                dst_description,
                dst_secret,
                ..
            } => LogRecord::Update {
                hash,
                timestamp,
                src_name,
                dst_name,
                dst_description,
                dst_secret,
            },
            LogRecord::Del { timestamp, name, .. } => LogRecord::Del { hash, timestamp, name },
        }
    }

    /// The time of the operation, in milliseconds.
    pub open spec fn timestamp(self) -> u128 {
        match self {
            LogRecord::Add { timestamp, .. } => timestamp,
            LogRecord::Update { timestamp, .. } => timestamp,
            LogRecord::Del { timestamp, .. } => timestamp,
        }
    }

    /// The operation code that starts the record on the wire.
    pub open spec fn code(self) -> i32 {
        match self {
            LogRecord::Add { .. } => ADD_CODE,
            LogRecord::Update { .. } => UPDATE_CODE,
            LogRecord::Del { .. } => DEL_CODE,
        }
    }

    /// The record's variable fields, encoded in declaration order.
    pub open spec fn fields(self) -> Seq<u8> {
        match self {
            LogRecord::Add { name, description, secret, .. } => field_bytes(
                text_field(Some(name)),
            ) + field_bytes(text_field(Some(description))) + field_bytes(Some(secret)),
            LogRecord::Update { src_name, dst_name, dst_description, dst_secret, .. } => field_bytes(
                text_field(Some(src_name)),
            ) + field_bytes(text_field(dst_name)) + field_bytes(text_field(dst_description))
                + field_bytes(dst_secret),
            LogRecord::Del { name, .. } => field_bytes(text_field(Some(name))),
        }
    }

    /// The fixed part of the record: code, hash and timestamp.
    pub open spec fn head(self) -> Seq<u8> {
        i32_le(self.code()) + self.hash() + u128_le(self.timestamp())
    }

    /// The record on the wire.
    pub open spec fn bytes(self) -> Seq<u8> {
        self.head() + self.fields()
    }

    /// Whether the record can be written: the hash has its fixed width and
    /// every field fits its length prefix.
    pub open spec fn fits(self) -> bool {
        self.hash().len() == HASH_SIZE && self.fields_fit()
    }

    /// Whether every field of the record fits its length prefix.
    pub open spec fn fields_fit(self) -> bool {
        match self {
            LogRecord::Add { name, description, secret, .. } => {
                &&& field_fits(text_field(Some(name)))
                &&& field_fits(text_field(Some(description)))
                &&& field_fits(Some(secret))
            },
            LogRecord::Update { src_name, dst_name, dst_description, dst_secret, .. } => {
                &&& field_fits(text_field(Some(src_name)))
                &&& field_fits(text_field(dst_name))
                &&& field_fits(text_field(dst_description))
                &&& field_fits(dst_secret)
            },
            LogRecord::Del { name, .. } => field_fits(text_field(Some(name))),
        }
    }
}

/// The width of a record's fixed part.
pub open spec fn head_size() -> int {
    4 + HASH_SIZE + TIMESTAMP_SIZE
}

/// Reads the fields of an addition, which start at `at`.
pub open spec fn parse_add(bytes: Seq<u8>, at: int, hash: Seq<u8>, timestamp: u128) -> Result<
    (LogRecord, int),
    RegistryError,
> {
    match parse_required_text(bytes, at) {
        Err(e) => Err(e),
        Ok((name, at1)) => match parse_required_text(bytes, at1) {
            Err(e) => Err(e),
            Ok((description, at2)) => match parse_required_field(bytes, at2) {
                Err(e) => Err(e),
                Ok((secret, at3)) => Ok(
                    (LogRecord::Add { hash, timestamp, name, description, secret }, at3),
                ),
            },
        },
    }
}

/// Reads the fields of an update, which start at `at`.
pub open spec fn parse_update(bytes: Seq<u8>, at: int, hash: Seq<u8>, timestamp: u128) -> Result<
    (LogRecord, int),
    RegistryError,
> {
    match parse_required_text(bytes, at) {
        Err(e) => Err(e),
        Ok((src_name, at1)) => match parse_text(bytes, at1) {
            Err(e) => Err(e),
            Ok((dst_name, at2)) => match parse_text(bytes, at2) {
                Err(e) => Err(e),
                Ok((dst_description, at3)) => match parse_field(bytes, at3) {
                    Err(e) => Err(e),
                    Ok((dst_secret, at4)) => Ok(
                        (
                            LogRecord::Update {
                                hash,
                                timestamp,
                                src_name,
                                dst_name,
                                dst_description,
                                dst_secret,
                            },
                            at4,
                        ),
                    ),
                },
            },
        },
    }
}

/// Reads the fields of a deletion, which start at `at`.
pub open spec fn parse_del(bytes: Seq<u8>, at: int, hash: Seq<u8>, timestamp: u128) -> Result<
    (LogRecord, int),
    RegistryError,
> {
    match parse_required_text(bytes, at) {
        Err(e) => Err(e),
        Ok((name, at1)) => Ok((LogRecord::Del { hash, timestamp, name }, at1)),
    }
}

/// Reads what follows an operation code: hash, timestamp and the fields
/// that the code calls for. The code is judged before the rest is looked at.
pub open spec fn parse_body(bytes: Seq<u8>, code: i32, at: int) -> Result<
    (LogRecord, int),
    RegistryError,
> {
    if code != ADD_CODE && code != UPDATE_CODE && code != DEL_CODE {
        Err(RegistryError::UnknownOperationCode)
    } else if at + HASH_SIZE + TIMESTAMP_SIZE > bytes.len() {
        Err(RegistryError::TruncatedRecord)
    } else {
        let hash = bytes.subrange(at, at + HASH_SIZE);
        let timestamp = u128_from_le(
            bytes.subrange(at + HASH_SIZE, at + HASH_SIZE + TIMESTAMP_SIZE),
        );
        let fields = at + HASH_SIZE + TIMESTAMP_SIZE;
        if code == ADD_CODE {
            parse_add(bytes, fields, hash, timestamp)
        } else if code == UPDATE_CODE {
            parse_update(bytes, fields, hash, timestamp)
        } else {
            parse_del(bytes, fields, hash, timestamp)
        }
    }
}

/// Reads the record that starts at `at`: the record and the position just
/// behind it.
pub open spec fn parse_record(bytes: Seq<u8>, at: int) -> Result<(LogRecord, int), RegistryError> {
    if at + 4 > bytes.len() {
        Err(RegistryError::TruncatedRecord)
    } else {
        parse_body(bytes, i32_at(bytes, at), at + 4)
    }
}

/// Reads the next record, or nothing where the bytes end cleanly.
pub open spec fn parse_next(bytes: Seq<u8>, at: int) -> Result<Option<(LogRecord, int)>, RegistryError> {
    match parse_code(bytes, at) {
        Ok(None) => Ok(None),
        Ok(Some((code, behind))) => match parse_body(bytes, code, behind) {
            Ok(found) => Ok(Some(found)),
            Err(e) => Err(e),
        },
        Err(e) => Err(e),
    }
}

/// The fixed part of a record that fits is as wide as the format says, and
/// is read back from behind any prefix.
proof fn lemma_head(prefix: Seq<u8>, record: LogRecord, rest: Seq<u8>)
    requires
        record.hash().len() == HASH_SIZE,
    ensures
        record.head().len() == head_size(),
        ({
            let all = prefix + record.head() + rest;
            let at = prefix.len() as int;
            &&& i32_at(all, at) == record.code()
            &&& all.subrange(at + 4, at + 4 + HASH_SIZE) == record.hash()
            &&& u128_from_le(all.subrange(at + 4 + HASH_SIZE, at + head_size()))
                == record.timestamp()
        }),
{
    let all = prefix + record.head() + rest;
    let at = prefix.len() as int;
    lemma_i32_le(record.code());
    lemma_u128_le(record.timestamp());
    let stamp = u128_le(record.timestamp());
    assert(stamp.len() == 16);
    assert(all.subrange(at, at + 4) =~= i32_le(record.code()));
    assert(all.subrange(at + 4, at + 4 + HASH_SIZE) =~= record.hash());
    assert(all.subrange(at + 4 + HASH_SIZE, at + head_size()) =~= stamp);
}

/// Three pieces between a prefix and a tail can be told apart one by one.
proof fn lemma_regroup3(p: Seq<u8>, f1: Seq<u8>, f2: Seq<u8>, f3: Seq<u8>, t: Seq<u8>)
    ensures
        p + (f1 + f2 + f3) + t == p + f1 + (f2 + f3 + t),
        p + (f1 + f2 + f3) + t == (p + f1) + f2 + (f3 + t),
        p + (f1 + f2 + f3) + t == (p + f1 + f2) + f3 + t,
{
    let all = p + (f1 + f2 + f3) + t;
    assert(all =~= p + f1 + (f2 + f3 + t));
    assert(all =~= (p + f1) + f2 + (f3 + t));
    assert(all =~= (p + f1 + f2) + f3 + t);
}

/// Four pieces between a prefix and a tail can be told apart one by one.
proof fn lemma_regroup4(
    p: Seq<u8>,
    f1: Seq<u8>,
    f2: Seq<u8>,
    f3: Seq<u8>,
    f4: Seq<u8>,
    t: Seq<u8>,
)
    ensures
        p + (f1 + f2 + f3 + f4) + t == p + f1 + (f2 + f3 + f4 + t),
        p + (f1 + f2 + f3 + f4) + t == (p + f1) + f2 + (f3 + f4 + t),
        p + (f1 + f2 + f3 + f4) + t == (p + f1 + f2) + f3 + (f4 + t),
        p + (f1 + f2 + f3 + f4) + t == (p + f1 + f2 + f3) + f4 + t,
{
    let all = p + (f1 + f2 + f3 + f4) + t;
    assert(all =~= p + f1 + (f2 + f3 + f4 + t));
    assert(all =~= (p + f1) + f2 + (f3 + f4 + t));
    assert(all =~= (p + f1 + f2) + f3 + (f4 + t));
    assert(all =~= (p + f1 + f2 + f3) + f4 + t);
}

/// The fields of an addition are read back from behind any prefix.
proof fn lemma_add_round_trip(
    prefix: Seq<u8>,
    hash: Seq<u8>,
    timestamp: u128,
    name: Seq<char>,
    description: Seq<char>,
    secret: Seq<u8>,
    tail: Seq<u8>,
)
    requires
        field_fits(text_field(Some(name))),
        field_fits(text_field(Some(description))),
        field_fits(Some(secret)),
    ensures
        ({
            let record = LogRecord::Add { hash, timestamp, name, description, secret };
            parse_add(prefix + record.fields() + tail, prefix.len() as int, hash, timestamp)
                matches Ok((found, behind)) && found == record && behind == prefix.len()
                + record.fields().len()
        }),
{
    let f1 = field_bytes(text_field(Some(name)));
    let f2 = field_bytes(text_field(Some(description)));
    let f3 = field_bytes(Some(secret));
    lemma_regroup3(prefix, f1, f2, f3, tail);
    lemma_text_round_trip(prefix, Some(name), f2 + f3 + tail);
    lemma_text_round_trip(prefix + f1, Some(description), f3 + tail);
    lemma_field_round_trip(prefix + f1 + f2, Some(secret), tail);
}

/// The fields of an update are read back from behind any prefix.
proof fn lemma_update_round_trip(
    prefix: Seq<u8>,
    hash: Seq<u8>,
    timestamp: u128,
    src_name: Seq<char>,
    dst_name: Option<Seq<char>>,
    dst_description: Option<Seq<char>>,
    dst_secret: Option<Seq<u8>>,
    tail: Seq<u8>,
)
    requires
        field_fits(text_field(Some(src_name))),
        field_fits(text_field(dst_name)),
        field_fits(text_field(dst_description)),
        field_fits(dst_secret),
    ensures
        ({
            let record = LogRecord::Update {
                hash,
                timestamp,
                src_name,
                dst_name,
                dst_description,
                dst_secret,
            };
            parse_update(prefix + record.fields() + tail, prefix.len() as int, hash, timestamp)
                matches Ok((found, behind)) && found == record && behind == prefix.len()
                + record.fields().len()
        }),
{
    let f1 = field_bytes(text_field(Some(src_name)));
    let f2 = field_bytes(text_field(dst_name));
    let f3 = field_bytes(text_field(dst_description));
    let f4 = field_bytes(dst_secret);
    lemma_regroup4(prefix, f1, f2, f3, f4, tail);
    lemma_text_round_trip(prefix, Some(src_name), f2 + f3 + f4 + tail);
    lemma_text_round_trip(prefix + f1, dst_name, f3 + f4 + tail);
    lemma_text_round_trip(prefix + f1 + f2, dst_description, f4 + tail);
    lemma_field_round_trip(prefix + f1 + f2 + f3, dst_secret, tail);
}

/// The field of a deletion is read back from behind any prefix.
proof fn lemma_del_round_trip(
    prefix: Seq<u8>,
    hash: Seq<u8>,
    timestamp: u128,
    name: Seq<char>,
    tail: Seq<u8>,
)
    requires
        field_fits(text_field(Some(name))),
    ensures
        ({
            let record = LogRecord::Del { hash, timestamp, name };
            parse_del(prefix + record.fields() + tail, prefix.len() as int, hash, timestamp)
                matches Ok((found, behind)) && found == record && behind == prefix.len()
                + record.fields().len()
        }),
{
    lemma_text_round_trip(prefix, Some(name), tail);
}

/// A record written behind any prefix is read back whole, whatever follows.
pub proof fn lemma_record_round_trip(prefix: Seq<u8>, record: LogRecord, tail: Seq<u8>)
    requires
        record.fits(),
    ensures
        parse_record(prefix + record.bytes() + tail, prefix.len() as int) matches Ok(
            (found, behind),
        ) && found == record && behind == prefix.len() + record.bytes().len(),
{
    let all = prefix + record.bytes() + tail;
    let at0 = prefix + record.head();
    lemma_head(prefix, record, record.fields() + tail);
    assert(all == prefix + record.head() + (record.fields() + tail)) by {
        assert(all =~= prefix + record.head() + (record.fields() + tail));
    }
    assert(all == at0 + record.fields() + tail) by {
        assert(all =~= at0 + record.fields() + tail);
    }
    match record {
        LogRecord::Add { hash, timestamp, name, description, secret } => {
            lemma_add_round_trip(at0, hash, timestamp, name, description, secret, tail);
        },
        LogRecord::Update { hash, timestamp, src_name, dst_name, dst_description, dst_secret } => {
            lemma_update_round_trip(
                at0,
                hash,
                timestamp,
                src_name,
                dst_name,
                dst_description,
                dst_secret,
                tail,
            );
        },
        LogRecord::Del { hash, timestamp, name } => {
            lemma_del_round_trip(at0, hash, timestamp, name, tail);
        },
    }
}

/// Round trip. Every record that can be written is read back from its own
/// bytes, all of them and nothing else.
pub proof fn record_round_trip(record: LogRecord)
    requires
        record.fits(),
    ensures
        parse_record(record.bytes(), 0) matches Ok((found, behind)) && found == record && behind
            == record.bytes().len(),
{
    let nothing = Seq::<u8>::empty();
    lemma_record_round_trip(nothing, record, nothing);
    assert(nothing + record.bytes() + nothing =~= record.bytes());
}

/// A record that was read is read the same when more bytes follow.
pub proof fn lemma_record_stable(bytes: Seq<u8>, at: int, tail: Seq<u8>)
    requires
        0 <= at,
        parse_record(bytes, at) is Ok,
    ensures
        parse_record(bytes + tail, at) == parse_record(bytes, at),
{
    let all = bytes + tail;
    assert(all.subrange(at, at + 4) =~= bytes.subrange(at, at + 4));
    assert(all.subrange(at + 4, at + 4 + HASH_SIZE) =~= bytes.subrange(at + 4, at + 4 + HASH_SIZE));
    assert(all.subrange(at + 4 + HASH_SIZE, at + head_size()) =~= bytes.subrange(
        at + 4 + HASH_SIZE,
        at + head_size(),
    ));
    let code = i32_at(bytes, at);
    let at0 = at + head_size();
    if code == ADD_CODE {
        lemma_text_stable(bytes, at0, tail);
        let at1 = parse_required_text(bytes, at0)->Ok_0.1;
        lemma_text_stable(bytes, at1, tail);
        let at2 = parse_required_text(bytes, at1)->Ok_0.1;
        lemma_field_stable(bytes, at2, tail);
    } else if code == UPDATE_CODE {
        lemma_text_stable(bytes, at0, tail);
        let at1 = parse_required_text(bytes, at0)->Ok_0.1;
        lemma_text_stable(bytes, at1, tail);
        let at2 = parse_text(bytes, at1)->Ok_0.1;
        lemma_text_stable(bytes, at2, tail);
        let at3 = parse_text(bytes, at2)->Ok_0.1;
        lemma_field_stable(bytes, at3, tail);
    } else {
        lemma_text_stable(bytes, at0, tail);
    }
}

/// A record that was read ends behind where it starts, within the bytes.
pub proof fn lemma_record_advances(bytes: Seq<u8>, at: int)
    requires
        parse_record(bytes, at) is Ok,
    ensures
        at + head_size() < parse_record(bytes, at)->Ok_0.1 <= bytes.len(),
{
}

/// A borrowed view of an optional string.
fn as_optional_str(text: &Option<String>) -> (r: Option<&str>)
    ensures
        r is Some == text is Some,
        r matches Some(t) ==> t@ == text->0@,
{
    match text {
        Some(t) => Some(t.as_str()),
        None => None,
    }
}

/// A borrowed view of an optional vector.
fn as_optional_slice(data: &Option<Vec<u8>>) -> (r: Option<&[u8]>)
    ensures
        r is Some == data is Some,
        r matches Some(d) ==> d@ == data->0@,
{
    match data {
        Some(d) => Some(d.as_slice()),
        None => None,
    }
}

/// Appends the fixed part of a record.
fn write_head(out: &mut Vec<u8>, code: i32, hash: &[u8; 32], timestamp: u128)
    ensures
        final(out)@ == old(out)@ + i32_le(code) + hash@ + u128_le(timestamp),
{
    write_i32(out, code);
    out.extend_from_slice(hash.as_slice());
    write_le(out, timestamp, 16);
    assert(out@ =~= old(out)@ + i32_le(code) + hash@ + u128_le(timestamp));
}

impl EntryOperationDto {
    /// The record on the wire. A record with a field too long for its
    /// length prefix has no wire form.
    pub fn encode(&self) -> (r: Result<Vec<u8>, RegistryError>)
        ensures
            self@.fits() <==> r is Ok,
            r matches Ok(encoded) ==> encoded@ == self@.bytes(),
            r matches Err(fault) ==> fault == RegistryError::FieldTooLarge,
    {
        let mut out: Vec<u8> = Vec::new();
        match self {
            EntryOperationDto::Add { hash, timestamp, name, description, secret } => {
                write_head(&mut out, ADD_CODE, hash, *timestamp);
                write_string(&mut out, Some(name.as_str()))?;
                write_string(&mut out, Some(description.as_str()))?;
                write_bytes(&mut out, Some(secret.as_slice()))?;
            },
            EntryOperationDto::Update {
                hash,
                timestamp,
                src_name,
                dst_name,
                dst_description,
                dst_secret,
            } => {
                write_head(&mut out, UPDATE_CODE, hash, *timestamp);
                write_string(&mut out, Some(src_name.as_str()))?;
                write_string(&mut out, as_optional_str(dst_name))?;
                write_string(&mut out, as_optional_str(dst_description))?;
                write_bytes(&mut out, as_optional_slice(dst_secret))?;
            },
            EntryOperationDto::Del { hash, timestamp, name } => {
                write_head(&mut out, DEL_CODE, hash, *timestamp);
                write_string(&mut out, Some(name.as_str()))?;
            },
        }
        assert(out@ =~= self@.bytes());
        Ok(out)
    }

    /// Whether the operation has a wire form: whether every field fits its
    /// length prefix.
    pub fn fits(&self) -> (b: bool)
        ensures
            b == self@.fits(),
            b == self@.fields_fit(),
    {
        match self {
            EntryOperationDto::Add { name, description, secret, .. } => {
                text_fits(Some(name.as_str())) && text_fits(Some(description.as_str()))
                    && data_fits(Some(secret.as_slice()))
            },
            EntryOperationDto::Update { src_name, dst_name, dst_description, dst_secret, .. } => {
                text_fits(Some(src_name.as_str())) && text_fits(as_optional_str(dst_name))
                    && text_fits(as_optional_str(dst_description)) && data_fits(
                    as_optional_slice(dst_secret),
                )
            },
            EntryOperationDto::Del { name, .. } => text_fits(Some(name.as_str())),
        }
    }

    /// The same operation under another hash.
    pub fn with_hash(self, hash: [u8; 32]) -> (r: EntryOperationDto)
        ensures
            r@ == self@.with_hash(hash@),
    {
        match self {
            EntryOperationDto::Add { timestamp, name, description, secret, .. } => {
                EntryOperationDto::Add { hash, timestamp, name, description, secret }
            },
            EntryOperationDto::Update {
                timestamp,
                src_name,
                dst_name,
                dst_description,
                dst_secret,
                ..
            } => EntryOperationDto::Update {
                hash,
                timestamp,
                src_name,
                dst_name,
                dst_description,
                dst_secret,
            },
            EntryOperationDto::Del { timestamp, name, .. } => EntryOperationDto::Del {
                hash,
                timestamp,
                name,
            },
        }
    }

    /// Reads what follows an operation code that was read already, and says
    /// where the record ends.
    pub fn decode_body(bytes: &[u8], code: i32, pos: usize) -> (r: Result<
        (EntryOperationDto, usize),
        RegistryError,
    >)
        ensures
            match parse_body(bytes@, code, pos as int) {
                Ok((record, behind)) => r matches Ok((operation, end)) && operation@ == record
                    && end == behind,
                Err(e) => r matches Err(fault) && fault == e,
            },
    {
        if code != ADD_CODE && code != UPDATE_CODE && code != DEL_CODE {
            return Err(RegistryError::UnknownOperationCode);
        }
        let (hash, at1) = read_bytes_array::<32>(bytes, pos)?;
        let (stamp, at2) = read_bytes_array::<16>(bytes, at1)?;
        let timestamp: u128 = read_le(stamp.as_slice(), 0, 16);
        assert(stamp@.subrange(0, 16) =~= stamp@);
        if code == ADD_CODE {
            let (name, at3) = read_required_string(bytes, at2)?;
            let (description, at4) = read_required_string(bytes, at3)?;
            let (secret, at5) = read_required_bytes(bytes, at4)?;
            Ok((EntryOperationDto::Add { hash, timestamp, name, description, secret }, at5))
        } else if code == UPDATE_CODE {
            let (src_name, at3) = read_required_string(bytes, at2)?;
            let (dst_name, at4) = read_string(bytes, at3)?;
            let (dst_description, at5) = read_string(bytes, at4)?;
            let (dst_secret, at6) = read_bytes(bytes, at5)?;
            Ok(
                (
                    EntryOperationDto::Update {
                        hash,
                        timestamp,
                        src_name,
                        dst_name,
                        dst_description,
                        dst_secret,
                    },
                    at6,
                ),
            )
        } else {
            let (name, at3) = read_required_string(bytes, at2)?;
            Ok((EntryOperationDto::Del { hash, timestamp, name }, at3))
        }
    }

    /// Reads the record that starts at `pos`, and says where it ends.
    pub fn decode(bytes: &[u8], pos: usize) -> (r: Result<(EntryOperationDto, usize), RegistryError>)
        ensures
            match parse_record(bytes@, pos as int) {
                Ok((record, behind)) => r matches Ok((operation, end)) && operation@ == record
                    && end == behind,
                Err(e) => r matches Err(fault) && fault == e,
            },
    {
        let (code, behind) = read_i32(bytes, pos)?;
        Self::decode_body(bytes, code, behind)
    }
}

} // verus!
