//! The hash chain that ties every record to all that came before it.
//!
//! A record's hash is the SHA3-256 digest of the previous record's hash
//! (32 zero bytes for the first record), the operation code, the timestamp,
//! and the raw bytes of the fields that are present, in declaration order.

use crate::storage::entries::entry_operation_dto::{
    EntryOperationDto, LogRecord, ADD_CODE, DEL_CODE, HASH_SIZE, UPDATE_CODE,
};
use crate::storage::little_endian::{lemma_u128_le, u128_from_le, u128_le, write_le};
use crate::storage::wire::{i32_le, lemma_i32_le, write_i32};
use vstd::prelude::*;
use vstd::utf8::*;

verus! {

/// The SHA3-256 digest of a byte string, as `sha3::Sha3_256` computes it.
pub uninterp spec fn sha3_256(input: Seq<u8>) -> Seq<u8>;

/// `Sha3_256::digest` of the sha3 crate. Trusted: that the digest is a
/// function of the input bytes and of nothing else.
#[verifier::external_body]
pub(crate) fn sha3_256_digest(input: &[u8]) -> (digest: [u8; 32])
    ensures
        digest@ == sha3_256(input@),
{
    <sha3::Sha3_256 as sha3::Digest>::digest(input).into()
}

/// The hash that stands before the first record.
pub open spec fn genesis_hash() -> Seq<u8> {
    Seq::new(HASH_SIZE as nat, |i: int| 0u8)
}

/// The bytes of a text that may be absent; an absent one has none.
pub open spec fn text_bytes(text: Option<Seq<char>>) -> Seq<u8> {
    match text {
        Some(t) => encode_utf8(t),
        None => Seq::<u8>::empty(),
    }
}

/// The bytes of a field that may be absent; an absent one has none.
pub open spec fn data_bytes(data: Option<Seq<u8>>) -> Seq<u8> {
    match data {
        Some(d) => d,
        None => Seq::<u8>::empty(),
    }
}

/// What a record contributes to its digest besides the previous hash: the
/// code, the timestamp and the fields. The record's own hash has no part.
pub open spec fn digest_body(record: LogRecord) -> Seq<u8> {
    i32_le(record.code()) + u128_le(record.timestamp()) + match record {
        LogRecord::Add { name, description, secret, .. } => encode_utf8(name) + encode_utf8(
            description,
        ) + secret,
        LogRecord::Update { src_name, dst_name, dst_description, dst_secret, .. } => encode_utf8(
            src_name,
        ) + text_bytes(dst_name) + text_bytes(dst_description) + data_bytes(dst_secret),
        LogRecord::Del { name, .. } => encode_utf8(name),
    }
}

/// The hash that a record must carry when it follows a record with the
/// hash `previous`.
pub open spec fn chain_hash(previous: Seq<u8>, record: LogRecord) -> Seq<u8> {
    sha3_256(previous + digest_body(record))
}

/// The record with its hash set as the chain demands.
pub open spec fn chained(previous: Seq<u8>, record: LogRecord) -> LogRecord {
    record.with_hash(chain_hash(previous, record))
}

/// The hash that stands before the record at `i`: the hash of the record
/// before it, or `previous` in front of the first record.
pub open spec fn hash_before(previous: Seq<u8>, records: Seq<LogRecord>, i: int) -> Seq<u8> {
    if i <= 0 {
        previous
    } else {
        records[i - 1].hash()
    }
}

/// Every record carries the hash that the chain demands of it.
pub open spec fn chain_valid(previous: Seq<u8>, records: Seq<LogRecord>) -> bool {
    forall|i: int|
        0 <= i < records.len() ==> (#[trigger] records[i]).hash() == chain_hash(
            hash_before(previous, records, i),
            records[i],
        )
}

/// Every hash in the chain, and the one before it, has its fixed width.
pub open spec fn hashes_sized(previous: Seq<u8>, records: Seq<LogRecord>) -> bool {
    &&& previous.len() == HASH_SIZE
    &&& forall|i: int| 0 <= i < records.len() ==> (#[trigger] records[i]).hash().len() == HASH_SIZE
}

/// Two byte strings that differ and have the same digest.
pub open spec fn collision(first: Seq<u8>, second: Seq<u8>) -> bool {
    first != second && sha3_256(first) == sha3_256(second)
}

/// Tamper evidence. Two chains that start from the same hash and agree on
/// the hash of the record at `j` agree, up to that record, on every hash
/// and on everything that the digests cover, unless SHA3-256 collides.
/// So whoever changes what an earlier record says must change every later
/// hash, or find a collision.
pub proof fn chains_agree_or_collide(
    previous: Seq<u8>,
    first: Seq<LogRecord>,
    second: Seq<LogRecord>,
    j: int,
)
    requires
        chain_valid(previous, first),
        chain_valid(previous, second),
        hashes_sized(previous, first),
        hashes_sized(previous, second),
        0 <= j < first.len(),
        j < second.len(),
        first[j].hash() == second[j].hash(),
    ensures
        (exists|x: Seq<u8>, y: Seq<u8>| collision(x, y)) || (forall|i: int|
            0 <= i <= j ==> (#[trigger] first[i]).hash() == (#[trigger] second[i]).hash()
                && digest_body(first[i]) == digest_body(second[i])),
    decreases j,
{
    let before_first = hash_before(previous, first, j);
    let before_second = hash_before(previous, second, j);
    let x = before_first + digest_body(first[j]);
    let y = before_second + digest_body(second[j]);
    assert(sha3_256(x) == first[j].hash());
    assert(sha3_256(y) == second[j].hash());
    if x != y {
        assert(collision(x, y));
    } else {
        assert(before_first =~= x.subrange(0, HASH_SIZE as int));
        assert(before_second =~= y.subrange(0, HASH_SIZE as int));
        assert(digest_body(first[j]) =~= x.subrange(HASH_SIZE as int, x.len() as int));
        assert(digest_body(second[j]) =~= y.subrange(HASH_SIZE as int, y.len() as int));
        if j > 0 {
            chains_agree_or_collide(previous, first, second, j - 1);
        }
    }
}

/// Two optional fields are both absent, or both present and as long as
/// each other.
pub open spec fn same_length(first: Option<Seq<u8>>, second: Option<Seq<u8>>) -> bool {
    match (first, second) {
        (Some(a), Some(b)) => a.len() == b.len(),
        (None, None) => true,
        _ => false,
    }
}

/// The UTF-8 bytes of an optional text.
pub open spec fn encoded(text: Option<Seq<char>>) -> Option<Seq<u8>> {
    match text {
        Some(t) => Some(encode_utf8(t)),
        None => None,
    }
}

/// Two records are of the same kind, and field by field of the same length.
pub open spec fn same_shape(first: LogRecord, second: LogRecord) -> bool {
    match (first, second) {
        (
            LogRecord::Add { name: n1, description: d1, secret: s1, .. },
            LogRecord::Add { name: n2, description: d2, secret: s2, .. },
        ) => {
            &&& encode_utf8(n1).len() == encode_utf8(n2).len()
            &&& encode_utf8(d1).len() == encode_utf8(d2).len()
            &&& s1.len() == s2.len()
        },
        (
            LogRecord::Update {
                src_name: n1,
                dst_name: m1,
                dst_description: d1,
                dst_secret: s1,
                ..
            },
            LogRecord::Update {
                src_name: n2,
                dst_name: m2,
                dst_description: d2,
                dst_secret: s2,
                ..
            },
        ) => {
            &&& encode_utf8(n1).len() == encode_utf8(n2).len()
            &&& same_length(encoded(m1), encoded(m2))
            &&& same_length(encoded(d1), encoded(d2))
            &&& same_length(s1, s2)
        },
        (LogRecord::Del { .. }, LogRecord::Del { .. }) => true,
        _ => false,
    }
}

/// Texts with the same UTF-8 bytes are the same text.
proof fn lemma_text_by_bytes(first: Seq<char>, second: Seq<char>)
    requires
        encode_utf8(first) == encode_utf8(second),
    ensures
        first == second,
{
    encode_utf8_decode_utf8(first);
    encode_utf8_decode_utf8(second);
}

/// Optional texts of the same length with the same bytes are the same.
proof fn lemma_optional_text_by_bytes(first: Option<Seq<char>>, second: Option<Seq<char>>)
    requires
        same_length(encoded(first), encoded(second)),
        text_bytes(first) == text_bytes(second),
    ensures
        first == second,
{
    if first is Some {
        lemma_text_by_bytes(first->0, second->0);
    }
}

/// Two pieces of the same length in front of equal wholes are equal, and
/// so is what follows them.
proof fn lemma_split(a: Seq<u8>, rest_a: Seq<u8>, b: Seq<u8>, rest_b: Seq<u8>)
    requires
        a.len() == b.len(),
        a + rest_a == b + rest_b,
    ensures
        a == b,
        rest_a == rest_b,
{
    let whole = a + rest_a;
    assert(a =~= whole.subrange(0, a.len() as int));
    assert(b =~= (b + rest_b).subrange(0, b.len() as int));
    assert(rest_a =~= whole.subrange(a.len() as int, whole.len() as int));
    assert(rest_b =~= (b + rest_b).subrange(b.len() as int, whole.len() as int));
}

/// The digest covers the record. Two records of the same shape with the
/// same digest body say the same: the same time and the same fields. So a
/// change to a byte of a field changes what is hashed.
pub proof fn digest_covers_record(first: LogRecord, second: LogRecord)
    requires
        same_shape(first, second),
        digest_body(first) == digest_body(second),
    ensures
        first.with_hash(genesis_hash()) == second.with_hash(genesis_hash()),
{
    lemma_i32_le(first.code());
    lemma_u128_le(first.timestamp());
    lemma_u128_le(second.timestamp());
    let code = i32_le(first.code());
    let t1 = u128_le(first.timestamp());
    let t2 = u128_le(second.timestamp());
    assert(u128_from_le(t1) == first.timestamp());
    assert(u128_from_le(t2) == second.timestamp());
    match (first, second) {
        (
            LogRecord::Add { name: n1, description: d1, secret: s1, .. },
            LogRecord::Add { name: n2, description: d2, secret: s2, .. },
        ) => {
            let f1 = encode_utf8(n1) + encode_utf8(d1) + s1;
            let f2 = encode_utf8(n2) + encode_utf8(d2) + s2;
            lemma_split(code + t1, f1, code + t2, f2);
            lemma_split(code, t1, code, t2);
            lemma_split(encode_utf8(n1) + encode_utf8(d1), s1, encode_utf8(n2) + encode_utf8(d2), s2);
            lemma_split(encode_utf8(n1), encode_utf8(d1), encode_utf8(n2), encode_utf8(d2));
            lemma_text_by_bytes(n1, n2);
            lemma_text_by_bytes(d1, d2);
        },
        (
            LogRecord::Update {
                src_name: n1,
                dst_name: m1,
                dst_description: d1,
                dst_secret: s1,
                ..
            },
            LogRecord::Update {
                src_name: n2,
                dst_name: m2,
                dst_description: d2,
                dst_secret: s2,
                ..
            },
        ) => {
            let f1 = encode_utf8(n1) + text_bytes(m1) + text_bytes(d1) + data_bytes(s1);
            let f2 = encode_utf8(n2) + text_bytes(m2) + text_bytes(d2) + data_bytes(s2);
            lemma_split(code + t1, f1, code + t2, f2);
            lemma_split(code, t1, code, t2);
            lemma_split(
                encode_utf8(n1) + text_bytes(m1) + text_bytes(d1),
                data_bytes(s1),
                encode_utf8(n2) + text_bytes(m2) + text_bytes(d2),
                data_bytes(s2),
            );
            lemma_split(
                encode_utf8(n1) + text_bytes(m1),
                text_bytes(d1),
                encode_utf8(n2) + text_bytes(m2),
                text_bytes(d2),
            );
            lemma_split(encode_utf8(n1), text_bytes(m1), encode_utf8(n2), text_bytes(m2));
            lemma_text_by_bytes(n1, n2);
            lemma_optional_text_by_bytes(m1, m2);
            lemma_optional_text_by_bytes(d1, d2);
        },
        (LogRecord::Del { name: n1, .. }, LogRecord::Del { name: n2, .. }) => {
            lemma_split(code + t1, encode_utf8(n1), code + t2, encode_utf8(n2));
            lemma_split(code, t1, code, t2);
            lemma_text_by_bytes(n1, n2);
        },
        _ => {},
    }
}

/// Appends the bytes of a text that may be absent.
fn extend_text(out: &mut Vec<u8>, text: &Option<String>)
    ensures
        final(out)@ == old(out)@ + text_bytes(crate::storage::wire::option_string(*text)),
{
    match text {
        Some(t) => {
            out.extend_from_slice(t.as_str().as_bytes());
            assert(out@ =~= old(out)@ + encode_utf8(t@));
        },
        None => {
            assert(out@ =~= old(out)@ + Seq::<u8>::empty());
        },
    }
}

/// Appends the bytes of a field that may be absent.
fn extend_data(out: &mut Vec<u8>, data: &Option<Vec<u8>>)
    ensures
        final(out)@ == old(out)@ + data_bytes(crate::storage::wire::option_vec(*data)),
{
    match data {
        Some(d) => {
            out.extend_from_slice(d.as_slice());
            assert(out@ =~= old(out)@ + d@);
        },
        None => {
            assert(out@ =~= old(out)@ + Seq::<u8>::empty());
        },
    }
}

/// The hash that an operation must carry behind a record with the hash
/// `previous`. The hash that the operation carries now has no part in it.
pub fn chain_digest(previous: &[u8; 32], operation: &EntryOperationDto) -> (hash: [u8; 32])
    ensures
        hash@ == chain_hash(previous@, operation@),
{
    let mut input: Vec<u8> = Vec::new();
    input.extend_from_slice(previous.as_slice());
    match operation {
        EntryOperationDto::Add { timestamp, name, description, secret, .. } => {
            write_i32(&mut input, ADD_CODE);
            write_le(&mut input, *timestamp, 16);
            input.extend_from_slice(name.as_str().as_bytes());
            input.extend_from_slice(description.as_str().as_bytes());
            input.extend_from_slice(secret.as_slice());
        },
        EntryOperationDto::Update {
            timestamp,
            src_name,
            dst_name,
            dst_description,
            dst_secret,
            ..
        } => {
            write_i32(&mut input, UPDATE_CODE);
            write_le(&mut input, *timestamp, 16);
            input.extend_from_slice(src_name.as_str().as_bytes());
            extend_text(&mut input, dst_name);
            extend_text(&mut input, dst_description);
            extend_data(&mut input, dst_secret);
        },
        EntryOperationDto::Del { timestamp, name, .. } => {
            write_i32(&mut input, DEL_CODE);
            write_le(&mut input, *timestamp, 16);
            input.extend_from_slice(name.as_str().as_bytes());
        },
    }
    assert(input@ =~= previous@ + digest_body(operation@));
    sha3_256_digest(input.as_slice())
}

} // verus!
