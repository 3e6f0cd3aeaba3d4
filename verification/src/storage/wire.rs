//! Fixed-width integers and length-prefixed fields, the atoms of the format.
//!
//! Every integer is little-endian. A variable field is a 32-bit signed
//! length followed by that many bytes; the length -1 marks an absent field.

use crate::errors::RegistryError;
use crate::storage::little_endian::{
    le_bytes, le_value, lemma_le_bound, lemma_le_len, lemma_le_round_trip, lemma_radix_values,
    read_le, write_le,
};
use vstd::prelude::*;
use vstd::slice::*;
use vstd::utf8::*;

verus! {

/// The number that a signed integer is written as: itself, or, where it
/// is negative, its two's complement in 32 bits.
pub open spec fn unsigned(value: i32) -> nat {
    if value >= 0 {
        value as nat
    } else {
        (value + 0x1_0000_0000) as nat
    }
}

/// The signed integer that a number below 2^32 is read as.
pub open spec fn signed(value: nat) -> i32 {
    if value < 0x8000_0000 {
        value as i32
    } else {
        (value - 0x1_0000_0000) as i32
    }
}

/// The four bytes of a 32-bit signed integer, least significant first.
pub open spec fn i32_le(value: i32) -> Seq<u8> {
    le_bytes(unsigned(value), 4)
}

/// The integer that four little-endian bytes stand for.
pub open spec fn i32_from_le(bytes: Seq<u8>) -> i32 {
    signed(le_value(bytes))
}

/// The integer stored in the four bytes that start at `at`.
pub open spec fn i32_at(bytes: Seq<u8>, at: int) -> i32 {
    i32_from_le(bytes.subrange(at, at + 4))
}

/// Encoding an integer takes four bytes and loses nothing.
pub proof fn lemma_i32_le(value: i32)
    ensures
        i32_le(value).len() == 4,
        i32_from_le(i32_le(value)) == value,
{
    lemma_le_len(unsigned(value), 4);
    lemma_radix_values();
    lemma_le_round_trip(unsigned(value), 4);
}

/// The bytes of the numbers that the format is made of: one is a one and
/// three zeros, and minus one is four bytes of 255.
pub proof fn small_numbers_on_the_wire()
    ensures
        i32_le(0) == seq![0u8, 0u8, 0u8, 0u8],
        i32_le(1) == seq![1u8, 0u8, 0u8, 0u8],
        i32_le(2) == seq![2u8, 0u8, 0u8, 0u8],
        i32_le(3) == seq![3u8, 0u8, 0u8, 0u8],
        i32_le(-1i32) == seq![255u8, 255u8, 255u8, 255u8],
        i32_le(0x0102_0304) == seq![4u8, 3u8, 2u8, 1u8],
{
    reveal_with_fuel(le_bytes, 5);
    assert(i32_le(0) =~= seq![0u8, 0u8, 0u8, 0u8]);
    assert(i32_le(1) =~= seq![1u8, 0u8, 0u8, 0u8]);
    assert(i32_le(2) =~= seq![2u8, 0u8, 0u8, 0u8]);
    assert(i32_le(3) =~= seq![3u8, 0u8, 0u8, 0u8]);
    assert(i32_le(-1i32) =~= seq![255u8, 255u8, 255u8, 255u8]);
    assert(i32_le(0x0102_0304) =~= seq![4u8, 3u8, 2u8, 1u8]);
}

/// The encoding of a field: its length and its bytes, or -1 when absent.
pub open spec fn field_bytes(data: Option<Seq<u8>>) -> Seq<u8> {
    match data {
        Some(d) => i32_le(d.len() as i32) + d,
        None => i32_le(-1i32),
    }
}

/// Whether a field's length fits its 32-bit prefix.
pub open spec fn field_fits(data: Option<Seq<u8>>) -> bool {
    match data {
        Some(d) => d.len() <= i32::MAX,
        None => true,
    }
}

/// Reads the field that starts at `at`: its content, if present, and the
/// position just behind it.
pub open spec fn parse_field(bytes: Seq<u8>, at: int) -> Result<(Option<Seq<u8>>, int), RegistryError> {
    if at + 4 > bytes.len() {
        Err(RegistryError::TruncatedRecord)
    } else {
        let n = i32_at(bytes, at);
        if n == -1 {
            Ok((None, at + 4))
        } else if n < -1 {
            Err(RegistryError::MalformedField)
        } else if at + 4 + n > bytes.len() {
            Err(RegistryError::TruncatedRecord)
        } else {
            Ok((Some(bytes.subrange(at + 4, at + 4 + n)), at + 4 + n))
        }
    }
}

/// Appends the little-endian bytes of `data`.
pub fn write_i32(out: &mut Vec<u8>, data: i32)
    ensures
        final(out)@ == old(out)@ + i32_le(data),
{
    let wide: i64 = data as i64;
    let number: u128 = if wide < 0 {
        (wide + 0x1_0000_0000) as u128
    } else {
        wide as u128
    };
    write_le(out, number, 4);
}

/// The integer stored at `pos`, which must have four bytes behind it.
pub fn i32_at_position(bytes: &[u8], pos: usize) -> (value: i32)
    requires
        pos + 4 <= bytes@.len(),
    ensures
        value == i32_at(bytes@, pos as int),
{
    let number: u128 = read_le(bytes, pos, 4);
    proof {
        lemma_le_bound(bytes@.subrange(pos as int, pos + 4));
        lemma_radix_values();
    }
    if number < 0x8000_0000 {
        number as i32
    } else {
        (number as i64 - 0x1_0000_0000) as i32
    }
}

/// Reads the operation code that starts a record: nothing at the clean end
/// of the bytes, otherwise the code and the position behind it.
pub open spec fn parse_code(bytes: Seq<u8>, at: int) -> Result<Option<(i32, int)>, RegistryError> {
    if at >= bytes.len() {
        Ok(None)
    } else if at + 4 > bytes.len() {
        Err(RegistryError::TruncatedRecord)
    } else {
        Ok(Some((i32_at(bytes, at), at + 4)))
    }
}

/// Reads an integer where the end of the bytes is a legitimate place to stop.
pub fn read_i32_option(bytes: &[u8], pos: usize) -> (r: Result<Option<(i32, usize)>, RegistryError>)
    ensures
        match parse_code(bytes@, pos as int) {
            Ok(Some((code, behind))) => r matches Ok(Some((value, end))) && value == code && end
                == behind,
            Ok(None) => r matches Ok(None),
            Err(e) => r matches Err(fault) && fault == e,
        },
{
    let len: usize = bytes.len();
    if pos >= len {
        Ok(None)
    } else if len - pos < 4 {
        Err(RegistryError::TruncatedRecord)
    } else {
        Ok(Some((i32_at_position(bytes, pos), pos + 4)))
    }
}

/// Reads an integer that must be there.
pub fn read_i32(bytes: &[u8], pos: usize) -> (r: Result<(i32, usize), RegistryError>)
    ensures
        pos + 4 > bytes@.len() <==> r is Err,
        r matches Err(fault) ==> fault == RegistryError::TruncatedRecord,
        r matches Ok((value, end)) ==> value == i32_at(bytes@, pos as int) && end == pos + 4,
{
    let len: usize = bytes.len();
    if pos > len || len - pos < 4 {
        Err(RegistryError::TruncatedRecord)
    } else {
        Ok((i32_at_position(bytes, pos), pos + 4))
    }
}

/// Reads exactly `COUNT` bytes.
pub fn read_bytes_array<const COUNT: usize>(bytes: &[u8], pos: usize) -> (r: Result<
    ([u8; COUNT], usize),
    RegistryError,
>)
    ensures
        pos + COUNT > bytes@.len() <==> r is Err,
        r matches Err(fault) ==> fault == RegistryError::TruncatedRecord,
        r matches Ok((block, end)) ==> block@ == bytes@.subrange(pos as int, pos + COUNT) && end
            == pos + COUNT,
{
    let len: usize = bytes.len();
    if pos > len || len - pos < COUNT {
        return Err(RegistryError::TruncatedRecord);
    }
    let mut block: [u8; COUNT] = [0u8; COUNT];
    let mut i: usize = 0;
    while i < COUNT
        invariant
            i <= COUNT,
            pos + COUNT <= len,
            len == bytes@.len(),
            forall|k: int| 0 <= k < i ==> block@[k] == bytes@[pos + k],
        decreases COUNT - i,
    {
        block[i] = bytes[pos + i];
        i += 1;
    }
    assert(block@ =~= bytes@.subrange(pos as int, pos + COUNT));
    Ok((block, pos + COUNT))
}

/// Appends a field: the length and the bytes, or -1 when there is none.
/// A field too long for its prefix is refused and nothing is written.
pub fn write_bytes(out: &mut Vec<u8>, data: Option<&[u8]>) -> (r: Result<(), RegistryError>)
    ensures
        field_fits(option_bytes(data)) <==> r is Ok,
        r is Ok ==> final(out)@ == old(out)@ + field_bytes(option_bytes(data)),
        r matches Err(fault) ==> fault == RegistryError::FieldTooLarge && final(out)@ == old(out)@,
{
    match data {
        Some(d) => {
            let n: usize = d.len();
            if n > 0x7fff_ffff {
                return Err(RegistryError::FieldTooLarge);
            }
            write_i32(out, n as i32);
            out.extend_from_slice(d);
            assert(out@ =~= old(out)@ + field_bytes(option_bytes(data)));
        },
        None => {
            write_i32(out, -1);
        },
    }
    Ok(())
}

/// What an optional slice holds.
pub open spec fn option_bytes(data: Option<&[u8]>) -> Option<Seq<u8>> {
    match data {
        Some(d) => Some(d@),
        None => None,
    }
}

/// What an optional vector holds.
pub open spec fn option_vec(data: Option<Vec<u8>>) -> Option<Seq<u8>> {
    match data {
        Some(d) => Some(d@),
        None => None,
    }
}

/// Whether a field fits its length prefix.
pub fn data_fits(data: Option<&[u8]>) -> (b: bool)
    ensures
        b == field_fits(option_bytes(data)),
{
    match data {
        Some(d) => d.len() <= 0x7fff_ffff,
        None => true,
    }
}

/// Reads a field: its bytes, or nothing when it is marked absent.
pub fn read_bytes(bytes: &[u8], pos: usize) -> (r: Result<(Option<Vec<u8>>, usize), RegistryError>)
    ensures
        match parse_field(bytes@, pos as int) {
            Ok((content, behind)) => r matches Ok((data, end)) && option_vec(data) == content
                && end == behind,
            Err(e) => r matches Err(fault) && fault == e,
        },
{
    let len: usize = bytes.len();
    if pos > len || len - pos < 4 {
        return Err(RegistryError::TruncatedRecord);
    }
    let size: i32 = i32_at_position(bytes, pos);
    if size == -1 {
        return Ok((None, pos + 4));
    }
    if size < -1 {
        return Err(RegistryError::MalformedField);
    }
    let n: usize = size as usize;
    if len - (pos + 4) < n {
        return Err(RegistryError::TruncatedRecord);
    }
    let data: Vec<u8> = slice_to_vec(slice_subrange(bytes, pos + 4, pos + 4 + n));
    Ok((Some(data), pos + 4 + n))
}

/// The bytes that stand for an optional text: its UTF-8 encoding.
pub open spec fn text_field(text: Option<Seq<char>>) -> Option<Seq<u8>> {
    match text {
        Some(t) => Some(encode_utf8(t)),
        None => None,
    }
}

/// What an optional string slice holds.
pub open spec fn option_str(data: Option<&str>) -> Option<Seq<char>> {
    match data {
        Some(t) => Some(t@),
        None => None,
    }
}

/// What an optional string holds.
pub open spec fn option_string(data: Option<String>) -> Option<Seq<char>> {
    match data {
        Some(t) => Some(t@),
        None => None,
    }
}

/// Reads a text field: a field whose bytes, if present, must be UTF-8.
pub open spec fn parse_text(bytes: Seq<u8>, at: int) -> Result<(Option<Seq<char>>, int), RegistryError> {
    match parse_field(bytes, at) {
        Ok((Some(raw), behind)) => if valid_utf8(raw) {
            Ok((Some(decode_utf8(raw)), behind))
        } else {
            Err(RegistryError::MalformedField)
        },
        Ok((None, behind)) => Ok((None, behind)),
        Err(e) => Err(e),
    }
}

/// Reads a field that the format does not allow to be absent.
pub open spec fn parse_required_field(bytes: Seq<u8>, at: int) -> Result<(Seq<u8>, int), RegistryError> {
    match parse_field(bytes, at) {
        Ok((Some(raw), behind)) => Ok((raw, behind)),
        Ok((None, _)) => Err(RegistryError::MalformedField),
        Err(e) => Err(e),
    }
}

/// Reads a text that the format does not allow to be absent.
pub open spec fn parse_required_text(bytes: Seq<u8>, at: int) -> Result<(Seq<char>, int), RegistryError> {
    match parse_text(bytes, at) {
        Ok((Some(text), behind)) => Ok((text, behind)),
        Ok((None, _)) => Err(RegistryError::MalformedField),
        Err(e) => Err(e),
    }
}

/// `String::from_utf8` of std: the text that the bytes encode, and nothing
/// exactly when they are not valid UTF-8. Not proved: that std accepts the
/// byte sequences that `valid_utf8` describes and decodes them as
/// `decode_utf8` does.
#[verifier::external_body]
pub(crate) fn string_from_utf8(bytes: Vec<u8>) -> (r: Option<String>)
    ensures
        valid_utf8(bytes@) <==> r is Some,
        r matches Some(text) ==> text@ == decode_utf8(bytes@),
{
    String::from_utf8(bytes).ok()
}

/// Whether a text, encoded as UTF-8, fits its length prefix.
pub fn text_fits(data: Option<&str>) -> (b: bool)
    ensures
        b == field_fits(text_field(option_str(data))),
{
    match data {
        Some(text) => text.as_bytes().len() <= 0x7fff_ffff,
        None => true,
    }
}

/// Appends a text field, encoded as UTF-8.
pub fn write_string(out: &mut Vec<u8>, data: Option<&str>) -> (r: Result<(), RegistryError>)
    ensures
        field_fits(text_field(option_str(data))) <==> r is Ok,
        r is Ok ==> final(out)@ == old(out)@ + field_bytes(text_field(option_str(data))),
        r matches Err(fault) ==> fault == RegistryError::FieldTooLarge && final(out)@ == old(out)@,
{
    match data {
        Some(text) => write_bytes(out, Some(text.as_bytes())),
        None => write_bytes(out, None),
    }
}

/// Reads a text field.
pub fn read_string(bytes: &[u8], pos: usize) -> (r: Result<(Option<String>, usize), RegistryError>)
    ensures
        match parse_text(bytes@, pos as int) {
            Ok((content, behind)) => r matches Ok((data, end)) && option_string(data) == content
                && end == behind,
            Err(e) => r matches Err(fault) && fault == e,
        },
{
    match read_bytes(bytes, pos) {
        Ok((Some(raw), end)) => match string_from_utf8(raw) {
            Some(text) => Ok((Some(text), end)),
            None => Err(RegistryError::MalformedField),
        },
        Ok((None, end)) => Ok((None, end)),
        Err(e) => Err(e),
    }
}

/// Reads a field that must be present.
pub fn read_required_bytes(bytes: &[u8], pos: usize) -> (r: Result<(Vec<u8>, usize), RegistryError>)
    ensures
        match parse_required_field(bytes@, pos as int) {
            Ok((content, behind)) => r matches Ok((data, end)) && data@ == content && end
                == behind,
            Err(e) => r matches Err(fault) && fault == e,
        },
{
    match read_bytes(bytes, pos) {
        Ok((Some(raw), end)) => Ok((raw, end)),
        Ok((None, _)) => Err(RegistryError::MalformedField),
        Err(e) => Err(e),
    }
}

/// Reads a text that must be present.
pub fn read_required_string(bytes: &[u8], pos: usize) -> (r: Result<(String, usize), RegistryError>)
    ensures
        match parse_required_text(bytes@, pos as int) {
            Ok((content, behind)) => r matches Ok((data, end)) && data@ == content && end
                == behind,
            Err(e) => r matches Err(fault) && fault == e,
        },
{
    match read_string(bytes, pos) {
        Ok((Some(text), end)) => Ok((text, end)),
        Ok((None, _)) => Err(RegistryError::MalformedField),
        Err(e) => Err(e),
    }
}

/// A field written behind any prefix is read back whole, whatever follows.
pub proof fn lemma_field_round_trip(prefix: Seq<u8>, data: Option<Seq<u8>>, tail: Seq<u8>)
    requires
        field_fits(data),
    ensures
        parse_field(prefix + field_bytes(data) + tail, prefix.len() as int) matches Ok(
            (content, behind),
        ) && content == data && behind == prefix.len() + field_bytes(data).len(),
{
    let at = prefix.len() as int;
    let all = prefix + field_bytes(data) + tail;
    match data {
        Some(d) => {
            lemma_i32_le(d.len() as i32);
            assert(all.subrange(at, at + 4) =~= i32_le(d.len() as i32));
            assert(all.subrange(at + 4, at + 4 + d.len()) =~= d);
        },
        None => {
            lemma_i32_le(-1i32);
            assert(all.subrange(at, at + 4) =~= i32_le(-1i32));
        },
    }
}

/// A field that was read is read the same when more bytes follow.
pub proof fn lemma_field_stable(bytes: Seq<u8>, at: int, tail: Seq<u8>)
    requires
        0 <= at,
        parse_field(bytes, at) is Ok,
    ensures
        parse_field(bytes + tail, at) == parse_field(bytes, at),
{
    assert((bytes + tail).subrange(at, at + 4) =~= bytes.subrange(at, at + 4));
    let n = i32_at(bytes, at);
    if n >= 0 {
        assert((bytes + tail).subrange(at + 4, at + 4 + n) =~= bytes.subrange(at + 4, at + 4 + n));
    }
}

/// A text written behind any prefix is read back whole, whatever follows.
pub proof fn lemma_text_round_trip(prefix: Seq<u8>, text: Option<Seq<char>>, tail: Seq<u8>)
    requires
        field_fits(text_field(text)),
    ensures
        parse_text(prefix + field_bytes(text_field(text)) + tail, prefix.len() as int) matches Ok(
            (content, behind),
        ) && content == text && behind == prefix.len() + field_bytes(text_field(text)).len(),
{
    lemma_field_round_trip(prefix, text_field(text), tail);
    match text {
        Some(t) => {
            encode_utf8_valid_utf8(t);
            encode_utf8_decode_utf8(t);
        },
        None => {},
    }
}

/// A text that was read is read the same when more bytes follow.
pub proof fn lemma_text_stable(bytes: Seq<u8>, at: int, tail: Seq<u8>)
    requires
        0 <= at,
        parse_text(bytes, at) is Ok,
    ensures
        parse_text(bytes + tail, at) == parse_text(bytes, at),
{
    lemma_field_stable(bytes, at, tail);
}

} // verus!
