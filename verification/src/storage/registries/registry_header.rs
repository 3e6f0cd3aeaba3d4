//! The fixed-size header that starts every registry.
//!
//! Five fields in a fixed order: version, name, key type, and the sizes of
//! the two key sections that follow. Integers are 32-bit little-endian; the
//! name is a 256-byte field, zero-padded behind the text.
//!
//! A name is cut to its first 64 characters before it is stored. No
//! character takes more than four bytes in UTF-8, so what is left always
//! fits the field and no name is ever refused. Reading a name back drops
//! the zero bytes at the end of the field.

use crate::errors::RegistryError;
use crate::storage::wire::{i32_at, i32_at_position, i32_le, lemma_i32_le, write_i32};
use vstd::prelude::*;
use vstd::slice::*;
use vstd::utf8::*;

verus! {

/// The width of the name field.
pub const NAME_SIZE: usize = 256;

/// The width of the whole header.
pub const HEADER_SIZE: usize = 272;

/// The number of characters of a name that are kept.
pub const NAME_LIMIT: usize = 64;

/// The header as it is held in memory.
#[derive(Debug, PartialEq, Eq)]
pub struct RegistryHeader {
    pub version: i32,
    pub name: [u8; 256],
    pub key_type: i32,
    pub public_key_size: i32,
    pub private_key_size: i32,
}

/// The header as a mathematical value.
pub struct HeaderView {
    pub version: i32,
    pub name: Seq<u8>,
    pub key_type: i32,
    pub public_key_size: i32,
    pub private_key_size: i32,
}

impl View for RegistryHeader {
    type V = HeaderView;

    open spec fn view(&self) -> HeaderView {
        HeaderView {
            version: self.version,
            name: self.name@,
            key_type: self.key_type,
            public_key_size: self.public_key_size,
            private_key_size: self.private_key_size,
        }
    }
}

impl HeaderView {
    /// The header on the wire.
    pub open spec fn bytes(self) -> Seq<u8> {
        i32_le(self.version) + self.name + i32_le(self.key_type) + i32_le(self.public_key_size)
            + i32_le(self.private_key_size)
    }
}

/// Reads the header that starts the bytes; there is none when fewer bytes
/// than a header are given.
pub open spec fn parse_header(bytes: Seq<u8>) -> Option<HeaderView> {
    if bytes.len() < HEADER_SIZE {
        None
    } else {
        Some(
            HeaderView {
                version: i32_at(bytes, 0),
                name: bytes.subrange(4, 4 + NAME_SIZE),
                key_type: i32_at(bytes, 4 + NAME_SIZE),
                public_key_size: i32_at(bytes, 8 + NAME_SIZE),
                private_key_size: i32_at(bytes, 12 + NAME_SIZE),
            },
        )
    }
}

/// The part of a name that is stored: its first 64 characters.
pub open spec fn stored_name(name: Seq<char>) -> Seq<char> {
    if name.len() <= NAME_LIMIT {
        name
    } else {
        name.subrange(0, NAME_LIMIT as int)
    }
}

/// The name field for a name: the UTF-8 bytes of what is stored, then zeros.
pub open spec fn name_field(name: Seq<char>) -> Seq<u8> {
    let text = encode_utf8(stored_name(name));
    Seq::new(
        NAME_SIZE as nat,
        |i: int|
            if i < text.len() {
                text[i]
            } else {
                0u8
            },
    )
}

/// Where the text of a name field ends: behind its last byte that is not zero.
pub open spec fn text_end(field: Seq<u8>) -> int
    decreases field.len(),
{
    if field.len() == 0 {
        0
    } else if field.last() != 0 {
        field.len() as int
    } else {
        text_end(field.drop_last())
    }
}

/// The text bytes of a name field: the field without the zeros at its end.
pub open spec fn name_text(field: Seq<u8>) -> Seq<u8> {
    field.subrange(0, text_end(field))
}

/// The text ends inside the field, behind a byte that is not zero, and only
/// zeros follow it.
pub proof fn lemma_text_end(field: Seq<u8>)
    ensures
        0 <= text_end(field) <= field.len(),
        text_end(field) > 0 ==> field[text_end(field) - 1] != 0,
        forall|i: int| text_end(field) <= i < field.len() ==> field[i] == 0,
    decreases field.len(),
{
    if field.len() > 0 && field.last() == 0 {
        let front = field.drop_last();
        lemma_text_end(front);
        assert forall|i: int| text_end(field) <= i < field.len() implies field[i] == 0 by {
            if i < front.len() {
                assert(front[i] == field[i]);
            }
        }
    }
}

/// No text takes more than four bytes a character.
pub proof fn lemma_encoded_length(text: Seq<char>)
    ensures
        encode_utf8(text).len() <= 4 * text.len(),
    decreases text.len(),
{
    if text.len() > 0 {
        lemma_encoded_length(text.drop_first());
    }
}

impl RegistryHeader {
    /// Reads the header from the start of the bytes, of which it takes
    /// exactly `HEADER_SIZE`.
    pub fn read(bytes: &[u8]) -> (r: Result<RegistryHeader, RegistryError>)
        ensures
            bytes@.len() < HEADER_SIZE <==> r is Err,
            r matches Err(fault) ==> fault == RegistryError::TruncatedHeader,
            r matches Ok(header) ==> parse_header(bytes@) == Some(header@),
    {
        if bytes.len() < HEADER_SIZE {
            return Err(RegistryError::TruncatedHeader);
        }
        let version: i32 = i32_at_position(bytes, 0);
        let mut name: [u8; 256] = [0u8; 256];
        let mut i: usize = 0;
        while i < NAME_SIZE
            invariant
                i <= NAME_SIZE,
                bytes@.len() >= HEADER_SIZE,
                forall|k: int| 0 <= k < i ==> name@[k] == bytes@[4 + k],
            decreases NAME_SIZE - i,
        {
            name[i] = bytes[4 + i];
            i += 1;
        }
        let key_type: i32 = i32_at_position(bytes, 4 + NAME_SIZE);
        let public_key_size: i32 = i32_at_position(bytes, 8 + NAME_SIZE);
        let private_key_size: i32 = i32_at_position(bytes, 12 + NAME_SIZE);
        assert(name@ =~= bytes@.subrange(4, 4 + NAME_SIZE));
        Ok(RegistryHeader { version, name, key_type, public_key_size, private_key_size })
    }

    /// Appends the header's 272 bytes.
    pub fn write(&self, out: &mut Vec<u8>)
        ensures
            final(out)@ == old(out)@ + self@.bytes(),
    {
        write_i32(out, self.version);
        out.extend_from_slice(self.name.as_slice());
        write_i32(out, self.key_type);
        write_i32(out, self.public_key_size);
        write_i32(out, self.private_key_size);
        assert(out@ =~= old(out)@ + self@.bytes());
    }

    /// The name field for a name: its first 64 characters in UTF-8, padded
    /// with zeros.
    pub fn pack_name(name: &str) -> (field: [u8; 256])
        ensures
            field@ == name_field(name@),
    {
        let count: usize = name.unicode_len();
        let kept: &str = if count > NAME_LIMIT {
            name.substring_char(0, NAME_LIMIT)
        } else {
            name
        };
        assert(kept@ =~= stored_name(name@));
        let text: &[u8] = kept.as_bytes();
        proof {
            lemma_encoded_length(kept@);
        }
        let mut field: [u8; 256] = [0u8; 256];
        let mut i: usize = 0;
        while i < text.len()
            invariant
                i <= text@.len() <= NAME_SIZE,
                forall|k: int| 0 <= k < i ==> field@[k] == text@[k],
                forall|k: int| i <= k < NAME_SIZE ==> field@[k] == 0,
            decreases text@.len() - i,
        {
            field[i] = text[i];
            i += 1;
        }
        assert(field@ =~= name_field(name@));
        field
    }

    /// The name that a name field holds: the text before the zeros at its
    /// end. A field whose text is not UTF-8 holds no name.
    pub fn unpack_name(field: &[u8; 256]) -> (r: Result<String, RegistryError>)
        ensures
            valid_utf8(name_text(field@)) <==> r is Ok,
            r matches Ok(name) ==> name@ == decode_utf8(name_text(field@)),
            r matches Err(fault) ==> fault == RegistryError::MalformedField,
    {
        let mut end: usize = NAME_SIZE;
        assert(field@.subrange(0, end as int) =~= field@);
        while end > 0 && field[end - 1] == 0
            invariant
                end <= NAME_SIZE,
                text_end(field@) == text_end(field@.subrange(0, end as int)),
            decreases end,
        {
            assert(field@.subrange(0, end as int).drop_last() =~= field@.subrange(0, end - 1));
            end -= 1;
        }
        let text: Vec<u8> = slice_to_vec(slice_subrange(field.as_slice(), 0, end));
        match crate::storage::wire::string_from_utf8(text) {
            Some(name) => Ok(name),
            None => Err(RegistryError::MalformedField),
        }
    }
}

/// The text of a name's field ends where the encoding of the stored name
/// has nothing but zeros left.
proof fn lemma_name_text(name: Seq<char>)
    ensures
        ({
            let text = encode_utf8(stored_name(name));
            let end = text_end(name_field(name));
            &&& text.len() <= NAME_SIZE
            &&& 0 <= end <= text.len()
            &&& name_text(name_field(name)) == text.subrange(0, end)
            &&& end < text.len() ==> text[end] == 0
            &&& end > 0 ==> text[end - 1] != 0
        }),
{
    let text = encode_utf8(stored_name(name));
    let field = name_field(name);
    let end = text_end(field);
    lemma_encoded_length(stored_name(name));
    lemma_text_end(field);
    if end > text.len() {
        assert(field[end - 1] == 0);
    }
    if end < text.len() {
        assert(field[end] == text[end]);
    }
    if end > 0 {
        assert(field[end - 1] == text[end - 1]);
    }
    assert(field.subrange(0, end) =~= text.subrange(0, end));
}

/// The encoding of a text with one more character is the encoding of the
/// text with the encoding of the character behind it.
proof fn lemma_encode_push(text: Seq<char>, c: char)
    ensures
        encode_utf8(text.push(c)) == encode_utf8(text) + encode_scalar(c as u32),
    decreases text.len(),
{
    let longer = text.push(c);
    if text.len() == 0 {
        let nothing = Seq::<char>::empty();
        assert(longer.drop_first() =~= nothing);
        assert(text =~= nothing);
        assert(encode_utf8(nothing) =~= Seq::<u8>::empty());
        assert(longer[0] == c);
        assert(encode_utf8(longer) == encode_scalar(c as u32) + encode_utf8(nothing));
        assert(encode_utf8(longer) =~= encode_utf8(text) + encode_scalar(c as u32));
    } else {
        lemma_encode_push(text.drop_first(), c);
        assert(longer.drop_first() =~= text.drop_first().push(c));
        assert(encode_utf8(longer) =~= encode_utf8(text) + encode_scalar(c as u32));
    }
}

/// The encoding of a text that does not end in the character zero does
/// not end in the byte zero.
proof fn lemma_encoding_ends_nonzero(text: Seq<char>)
    requires
        text.len() > 0,
        text.last() != '\0',
    ensures
        encode_utf8(text).len() > 0,
        encode_utf8(text).last() != 0,
{
    let c = text.last();
    let v = c as u32;
    lemma_encode_push(text.drop_last(), c);
    assert(text.drop_last().push(c) =~= text);
    char_is_scalar(c);
    if v == 0 {
        char_u32_cast(c, v);
    }
    if has_width_1_encoding(v) {
        assert((v & 0x7F) as u8 != 0) by (bit_vector)
            requires
                0 < v <= 0x7F,
        ;
    } else {
        assert(0x80u8 | (v & 0x3F) as u8 != 0) by (bit_vector);
    }
}

/// Whatever the name, the field that is written for it holds text.
pub proof fn stored_name_is_text(name: Seq<char>)
    ensures
        valid_utf8(name_text(name_field(name))),
{
    let text = encode_utf8(stored_name(name));
    let end = text_end(name_field(name));
    lemma_name_text(name);
    encode_utf8_valid_utf8(stored_name(name));
    if end < text.len() {
        assert(!is_continuation_byte(text[end])) by {
            let byte = text[end];
            assert(byte & 0xC0 != 0x80) by (bit_vector)
                requires
                    byte == 0,
            ;
        }
        is_char_boundary_iff_not_is_continuation_byte(text, end);
    } else {
        is_char_boundary_start_end_of_seq(text);
    }
    valid_utf8_split(text, end);
}

/// A name is read back as it was stored: its first 64 characters come
/// back, provided that the last of them is not the character zero, which
/// cannot be told from the padding.
pub proof fn name_round_trip(name: Seq<char>)
    requires
        stored_name(name).len() == 0 || stored_name(name).last() != '\0',
    ensures
        valid_utf8(name_text(name_field(name))),
        decode_utf8(name_text(name_field(name))) == stored_name(name),
{
    let stored = stored_name(name);
    let text = encode_utf8(stored);
    let end = text_end(name_field(name));
    lemma_name_text(name);
    encode_utf8_valid_utf8(stored);
    encode_utf8_decode_utf8(stored);
    if stored.len() > 0 {
        lemma_encoding_ends_nonzero(stored);
        if end < text.len() {
            lemma_text_end(name_field(name));
            assert(name_field(name)[text.len() - 1] == text.last());
        }
    }
    assert(text.subrange(0, end) =~= text);
}

/// A header is read back from its own bytes, whatever follows them.
pub proof fn header_round_trip(header: HeaderView, tail: Seq<u8>)
    requires
        header.name.len() == NAME_SIZE,
    ensures
        header.bytes().len() == HEADER_SIZE,
        parse_header(header.bytes() + tail) == Some(header),
{
    let all = header.bytes() + tail;
    lemma_i32_le(header.version);
    lemma_i32_le(header.key_type);
    lemma_i32_le(header.public_key_size);
    lemma_i32_le(header.private_key_size);
    assert(all.subrange(0, 4) =~= i32_le(header.version));
    assert(all.subrange(4, 4 + NAME_SIZE) =~= header.name);
    assert(all.subrange(4 + NAME_SIZE, 8 + NAME_SIZE) =~= i32_le(header.key_type));
    assert(all.subrange(8 + NAME_SIZE, 12 + NAME_SIZE) =~= i32_le(header.public_key_size));
    assert(all.subrange(12 + NAME_SIZE, 16 + NAME_SIZE) =~= i32_le(header.private_key_size));
}

} // verus!
