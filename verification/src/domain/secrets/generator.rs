//! The secret generator: random characters from a pool of the user's choice.
//!
//! A format is a length, a colon, and letters that choose the pool: `l` for
//! lowercase letters, `u` for uppercase letters, `d` for digits, `s` for
//! symbols. `16:lud` asks for sixteen letters and digits. The length is a
//! decimal number, with a plus sign in front if one likes; letters that
//! choose nothing are passed over. Every character of the secret is the
//! pool's character at a random byte's remainder by the pool's size.

use crate::storage::wire::string_from_utf8;
use vstd::prelude::*;
use vstd::utf8::*;

verus! {

/// Why a format gives no secret.
#[derive(Clone, Copy, Debug, PartialEq, Eq, Structural)]
pub enum FormatFault {
    /// The format has no colon.
    MissingSeparator,
    /// What stands before the colon is not a length.
    InvalidLength,
    /// The format chooses no characters, but asks for some.
    EmptyPool,
    /// The system's random source gave nothing.
    NoRandomness,
}

/// The classes of characters that a format chooses.
pub struct PoolChoice {
    pub lowercase: bool,
    pub uppercase: bool,
    pub digits: bool,
    pub symbols: bool,
}

/// What a format asks for.
pub struct Format {
    pub length: usize,
    pub choice: PoolChoice,
}

/// The lowercase letters.
pub open spec fn lowercase_letters() -> Seq<char> {
    "abcdefghijklmnopqrstuvwxyz"@
}

/// The uppercase letters.
pub open spec fn uppercase_letters() -> Seq<char> {
    "ABCDEFGHIJKLMNOPQRSTUVWXYZ"@
}

/// The digits.
pub open spec fn digits() -> Seq<char> {
    "0123456789"@
}

/// The symbols.
pub open spec fn symbols() -> Seq<char> {
    "~`!@#$%^&*()_+-=,.<>/?[]{}\\|"@
}

/// The characters that a choice allows, class by class.
pub open spec fn pool(choice: PoolChoice) -> Seq<char> {
    (if choice.lowercase {
        lowercase_letters()
    } else {
        Seq::<char>::empty()
    }) + (if choice.uppercase {
        uppercase_letters()
    } else {
        Seq::<char>::empty()
    }) + (if choice.digits {
        digits()
    } else {
        Seq::<char>::empty()
    }) + (if choice.symbols {
        symbols()
    } else {
        Seq::<char>::empty()
    })
}

/// Where the first colon stands at or behind `from`; the length of the
/// bytes where there is none.
pub open spec fn first_colon(bytes: Seq<u8>, from: int) -> int
    decreases bytes.len() - from,
{
    if from >= bytes.len() {
        bytes.len() as int
    } else if bytes[from] == 58 {
        from
    } else {
        first_colon(bytes, from + 1)
    }
}

/// Every byte is a decimal digit.
pub open spec fn all_digits(text: Seq<u8>) -> bool {
    forall|i: int| 0 <= i < text.len() ==> 48 <= #[trigger] text[i] <= 57
}

/// The number that decimal digits stand for.
pub open spec fn digits_value(text: Seq<u8>) -> nat
    decreases text.len(),
{
    if text.len() == 0 {
        0
    } else {
        (digits_value(text.drop_last()) * 10 + (text.last() - 48)) as nat
    }
}

/// A number without the plus sign that may stand in front of it.
pub open spec fn unsigned_part(text: Seq<u8>) -> Seq<u8> {
    if text.len() > 0 && text[0] == 43 {
        text.skip(1)
    } else {
        text
    }
}

/// The length that a text stands for: decimal digits, at least one, with
/// or without a plus sign in front, and no more than the machine can count.
pub open spec fn parse_length(text: Seq<u8>) -> Option<usize> {
    let number = unsigned_part(text);
    if number.len() == 0 || !all_digits(number) || digits_value(number) > usize::MAX {
        None
    } else {
        Some(digits_value(number) as usize)
    }
}

/// What a format asks for, or why it asks for nothing.
pub open spec fn parse_format(bytes: Seq<u8>) -> Result<Format, FormatFault> {
    let colon = first_colon(bytes, 0);
    if colon >= bytes.len() {
        Err(FormatFault::MissingSeparator)
    } else {
        match parse_length(bytes.subrange(0, colon)) {
            None => Err(FormatFault::InvalidLength),
            Some(length) => {
                let letters = bytes.skip(colon + 1);
                Ok(
                    Format {
                        length,
                        choice: PoolChoice {
                            lowercase: letters.contains(108),
                            uppercase: letters.contains(117),
                            digits: letters.contains(100),
                            symbols: letters.contains(115),
                        },
                    },
                )
            },
        }
    }
}

/// The secret that random bytes pick from a pool: for every byte, the
/// pool's character at the byte's remainder by the pool's size.
pub open spec fn picked(pool: Seq<char>, random: Seq<u8>) -> Seq<char> {
    Seq::new(random.len(), |i: int| pool[random[i] as int % pool.len() as int])
}

/// Finds the first colon.
fn find_colon(bytes: &[u8]) -> (at: usize)
    ensures
        at == first_colon(bytes@, 0),
        at <= bytes@.len(),
{
    let mut i: usize = 0;
    while i < bytes.len()
        invariant
            i <= bytes@.len(),
            first_colon(bytes@, 0) == first_colon(bytes@, i as int),
        decreases bytes@.len() - i,
    {
        if bytes[i] == 58 {
            return i;
        }
        i += 1;
    }
    i
}

/// Whether the bytes from `from` on hold the byte.
fn holds(bytes: &[u8], from: usize, byte: u8) -> (b: bool)
    requires
        from <= bytes@.len(),
    ensures
        b == bytes@.skip(from as int).contains(byte),
{
    let mut i: usize = from;
    while i < bytes.len()
        invariant
            from <= i <= bytes@.len(),
            forall|k: int| from <= k < i ==> bytes@[k] != byte,
        decreases bytes@.len() - i,
    {
        if bytes[i] == byte {
            assert(bytes@.skip(from as int)[i - from] == byte);
            return true;
        }
        i += 1;
    }
    assert forall|k: int| 0 <= k < bytes@.skip(from as int).len() implies bytes@.skip(
        from as int,
    )[k] != byte by {
        assert(bytes@.skip(from as int)[k] == bytes@[from + k]);
    }
    false
}

/// Reads the length that stands in the first `end` bytes.
fn read_length(bytes: &[u8], end: usize) -> (r: Option<usize>)
    requires
        end <= bytes@.len(),
    ensures
        r == parse_length(bytes@.subrange(0, end as int)),
{
    let ghost text = bytes@.subrange(0, end as int);
    let start: usize = if end > 0 && bytes[0] == 43 {
        1
    } else {
        0
    };
    let ghost number = unsigned_part(text);
    assert(number =~= bytes@.subrange(start as int, end as int));
    if start == end {
        return None;
    }
    let mut value: usize = 0;
    let mut i: usize = start;
    while i < end
        invariant
            start <= i <= end <= bytes@.len(),
            start < end,
            number == unsigned_part(bytes@.subrange(0, end as int)),
            number == bytes@.subrange(start as int, end as int),
            all_digits(number.subrange(0, i - start)),
            value == digits_value(number.subrange(0, i - start)),
        decreases end - i,
    {
        let byte: u8 = bytes[i];
        let ghost seen = number.subrange(0, i - start);
        let ghost next = number.subrange(0, i + 1 - start);
        assert(next.drop_last() =~= seen);
        assert(next.last() == byte);
        if byte < 48 || byte > 57 {
            assert(number[i - start] == byte);
            return None;
        }
        let digit: usize = (byte - 48) as usize;
        if value > (usize::MAX - digit) / 10 {
            proof {
                lemma_digits_grow(number, i + 1 - start);
            }
            assert(!all_digits(number) || digits_value(number) > usize::MAX);
            return None;
        }
        value = value * 10 + digit;
        assert forall|k: int| 0 <= k < next.len() implies 48 <= #[trigger] next[k] <= 57 by {
            if k < seen.len() {
                assert(seen[k] == next[k]);
            }
        }
        i += 1;
    }
    assert(number.subrange(0, end - start) =~= number);
    Some(value)
}

/// The value of digits is no less than the value of any of their prefixes.
proof fn lemma_digits_grow(text: Seq<u8>, n: int)
    requires
        0 <= n <= text.len(),
    ensures
        all_digits(text) ==> digits_value(text.subrange(0, n)) <= digits_value(text),
    decreases text.len() - n,
{
    if n < text.len() && all_digits(text) {
        lemma_digits_grow(text, n + 1);
        let longer = text.subrange(0, n + 1);
        assert(longer.drop_last() =~= text.subrange(0, n));
        assert(longer.last() == text[n]);
    } else if n == text.len() {
        assert(text.subrange(0, n) =~= text);
    }
}

/// Reads a format.
pub fn read_format(format: &str) -> (r: Result<Format, FormatFault>)
    ensures
        r == parse_format(encode_utf8(format@)),
{
    let bytes: &[u8] = format.as_bytes();
    let colon: usize = find_colon(bytes);
    if colon >= bytes.len() {
        return Err(FormatFault::MissingSeparator);
    }
    match read_length(bytes, colon) {
        None => Err(FormatFault::InvalidLength),
        Some(length) => Ok(
            Format {
                length,
                choice: PoolChoice {
                    lowercase: holds(bytes, colon + 1, 108),
                    uppercase: holds(bytes, colon + 1, 117),
                    digits: holds(bytes, colon + 1, 100),
                    symbols: holds(bytes, colon + 1, 115),
                },
            },
        ),
    }
}

/// `OsRng.try_fill_bytes` of rand_core, on a fresh buffer: that many bytes
/// from the system's random source, or nothing where the source fails.
/// Trusted: the length, which is that of the buffer, and that no bytes at
/// all are always to be had, since the source is not asked for them.
/// Nothing is claimed of the bytes. A count that no buffer can have is left
/// out.
#[verifier::external_body]
fn os_random_bytes(count: usize) -> (r: Option<Vec<u8>>)
    requires
        count <= isize::MAX,
    ensures
        r matches Some(bytes) ==> bytes@.len() == count,
        count == 0 ==> r is Some,
{
    let mut bytes = vec![0u8; count];
    match rand::RngCore::try_fill_bytes(&mut rand_core::OsRng, &mut bytes) {
        Ok(()) => Some(bytes),
        Err(_) => None,
    }
}

/// The four classes hold plain ASCII.
proof fn lemma_classes_are_ascii()
    ensures
        is_ascii_chars(lowercase_letters()),
        is_ascii_chars(uppercase_letters()),
        is_ascii_chars(digits()),
        is_ascii_chars(symbols()),
        lowercase_letters().len() == 26,
        uppercase_letters().len() == 26,
        digits().len() == 10,
        symbols().len() == 28,
{
    reveal_strlit("abcdefghijklmnopqrstuvwxyz");
    reveal_strlit("ABCDEFGHIJKLMNOPQRSTUVWXYZ");
    reveal_strlit("0123456789");
    reveal_strlit("~`!@#$%^&*()_+-=,.<>/?[]{}\\|");
}

/// Appends the characters of one class.
fn extend_class(out: &mut Vec<u8>, class: &str, Ghost(before): Ghost<Seq<char>>)
    requires
        is_ascii_chars(class@),
        is_ascii_chars(before),
        old(out)@.len() == before.len(),
        forall|i: int| 0 <= i < before.len() ==> old(out)@[i] == before[i] as u8,
    ensures
        is_ascii_chars(before + class@),
        final(out)@.len() == (before + class@).len(),
        forall|i: int|
            0 <= i < (before + class@).len() ==> final(out)@[i] == (before + class@)[i] as u8,
{
    proof {
        is_ascii_chars_encode_utf8(class@);
    }
    out.extend_from_slice(class.as_bytes());
}

/// The pool as bytes, one for each of its characters.
fn pool_bytes(choice: &PoolChoice) -> (bytes: Vec<u8>)
    ensures
        is_ascii_chars(pool(*choice)),
        bytes@.len() == pool(*choice).len(),
        forall|i: int| 0 <= i < bytes@.len() ==> bytes@[i] == pool(*choice)[i] as u8,
{
    proof {
        lemma_classes_are_ascii();
    }
    let mut bytes: Vec<u8> = Vec::new();
    let ghost mut chars = Seq::<char>::empty();
    if choice.lowercase {
        extend_class(&mut bytes, "abcdefghijklmnopqrstuvwxyz", Ghost(chars));
        proof {
            chars = chars + lowercase_letters();
        }
    } else {
        proof {
            chars = chars + Seq::<char>::empty();
        }
    }
    if choice.uppercase {
        extend_class(&mut bytes, "ABCDEFGHIJKLMNOPQRSTUVWXYZ", Ghost(chars));
        proof {
            chars = chars + uppercase_letters();
        }
    } else {
        proof {
            chars = chars + Seq::<char>::empty();
        }
    }
    if choice.digits {
        extend_class(&mut bytes, "0123456789", Ghost(chars));
        proof {
            chars = chars + digits();
        }
    } else {
        proof {
            chars = chars + Seq::<char>::empty();
        }
    }
    if choice.symbols {
        extend_class(&mut bytes, "~`!@#$%^&*()_+-=,.<>/?[]{}\\|", Ghost(chars));
        proof {
            chars = chars + symbols();
        }
    } else {
        proof {
            chars = chars + Seq::<char>::empty();
        }
    }
    assert(chars == pool(*choice));
    bytes
}

/// The secret that random bytes pick from the chosen pool. An empty pool
/// gives the empty secret and nothing else.
pub fn compose(choice: PoolChoice, random: &[u8]) -> (r: Result<String, FormatFault>)
    ensures
        pool(choice).len() == 0 && random@.len() > 0 <==> r is Err,
        r matches Err(fault) ==> fault == FormatFault::EmptyPool,
        r matches Ok(secret) ==> secret@ == picked(pool(choice), random@),
{
    let symbols: Vec<u8> = pool_bytes(&choice);
    if symbols.len() == 0 && random.len() > 0 {
        return Err(FormatFault::EmptyPool);
    }
    let ghost chars = picked(pool(choice), random@);
    let mut out: Vec<u8> = Vec::new();
    let mut i: usize = 0;
    while i < random.len()
        invariant
            i <= random@.len(),
            symbols@.len() > 0 || random@.len() == 0,
            symbols@.len() == pool(choice).len(),
            forall|k: int| 0 <= k < symbols@.len() ==> symbols@[k] == pool(choice)[k] as u8,
            chars == picked(pool(choice), random@),
            out@.len() == i,
            forall|k: int| 0 <= k < i ==> out@[k] == chars[k] as u8,
        decreases random@.len() - i,
    {
        let index: usize = random[i] as usize % symbols.len();
        out.push(symbols[index]);
        i += 1;
    }
    proof {
        assert forall|k: int| 0 <= k < chars.len() implies '\0' <= #[trigger] chars[k]
            <= '\u{7f}' by {
            let index = random@[k] as int % pool(choice).len() as int;
            assert(chars[k] == pool(choice)[index]);
        }
        is_ascii_chars_encode_utf8(chars);
        assert(out@ =~= encode_utf8(chars));
        encode_utf8_valid_utf8(chars);
        encode_utf8_decode_utf8(chars);
    }
    match string_from_utf8(out) {
        Some(secret) => Ok(secret),
        None => unreached(),
    }
}

/// The secret that comes of a draw from the random source: the characters
/// that the bytes pick, or no secret where the source gave nothing.
pub fn finish(choice: PoolChoice, drawn: Option<Vec<u8>>) -> (r: Result<String, FormatFault>)
    ensures
        match drawn {
            None => r matches Err(fault) && fault == FormatFault::NoRandomness,
            Some(random) => {
                &&& pool(choice).len() == 0 && random@.len() > 0 <==> r is Err
                &&& r matches Err(fault) ==> fault == FormatFault::EmptyPool
                &&& r matches Ok(secret) ==> secret@ == picked(pool(choice), random@)
            },
        },
{
    match drawn {
        None => Err(FormatFault::NoRandomness),
        Some(random) => compose(choice, random.as_slice()),
    }
}

/// Whether a secret can be made up after a format: the format reads, it
/// asks for no more characters than memory can hold, and it chooses some
/// characters unless it asks for none.
pub open spec fn can_be_generated(format: Seq<char>) -> bool {
    parse_format(encode_utf8(format)) matches Ok(asked) && asked.length <= isize::MAX && (
    asked.length == 0 || pool(asked.choice).len() > 0)
}

/// Whether a secret can be made up after the format. This is what
/// `generate` asks of its caller.
pub fn can_generate(format: &str) -> (b: bool)
    ensures
        b == can_be_generated(format@),
{
    proof {
        lemma_classes_are_ascii();
    }
    match read_format(format) {
        Ok(asked) => {
            let ghost choice = asked.choice;
            let some: bool = asked.choice.lowercase || asked.choice.uppercase
                || asked.choice.digits || asked.choice.symbols;
            proof {
                if !some {
                    assert(pool(choice) =~= Seq::<char>::empty());
                }
            }
            asked.length <= isize::MAX as usize && (asked.length == 0 || some)
        },
        Err(_) => false,
    }
}

/// Makes up a secret as the format asks: reads the format, draws as many
/// random bytes as the secret is long, and picks the characters. Which
/// secret comes out is up to chance; a secret of no length is always the
/// empty one. The format must be one after which a secret can be made up;
/// `can_generate` tells.
pub fn generate(format: &str) -> (r: Result<String, FormatFault>)
    requires
        can_be_generated(format@),
    ensures
        r matches Err(e) ==> e == FormatFault::NoRandomness,
        parse_format(encode_utf8(format@)) matches Ok(asked) && {
            &&& asked.length == 0 ==> r is Ok
            &&& r matches Ok(secret) ==> secret@.len() == asked.length
            &&& r matches Ok(secret) ==> exists|random: Seq<u8>|
                random.len() == asked.length && secret@ == #[trigger] picked(
                    pool(asked.choice),
                    random,
                )
        },
{
    let asked: Format = read_format(format)?;
    finish(asked.choice, os_random_bytes(asked.length))
}

} // verus!
