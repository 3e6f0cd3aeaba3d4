//! Integers as bytes, least significant byte first.
//!
//! A number of a given width is its remainder by 256, followed by its
//! quotient by 256 in one byte less. Nothing here shifts or masks: the
//! bytes of a number are plain arithmetic.

use vstd::prelude::*;

verus! {

/// The bytes of a number in a given width, least significant first.
pub open spec fn le_bytes(value: nat, width: nat) -> Seq<u8>
    decreases width,
{
    if width == 0 {
        Seq::<u8>::empty()
    } else {
        seq![(value % 256) as u8] + le_bytes(value / 256, (width - 1) as nat)
    }
}

/// The number that bytes stand for, least significant first.
pub open spec fn le_value(bytes: Seq<u8>) -> nat
    decreases bytes.len(),
{
    if bytes.len() == 0 {
        0
    } else {
        bytes[0] as nat + 256 * le_value(bytes.drop_first())
    }
}

/// How many numbers a width holds: 256 to the power of the width.
pub open spec fn radix(width: nat) -> nat
    decreases width,
{
    if width == 0 {
        1
    } else {
        256 * radix((width - 1) as nat)
    }
}

/// The bytes of a 128-bit number.
pub open spec fn u128_le(value: u128) -> Seq<u8> {
    le_bytes(value as nat, 16)
}

/// The 128-bit number that sixteen bytes stand for.
pub open spec fn u128_from_le(bytes: Seq<u8>) -> u128 {
    le_value(bytes) as u128
}

/// A number takes as many bytes as its width says.
pub proof fn lemma_le_len(value: nat, width: nat)
    ensures
        le_bytes(value, width).len() == width,
    decreases width,
{
    if width > 0 {
        lemma_le_len(value / 256, (width - 1) as nat);
    }
}

/// Bytes stand for a number that their width holds.
pub proof fn lemma_le_bound(bytes: Seq<u8>)
    ensures
        le_value(bytes) < radix(bytes.len()),
    decreases bytes.len(),
{
    if bytes.len() > 0 {
        lemma_le_bound(bytes.drop_first());
    }
}

/// A wider width holds more.
pub proof fn lemma_radix_grows(narrow: nat, wide: nat)
    requires
        narrow <= wide,
    ensures
        0 < radix(narrow) <= radix(wide),
    decreases wide,
{
    if narrow < wide {
        lemma_radix_grows(narrow, (wide - 1) as nat);
    } else if narrow > 0 {
        lemma_radix_grows((narrow - 1) as nat, (narrow - 1) as nat);
    }
}

/// Four bytes hold 32 bits, sixteen bytes hold 128.
pub proof fn lemma_radix_values()
    ensures
        radix(4) == 0x1_0000_0000,
        radix(16) == 0x1_0000_0000_0000_0000_0000_0000_0000_0000,
{
    reveal_with_fuel(radix, 17);
}

/// Least significant byte first: the byte at `i` is the number's digit
/// for 256 to the power of `i`.
pub proof fn le_byte_at(value: nat, width: nat, i: nat)
    requires
        i < width,
    ensures
        le_bytes(value, width)[i as int] == (value / radix(i)) % 256,
    decreases width,
{
    let all = le_bytes(value, width);
    if i > 0 {
        let tail = le_bytes(value / 256, (width - 1) as nat);
        let below = radix((i - 1) as nat);
        le_byte_at(value / 256, (width - 1) as nat, (i - 1) as nat);
        lemma_le_len(value / 256, (width - 1) as nat);
        lemma_radix_grows((i - 1) as nat, (i - 1) as nat);
        assert(all == seq![(value % 256) as u8] + tail);
        assert(all[i as int] == tail[i - 1]);
        assert(radix(i) == 256 * below);
        vstd::arithmetic::div_mod::lemma_div_denominator(value as int, 256, below as int);
        assert((value / 256) / below == value / (256 * below));
        assert(tail[i - 1] == ((value / 256) / below) % 256);
        assert(value / radix(i) == value / (256 * below));
        assert(all[i as int] == (value / radix(i)) % 256);
    } else {
        assert(all[0] == (value % 256) as u8);
        assert(radix(0) == 1);
        assert(value / 1 == value);
        assert(all[i as int] == (value / radix(i)) % 256);
    }
}

/// A number that its width holds is read back from its bytes.
pub proof fn lemma_le_round_trip(value: nat, width: nat)
    requires
        value < radix(width),
    ensures
        le_value(le_bytes(value, width)) == value,
    decreases width,
{
    if width > 0 {
        let rest = le_bytes(value / 256, (width - 1) as nat);
        let all = le_bytes(value, width);
        lemma_le_round_trip(value / 256, (width - 1) as nat);
        assert(all.drop_first() =~= rest);
        assert(all[0] == (value % 256) as u8);
    }
}

/// A 128-bit number takes sixteen bytes and is read back from them.
pub proof fn lemma_u128_le(value: u128)
    ensures
        u128_le(value).len() == 16,
        u128_from_le(u128_le(value)) == value,
{
    lemma_le_len(value as nat, 16);
    lemma_radix_values();
    lemma_le_round_trip(value as nat, 16);
}

/// Appends the bytes of a number in a given width.
pub fn write_le(out: &mut Vec<u8>, value: u128, width: usize)
    ensures
        final(out)@ == old(out)@ + le_bytes(value as nat, width as nat),
{
    let mut rest: u128 = value;
    let mut i: usize = 0;
    let ghost mut written = Seq::<u8>::empty();
    assert(out@ =~= old(out)@ + written);
    while i < width
        invariant
            i <= width,
            out@ == old(out)@ + written,
            le_bytes(value as nat, width as nat) == written + le_bytes(
                rest as nat,
                (width - i) as nat,
            ),
        decreases width - i,
    {
        let byte: u8 = (rest % 256) as u8;
        let ghost tail = le_bytes((rest / 256) as nat, (width - i - 1) as nat);
        proof {
            assert(le_bytes(rest as nat, (width - i) as nat) == seq![byte] + tail);
            assert(written + (seq![byte] + tail) =~= written.push(byte) + tail);
            assert(old(out)@ + written.push(byte) =~= (old(out)@ + written).push(byte));
            written = written.push(byte);
        }
        out.push(byte);
        rest = rest / 256;
        i += 1;
    }
    assert(le_bytes(rest as nat, 0) =~= Seq::<u8>::empty());
    assert(written + Seq::<u8>::empty() =~= written);
}

/// The number that stands in `width` bytes from `pos` on.
pub fn read_le(bytes: &[u8], pos: usize, width: usize) -> (value: u128)
    requires
        pos + width <= bytes@.len(),
        width <= 16,
    ensures
        value == le_value(bytes@.subrange(pos as int, pos + width)),
{
    let mut value: u128 = 0;
    let mut i: usize = width;
    assert(bytes@.len() == bytes.len());
    assert(le_value(bytes@.subrange(pos + i, pos + width)) == 0);
    while i > 0
        invariant
            i <= width <= 16,
            pos + width <= bytes@.len() <= usize::MAX,
            value == le_value(bytes@.subrange(pos + i, pos + width)),
        decreases i,
    {
        let ghost seen = bytes@.subrange(pos + i, pos + width);
        let ghost more = bytes@.subrange(pos + i - 1, pos + width);
        proof {
            lemma_le_bound(seen);
            lemma_radix_grows(seen.len(), 15);
            lemma_radix_grows(15, 16);
            lemma_radix_values();
            assert(more.drop_first() =~= seen);
            assert(more[0] == bytes@[pos + i - 1]);
        }
        i -= 1;
        value = value * 256 + bytes[pos + i] as u128;
    }
    assert(bytes@.subrange(pos + 0, pos + width) =~= bytes@.subrange(pos as int, pos + width));
    value
}

} // verus!
