//! Little-endian encoding of unsigned integers.
//!
//! The mathematical model is a pair of functions between natural numbers and
//! byte sequences; the executable conversions are delegated to `byteorder`.

use byteorder::{ByteOrder, LittleEndian};
use vstd::prelude::*;

verus! {

/// The `width` low-order bytes of `value`, least significant byte first.
pub open spec fn le_bytes(value: nat, width: nat) -> Seq<u8>
    decreases width,
{
    if width == 0 {
        Seq::empty()
    } else {
        seq![(value % 256) as u8] + le_bytes(value / 256, (width - 1) as nat)
    }
}

/// The number that `bytes` denotes when read least significant byte first.
pub open spec fn le_value(bytes: Seq<u8>) -> nat
    decreases bytes.len(),
{
    if bytes.len() == 0 {
        0
    } else {
        bytes[0] as nat + 256 * le_value(bytes.drop_first())
    }
}

/// `256` raised to the power `width`: the number of values `width` bytes can hold.
pub open spec fn capacity(width: nat) -> nat
    decreases width,
{
    if width == 0 {
        1
    } else {
        256 * capacity((width - 1) as nat)
    }
}

/// An encoding has exactly the requested width.
pub proof fn lemma_le_bytes_len(value: nat, width: nat)
    ensures
        le_bytes(value, width).len() == width,
    decreases width,
{
    if width > 0 {
        lemma_le_bytes_len(value / 256, (width - 1) as nat);
    }
}

/// A byte sequence denotes a number below the capacity of its length.
pub proof fn lemma_le_value_bound(bytes: Seq<u8>)
    ensures
        le_value(bytes) < capacity(bytes.len()),
    decreases bytes.len(),
{
    if bytes.len() > 0 {
        lemma_le_value_bound(bytes.drop_first());
    }
}

/// Decoding an encoding gives the value back whenever the value fits the width.
pub proof fn lemma_le_value_of_bytes(value: nat, width: nat)
    requires
        value < capacity(width),
    ensures
        le_value(le_bytes(value, width)) == value,
    decreases width,
{
    if width > 0 {
        let rest = le_bytes(value / 256, (width - 1) as nat);
        let all = le_bytes(value, width);
        lemma_le_value_of_bytes(value / 256, (width - 1) as nat);
        assert(all.drop_first() =~= rest);
        assert(all[0] == (value % 256) as u8);
    }
}

/// Encoding a decoded sequence at its own length gives the sequence back.
pub proof fn lemma_le_bytes_of_value(bytes: Seq<u8>)
    ensures
        le_bytes(le_value(bytes), bytes.len()) == bytes,
    decreases bytes.len(),
{
    if bytes.len() > 0 {
        let tail = bytes.drop_first();
        lemma_le_bytes_of_value(tail);
        let v = le_value(bytes);
        assert(v % 256 == bytes[0] as nat);
        assert(v / 256 == le_value(tail));
        assert(le_bytes(v, bytes.len()) =~= bytes);
    }
}

/// Two values that fit the width and have the same encoding are the same.
pub proof fn lemma_le_bytes_injective(a: nat, b: nat, width: nat)
    requires
        a < capacity(width),
        b < capacity(width),
        le_bytes(a, width) == le_bytes(b, width),
    ensures
        a == b,
{
    lemma_le_value_of_bytes(a, width);
    lemma_le_value_of_bytes(b, width);
}

/// The capacities of the three field widths of the object format.
pub proof fn lemma_capacities()
    ensures
        capacity(2) == 0x1_0000,
        capacity(4) == 0x1_0000_0000,
        capacity(8) == 0x1_0000_0000_0000_0000,
{
    reveal_with_fuel(capacity, 9);
}

/// `byteorder::LittleEndian::read_u16` on a two-byte buffer: the value the
/// two bytes denote, least significant first.
#[verifier::external_body]
pub(crate) fn read_u16(buf: &[u8; 2]) -> (value: u16)
    ensures
        value as nat == le_value(buf@),
{
    LittleEndian::read_u16(buf)
}

/// `byteorder::LittleEndian::read_u32` on a four-byte buffer: the value the
/// four bytes denote, least significant first.
#[verifier::external_body]
pub(crate) fn read_u32(buf: &[u8; 4]) -> (value: u32)
    ensures
        value as nat == le_value(buf@),
{
    LittleEndian::read_u32(buf)
}

/// `byteorder::LittleEndian::read_u64` on an eight-byte buffer: the value the
/// eight bytes denote, least significant first.
#[verifier::external_body]
pub(crate) fn read_u64(buf: &[u8; 8]) -> (value: u64)
    ensures
        value as nat == le_value(buf@),
{
    LittleEndian::read_u64(buf)
}

/// `byteorder::LittleEndian::write_u16` into a two-byte buffer: afterwards the
/// buffer holds the two bytes of `value`, least significant first.
#[verifier::external_body]
pub(crate) fn write_u16(buf: &mut [u8; 2], value: u16)
    ensures
        final(buf)@ == le_bytes(value as nat, 2),
{
    LittleEndian::write_u16(buf, value)
}

/// `byteorder::LittleEndian::write_u32` into a four-byte buffer: afterwards the
/// buffer holds the four bytes of `value`, least significant first.
#[verifier::external_body]
pub(crate) fn write_u32(buf: &mut [u8; 4], value: u32)
    ensures
        final(buf)@ == le_bytes(value as nat, 4),
{
    LittleEndian::write_u32(buf, value)
}

/// `byteorder::LittleEndian::write_u64` into an eight-byte buffer: afterwards
/// the buffer holds the eight bytes of `value`, least significant first.
#[verifier::external_body]
pub(crate) fn write_u64(buf: &mut [u8; 8], value: u64)
    ensures
        final(buf)@ == le_bytes(value as nat, 8),
{
    LittleEndian::write_u64(buf, value)
}

} // verus!
