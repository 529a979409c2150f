//! Little-endian integers in byte strings.

use vstd::arithmetic::power::pow;
use vstd::prelude::*;

verus! {

/// The `width` lowest base-256 digits of `value`, least significant first.
pub open spec fn le_bytes(value: nat, width: nat) -> Seq<u8>
    decreases width,
{
    if width == 0 {
        Seq::empty()
    } else {
        seq![(value % 256) as u8] + le_bytes(value / 256, (width - 1) as nat)
    }
}

/// The number whose base-256 digits, least significant first, are `bytes`.
pub open spec fn le_value(bytes: Seq<u8>) -> nat
    decreases bytes.len(),
{
    if bytes.len() == 0 {
        0
    } else {
        bytes[0] as nat + 256 * le_value(bytes.skip(1))
    }
}

/// The number stored in the `width` bytes of `bytes` that start at `offset`.
pub open spec fn le_value_at(bytes: Seq<u8>, offset: int, width: int) -> nat {
    le_value(bytes.subrange(offset, offset + width))
}

/// A byte string of a given width stands for a number below the matching power of 256.
pub proof fn lemma_le_value_bound(bytes: Seq<u8>)
    ensures
        le_value(bytes) < pow(256, bytes.len()),
    decreases bytes.len(),
{
    reveal(pow);
    if bytes.len() > 0 {
        lemma_le_value_bound(bytes.skip(1));
    }
}

/// Encoding at a width gives exactly that many bytes.
pub proof fn lemma_le_bytes_len(value: nat, width: nat)
    ensures
        le_bytes(value, width).len() == width,
    decreases width,
{
    if width > 0 {
        lemma_le_bytes_len(value / 256, (width - 1) as nat);
    }
}

/// Reading back an encoded number gives the number, when it fits the width.
pub proof fn lemma_le_value_of_le_bytes(value: nat, width: nat)
    requires
        value < pow(256, width),
    ensures
        le_value(le_bytes(value, width)) == value,
    decreases width,
{
    reveal(pow);
    if width > 0 {
        let rest = (width - 1) as nat;
        assert(value / 256 < pow(256, rest)) by (nonlinear_arith)
            requires
                value < 256 * pow(256, rest),
        ;
        lemma_le_value_of_le_bytes(value / 256, rest);
        assert(le_bytes(value, width).skip(1) =~= le_bytes(value / 256, rest));
    }
}

/// Encoding the number that a byte string stands for gives the byte string.
pub proof fn lemma_le_bytes_of_le_value(bytes: Seq<u8>)
    ensures
        le_bytes(le_value(bytes), bytes.len()) == bytes,
    decreases bytes.len(),
{
    if bytes.len() > 0 {
        lemma_le_bytes_of_le_value(bytes.skip(1));
        assert(bytes =~= seq![bytes[0]] + bytes.skip(1));
    } else {
        assert(bytes =~= Seq::empty());
    }
}

/// The values of the powers of 256 that bound the integer types.
pub proof fn lemma_pow_256()
    ensures
        pow(256, 1) == 0x100,
        pow(256, 2) == 0x1_0000,
        pow(256, 4) == 0x1_0000_0000,
        pow(256, 8) == 0x1_0000_0000_0000_0000,
{
    reveal_with_fuel(pow, 9);
}

/// The two bytes of `value`.
pub fn u16_to_le(value: u16) -> (bytes: [u8; 2])
    ensures
        bytes@ == le_bytes(value as nat, 2),
{
    let bytes: [u8; 2] = [(value % 256) as u8, (value / 256) as u8];
    proof {
        reveal_with_fuel(le_bytes, 3);
        assert(bytes@ =~= le_bytes(value as nat, 2));
    }
    bytes
}

/// The four bytes of `value`.
pub fn u32_to_le(value: u32) -> (bytes: [u8; 4])
    ensures
        bytes@ == le_bytes(value as nat, 4),
{
    let bytes: [u8; 4] = [
        (value % 256) as u8,
        (value / 256 % 256) as u8,
        (value / 256 / 256 % 256) as u8,
        (value / 256 / 256 / 256) as u8,
    ];
    proof {
        reveal_with_fuel(le_bytes, 5);
        assert(bytes@ =~= le_bytes(value as nat, 4));
    }
    bytes
}

/// The eight bytes of `value`.
pub fn u64_to_le(value: u64) -> (bytes: [u8; 8])
    ensures
        bytes@ == le_bytes(value as nat, 8),
{
    let bytes: [u8; 8] = [
        (value % 256) as u8,
        (value / 256 % 256) as u8,
        (value / 256 / 256 % 256) as u8,
        (value / 256 / 256 / 256 % 256) as u8,
        (value / 256 / 256 / 256 / 256 % 256) as u8,
        (value / 256 / 256 / 256 / 256 / 256 % 256) as u8,
        (value / 256 / 256 / 256 / 256 / 256 / 256 % 256) as u8,
        (value / 256 / 256 / 256 / 256 / 256 / 256 / 256) as u8,
    ];
    proof {
        reveal_with_fuel(le_bytes, 9);
        assert(bytes@ =~= le_bytes(value as nat, 8));
    }
    bytes
}

/// The number stored in the two bytes at `offset`.
pub fn u16_at(bytes: &[u8], offset: usize) -> (value: u16)
    requires
        offset + 2 <= bytes@.len(),
    ensures
        value == le_value_at(bytes@, offset as int, 2),
{
    proof {
        reveal_with_fuel(le_value, 3);
    }
    bytes[offset] as u16 + bytes[offset + 1] as u16 * 256
}

/// The number stored in the four bytes at `offset`.
pub fn u32_at(bytes: &[u8], offset: usize) -> (value: u32)
    requires
        offset + 4 <= bytes@.len(),
    ensures
        value == le_value_at(bytes@, offset as int, 4),
{
    assert(bytes.len() == bytes@.len());
    let low: u16 = u16_at(bytes, offset);
    let high: u16 = u16_at(bytes, offset + 2);
    proof {
        lemma_le_value_split(bytes@.subrange(offset as int, offset + 4), 2);
        lemma_pow_256();
        assert(bytes@.subrange(offset as int, offset + 4).take(2) =~= bytes@.subrange(
            offset as int,
            offset + 2,
        ));
        assert(bytes@.subrange(offset as int, offset + 4).skip(2) =~= bytes@.subrange(
            offset + 2,
            offset + 4,
        ));
    }
    low as u32 + high as u32 * 0x1_0000
}

/// The number stored in the eight bytes at `offset`.
pub fn u64_at(bytes: &[u8], offset: usize) -> (value: u64)
    requires
        offset + 8 <= bytes@.len(),
    ensures
        value == le_value_at(bytes@, offset as int, 8),
{
    assert(bytes.len() == bytes@.len());
    let low: u32 = u32_at(bytes, offset);
    let high: u32 = u32_at(bytes, offset + 4);
    proof {
        lemma_le_value_split(bytes@.subrange(offset as int, offset + 8), 4);
        lemma_pow_256();
        assert(bytes@.subrange(offset as int, offset + 8).take(4) =~= bytes@.subrange(
            offset as int,
            offset + 4,
        ));
        assert(bytes@.subrange(offset as int, offset + 8).skip(4) =~= bytes@.subrange(
            offset + 4,
            offset + 8,
        ));
    }
    low as u64 + high as u64 * 0x1_0000_0000
}

/// A number splits into its low and its high digits.
pub proof fn lemma_le_value_split(bytes: Seq<u8>, at: nat)
    requires
        at <= bytes.len(),
    ensures
        le_value(bytes) == le_value(bytes.take(at as int)) + pow(256, at) * le_value(
            bytes.skip(at as int),
        ),
    decreases at,
{
    reveal(pow);
    if at == 0 {
        assert(bytes.skip(0) =~= bytes);
        assert(bytes.take(0) =~= Seq::empty());
    } else {
        let tail = bytes.skip(1);
        lemma_le_value_split(tail, (at - 1) as nat);
        assert(tail.take(at - 1) =~= bytes.take(at as int).skip(1));
        assert(tail.skip(at - 1) =~= bytes.skip(at as int));
        let high = le_value(bytes.skip(at as int)) as int;
        let power = pow(256, (at - 1) as nat);
        assert(256 * (power * high) == (256 * power) * high) by (nonlinear_arith);
    }
}

/// Whether `value` stands in the `width` bytes of `bytes` from `offset` on, its lowest byte
/// first.
pub open spec fn stands_at(bytes: Seq<u8>, offset: int, width: nat, value: nat) -> bool {
    &&& 0 <= offset
    &&& offset + width <= bytes.len()
    &&& value < pow(256, width)
    &&& forall|i: nat|
        i < width ==> #[trigger] bytes[offset + i] as int == (value as int / pow(256, i)) % 256
}

/// Byte `i` of an encoded number is its digit `i` to the base 256.
pub proof fn law_encoded_digits(value: nat, width: nat, i: nat)
    requires
        i < width,
    ensures
        le_bytes(value, width).len() == width,
        le_bytes(value, width)[i as int] as int == (value as int / pow(256, i)) % 256,
    decreases width,
{
    reveal(pow);
    lemma_le_bytes_len(value, width);
    let rest = (width - 1) as nat;
    lemma_le_bytes_len(value / 256, rest);
    if i > 0 {
        let before = (i - 1) as nat;
        law_encoded_digits(value / 256, rest, before);
        assert(le_bytes(value, width)[i as int] == le_bytes(value / 256, rest)[before as int]);
        vstd::arithmetic::power::lemma_pow_positive(256, before);
        vstd::arithmetic::div_mod::lemma_div_denominator(value as int, 256, pow(256, before));
    } else {
        assert(value as int / 1 == value);
    }
}

/// A number stands where its encoding stands, and nothing else stands there.
pub proof fn law_standing_is_encoding(bytes: Seq<u8>, offset: int, width: nat, value: nat)
    requires
        0 <= offset,
        offset + width <= bytes.len(),
        value < pow(256, width),
    ensures
        stands_at(bytes, offset, width, value) <==> bytes.subrange(offset, offset + width)
            == le_bytes(value, width),
        stands_at(bytes, offset, width, value) <==> le_value_at(bytes, offset, width as int)
            == value,
{
    let part = bytes.subrange(offset, offset + width);
    let encoded = le_bytes(value, width);
    lemma_le_bytes_len(value, width);
    assert forall|i: nat| i < width implies #[trigger] encoded[i as int] as int == (value as int
        / pow(256, i)) % 256 by {
        law_encoded_digits(value, width, i);
    }
    if stands_at(bytes, offset, width, value) {
        assert forall|i: int| 0 <= i < width implies part[i] == encoded[i] by {
            assert(bytes[offset + i as nat] as int == (value as int / pow(256, i as nat)) % 256);
            assert(encoded[(i as nat) as int] as int == (value as int / pow(256, i as nat)) % 256);
        }
        assert(part =~= encoded);
    }
    if part == encoded {
        assert forall|i: nat| i < width implies #[trigger] bytes[offset + i] as int == (
        value as int / pow(256, i)) % 256 by {
            assert(part[i as int] == encoded[i as int]);
        }
    }
    lemma_le_value_of_le_bytes(value, width);
    lemma_le_bytes_of_le_value(part);
}

/// A number is the sum of its digits, each times its power of 256.
pub proof fn law_values_of_bytes(bytes: Seq<u8>)
    ensures
        bytes.len() == 2 ==> le_value(bytes) == bytes[0] + 0x100 * bytes[1],
        bytes.len() == 4 ==> le_value(bytes) == bytes[0] + 0x100 * bytes[1] + 0x1_0000 * bytes[2]
            + 0x100_0000 * bytes[3],
        bytes.len() == 8 ==> le_value(bytes) == bytes[0] + 0x100 * bytes[1] + 0x1_0000 * bytes[2]
            + 0x100_0000 * bytes[3] + 0x1_0000_0000 * bytes[4] + 0x100_0000_0000 * bytes[5]
            + 0x1_0000_0000_0000 * bytes[6] + 0x100_0000_0000_0000 * bytes[7],
{
    reveal_with_fuel(le_value, 9);
}

} // verus!
