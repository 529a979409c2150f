//! The fingerprints of compiled struct and array types.

use vstd::arithmetic::power::pow;
use vstd::prelude::*;

use crate::le_bytes;
use crate::le_bytes::{u16_to_le, u32_to_le};
use crate::type_layout::PersistentTypeKind;
use crate::wasmtime_layout::{WasmtimeLayoutError, WasmtimePersistentFieldLayout};

verus! {

/// What a fingerprint starts from.
pub const WASMTIME_LAYOUT_FINGERPRINT_OFFSET_BASIS: u64 = 0xcbf2_9ce4_8422_2325;

/// What a fingerprint is multiplied by for every byte.
pub const WASMTIME_LAYOUT_FINGERPRINT_PRIME: u64 = 0x0000_0001_0000_01b3;

/// A fingerprint after one more byte.
pub open spec fn fingerprint_step(fingerprint: u64, byte: u8) -> u64 {
    (((fingerprint ^ (byte as u64)) as nat * WASMTIME_LAYOUT_FINGERPRINT_PRIME as nat)
        % 0x1_0000_0000_0000_0000) as u64
}

/// A fingerprint after some more bytes.
pub open spec fn fingerprint_bytes(fingerprint: u64, bytes: Seq<u8>) -> u64
    decreases bytes.len(),
{
    if bytes.len() == 0 {
        fingerprint
    } else {
        fingerprint_step(fingerprint_bytes(fingerprint, bytes.drop_last()), bytes.last())
    }
}

/// The bytes of a field that its struct's fingerprint is taken over.
pub open spec fn fingerprinted_field(field: WasmtimePersistentFieldLayout) -> Seq<u8> {
    le_bytes::le_bytes(field.field_index as nat, 4) + le_bytes::le_bytes(
        field.field_offset as nat,
        4,
    ) + le_bytes::le_bytes(field.value_size as nat, 4) + seq![
        if field.is_object_ref {
            1u8
        } else {
            0u8
        },
    ]
}

/// The bytes of some fields that their struct's fingerprint is taken over.
pub open spec fn fingerprinted_fields(fields: Seq<WasmtimePersistentFieldLayout>) -> Seq<u8>
    decreases fields.len(),
{
    if fields.len() == 0 {
        Seq::empty()
    } else {
        fingerprinted_fields(fields.drop_last()) + fingerprinted_field(fields.last())
    }
}

/// The fingerprint of a struct type.
pub open spec fn struct_fingerprint(
    body_size: u32,
    fields: Seq<WasmtimePersistentFieldLayout>,
) -> u64 {
    fingerprint_bytes(
        WASMTIME_LAYOUT_FINGERPRINT_OFFSET_BASIS,
        le_bytes::le_bytes(PersistentTypeKind::Struct.raw() as nat, 2) + le_bytes::le_bytes(
            body_size as nat,
            4,
        ) + le_bytes::le_bytes(fields.len(), 4) + fingerprinted_fields(fields),
    )
}

/// The fingerprint of an array type.
pub open spec fn array_fingerprint(element_size: u32, element_is_object_ref: bool) -> u64 {
    fingerprint_bytes(
        WASMTIME_LAYOUT_FINGERPRINT_OFFSET_BASIS,
        le_bytes::le_bytes(PersistentTypeKind::Array.raw() as nat, 2) + le_bytes::le_bytes(
            element_size as nat,
            4,
        ) + seq![
            if element_is_object_ref {
                1u8
            } else {
                0u8
            },
        ],
    )
}

/// Taking bytes in at once or one part behind the other gives the same fingerprint.
pub proof fn law_fingerprint_of_parts(fingerprint: u64, first: Seq<u8>, second: Seq<u8>)
    ensures
        fingerprint_bytes(fingerprint, first + second) == fingerprint_bytes(
            fingerprint_bytes(fingerprint, first),
            second,
        ),
    decreases second.len(),
{
    if second.len() == 0 {
        assert(first + second =~= first);
    } else {
        assert((first + second).drop_last() =~= first + second.drop_last());
        law_fingerprint_of_parts(fingerprint, first, second.drop_last());
    }
}

/// Takes some bytes into a fingerprint.
pub fn stable_fingerprint_bytes(fingerprint: u64, bytes: &[u8]) -> (result: u64)
    ensures
        result == fingerprint_bytes(fingerprint, bytes@),
{
    let mut result: u64 = fingerprint;
    let mut index: usize = 0;
    assert(bytes@.take(0) =~= Seq::empty());
    while index < bytes.len()
        invariant
            index <= bytes@.len(),
            result == fingerprint_bytes(fingerprint, bytes@.take(index as int)),
        decreases bytes@.len() - index,
    {
        let mixed: u64 = result ^ (bytes[index] as u64);
        result = mixed.wrapping_mul(WASMTIME_LAYOUT_FINGERPRINT_PRIME);
        index += 1;
        assert(bytes@.take(index as int).drop_last() =~= bytes@.take(index - 1));
    }
    assert(bytes@.take(index as int) =~= bytes@);
    result
}

/// Takes a byte into a fingerprint.
pub fn stable_fingerprint_u8(fingerprint: u64, value: u8) -> (result: u64)
    ensures
        result == fingerprint_bytes(fingerprint, seq![value]),
{
    let bytes: [u8; 1] = [value];
    assert(bytes@ =~= seq![value]);
    stable_fingerprint_bytes(fingerprint, &bytes)
}

/// Takes a two-byte number into a fingerprint.
pub fn stable_fingerprint_u16(fingerprint: u64, value: u16) -> (result: u64)
    ensures
        result == fingerprint_bytes(fingerprint, le_bytes::le_bytes(value as nat, 2)),
{
    stable_fingerprint_bytes(fingerprint, &u16_to_le(value))
}

/// Takes a four-byte number into a fingerprint.
pub fn stable_fingerprint_u32(fingerprint: u64, value: u32) -> (result: u64)
    ensures
        result == fingerprint_bytes(fingerprint, le_bytes::le_bytes(value as nat, 4)),
{
    stable_fingerprint_bytes(fingerprint, &u32_to_le(value))
}

/// What the fingerprints of a kind of type start from.
pub fn wasmtime_layout_fingerprint_seed(kind: PersistentTypeKind) -> (seed: u64)
    ensures
        seed == fingerprint_bytes(
            WASMTIME_LAYOUT_FINGERPRINT_OFFSET_BASIS,
            le_bytes::le_bytes(kind.raw() as nat, 2),
        ),
{
    stable_fingerprint_u16(WASMTIME_LAYOUT_FINGERPRINT_OFFSET_BASIS, kind.as_raw())
}

fn ref_flag(is_object_ref: bool) -> (flag: u8)
    ensures
        flag == (if is_object_ref {
            1u8
        } else {
            0u8
        }),
{
    if is_object_ref {
        1
    } else {
        0
    }
}

/// The fingerprint of a struct type.
pub fn wasmtime_struct_layout_fingerprint(
    body_size: u32,
    fields: &[WasmtimePersistentFieldLayout],
) -> (result: Result<u64, WasmtimeLayoutError>)
    ensures
        match result {
            Ok(fingerprint) => fields@.len() <= u32::MAX && fingerprint == struct_fingerprint(
                body_size,
                fields@,
            ),
            Err(error) => fields@.len() > u32::MAX && error
                == WasmtimeLayoutError::FingerprintFieldCount,
        },
{
    let seed: u64 = wasmtime_layout_fingerprint_seed(PersistentTypeKind::Struct);
    let sized: u64 = stable_fingerprint_u32(seed, body_size);
    if fields.len() > u32::MAX as usize {
        return Err(WasmtimeLayoutError::FingerprintFieldCount);
    }
    let mut fingerprint: u64 = stable_fingerprint_u32(sized, fields.len() as u32);
    let ghost basis = WASMTIME_LAYOUT_FINGERPRINT_OFFSET_BASIS;
    let ghost kind_bytes = le_bytes::le_bytes(PersistentTypeKind::Struct.raw() as nat, 2);
    let ghost size_bytes = le_bytes::le_bytes(body_size as nat, 4);
    let ghost count_bytes = le_bytes::le_bytes(fields@.len(), 4);
    let ghost head = kind_bytes + size_bytes + count_bytes;
    proof {
        law_fingerprint_of_parts(basis, kind_bytes, size_bytes);
        law_fingerprint_of_parts(basis, kind_bytes + size_bytes, count_bytes);
        assert(fields@.take(0) =~= Seq::empty());
        assert(head + fingerprinted_fields(fields@.take(0)) =~= head);
    }
    let mut index: usize = 0;
    while index < fields.len()
        invariant
            index <= fields@.len(),
            fingerprint == fingerprint_bytes(
                basis,
                head + fingerprinted_fields(fields@.take(index as int)),
            ),
        decreases fields@.len() - index,
    {
        let field = fields[index];
        let ghost before = head + fingerprinted_fields(fields@.take(index as int));
        let ghost index_bytes = le_bytes::le_bytes(field.field_index as nat, 4);
        let ghost offset_bytes = le_bytes::le_bytes(field.field_offset as nat, 4);
        let ghost value_bytes = le_bytes::le_bytes(field.value_size as nat, 4);
        let flag: u8 = ref_flag(field.is_object_ref);
        proof {
            law_fingerprint_of_parts(basis, before, index_bytes);
            law_fingerprint_of_parts(basis, before + index_bytes, offset_bytes);
            law_fingerprint_of_parts(basis, before + index_bytes + offset_bytes, value_bytes);
            law_fingerprint_of_parts(
                basis,
                before + index_bytes + offset_bytes + value_bytes,
                seq![flag],
            );
        }
        fingerprint = stable_fingerprint_u32(fingerprint, field.field_index);
        fingerprint = stable_fingerprint_u32(fingerprint, field.field_offset);
        fingerprint = stable_fingerprint_u32(fingerprint, field.value_size);
        fingerprint = stable_fingerprint_u8(fingerprint, flag);
        index += 1;
        proof {
            assert(fields@.take(index as int).drop_last() =~= fields@.take(index - 1));
            assert(fields@.take(index as int).last() == field);
            assert(head + fingerprinted_fields(fields@.take(index as int)) =~= before + index_bytes
                + offset_bytes + value_bytes + seq![flag]);
        }
    }
    assert(fields@.take(index as int) =~= fields@);
    Ok(fingerprint)
}

/// The fingerprint of an array type.
pub fn wasmtime_array_layout_fingerprint(element_size: u32, element_is_object_ref: bool) -> (result:
    u64)
    ensures
        result == array_fingerprint(element_size, element_is_object_ref),
{
    let seed: u64 = wasmtime_layout_fingerprint_seed(PersistentTypeKind::Array);
    let sized: u64 = stable_fingerprint_u32(seed, element_size);
    let flag: u8 = ref_flag(element_is_object_ref);
    proof {
        let kind_bytes = le_bytes::le_bytes(PersistentTypeKind::Array.raw() as nat, 2);
        let size_bytes = le_bytes::le_bytes(element_size as nat, 4);
        law_fingerprint_of_parts(
            WASMTIME_LAYOUT_FINGERPRINT_OFFSET_BASIS,
            kind_bytes,
            size_bytes,
        );
        law_fingerprint_of_parts(
            WASMTIME_LAYOUT_FINGERPRINT_OFFSET_BASIS,
            kind_bytes + size_bytes,
            seq![flag],
        );
    }
    stable_fingerprint_u8(sized, flag)
}

/// Multiplying by the prime loses nothing modulo the size of a word.
proof fn lemma_multiply_injective(left: u64, right: u64)
    requires
        (left as nat * WASMTIME_LAYOUT_FINGERPRINT_PRIME as nat) % 0x1_0000_0000_0000_0000 == (
        right as nat * WASMTIME_LAYOUT_FINGERPRINT_PRIME as nat) % 0x1_0000_0000_0000_0000,
    ensures
        left == right,
{
    let modulus: int = 0x1_0000_0000_0000_0000;
    let prime: int = 0x1_0000_01b3;
    // The product of the prime and its inverse is `carry * modulus + 1`.
    let inverse: int = 0xb153_003e_aff6_957b;
    let carry: int = 0xb153_016c;
    assert(prime * inverse == carry * modulus + 1);
    let left_quotient: int = (left * prime) / modulus;
    let right_quotient: int = (right * prime) / modulus;
    let difference: int = left - right;
    let multiple: int = (left_quotient - right_quotient) * inverse - difference * carry;
    assert(difference * prime == (left_quotient - right_quotient) * modulus);
    assert(difference == multiple * modulus);
    assert(multiple == 0);
}

/// Taking in the same byte keeps two fingerprints apart.
proof fn lemma_step_injective_in_fingerprint(left: u64, right: u64, byte: u8)
    requires
        fingerprint_step(left, byte) == fingerprint_step(right, byte),
    ensures
        left == right,
{
    let wide = byte as u64;
    lemma_multiply_injective(left ^ wide, right ^ wide);
    assert(left ^ wide == right ^ wide ==> left == right) by (bit_vector);
}

/// Taking in two bytes sets one fingerprint apart.
proof fn lemma_step_injective_in_byte(fingerprint: u64, left: u8, right: u8)
    requires
        fingerprint_step(fingerprint, left) == fingerprint_step(fingerprint, right),
    ensures
        left == right,
{
    let wide_left = left as u64;
    let wide_right = right as u64;
    lemma_multiply_injective(fingerprint ^ wide_left, fingerprint ^ wide_right);
    assert(fingerprint ^ wide_left == fingerprint ^ wide_right ==> wide_left == wide_right)
        by (bit_vector);
}

/// Two fingerprints that differ still differ after the same bytes were taken into both.
pub proof fn law_fingerprints_stay_apart(left: u64, right: u64, bytes: Seq<u8>)
    requires
        left != right,
    ensures
        fingerprint_bytes(left, bytes) != fingerprint_bytes(right, bytes),
    decreases bytes.len(),
{
    if bytes.len() > 0 {
        law_fingerprints_stay_apart(left, right, bytes.drop_last());
        if fingerprint_bytes(left, bytes) == fingerprint_bytes(right, bytes) {
            lemma_step_injective_in_fingerprint(
                fingerprint_bytes(left, bytes.drop_last()),
                fingerprint_bytes(right, bytes.drop_last()),
                bytes.last(),
            );
        }
    }
}

/// Changing one byte changes the fingerprint.
pub proof fn law_one_byte_changes_fingerprint(
    fingerprint: u64,
    before: Seq<u8>,
    left: u8,
    right: u8,
    after: Seq<u8>,
)
    requires
        left != right,
    ensures
        fingerprint_bytes(fingerprint, before + seq![left] + after) != fingerprint_bytes(
            fingerprint,
            before + seq![right] + after,
        ),
{
    law_fingerprint_of_parts(fingerprint, before + seq![left], after);
    law_fingerprint_of_parts(fingerprint, before + seq![right], after);
    assert((before + seq![left]).drop_last() =~= before);
    assert((before + seq![right]).drop_last() =~= before);
    if fingerprint_bytes(fingerprint, before + seq![left]) == fingerprint_bytes(
        fingerprint,
        before + seq![right],
    ) {
        lemma_step_injective_in_byte(fingerprint_bytes(fingerprint, before), left, right);
    }
    law_fingerprints_stay_apart(
        fingerprint_bytes(fingerprint, before + seq![left]),
        fingerprint_bytes(fingerprint, before + seq![right]),
        after,
    );
}

/// An array of references and an array of scalars have different fingerprints.
pub proof fn law_array_ref_flag_changes_fingerprint(element_size: u32)
    ensures
        array_fingerprint(element_size, true) != array_fingerprint(element_size, false),
{
    let before = le_bytes::le_bytes(PersistentTypeKind::Array.raw() as nat, 2)
        + le_bytes::le_bytes(element_size as nat, 4);
    law_one_byte_changes_fingerprint(
        WASMTIME_LAYOUT_FINGERPRINT_OFFSET_BASIS,
        before,
        1,
        0,
        Seq::empty(),
    );
    assert(before + seq![1u8] + Seq::<u8>::empty() =~= before + seq![1u8]);
    assert(before + seq![0u8] + Seq::<u8>::empty() =~= before + seq![0u8]);
}

/// The bytes of some fields are those of the fields before one, of that one, and of the rest.
proof fn lemma_fingerprinted_fields_around(fields: Seq<WasmtimePersistentFieldLayout>, index: int)
    requires
        0 <= index < fields.len(),
    ensures
        fingerprinted_fields(fields) == fingerprinted_fields(fields.take(index))
            + fingerprinted_field(fields[index]) + fingerprinted_fields(fields.skip(index + 1)),
    decreases fields.len(),
{
    let tail = fields.skip(index + 1);
    if index == fields.len() - 1 {
        assert(fields.drop_last() =~= fields.take(index));
        assert(tail =~= Seq::empty());
    } else {
        let front = fields.drop_last();
        lemma_fingerprinted_fields_around(front, index);
        assert(front.take(index) =~= fields.take(index));
        assert(front.skip(index + 1) =~= tail.drop_last());
        assert(tail.last() == fields.last());
        assert(fingerprinted_fields(tail) == fingerprinted_fields(tail.drop_last())
            + fingerprinted_field(tail.last()));
    }
    assert(fingerprinted_fields(fields) =~= fingerprinted_fields(fields.take(index))
        + fingerprinted_field(fields[index]) + fingerprinted_fields(tail));
}

/// A struct type whose only difference is that one field holds references or not has
/// another fingerprint.
pub proof fn law_field_ref_flag_changes_fingerprint(
    body_size: u32,
    left: Seq<WasmtimePersistentFieldLayout>,
    right: Seq<WasmtimePersistentFieldLayout>,
    index: int,
)
    requires
        0 <= index < left.len(),
        right == left.update(
            index,
            (WasmtimePersistentFieldLayout {
                is_object_ref: !left[index].is_object_ref,
                ..left[index]
            }),
        ),
    ensures
        struct_fingerprint(body_size, left) != struct_fingerprint(body_size, right),
{
    lemma_fingerprinted_fields_around(left, index);
    lemma_fingerprinted_fields_around(right, index);
    assert(left.take(index) =~= right.take(index));
    assert(left.skip(index + 1) =~= right.skip(index + 1));
    let head = le_bytes::le_bytes(PersistentTypeKind::Struct.raw() as nat, 2)
        + le_bytes::le_bytes(body_size as nat, 4) + le_bytes::le_bytes(left.len(), 4);
    let field = left[index];
    let before = head + fingerprinted_fields(left.take(index)) + le_bytes::le_bytes(
        field.field_index as nat,
        4,
    ) + le_bytes::le_bytes(field.field_offset as nat, 4) + le_bytes::le_bytes(
        field.value_size as nat,
        4,
    );
    let after = fingerprinted_fields(left.skip(index + 1));
    let left_flag: u8 = if field.is_object_ref {
        1
    } else {
        0
    };
    let right_flag: u8 = if field.is_object_ref {
        0
    } else {
        1
    };
    assert(head + fingerprinted_fields(left) =~= before + seq![left_flag] + after);
    assert(head + fingerprinted_fields(right) =~= before + seq![right_flag] + after);
    law_one_byte_changes_fingerprint(
        WASMTIME_LAYOUT_FINGERPRINT_OFFSET_BASIS,
        before,
        left_flag,
        right_flag,
        after,
    );
}

/// Whether two numbers of four bytes differ in byte `at`, and in no other.
pub open spec fn differ_in_byte(left: u32, right: u32, at: nat) -> bool {
    &&& at < 4
    &&& (left as int / pow(256, at)) % 256 != (right as int / pow(256, at)) % 256
    &&& forall|i: nat|
        i < 4 && i != at ==> (left as int / #[trigger] pow(256, i)) % 256 == (right as int / pow(
            256,
            i,
        )) % 256
}

/// Where two numbers differ in one byte, so do byte strings that they stand in.
proof fn lemma_one_byte_of_number(
    start: u64,
    before: Seq<u8>,
    left: u32,
    right: u32,
    after: Seq<u8>,
    at: nat,
)
    requires
        differ_in_byte(left, right, at),
    ensures
        fingerprint_bytes(start, before + le_bytes::le_bytes(left as nat, 4) + after)
            != fingerprint_bytes(start, before + le_bytes::le_bytes(right as nat, 4) + after),
{
    let a = le_bytes::le_bytes(left as nat, 4);
    let b = le_bytes::le_bytes(right as nat, 4);
    le_bytes::lemma_le_bytes_len(left as nat, 4);
    le_bytes::lemma_le_bytes_len(right as nat, 4);
    assert forall|i: int| 0 <= i < 4 implies (a[i] == b[i] <==> i != at) by {
        le_bytes::law_encoded_digits(left as nat, 4, i as nat);
        le_bytes::law_encoded_digits(right as nat, 4, i as nat);
        assert(pow(256, i as nat) == pow(256, i as nat));
    }
    let head = before + a.take(at as int);
    let tail = a.skip(at as int + 1) + after;
    assert(before + a + after =~= head + seq![a[at as int]] + tail);
    assert(before + b + after =~= head + seq![b[at as int]] + tail);
    law_one_byte_changes_fingerprint(start, head, a[at as int], b[at as int], tail);
}

/// The bytes that the fingerprint of a struct type is taken over, around one field.
proof fn lemma_struct_bytes_around(
    body_size: u32,
    fields: Seq<WasmtimePersistentFieldLayout>,
    index: int,
)
    requires
        0 <= index < fields.len(),
    ensures
        struct_fingerprint(body_size, fields) == fingerprint_bytes(
            WASMTIME_LAYOUT_FINGERPRINT_OFFSET_BASIS,
            le_bytes::le_bytes(PersistentTypeKind::Struct.raw() as nat, 2) + le_bytes::le_bytes(
                body_size as nat,
                4,
            ) + le_bytes::le_bytes(fields.len(), 4) + fingerprinted_fields(fields.take(index))
                + fingerprinted_field(fields[index]) + fingerprinted_fields(
                fields.skip(index + 1),
            ),
        ),
{
    lemma_fingerprinted_fields_around(fields, index);
    let head = le_bytes::le_bytes(PersistentTypeKind::Struct.raw() as nat, 2)
        + le_bytes::le_bytes(body_size as nat, 4) + le_bytes::le_bytes(fields.len(), 4);
    assert(head + fingerprinted_fields(fields) =~= head + fingerprinted_fields(fields.take(index))
        + fingerprinted_field(fields[index]) + fingerprinted_fields(fields.skip(index + 1)));
}

/// Whether two fields agree in what they hold, and differ in one byte of one of their numbers
/// and in nothing else.
pub open spec fn fields_differ_in_byte(
    left: WasmtimePersistentFieldLayout,
    right: WasmtimePersistentFieldLayout,
    at: nat,
) -> bool {
    &&& left.is_object_ref == right.is_object_ref
    &&& {
        ||| {
            &&& differ_in_byte(left.field_index, right.field_index, at)
            &&& left.field_offset == right.field_offset
            &&& left.value_size == right.value_size
        }
        ||| {
            &&& left.field_index == right.field_index
            &&& differ_in_byte(left.field_offset, right.field_offset, at)
            &&& left.value_size == right.value_size
        }
        ||| {
            &&& left.field_index == right.field_index
            &&& left.field_offset == right.field_offset
            &&& differ_in_byte(left.value_size, right.value_size, at)
        }
    }
}

proof fn lemma_field_in_parts(
    head: Seq<u8>,
    field: WasmtimePersistentFieldLayout,
    tail: Seq<u8>,
)
    ensures
        ({
            let index = le_bytes::le_bytes(field.field_index as nat, 4);
            let offset = le_bytes::le_bytes(field.field_offset as nat, 4);
            let size = le_bytes::le_bytes(field.value_size as nat, 4);
            let flag = seq![
                if field.is_object_ref {
                    1u8
                } else {
                    0u8
                },
            ];
            let all = head + fingerprinted_field(field) + tail;
            &&& all == head + index + (offset + size + flag + tail)
            &&& all == (head + index) + offset + (size + flag + tail)
            &&& all == (head + index + offset) + size + (flag + tail)
        }),
{
    let index = le_bytes::le_bytes(field.field_index as nat, 4);
    let offset = le_bytes::le_bytes(field.field_offset as nat, 4);
    let size = le_bytes::le_bytes(field.value_size as nat, 4);
    let flag = seq![
        if field.is_object_ref {
            1u8
        } else {
            0u8
        },
    ];
    let all = head + fingerprinted_field(field) + tail;
    assert(all =~= head + index + (offset + size + flag + tail));
    assert(all =~= (head + index) + offset + (size + flag + tail));
    assert(all =~= (head + index + offset) + size + (flag + tail));
}

proof fn lemma_field_members_differ(
    head: Seq<u8>,
    left: WasmtimePersistentFieldLayout,
    right: WasmtimePersistentFieldLayout,
    tail: Seq<u8>,
    at: nat,
)
    requires
        fields_differ_in_byte(left, right, at),
    ensures
        fingerprint_bytes(
            WASMTIME_LAYOUT_FINGERPRINT_OFFSET_BASIS,
            head + fingerprinted_field(left) + tail,
        ) != fingerprint_bytes(
            WASMTIME_LAYOUT_FINGERPRINT_OFFSET_BASIS,
            head + fingerprinted_field(right) + tail,
        ),
{
    let start = WASMTIME_LAYOUT_FINGERPRINT_OFFSET_BASIS;
    let index = le_bytes::le_bytes(left.field_index as nat, 4);
    let offset = le_bytes::le_bytes(left.field_offset as nat, 4);
    let size = le_bytes::le_bytes(left.value_size as nat, 4);
    let flag = seq![
        if left.is_object_ref {
            1u8
        } else {
            0u8
        },
    ];
    lemma_field_in_parts(head, left, tail);
    lemma_field_in_parts(head, right, tail);
    if differ_in_byte(left.field_index, right.field_index, at) && left.field_offset
        == right.field_offset && left.value_size == right.value_size {
        lemma_one_byte_of_number(
            start,
            head,
            left.field_index,
            right.field_index,
            offset + size + flag + tail,
            at,
        );
    } else if differ_in_byte(left.field_offset, right.field_offset, at) && left.field_index
        == right.field_index && left.value_size == right.value_size {
        lemma_one_byte_of_number(
            start,
            head + index,
            left.field_offset,
            right.field_offset,
            size + flag + tail,
            at,
        );
    } else {
        lemma_one_byte_of_number(
            start,
            head + index + offset,
            left.value_size,
            right.value_size,
            flag + tail,
            at,
        );
    }
}

/// Struct types of which one field differs, in one byte of its index, its offset or its size
/// and in nothing else, have different fingerprints.
pub proof fn law_field_members_change_fingerprint(
    body_size: u32,
    left: Seq<WasmtimePersistentFieldLayout>,
    right: Seq<WasmtimePersistentFieldLayout>,
    index: int,
    at: nat,
)
    requires
        0 <= index < left.len(),
        right == left.update(index, right[index]),
        fields_differ_in_byte(left[index], right[index], at),
    ensures
        struct_fingerprint(body_size, left) != struct_fingerprint(body_size, right),
{
    lemma_struct_bytes_around(body_size, left, index);
    lemma_struct_bytes_around(body_size, right, index);
    assert(left.take(index) =~= right.take(index));
    assert(left.skip(index + 1) =~= right.skip(index + 1));
    let head = le_bytes::le_bytes(PersistentTypeKind::Struct.raw() as nat, 2)
        + le_bytes::le_bytes(body_size as nat, 4) + le_bytes::le_bytes(left.len(), 4)
        + fingerprinted_fields(left.take(index));
    let tail = fingerprinted_fields(left.skip(index + 1));
    lemma_field_members_differ(head, left[index], right[index], tail, at);
}

/// Struct types that differ in one byte of the size of their body and in nothing else have
/// different fingerprints.
pub proof fn law_body_size_changes_fingerprint(
    left: u32,
    right: u32,
    fields: Seq<WasmtimePersistentFieldLayout>,
    at: nat,
)
    requires
        differ_in_byte(left, right, at),
    ensures
        struct_fingerprint(left, fields) != struct_fingerprint(right, fields),
{
    let before = le_bytes::le_bytes(PersistentTypeKind::Struct.raw() as nat, 2);
    let after = le_bytes::le_bytes(fields.len(), 4) + fingerprinted_fields(fields);
    let start = WASMTIME_LAYOUT_FINGERPRINT_OFFSET_BASIS;
    assert(before + le_bytes::le_bytes(left as nat, 4) + after =~= before + le_bytes::le_bytes(
        left as nat,
        4,
    ) + le_bytes::le_bytes(fields.len(), 4) + fingerprinted_fields(fields));
    assert(before + le_bytes::le_bytes(right as nat, 4) + after =~= before + le_bytes::le_bytes(
        right as nat,
        4,
    ) + le_bytes::le_bytes(fields.len(), 4) + fingerprinted_fields(fields));
    lemma_one_byte_of_number(start, before, left, right, after, at);
}

/// Array types that differ in one byte of the size of their elements and in nothing else have
/// different fingerprints.
pub proof fn law_element_size_changes_fingerprint(
    left: u32,
    right: u32,
    element_is_object_ref: bool,
    at: nat,
)
    requires
        differ_in_byte(left, right, at),
    ensures
        array_fingerprint(left, element_is_object_ref) != array_fingerprint(
            right,
            element_is_object_ref,
        ),
{
    let before = le_bytes::le_bytes(PersistentTypeKind::Array.raw() as nat, 2);
    let after = seq![
        if element_is_object_ref {
            1u8
        } else {
            0u8
        },
    ];
    lemma_one_byte_of_number(
        WASMTIME_LAYOUT_FINGERPRINT_OFFSET_BASIS,
        before,
        left,
        right,
        after,
        at,
    );
}

/// Taking nothing in leaves a fingerprint as it is, and a byte is taken in by mixing it into
/// the lowest byte and multiplying by the prime, modulo the size of a word.
pub proof fn law_fingerprint_of_one_byte(fingerprint: u64, byte: u8)
    ensures
        fingerprint_bytes(fingerprint, Seq::empty()) == fingerprint,
        fingerprint_bytes(fingerprint, seq![byte]) == ((fingerprint ^ (byte as u64))
            * 0x1_0000_01b3) % 0x1_0000_0000_0000_0000,
{
    assert(seq![byte].drop_last() =~= Seq::empty());
    assert(fingerprint_bytes(fingerprint, seq![byte].drop_last()) == fingerprint);
}

/// The fingerprint of a struct type is that of ten bytes for its kind, the size of its body
/// and the number of its fields, and thirteen for each field: its index, its offset, its size,
/// and whether it holds references.
pub proof fn law_bytes_of_struct_fingerprint(
    body_size: u32,
    fields: Seq<WasmtimePersistentFieldLayout>,
    bytes: Seq<u8>,
)
    requires
        fields.len() <= u32::MAX,
        bytes.len() == 10 + 13 * fields.len(),
        le_bytes::stands_at(bytes, 0, 2, 1),
        le_bytes::stands_at(bytes, 2, 4, body_size as nat),
        le_bytes::stands_at(bytes, 6, 4, fields.len()),
        forall|i: int|
            0 <= i < fields.len() ==> {
                &&& le_bytes::stands_at(bytes, 10 + 13 * i, 4, (#[trigger] fields[i]).field_index as nat)
                &&& le_bytes::stands_at(bytes, 14 + 13 * i, 4, fields[i].field_offset as nat)
                &&& le_bytes::stands_at(bytes, 18 + 13 * i, 4, fields[i].value_size as nat)
                &&& bytes[22 + 13 * i] == (if fields[i].is_object_ref {
                    1u8
                } else {
                    0u8
                })
            },
    ensures
        struct_fingerprint(body_size, fields) == fingerprint_bytes(0xcbf2_9ce4_8422_2325, bytes),
{
    let kind_bytes = le_bytes::le_bytes(PersistentTypeKind::Struct.raw() as nat, 2);
    let size_bytes = le_bytes::le_bytes(body_size as nat, 4);
    let count_bytes = le_bytes::le_bytes(fields.len(), 4);
    le_bytes::lemma_le_bytes_len(1, 2);
    le_bytes::lemma_le_bytes_len(body_size as nat, 4);
    le_bytes::lemma_le_bytes_len(fields.len(), 4);
    le_bytes::law_standing_is_encoding(bytes, 0, 2, 1);
    le_bytes::law_standing_is_encoding(bytes, 2, 4, body_size as nat);
    le_bytes::law_standing_is_encoding(bytes, 6, 4, fields.len());
    lemma_fields_stand(bytes, fields, fields.len());
    assert(fields.take(fields.len() as int) =~= fields);
    assert(bytes =~= bytes.subrange(0, 2) + bytes.subrange(2, 6) + bytes.subrange(6, 10)
        + bytes.subrange(10, bytes.len() as int));
}

proof fn lemma_fields_stand(
    bytes: Seq<u8>,
    fields: Seq<WasmtimePersistentFieldLayout>,
    count: nat,
)
    requires
        count <= fields.len(),
        bytes.len() == 10 + 13 * fields.len(),
        forall|i: int|
            0 <= i < fields.len() ==> {
                &&& le_bytes::stands_at(bytes, 10 + 13 * i, 4, (#[trigger] fields[i]).field_index as nat)
                &&& le_bytes::stands_at(bytes, 14 + 13 * i, 4, fields[i].field_offset as nat)
                &&& le_bytes::stands_at(bytes, 18 + 13 * i, 4, fields[i].value_size as nat)
                &&& bytes[22 + 13 * i] == (if fields[i].is_object_ref {
                    1u8
                } else {
                    0u8
                })
            },
    ensures
        fingerprinted_fields(fields.take(count as int)) == bytes.subrange(
            10,
            (10 + 13 * count) as int,
        ),
    decreases count,
{
    let taken = fields.take(count as int);
    if count == 0 {
        assert(bytes.subrange(10, 10) =~= Seq::empty());
        assert(taken =~= Seq::empty());
    } else {
        let last = count - 1;
        lemma_fields_stand(bytes, fields, last as nat);
        assert(taken.drop_last() =~= fields.take(last));
        let field = fields[last];
        assert(taken.last() == field);
        let start = 10 + 13 * last;
        le_bytes::law_standing_is_encoding(bytes, start, 4, field.field_index as nat);
        le_bytes::law_standing_is_encoding(bytes, start + 4, 4, field.field_offset as nat);
        le_bytes::law_standing_is_encoding(bytes, start + 8, 4, field.value_size as nat);
        assert(bytes.subrange(start, start + 13) =~= bytes.subrange(start, start + 4)
            + bytes.subrange(start + 4, start + 8) + bytes.subrange(start + 8, start + 12) + seq![
            bytes[start + 12],
        ]);
        assert(bytes.subrange(start, start + 13) =~= fingerprinted_field(field));
        assert(bytes.subrange(10, (10 + 13 * count) as int) =~= bytes.subrange(10, start)
            + bytes.subrange(start, start + 13));
    }
}

/// The fingerprint of an array type is that of seven bytes: its kind, the size of its
/// elements, and whether they hold references.
pub proof fn law_bytes_of_array_fingerprint(
    element_size: u32,
    element_is_object_ref: bool,
    bytes: Seq<u8>,
)
    requires
        bytes.len() == 7,
        le_bytes::stands_at(bytes, 0, 2, 2),
        le_bytes::stands_at(bytes, 2, 4, element_size as nat),
        bytes[6] == (if element_is_object_ref {
            1u8
        } else {
            0u8
        }),
    ensures
        array_fingerprint(element_size, element_is_object_ref) == fingerprint_bytes(
            0xcbf2_9ce4_8422_2325,
            bytes,
        ),
{
    le_bytes::lemma_le_bytes_len(2, 2);
    le_bytes::lemma_le_bytes_len(element_size as nat, 4);
    le_bytes::law_standing_is_encoding(bytes, 0, 2, 2);
    le_bytes::law_standing_is_encoding(bytes, 2, 4, element_size as nat);
    assert(bytes =~= bytes.subrange(0, 2) + bytes.subrange(2, 6) + seq![bytes[6]]);
}

} // verus!
