//! The stored form of a type layout: a fixed header, and one entry per field
//! of a struct.

use vstd::prelude::*;

use crate::layout_error::TypeLayoutError;
use crate::le_bytes;
use crate::le_bytes::{u16_at, u16_to_le, u32_at, u32_to_le, u64_at, u64_to_le};
use crate::type_layout::{StructTraceField, TraceSlotKind};

verus! {

/// The number that starts every record.
pub const TYPE_LAYOUT_RECORD_MAGIC: u32 = 0x544c_4159;

/// The length of the longest record.
pub const MAX_TYPE_LAYOUT_RECORD_LEN: usize = 64 * 1024;

/// The largest field count that is considered at all.
pub const MAX_STRUCT_TRACE_FIELDS: usize = 4096;

/// Where the length stands in a record.
pub const TYPE_LAYOUT_RECORD_LEN_OFFSET: usize = 4;

/// Where the type kind stands in a record.
pub const TYPE_LAYOUT_RECORD_KIND_OFFSET: usize = 12;

/// Where the reserved halfword stands in a record.
pub const TYPE_LAYOUT_RECORD_RESERVED_OFFSET: usize = 14;

/// Where the size stands in a record.
pub const TYPE_LAYOUT_RECORD_BODY_SIZE_OR_ELEMENT_SIZE_OFFSET: usize = 24;

/// Where the element kind stands in a record.
pub const TYPE_LAYOUT_RECORD_ELEMENT_KIND_OFFSET: usize = 32;

/// Where the padding of the header stands in a record.
pub const TYPE_LAYOUT_RECORD_RESERVED2_OFFSET: usize = 33;

/// Where the kind of the first field stands in a record.
pub const TYPE_LAYOUT_FIELD_KIND_OFFSET: usize = 36 + 12;

/// Where the padding of the first field entry stands in a record.
pub const TYPE_LAYOUT_FIELD_RESERVED_OFFSET: usize = 36 + 13;

/// The fixed part of a record.
#[derive(Clone, Copy, Debug, PartialEq, Eq)]
pub struct TypeLayoutRecordHeader {
    pub magic: u32,
    pub record_len: u32,
    pub type_layout_id: u32,
    pub kind: u16,
    pub reserved: u16,
    pub fingerprint: u64,
    pub body_size_or_element_size: u32,
    pub field_count: u32,
    pub element_kind: u8,
    pub reserved2: [u8; 3],
}

/// A record header as a mathematical value.
pub struct HeaderView {
    pub magic: u32,
    pub record_len: u32,
    pub type_layout_id: u32,
    pub kind: u16,
    pub reserved: u16,
    pub fingerprint: u64,
    pub body_size_or_element_size: u32,
    pub field_count: u32,
    pub element_kind: u8,
    pub reserved2: Seq<u8>,
}

/// Three zero bytes.
pub open spec fn zero_padding() -> Seq<u8> {
    seq![0u8, 0u8, 0u8]
}

impl HeaderView {
    /// The bytes of the header.
    pub open spec fn encoding(self) -> Seq<u8> {
        le_bytes::le_bytes(self.magic as nat, 4) + le_bytes::le_bytes(
            self.record_len as nat,
            4,
        ) + le_bytes::le_bytes(self.type_layout_id as nat, 4) + le_bytes::le_bytes(
            self.kind as nat,
            2,
        ) + le_bytes::le_bytes(self.reserved as nat, 2) + le_bytes::le_bytes(
            self.fingerprint as nat,
            8,
        ) + le_bytes::le_bytes(self.body_size_or_element_size as nat, 4)
            + le_bytes::le_bytes(self.field_count as nat, 4) + seq![self.element_kind]
            + self.reserved2
    }

    /// The header in the first bytes of `bytes`.
    pub open spec fn at(bytes: Seq<u8>) -> HeaderView {
        HeaderView {
            magic: le_bytes::le_value_at(bytes, 0, 4) as u32,
            record_len: le_bytes::le_value_at(bytes, 4, 4) as u32,
            type_layout_id: le_bytes::le_value_at(bytes, 8, 4) as u32,
            kind: le_bytes::le_value_at(bytes, 12, 2) as u16,
            reserved: le_bytes::le_value_at(bytes, 14, 2) as u16,
            fingerprint: le_bytes::le_value_at(bytes, 16, 8) as u64,
            body_size_or_element_size: le_bytes::le_value_at(bytes, 24, 4) as u32,
            field_count: le_bytes::le_value_at(bytes, 28, 4) as u32,
            element_kind: bytes[32],
            reserved2: bytes.subrange(33, 36),
        }
    }

    /// Why the header is refused on its own, if it is.
    pub open spec fn defect(self) -> Option<TypeLayoutError> {
        if self.reserved != 0 {
            Some(TypeLayoutError::ReservedHeaderField)
        } else if self.reserved2 != zero_padding() {
            Some(TypeLayoutError::ReservedHeaderPadding)
        } else {
            None
        }
    }
}

impl View for TypeLayoutRecordHeader {
    type V = HeaderView;

    open spec fn view(&self) -> HeaderView {
        HeaderView {
            magic: self.magic,
            record_len: self.record_len,
            type_layout_id: self.type_layout_id,
            kind: self.kind,
            reserved: self.reserved,
            fingerprint: self.fingerprint,
            body_size_or_element_size: self.body_size_or_element_size,
            field_count: self.field_count,
            element_kind: self.element_kind,
            reserved2: self.reserved2@,
        }
    }
}

/// Reading the bytes of a header gives the header, whatever follows it.
pub proof fn law_header_reads_back(header: HeaderView, rest: Seq<u8>)
    requires
        header.reserved2.len() == 3,
    ensures
        header.encoding().len() == 36,
        HeaderView::at(header.encoding() + rest) == header,
{
    let bytes = header.encoding() + rest;
    le_bytes::lemma_pow_256();
    le_bytes::lemma_le_bytes_len(header.magic as nat, 4);
    le_bytes::lemma_le_bytes_len(header.record_len as nat, 4);
    le_bytes::lemma_le_bytes_len(header.type_layout_id as nat, 4);
    le_bytes::lemma_le_bytes_len(header.kind as nat, 2);
    le_bytes::lemma_le_bytes_len(header.reserved as nat, 2);
    le_bytes::lemma_le_bytes_len(header.fingerprint as nat, 8);
    le_bytes::lemma_le_bytes_len(header.body_size_or_element_size as nat, 4);
    le_bytes::lemma_le_bytes_len(header.field_count as nat, 4);
    le_bytes::lemma_le_value_of_le_bytes(header.magic as nat, 4);
    le_bytes::lemma_le_value_of_le_bytes(header.record_len as nat, 4);
    le_bytes::lemma_le_value_of_le_bytes(header.type_layout_id as nat, 4);
    le_bytes::lemma_le_value_of_le_bytes(header.kind as nat, 2);
    le_bytes::lemma_le_value_of_le_bytes(header.reserved as nat, 2);
    le_bytes::lemma_le_value_of_le_bytes(header.fingerprint as nat, 8);
    le_bytes::lemma_le_value_of_le_bytes(header.body_size_or_element_size as nat, 4);
    le_bytes::lemma_le_value_of_le_bytes(header.field_count as nat, 4);
    assert(bytes.subrange(0, 4) =~= le_bytes::le_bytes(header.magic as nat, 4));
    assert(bytes.subrange(4, 8) =~= le_bytes::le_bytes(header.record_len as nat, 4));
    assert(bytes.subrange(8, 12) =~= le_bytes::le_bytes(header.type_layout_id as nat, 4));
    assert(bytes.subrange(12, 14) =~= le_bytes::le_bytes(header.kind as nat, 2));
    assert(bytes.subrange(14, 16) =~= le_bytes::le_bytes(header.reserved as nat, 2));
    assert(bytes.subrange(16, 24) =~= le_bytes::le_bytes(header.fingerprint as nat, 8));
    assert(bytes.subrange(24, 28) =~= le_bytes::le_bytes(
        header.body_size_or_element_size as nat,
        4,
    ));
    assert(bytes.subrange(28, 32) =~= le_bytes::le_bytes(header.field_count as nat, 4));
    assert(bytes.subrange(33, 36) =~= header.reserved2);
}

/// Writing the header that a buffer starts with gives the first bytes of the buffer.
pub proof fn law_header_writes_back(bytes: Seq<u8>)
    requires
        bytes.len() >= 36,
    ensures
        HeaderView::at(bytes).encoding() == bytes.take(36),
{
    le_bytes::lemma_pow_256();
    lemma_le_bytes_of_value_at(bytes, 0, 4);
    lemma_le_bytes_of_value_at(bytes, 4, 4);
    lemma_le_bytes_of_value_at(bytes, 8, 4);
    lemma_le_bytes_of_value_at(bytes, 12, 2);
    lemma_le_bytes_of_value_at(bytes, 14, 2);
    lemma_le_bytes_of_value_at(bytes, 16, 8);
    lemma_le_bytes_of_value_at(bytes, 24, 4);
    lemma_le_bytes_of_value_at(bytes, 28, 4);
    assert(HeaderView::at(bytes).encoding() =~= bytes.take(36));
}

proof fn lemma_le_bytes_of_value_at(bytes: Seq<u8>, offset: int, width: int)
    requires
        0 <= offset,
        0 <= width,
        offset + width <= bytes.len(),
    ensures
        le_bytes::le_value_at(bytes, offset, width) < vstd::arithmetic::power::pow(
            256,
            width as nat,
        ),
        le_bytes::le_bytes(le_bytes::le_value_at(bytes, offset, width), width as nat)
            == bytes.subrange(offset, offset + width),
{
    let part = bytes.subrange(offset, offset + width);
    le_bytes::lemma_le_value_bound(part);
    le_bytes::lemma_le_bytes_of_le_value(part);
}

impl TypeLayoutRecordHeader {
    /// The length of a header.
    pub const BYTE_LEN: usize = 36;

    /// The bytes of the header.
    pub fn as_bytes(&self) -> (bytes: [u8; 36])
        ensures
            bytes@ == self@.encoding(),
    {
        let magic: [u8; 4] = u32_to_le(self.magic);
        let record_len: [u8; 4] = u32_to_le(self.record_len);
        let id: [u8; 4] = u32_to_le(self.type_layout_id);
        let kind: [u8; 2] = u16_to_le(self.kind);
        let reserved: [u8; 2] = u16_to_le(self.reserved);
        let fingerprint: [u8; 8] = u64_to_le(self.fingerprint);
        let size: [u8; 4] = u32_to_le(self.body_size_or_element_size);
        let count: [u8; 4] = u32_to_le(self.field_count);
        let bytes: [u8; 36] = [
            magic[0], magic[1], magic[2], magic[3],
            record_len[0], record_len[1], record_len[2], record_len[3],
            id[0], id[1], id[2], id[3],
            kind[0], kind[1],
            reserved[0], reserved[1],
            fingerprint[0], fingerprint[1], fingerprint[2], fingerprint[3],
            fingerprint[4], fingerprint[5], fingerprint[6], fingerprint[7],
            size[0], size[1], size[2], size[3],
            count[0], count[1], count[2], count[3],
            self.element_kind,
            self.reserved2[0], self.reserved2[1], self.reserved2[2],
        ];
        assert(bytes@ =~= self@.encoding());
        bytes
    }

    /// The header that exactly these bytes hold.
    pub fn from_bytes(bytes: &[u8]) -> (header: Result<TypeLayoutRecordHeader, TypeLayoutError>)
        ensures
            match header {
                Ok(header) => bytes@.len() == 36 && header@ == HeaderView::at(bytes@)
                    && header@.defect() is None,
                Err(error) => if bytes@.len() != 36 {
                    error == TypeLayoutError::HeaderLengthMismatch
                } else {
                    HeaderView::at(bytes@).defect() == Some(error)
                },
            },
    {
        if bytes.len() != Self::BYTE_LEN {
            return Err(TypeLayoutError::HeaderLengthMismatch);
        }
        let header = TypeLayoutRecordHeader {
            magic: u32_at(bytes, 0),
            record_len: u32_at(bytes, 4),
            type_layout_id: u32_at(bytes, 8),
            kind: u16_at(bytes, 12),
            reserved: u16_at(bytes, 14),
            fingerprint: u64_at(bytes, 16),
            body_size_or_element_size: u32_at(bytes, 24),
            field_count: u32_at(bytes, 28),
            element_kind: bytes[32],
            reserved2: [bytes[33], bytes[34], bytes[35]],
        };
        assert(header@.reserved2 =~= bytes@.subrange(33, 36));
        if header.reserved != 0 {
            return Err(TypeLayoutError::ReservedHeaderField);
        }
        if header.reserved2[0] != 0 || header.reserved2[1] != 0 || header.reserved2[2] != 0 {
            assert(header@.reserved2 != zero_padding());
            return Err(TypeLayoutError::ReservedHeaderPadding);
        }
        assert(header@.reserved2 =~= zero_padding());
        Ok(header)
    }
}

/// The stored form of one field.
#[derive(Clone, Copy, Debug, PartialEq, Eq, Structural)]
pub struct TypeLayoutFieldEntry {
    pub field_index: u32,
    pub field_offset: u32,
    pub value_size: u32,
    pub kind: TraceSlotKind,
}

/// The bytes of the entry for `field`.
pub open spec fn field_encoding(field: StructTraceField) -> Seq<u8> {
    le_bytes::le_bytes(field.field_index as nat, 4) + le_bytes::le_bytes(
        field.field_offset as nat,
        4,
    ) + le_bytes::le_bytes(field.value_size as nat, 4) + seq![field.kind.raw()] + zero_padding()
}

/// The field that the bytes of an entry stand for.
pub open spec fn parse_field(bytes: Seq<u8>) -> Result<StructTraceField, TypeLayoutError> {
    if bytes.len() != 16 {
        Err(TypeLayoutError::FieldEntryLengthMismatch)
    } else if bytes.subrange(13, 16) != zero_padding() {
        Err(TypeLayoutError::FieldEntryReservedPadding)
    } else {
        match TraceSlotKind::with_raw(bytes[12]) {
            None => Err(TypeLayoutError::UnknownTraceSlotKind { raw: bytes[12] }),
            Some(kind) => Ok(
                StructTraceField {
                    field_index: le_bytes::le_value_at(bytes, 0, 4) as u32,
                    field_offset: le_bytes::le_value_at(bytes, 4, 4) as u32,
                    value_size: le_bytes::le_value_at(bytes, 8, 4) as u32,
                    kind,
                },
            ),
        }
    }
}

/// Reading a written field entry gives the field.
pub proof fn law_field_entry_reads_back(field: StructTraceField)
    ensures
        field_encoding(field).len() == 16,
        parse_field(field_encoding(field)) == Ok::<StructTraceField, TypeLayoutError>(field),
{
    let bytes = field_encoding(field);
    le_bytes::lemma_pow_256();
    le_bytes::lemma_le_bytes_len(field.field_index as nat, 4);
    le_bytes::lemma_le_bytes_len(field.field_offset as nat, 4);
    le_bytes::lemma_le_bytes_len(field.value_size as nat, 4);
    le_bytes::lemma_le_value_of_le_bytes(field.field_index as nat, 4);
    le_bytes::lemma_le_value_of_le_bytes(field.field_offset as nat, 4);
    le_bytes::lemma_le_value_of_le_bytes(field.value_size as nat, 4);
    assert(bytes.subrange(0, 4) =~= le_bytes::le_bytes(field.field_index as nat, 4));
    assert(bytes.subrange(4, 8) =~= le_bytes::le_bytes(field.field_offset as nat, 4));
    assert(bytes.subrange(8, 12) =~= le_bytes::le_bytes(field.value_size as nat, 4));
    assert(bytes.subrange(13, 16) =~= zero_padding());
}

/// Writing the field that was read from an entry gives the entry.
pub proof fn law_field_entry_writes_back(bytes: Seq<u8>)
    ensures
        parse_field(bytes) matches Ok(field) ==> field_encoding(field) == bytes,
{
    if parse_field(bytes) is Ok {
        le_bytes::lemma_pow_256();
        lemma_le_bytes_of_value_at(bytes, 0, 4);
        lemma_le_bytes_of_value_at(bytes, 4, 4);
        lemma_le_bytes_of_value_at(bytes, 8, 4);
        let field = parse_field(bytes)->Ok_0;
        assert(bytes[13] == bytes.subrange(13, 16)[0]);
        assert(bytes[14] == bytes.subrange(13, 16)[1]);
        assert(bytes[15] == bytes.subrange(13, 16)[2]);
        assert(field_encoding(field) =~= bytes);
    }
}

impl TypeLayoutFieldEntry {
    /// The length of an entry.
    pub const BYTE_LEN: usize = 16;

    /// The field that the entry stands for.
    pub open spec fn field(self) -> StructTraceField {
        StructTraceField {
            field_index: self.field_index,
            field_offset: self.field_offset,
            value_size: self.value_size,
            kind: self.kind,
        }
    }

    /// The bytes of the entry.
    pub fn as_bytes(&self) -> (bytes: [u8; 16])
        ensures
            bytes@ == field_encoding(self.field()),
    {
        let index: [u8; 4] = u32_to_le(self.field_index);
        let offset: [u8; 4] = u32_to_le(self.field_offset);
        let size: [u8; 4] = u32_to_le(self.value_size);
        let bytes: [u8; 16] = [
            index[0], index[1], index[2], index[3],
            offset[0], offset[1], offset[2], offset[3],
            size[0], size[1], size[2], size[3],
            self.kind.as_raw(),
            0, 0, 0,
        ];
        assert(bytes@ =~= field_encoding(self.field()));
        bytes
    }

    /// The entry that exactly these bytes hold.
    pub fn from_bytes(bytes: &[u8]) -> (entry: Result<TypeLayoutFieldEntry, TypeLayoutError>)
        ensures
            match entry {
                Ok(entry) => parse_field(bytes@) == Ok::<StructTraceField, TypeLayoutError>(
                    entry.field(),
                ),
                Err(error) => parse_field(bytes@) == Err::<StructTraceField, TypeLayoutError>(
                    error,
                ),
            },
    {
        if bytes.len() != Self::BYTE_LEN {
            return Err(TypeLayoutError::FieldEntryLengthMismatch);
        }
        assert(bytes@.subrange(13, 16) =~= seq![bytes@[13], bytes@[14], bytes@[15]]);
        if bytes[13] != 0 || bytes[14] != 0 || bytes[15] != 0 {
            assert(bytes@.subrange(13, 16)[0] == bytes@[13]);
            assert(bytes@.subrange(13, 16)[1] == bytes@[14]);
            assert(bytes@.subrange(13, 16)[2] == bytes@[15]);
            return Err(TypeLayoutError::FieldEntryReservedPadding);
        }
        let kind = match TraceSlotKind::from_raw(bytes[12]) {
            Ok(kind) => kind,
            Err(error) => {
                return Err(error);
            },
        };
        Ok(
            TypeLayoutFieldEntry {
                field_index: u32_at(bytes, 0),
                field_offset: u32_at(bytes, 4),
                value_size: u32_at(bytes, 8),
                kind,
            },
        )
    }
}

/// The length of a record with `field_count` fields, unless there are too many.
pub open spec fn record_len(field_count: nat) -> Result<nat, TypeLayoutError> {
    if field_count > MAX_STRUCT_TRACE_FIELDS {
        Err(TypeLayoutError::FieldCountExceedsMaximum)
    } else if 36 + 16 * field_count > MAX_TYPE_LAYOUT_RECORD_LEN {
        Err(TypeLayoutError::RecordLengthExceedsMaximum)
    } else {
        Ok((36 + 16 * field_count) as nat)
    }
}

/// The length of a record with `field_count` fields.
pub fn encoded_record_len_for_field_count(field_count: usize) -> (len: Result<
    usize,
    TypeLayoutError,
>)
    ensures
        match len {
            Ok(len) => record_len(field_count as nat) == Ok::<nat, TypeLayoutError>(len as nat),
            Err(error) => record_len(field_count as nat) == Err::<nat, TypeLayoutError>(error),
        },
{
    if field_count > MAX_STRUCT_TRACE_FIELDS {
        return Err(TypeLayoutError::FieldCountExceedsMaximum);
    }
    let len: usize = TypeLayoutRecordHeader::BYTE_LEN + field_count
        * TypeLayoutFieldEntry::BYTE_LEN;
    if len > MAX_TYPE_LAYOUT_RECORD_LEN {
        return Err(TypeLayoutError::RecordLengthExceedsMaximum);
    }
    Ok(len)
}

/// The length and the field count that a header announces, if they go together.
pub open spec fn record_shape(header: HeaderView) -> Result<(nat, nat), TypeLayoutError> {
    if header.field_count > MAX_STRUCT_TRACE_FIELDS {
        Err(TypeLayoutError::FieldCountExceedsMaximum)
    } else if header.record_len > MAX_TYPE_LAYOUT_RECORD_LEN {
        Err(TypeLayoutError::RecordLengthExceedsMaximum)
    } else {
        match record_len(header.field_count as nat) {
            Err(error) => Err(error),
            Ok(expected) => if header.record_len != expected {
                Err(TypeLayoutError::RecordLengthMismatch)
            } else {
                Ok((header.record_len as nat, header.field_count as nat))
            },
        }
    }
}

/// The length and the field count that a header announces.
pub fn validated_record_shape(header: TypeLayoutRecordHeader) -> (shape: Result<
    (usize, usize),
    TypeLayoutError,
>)
    ensures
        match shape {
            Ok(shape) => record_shape(header@) == Ok::<(nat, nat), TypeLayoutError>(
                (shape.0 as nat, shape.1 as nat),
            ),
            Err(error) => record_shape(header@) == Err::<(nat, nat), TypeLayoutError>(error),
        },
{
    let record_len: usize = header.record_len as usize;
    let field_count: usize = header.field_count as usize;
    if field_count > MAX_STRUCT_TRACE_FIELDS {
        return Err(TypeLayoutError::FieldCountExceedsMaximum);
    }
    if record_len > MAX_TYPE_LAYOUT_RECORD_LEN {
        return Err(TypeLayoutError::RecordLengthExceedsMaximum);
    }
    match encoded_record_len_for_field_count(field_count) {
        Err(error) => Err(error),
        Ok(expected) => if record_len != expected {
            Err(TypeLayoutError::RecordLengthMismatch)
        } else {
            Ok((record_len, field_count))
        },
    }
}

/// The element kind that a header names.
pub fn decode_header_element_kind(raw: u8) -> (kind: Result<TraceSlotKind, TypeLayoutError>)
    ensures
        kind == (match TraceSlotKind::with_raw(raw) {
            Some(kind) => Ok::<TraceSlotKind, TypeLayoutError>(kind),
            None => Err(TypeLayoutError::InvalidHeaderElementKind { raw }),
        }),
{
    match TraceSlotKind::from_raw(raw) {
        Ok(kind) => Ok(kind),
        Err(_) => Err(TypeLayoutError::InvalidHeaderElementKind { raw }),
    }
}

/// A record can hold up to 4093 fields, and is 36 bytes long and 16 more for each of them.
pub proof fn law_record_length_of_field_count(field_count: nat)
    ensures
        field_count <= 4093 ==> record_len(field_count) == Ok::<nat, TypeLayoutError>(
            (36 + 16 * field_count) as nat,
        ),
        4093 < field_count <= 4096 ==> record_len(field_count) == Err::<nat, TypeLayoutError>(
            TypeLayoutError::RecordLengthExceedsMaximum,
        ),
        field_count > 4096 ==> record_len(field_count) == Err::<nat, TypeLayoutError>(
            TypeLayoutError::FieldCountExceedsMaximum,
        ),
{
}

/// A header is accepted exactly if it announces up to 4093 fields and the length that goes
/// with them; otherwise too many fields go first, then too long a record, then a length that
/// does not go with the fields.
pub proof fn law_shape_of_header(header: HeaderView)
    ensures
        record_shape(header) is Ok <==> header.field_count <= 4093 && header.record_len == 36 + 16
            * header.field_count,
        record_shape(header) matches Ok((len, count)) ==> len == header.record_len && count
            == header.field_count,
        record_shape(header) == Err::<(nat, nat), TypeLayoutError>(
            TypeLayoutError::FieldCountExceedsMaximum,
        ) <==> header.field_count > 4096,
        record_shape(header) == Err::<(nat, nat), TypeLayoutError>(
            TypeLayoutError::RecordLengthExceedsMaximum,
        ) <==> header.field_count <= 4096 && (header.record_len > 65536 || header.field_count
            > 4093),
        record_shape(header) == Err::<(nat, nat), TypeLayoutError>(
            TypeLayoutError::RecordLengthMismatch,
        ) <==> header.field_count <= 4093 && header.record_len <= 65536 && header.record_len != 36
            + 16 * header.field_count,
{
}

/// Where the parts of a header stand.
pub proof fn law_places_in_header(header: HeaderView)
    requires
        header.reserved2.len() == 3,
    ensures
        header.encoding().len() == 36,
        le_bytes::stands_at(header.encoding(), 0, 4, header.magic as nat),
        le_bytes::stands_at(header.encoding(), 4, 4, header.record_len as nat),
        le_bytes::stands_at(header.encoding(), 8, 4, header.type_layout_id as nat),
        le_bytes::stands_at(header.encoding(), 12, 2, header.kind as nat),
        le_bytes::stands_at(header.encoding(), 14, 2, header.reserved as nat),
        le_bytes::stands_at(header.encoding(), 16, 8, header.fingerprint as nat),
        le_bytes::stands_at(header.encoding(), 24, 4, header.body_size_or_element_size as nat),
        le_bytes::stands_at(header.encoding(), 28, 4, header.field_count as nat),
        header.encoding()[32] == header.element_kind,
        header.encoding()[33] == header.reserved2[0],
        header.encoding()[34] == header.reserved2[1],
        header.encoding()[35] == header.reserved2[2],
{
    let bytes = header.encoding();
    le_bytes::lemma_pow_256();
    law_header_reads_back(header, Seq::empty());
    assert(bytes + Seq::<u8>::empty() =~= bytes);
    le_bytes::lemma_le_bytes_len(header.magic as nat, 4);
    le_bytes::lemma_le_bytes_len(header.record_len as nat, 4);
    le_bytes::lemma_le_bytes_len(header.type_layout_id as nat, 4);
    le_bytes::lemma_le_bytes_len(header.kind as nat, 2);
    le_bytes::lemma_le_bytes_len(header.reserved as nat, 2);
    le_bytes::lemma_le_bytes_len(header.fingerprint as nat, 8);
    le_bytes::lemma_le_bytes_len(header.body_size_or_element_size as nat, 4);
    le_bytes::lemma_le_bytes_len(header.field_count as nat, 4);
    le_bytes::law_standing_is_encoding(bytes, 0, 4, header.magic as nat);
    le_bytes::law_standing_is_encoding(bytes, 4, 4, header.record_len as nat);
    le_bytes::law_standing_is_encoding(bytes, 8, 4, header.type_layout_id as nat);
    le_bytes::law_standing_is_encoding(bytes, 12, 2, header.kind as nat);
    le_bytes::law_standing_is_encoding(bytes, 14, 2, header.reserved as nat);
    le_bytes::law_standing_is_encoding(bytes, 16, 8, header.fingerprint as nat);
    le_bytes::law_standing_is_encoding(bytes, 24, 4, header.body_size_or_element_size as nat);
    le_bytes::law_standing_is_encoding(bytes, 28, 4, header.field_count as nat);
    assert(bytes.subrange(0, 4) =~= le_bytes::le_bytes(header.magic as nat, 4));
    assert(bytes.subrange(4, 8) =~= le_bytes::le_bytes(header.record_len as nat, 4));
    assert(bytes.subrange(8, 12) =~= le_bytes::le_bytes(header.type_layout_id as nat, 4));
    assert(bytes.subrange(12, 14) =~= le_bytes::le_bytes(header.kind as nat, 2));
    assert(bytes.subrange(14, 16) =~= le_bytes::le_bytes(header.reserved as nat, 2));
    assert(bytes.subrange(16, 24) =~= le_bytes::le_bytes(header.fingerprint as nat, 8));
    assert(bytes.subrange(24, 28) =~= le_bytes::le_bytes(
        header.body_size_or_element_size as nat,
        4,
    ));
    assert(bytes.subrange(28, 32) =~= le_bytes::le_bytes(header.field_count as nat, 4));
}

/// What is read as a header stands in the bytes.
pub proof fn law_header_is_read_from_its_places(bytes: Seq<u8>)
    requires
        bytes.len() >= 36,
    ensures
        le_bytes::stands_at(bytes, 0, 4, HeaderView::at(bytes).magic as nat),
        le_bytes::stands_at(bytes, 4, 4, HeaderView::at(bytes).record_len as nat),
        le_bytes::stands_at(bytes, 8, 4, HeaderView::at(bytes).type_layout_id as nat),
        le_bytes::stands_at(bytes, 12, 2, HeaderView::at(bytes).kind as nat),
        le_bytes::stands_at(bytes, 14, 2, HeaderView::at(bytes).reserved as nat),
        le_bytes::stands_at(bytes, 16, 8, HeaderView::at(bytes).fingerprint as nat),
        le_bytes::stands_at(
            bytes,
            24,
            4,
            HeaderView::at(bytes).body_size_or_element_size as nat,
        ),
        le_bytes::stands_at(bytes, 28, 4, HeaderView::at(bytes).field_count as nat),
        HeaderView::at(bytes).element_kind == bytes[32],
        HeaderView::at(bytes).reserved2 == seq![bytes[33], bytes[34], bytes[35]],
{
    le_bytes::lemma_pow_256();
    lemma_le_bytes_of_value_at(bytes, 0, 4);
    lemma_le_bytes_of_value_at(bytes, 4, 4);
    lemma_le_bytes_of_value_at(bytes, 8, 4);
    lemma_le_bytes_of_value_at(bytes, 12, 2);
    lemma_le_bytes_of_value_at(bytes, 14, 2);
    lemma_le_bytes_of_value_at(bytes, 16, 8);
    lemma_le_bytes_of_value_at(bytes, 24, 4);
    lemma_le_bytes_of_value_at(bytes, 28, 4);
    let header = HeaderView::at(bytes);
    le_bytes::law_standing_is_encoding(bytes, 0, 4, header.magic as nat);
    le_bytes::law_standing_is_encoding(bytes, 4, 4, header.record_len as nat);
    le_bytes::law_standing_is_encoding(bytes, 8, 4, header.type_layout_id as nat);
    le_bytes::law_standing_is_encoding(bytes, 12, 2, header.kind as nat);
    le_bytes::law_standing_is_encoding(bytes, 14, 2, header.reserved as nat);
    le_bytes::law_standing_is_encoding(bytes, 16, 8, header.fingerprint as nat);
    le_bytes::law_standing_is_encoding(bytes, 24, 4, header.body_size_or_element_size as nat);
    le_bytes::law_standing_is_encoding(bytes, 28, 4, header.field_count as nat);
    assert(header.reserved2 =~= seq![bytes[33], bytes[34], bytes[35]]);
}

/// A header is refused on its own exactly if its reserved parts are not zero, the halfword
/// going first.
pub proof fn law_reserved_parts_of_header_are_zero(header: HeaderView)
    requires
        header.reserved2.len() == 3,
    ensures
        header.defect() is None <==> header.reserved == 0 && header.reserved2[0] == 0
            && header.reserved2[1] == 0 && header.reserved2[2] == 0,
        header.defect() == Some(TypeLayoutError::ReservedHeaderField) <==> header.reserved != 0,
        header.defect() is Some && header.reserved == 0 ==> header.defect() == Some(
            TypeLayoutError::ReservedHeaderPadding,
        ),
{
    let zero = zero_padding();
    assert(zero[0] == 0 && zero[1] == 0 && zero[2] == 0);
    if header.reserved2[0] == 0 && header.reserved2[1] == 0 && header.reserved2[2] == 0 {
        assert(header.reserved2 =~= zero);
    }
}

/// Where the parts of a field entry stand.
pub proof fn law_places_in_field_entry(field: StructTraceField)
    ensures
        field_encoding(field).len() == 16,
        le_bytes::stands_at(field_encoding(field), 0, 4, field.field_index as nat),
        le_bytes::stands_at(field_encoding(field), 4, 4, field.field_offset as nat),
        le_bytes::stands_at(field_encoding(field), 8, 4, field.value_size as nat),
        field_encoding(field)[12] == (if field.kind is ObjectRef {
            1u8
        } else {
            0u8
        }),
        field_encoding(field)[13] == 0,
        field_encoding(field)[14] == 0,
        field_encoding(field)[15] == 0,
{
    let bytes = field_encoding(field);
    le_bytes::lemma_pow_256();
    le_bytes::lemma_le_bytes_len(field.field_index as nat, 4);
    le_bytes::lemma_le_bytes_len(field.field_offset as nat, 4);
    le_bytes::lemma_le_bytes_len(field.value_size as nat, 4);
    le_bytes::law_standing_is_encoding(bytes, 0, 4, field.field_index as nat);
    le_bytes::law_standing_is_encoding(bytes, 4, 4, field.field_offset as nat);
    le_bytes::law_standing_is_encoding(bytes, 8, 4, field.value_size as nat);
    assert(bytes.subrange(0, 4) =~= le_bytes::le_bytes(field.field_index as nat, 4));
    assert(bytes.subrange(4, 8) =~= le_bytes::le_bytes(field.field_offset as nat, 4));
    assert(bytes.subrange(8, 12) =~= le_bytes::le_bytes(field.value_size as nat, 4));
}

/// A field entry is read exactly if it has 16 bytes, the last three of them zero, and a kind
/// that is zero or one; and what is read stands in its bytes. The length goes first, then the
/// padding, then the kind.
pub proof fn law_field_entry_is_read_from_its_places(bytes: Seq<u8>)
    ensures
        parse_field(bytes) is Ok <==> bytes.len() == 16 && bytes[12] <= 1 && bytes[13] == 0
            && bytes[14] == 0 && bytes[15] == 0,
        parse_field(bytes) matches Ok(field) ==> {
            &&& le_bytes::stands_at(bytes, 0, 4, field.field_index as nat)
            &&& le_bytes::stands_at(bytes, 4, 4, field.field_offset as nat)
            &&& le_bytes::stands_at(bytes, 8, 4, field.value_size as nat)
            &&& field.kind is ObjectRef <==> bytes[12] == 1
        },
        parse_field(bytes) == Err::<StructTraceField, TypeLayoutError>(
            TypeLayoutError::FieldEntryLengthMismatch,
        ) <==> bytes.len() != 16,
        parse_field(bytes) == Err::<StructTraceField, TypeLayoutError>(
            TypeLayoutError::FieldEntryReservedPadding,
        ) <==> bytes.len() == 16 && !(bytes[13] == 0 && bytes[14] == 0 && bytes[15] == 0),
        bytes.len() == 16 && bytes[13] == 0 && bytes[14] == 0 && bytes[15] == 0 && bytes[12] > 1
            ==> parse_field(bytes) == Err::<StructTraceField, TypeLayoutError>(
            TypeLayoutError::UnknownTraceSlotKind { raw: bytes[12] },
        ),
{
    if bytes.len() == 16 {
        let padding = bytes.subrange(13, 16);
        let zero = zero_padding();
        assert(padding[0] == bytes[13] && padding[1] == bytes[14] && padding[2] == bytes[15]);
        assert(zero[0] == 0 && zero[1] == 0 && zero[2] == 0);
        if bytes[13] == 0 && bytes[14] == 0 && bytes[15] == 0 {
            assert(padding =~= zero);
        }
        if parse_field(bytes) is Ok {
            let field = parse_field(bytes)->Ok_0;
            le_bytes::lemma_pow_256();
            lemma_le_bytes_of_value_at(bytes, 0, 4);
            lemma_le_bytes_of_value_at(bytes, 4, 4);
            lemma_le_bytes_of_value_at(bytes, 8, 4);
            le_bytes::law_standing_is_encoding(bytes, 0, 4, field.field_index as nat);
            le_bytes::law_standing_is_encoding(bytes, 4, 4, field.field_offset as nat);
            le_bytes::law_standing_is_encoding(bytes, 8, 4, field.value_size as nat);
        }
    }
}

/// An entry stands for the field with its members.
pub proof fn law_entry_stands_for_field(entry: TypeLayoutFieldEntry)
    ensures
        entry.field().field_index == entry.field_index,
        entry.field().field_offset == entry.field_offset,
        entry.field().value_size == entry.value_size,
        entry.field().kind == entry.kind,
{
}

/// A header and its mathematical value say the same.
pub proof fn law_view_of_header(header: TypeLayoutRecordHeader)
    ensures
        header@.magic == header.magic,
        header@.record_len == header.record_len,
        header@.type_layout_id == header.type_layout_id,
        header@.kind == header.kind,
        header@.reserved == header.reserved,
        header@.fingerprint == header.fingerprint,
        header@.body_size_or_element_size == header.body_size_or_element_size,
        header@.field_count == header.field_count,
        header@.element_kind == header.element_kind,
        header@.reserved2 == header.reserved2@,
{
}

} // verus!
