//! Writing type layouts to records and reading them back.

use vstd::prelude::*;

use crate::layout_error::TypeLayoutError;
use crate::layout_record;
use crate::layout_record::{
    decode_header_element_kind, encoded_record_len_for_field_count, validated_record_shape,
    HeaderView, TypeLayoutFieldEntry, TypeLayoutRecordHeader, MAX_STRUCT_TRACE_FIELDS,
    TYPE_LAYOUT_RECORD_MAGIC,
};
use crate::le_bytes;
use crate::type_layout::{
    LayoutView, PersistentTypeKind, PersistentTypeLayout, StructTraceField, TraceSlotKind,
    TypeLayoutId,
};

verus! {

/// The entries of `fields`, one behind the other.
pub open spec fn fields_encoding(fields: Seq<StructTraceField>) -> Seq<u8>
    decreases fields.len(),
{
    if fields.len() == 0 {
        Seq::empty()
    } else {
        fields_encoding(fields.drop_last()) + layout_record::field_encoding(fields.last())
    }
}

impl LayoutView {
    /// The fields of a struct; nothing else has any.
    pub open spec fn fields(self) -> Seq<StructTraceField> {
        match self {
            LayoutView::Struct { fields, .. } => fields,
            _ => Seq::empty(),
        }
    }

    /// The header of the record of the layout.
    pub open spec fn header(self) -> HeaderView {
        HeaderView {
            magic: TYPE_LAYOUT_RECORD_MAGIC,
            record_len: (36 + 16 * self.fields().len()) as u32,
            type_layout_id: self.id(),
            kind: self.kind().raw(),
            reserved: 0,
            fingerprint: self.fingerprint(),
            body_size_or_element_size: match self {
                LayoutView::Struct { body_size, .. } => body_size,
                LayoutView::Array { element_size, .. } => element_size,
                LayoutView::Scalar { .. } => 0,
            },
            field_count: self.fields().len() as u32,
            element_kind: match self {
                LayoutView::Array { element_kind, .. } => element_kind.raw(),
                _ => TraceSlotKind::Scalar.raw(),
            },
            reserved2: layout_record::zero_padding(),
        }
    }

    /// The record of the layout.
    pub open spec fn encoding(self) -> Seq<u8> {
        self.header().encoding() + fields_encoding(self.fields())
    }

    /// Whether the layout has a record that stands for it and nothing else: its id is not
    /// zero, a record can hold its fields, and a scalar layout is of a scalar kind.
    pub open spec fn is_storable(self) -> bool {
        &&& self.id() != 0
        &&& layout_record::record_len(self.fields().len()) is Ok
        &&& self is Scalar ==> self.kind().is_scalar()
    }
}

/// The bytes of entry `index` of the record `bytes`.
pub open spec fn entry_at(bytes: Seq<u8>, index: int) -> Seq<u8> {
    bytes.subrange(36 + 16 * index, 36 + 16 * (index + 1))
}

/// The fields in the first `count` entries behind the header of the record `bytes`.
pub open spec fn parse_fields(bytes: Seq<u8>, count: nat) -> Result<
    Seq<StructTraceField>,
    TypeLayoutError,
>
    decreases count,
{
    if count == 0 {
        Ok(Seq::empty())
    } else {
        match parse_fields(bytes, (count - 1) as nat) {
            Err(error) => Err(error),
            Ok(fields) => match layout_record::parse_field(entry_at(bytes, count - 1)) {
                Err(error) => Err(error),
                Ok(field) => Ok(fields.push(field)),
            },
        }
    }
}

/// Whether each of `count` entries is there when the entries before it are in order.
pub open spec fn has_entries(bytes: Seq<u8>, count: nat) -> bool {
    forall|index: nat|
        index < count && (#[trigger] parse_fields(bytes, index)) is Ok ==> bytes.len() >= 36 + 16
            * (index + 1)
}

/// Whether a record with header `header` is read beyond its header.
pub open spec fn reads_fields(header: HeaderView) -> bool {
    &&& header.magic == TYPE_LAYOUT_RECORD_MAGIC
    &&& layout_record::record_shape(header) is Ok
    &&& header.type_layout_id != 0
    &&& PersistentTypeKind::with_raw(header.kind) == Some(PersistentTypeKind::Struct)
    &&& TraceSlotKind::with_raw(header.element_kind) == Some(TraceSlotKind::Scalar)
}

/// The layout that the record `bytes` with header `header` stands for.
pub open spec fn parse_record(header: HeaderView, bytes: Seq<u8>) -> Result<
    LayoutView,
    TypeLayoutError,
> {
    if header.magic != TYPE_LAYOUT_RECORD_MAGIC {
        Err(TypeLayoutError::InvalidMagic)
    } else if layout_record::record_shape(header) is Err {
        Err(layout_record::record_shape(header)->Err_0)
    } else if header.type_layout_id == 0 {
        Err(TypeLayoutError::ZeroId)
    } else {
        match (
            PersistentTypeKind::with_raw(header.kind),
            TraceSlotKind::with_raw(header.element_kind),
        ) {
            (None, _) => Err(TypeLayoutError::UnknownTypeKind { kind: header.kind }),
            (Some(_), None) => Err(
                TypeLayoutError::InvalidHeaderElementKind { raw: header.element_kind },
            ),
            (Some(PersistentTypeKind::Struct), Some(element_kind)) => {
                if element_kind != TraceSlotKind::Scalar {
                    Err(TypeLayoutError::StructElementKind)
                } else {
                    match parse_fields(bytes, header.field_count as nat) {
                        Err(error) => Err(error),
                        Ok(fields) => Ok(
                            LayoutView::Struct {
                                id: header.type_layout_id,
                                fingerprint: header.fingerprint,
                                body_size: header.body_size_or_element_size,
                                fields,
                            },
                        ),
                    }
                }
            },
            (Some(PersistentTypeKind::Array), Some(element_kind)) => {
                if header.field_count != 0 {
                    Err(TypeLayoutError::ArrayHasFields)
                } else {
                    Ok(
                        LayoutView::Array {
                            id: header.type_layout_id,
                            fingerprint: header.fingerprint,
                            element_size: header.body_size_or_element_size,
                            element_kind,
                        },
                    )
                }
            },
            (Some(kind), Some(element_kind)) => {
                if header.field_count != 0 {
                    Err(TypeLayoutError::ScalarHasFields)
                } else if element_kind != TraceSlotKind::Scalar {
                    Err(TypeLayoutError::ScalarElementKind)
                } else if header.body_size_or_element_size != 0 {
                    Err(TypeLayoutError::ScalarBodySize)
                } else {
                    Ok(
                        LayoutView::Scalar {
                            id: header.type_layout_id,
                            fingerprint: header.fingerprint,
                            kind,
                        },
                    )
                }
            },
        }
    }
}

/// The layout whose record `bytes` starts with, and the length of that record.
pub open spec fn parse_prefix(bytes: Seq<u8>) -> Result<(LayoutView, nat), TypeLayoutError> {
    let header = HeaderView::at(bytes);
    if bytes.len() < 36 {
        Err(TypeLayoutError::RecordTooShort)
    } else if header.defect() is Some {
        Err(header.defect()->Some_0)
    } else {
        match layout_record::record_shape(header) {
            Err(error) => Err(error),
            Ok((record_len, _)) => if bytes.len() < record_len {
                Err(TypeLayoutError::BufferShorterThanRecord)
            } else {
                match parse_record(header, bytes.take(record_len as int)) {
                    Err(error) => Err(error),
                    Ok(layout) => Ok((layout, record_len)),
                }
            },
        }
    }
}

/// The layout whose record is all of `bytes`.
pub open spec fn parse(bytes: Seq<u8>) -> Result<LayoutView, TypeLayoutError> {
    match parse_prefix(bytes) {
        Err(error) => Err(error),
        Ok((layout, consumed)) => if consumed != bytes.len() {
            Err(TypeLayoutError::TrailingBytes)
        } else {
            Ok(layout)
        },
    }
}

proof fn lemma_fields_encoding_len(fields: Seq<StructTraceField>)
    ensures
        fields_encoding(fields).len() == 16 * fields.len(),
    decreases fields.len(),
{
    if fields.len() > 0 {
        lemma_fields_encoding_len(fields.drop_last());
        layout_record::law_field_entry_reads_back(fields.last());
    }
}

proof fn lemma_parse_fields_encoding(
    before: Seq<u8>,
    fields: Seq<StructTraceField>,
    after: Seq<u8>,
)
    requires
        before.len() == 36,
    ensures
        parse_fields(before + fields_encoding(fields) + after, fields.len()) == Ok::<
            Seq<StructTraceField>,
            TypeLayoutError,
        >(fields),
    decreases fields.len(),
{
    if fields.len() > 0 {
        let prior = fields.drop_last();
        let entry = layout_record::field_encoding(fields.last());
        lemma_parse_fields_encoding(before, prior, entry + after);
        lemma_fields_encoding_len(prior);
        layout_record::law_field_entry_reads_back(fields.last());
        let bytes = before + fields_encoding(fields) + after;
        assert(bytes =~= before + fields_encoding(prior) + (entry + after));
        assert(entry_at(bytes, fields.len() - 1) =~= entry);
        assert(prior.push(fields.last()) =~= fields);
    } else {
        assert(fields =~= Seq::empty());
    }
}

proof fn lemma_fields_encoding_of_parsed(bytes: Seq<u8>, count: nat)
    requires
        bytes.len() >= 36 + 16 * count,
    ensures
        parse_fields(bytes, count) matches Ok(fields) ==> fields.len() == count && fields_encoding(
            fields,
        ) == bytes.subrange(36, (36 + 16 * count) as int),
    decreases count,
{
    if count == 0 {
        assert(bytes.subrange(36, 36) =~= Seq::empty());
    } else if parse_fields(bytes, count) is Ok {
        lemma_fields_encoding_of_parsed(bytes, (count - 1) as nat);
        let prior = parse_fields(bytes, (count - 1) as nat)->Ok_0;
        let entry = entry_at(bytes, count - 1);
        layout_record::law_field_entry_writes_back(entry);
        let fields = parse_fields(bytes, count)->Ok_0;
        assert(fields.drop_last() =~= prior);
        assert(fields_encoding(fields) =~= bytes.subrange(36, (36 + 16 * count) as int));
    }
}

/// A record written for a storable layout is as long as its field count says.
pub proof fn law_record_length(layout: LayoutView)
    ensures
        layout.encoding().len() == 36 + 16 * layout.fields().len(),
        layout_record::record_len(layout.fields().len()) matches Ok(len)
            ==> layout.encoding().len() == len && len <= layout_record::MAX_TYPE_LAYOUT_RECORD_LEN,
{
    layout_record::law_header_reads_back(layout.header(), Seq::empty());
    lemma_fields_encoding_len(layout.fields());
}

/// Decoding what was encoded gives the layout back, and the bytes behind its record do not
/// matter.
pub proof fn law_decode_prefix_inverts_encode(layout: LayoutView, rest: Seq<u8>)
    requires
        layout.is_storable(),
    ensures
        parse_prefix(layout.encoding() + rest) == Ok::<(LayoutView, nat), TypeLayoutError>(
            (layout, layout.encoding().len()),
        ),
{
    let header = layout.header();
    let fields = layout.fields();
    let bytes = layout.encoding() + rest;
    let len = (36 + 16 * fields.len()) as nat;
    law_record_length(layout);
    assert(bytes =~= header.encoding() + (fields_encoding(fields) + rest));
    layout_record::law_header_reads_back(header, fields_encoding(fields) + rest);
    assert(bytes.take(len as int) =~= header.encoding() + fields_encoding(fields) + Seq::empty());
    lemma_parse_fields_encoding(header.encoding(), fields, Seq::empty());
}

/// Decoding exactly what was encoded gives the layout back.
pub proof fn law_decode_inverts_encode(layout: LayoutView)
    requires
        layout.is_storable(),
    ensures
        parse(layout.encoding()) == Ok::<LayoutView, TypeLayoutError>(layout),
{
    law_decode_prefix_inverts_encode(layout, Seq::empty());
    assert(layout.encoding() + Seq::<u8>::empty() =~= layout.encoding());
}

/// The format is canonical: whatever decodes is the one record of a storable layout.
pub proof fn law_encode_inverts_decode_prefix(bytes: Seq<u8>)
    ensures
        parse_prefix(bytes) matches Ok((layout, consumed)) ==> {
            &&& layout.is_storable()
            &&& consumed <= bytes.len()
            &&& layout.encoding() == bytes.take(consumed as int)
        },
{
    if parse_prefix(bytes) is Ok {
        let (layout, consumed) = parse_prefix(bytes)->Ok_0;
        let header = HeaderView::at(bytes);
        let record = bytes.take(consumed as int);
        layout_record::law_header_writes_back(bytes);
        if layout is Struct {
            lemma_fields_encoding_of_parsed(record, header.field_count as nat);
            assert(record.subrange(36, consumed as int) =~= bytes.subrange(36, consumed as int));
        }
        assert(layout.header() == header);
        assert(layout.encoding() =~= record);
    }
}

/// Decoding never takes a byte of the buffer that is not there, and never takes none.
pub proof fn law_decode_prefix_consumes(bytes: Seq<u8>)
    ensures
        parse_prefix(bytes) matches Ok((_, consumed)) ==> 36 <= consumed <= bytes.len(),
{
    law_encode_inverts_decode_prefix(bytes);
    if let Ok((layout, _)) = parse_prefix(bytes) {
        law_record_length(layout);
    }
}

/// A record that `decode_prefix` accepts with bytes behind it is refused by `decode`.
pub proof fn law_decode_rejects_trailing_bytes(layout: LayoutView, rest: Seq<u8>)
    requires
        layout.is_storable(),
        rest.len() > 0,
    ensures
        parse(layout.encoding() + rest) == Err::<LayoutView, TypeLayoutError>(
            TypeLayoutError::TrailingBytes,
        ),
{
    law_decode_prefix_inverts_encode(layout, rest);
}

impl PersistentTypeLayout {
    /// The record of the layout.
    pub fn encode(&self) -> (record: Result<Vec<u8>, TypeLayoutError>)
        ensures
            match record {
                Ok(record) => layout_record::record_len(self@.fields().len()) is Ok && record@
                    == self@.encoding(),
                Err(error) => layout_record::record_len(self@.fields().len()) == Err::<
                    nat,
                    TypeLayoutError,
                >(error),
            },
            record is Ok <==> (self@ is Struct ==> self@->Struct_fields.len() <= 4093),
            record matches Ok(record) ==> record@.len() == 36 + 16 * self@.fields().len(),
    {
        proof {
            law_record_length(self@);
        }
        let (size, field_count, element_kind, record_len): (u32, u32, TraceSlotKind, usize) =
            match self {
            PersistentTypeLayout::Struct { body_size, fields, .. } => {
                let record_len: usize = match encoded_record_len_for_field_count(fields.len()) {
                    Ok(record_len) => record_len,
                    Err(error) => {
                        return Err(error);
                    },
                };
                (*body_size, fields.len() as u32, TraceSlotKind::Scalar, record_len)
            },
            PersistentTypeLayout::Array { element_size, element_kind, .. } => (
                *element_size,
                0,
                *element_kind,
                TypeLayoutRecordHeader::BYTE_LEN,
            ),
            PersistentTypeLayout::Scalar { .. } => (
                0,
                0,
                TraceSlotKind::Scalar,
                TypeLayoutRecordHeader::BYTE_LEN,
            ),
        };
        let header = TypeLayoutRecordHeader {
            magic: TYPE_LAYOUT_RECORD_MAGIC,
            record_len: record_len as u32,
            type_layout_id: self.id().get(),
            kind: self.kind().as_raw(),
            reserved: 0,
            fingerprint: self.fingerprint(),
            body_size_or_element_size: size,
            field_count,
            element_kind: element_kind.as_raw(),
            reserved2: [0, 0, 0],
        };
        assert(header@.reserved2 =~= layout_record::zero_padding());
        assert(header@ == self@.header());
        let mut bytes: Vec<u8> = Vec::with_capacity(record_len);
        bytes.extend_from_slice(&header.as_bytes());
        assert(bytes@ =~= self@.header().encoding());
        if let PersistentTypeLayout::Struct { fields, .. } = self {
            let mut index: usize = 0;
            assert(fields@.take(0) =~= Seq::empty());
            while index < fields.len()
                invariant
                    index <= fields@.len(),
                    fields@ == self@.fields(),
                    bytes@ =~= self@.header().encoding() + fields_encoding(
                        fields@.take(index as int),
                    ),
                decreases fields@.len() - index,
            {
                let field = fields[index];
                let entry = TypeLayoutFieldEntry {
                    field_index: field.field_index,
                    field_offset: field.field_offset,
                    value_size: field.value_size,
                    kind: field.kind,
                };
                bytes.extend_from_slice(&entry.as_bytes());
                index += 1;
                assert(fields@.take(index as int).drop_last() =~= fields@.take(index - 1));
                assert(entry.field() == fields@.take(index as int).last());
            }
            assert(fields@.take(index as int) =~= fields@);
        }
        assert(bytes@ =~= self@.encoding());
        Ok(bytes)
    }

    /// The layout whose record `bytes` starts with, and the length of that record.
    pub fn decode_prefix(bytes: &[u8]) -> (decoded: Result<
        (PersistentTypeLayout, usize),
        TypeLayoutError,
    >)
        ensures
            match decoded {
                Ok((layout, consumed)) => parse_prefix(bytes@) == Ok::<
                    (LayoutView, nat),
                    TypeLayoutError,
                >((layout@, consumed as nat)),
                Err(error) => parse_prefix(bytes@) == Err::<(LayoutView, nat), TypeLayoutError>(
                    error,
                ),
            },
    {
        if bytes.len() < TypeLayoutRecordHeader::BYTE_LEN {
            return Err(TypeLayoutError::RecordTooShort);
        }
        let head = vstd::slice::slice_subrange(bytes, 0, TypeLayoutRecordHeader::BYTE_LEN);
        proof {
            lemma_header_at_prefix(bytes@, 36);
            assert(head@ =~= bytes@.take(36));
        }
        let header = match TypeLayoutRecordHeader::from_bytes(head) {
            Ok(header) => header,
            Err(error) => {
                return Err(error);
            },
        };
        let record_len: usize = match validated_record_shape(header) {
            Ok((record_len, _)) => record_len,
            Err(error) => {
                return Err(error);
            },
        };
        if bytes.len() < record_len {
            return Err(TypeLayoutError::BufferShorterThanRecord);
        }
        let record = vstd::slice::slice_subrange(bytes, 0, record_len);
        assert(record@ =~= bytes@.take(record_len as int));
        match Self::decode_record(header, record) {
            Ok(layout) => Ok((layout, record_len)),
            Err(error) => Err(error),
        }
    }

    /// The layout whose record is all of `bytes`.
    pub fn decode(bytes: &[u8]) -> (decoded: Result<PersistentTypeLayout, TypeLayoutError>)
        ensures
            match decoded {
                Ok(layout) => parse(bytes@) == Ok::<LayoutView, TypeLayoutError>(layout@),
                Err(error) => parse(bytes@) == Err::<LayoutView, TypeLayoutError>(error),
            },
    {
        match Self::decode_prefix(bytes) {
            Err(error) => Err(error),
            Ok((layout, consumed)) => if consumed != bytes.len() {
                Err(TypeLayoutError::TrailingBytes)
            } else {
                Ok(layout)
            },
        }
    }

    /// The layout that the record `bytes` with header `header` stands for.
    pub fn decode_record(header: TypeLayoutRecordHeader, bytes: &[u8]) -> (decoded: Result<
        PersistentTypeLayout,
        TypeLayoutError,
    >)
        requires
            reads_fields(header@) ==> has_entries(bytes@, header@.field_count as nat),
        ensures
            match decoded {
                Ok(layout) => parse_record(header@, bytes@) == Ok::<LayoutView, TypeLayoutError>(
                    layout@,
                ),
                Err(error) => parse_record(header@, bytes@) == Err::<LayoutView, TypeLayoutError>(
                    error,
                ),
            },
    {
        if header.magic != TYPE_LAYOUT_RECORD_MAGIC {
            return Err(TypeLayoutError::InvalidMagic);
        }
        let field_count: usize = match validated_record_shape(header) {
            Ok((_, field_count)) => field_count,
            Err(error) => {
                return Err(error);
            },
        };
        let id = match TypeLayoutId::new(header.type_layout_id) {
            Some(id) => id,
            None => {
                return Err(TypeLayoutError::ZeroId);
            },
        };
        let kind = match PersistentTypeKind::from_raw(header.kind) {
            Ok(kind) => kind,
            Err(error) => {
                return Err(error);
            },
        };
        let element_kind = match decode_header_element_kind(header.element_kind) {
            Ok(element_kind) => element_kind,
            Err(error) => {
                return Err(error);
            },
        };
        match kind {
            PersistentTypeKind::Struct => {
                if element_kind != TraceSlotKind::Scalar {
                    return Err(TypeLayoutError::StructElementKind);
                }
                let fields = match Self::decode_fields(bytes, field_count) {
                    Ok(fields) => fields,
                    Err(error) => {
                        return Err(error);
                    },
                };
                Ok(
                    PersistentTypeLayout::Struct {
                        id,
                        fingerprint: header.fingerprint,
                        body_size: header.body_size_or_element_size,
                        fields,
                    },
                )
            },
            PersistentTypeKind::Array => {
                if field_count != 0 {
                    return Err(TypeLayoutError::ArrayHasFields);
                }
                Ok(
                    PersistentTypeLayout::Array {
                        id,
                        fingerprint: header.fingerprint,
                        element_size: header.body_size_or_element_size,
                        element_kind,
                    },
                )
            },
            PersistentTypeKind::I31 | PersistentTypeKind::Extern | PersistentTypeKind::Func => {
                if field_count != 0 {
                    return Err(TypeLayoutError::ScalarHasFields);
                }
                if element_kind != TraceSlotKind::Scalar {
                    return Err(TypeLayoutError::ScalarElementKind);
                }
                if header.body_size_or_element_size != 0 {
                    return Err(TypeLayoutError::ScalarBodySize);
                }
                Ok(PersistentTypeLayout::Scalar { id, fingerprint: header.fingerprint, kind })
            },
        }
    }

    fn decode_fields(bytes: &[u8], field_count: usize) -> (decoded: Result<
        Vec<StructTraceField>,
        TypeLayoutError,
    >)
        requires
            field_count <= MAX_STRUCT_TRACE_FIELDS,
            has_entries(bytes@, field_count as nat),
        ensures
            match decoded {
                Ok(fields) => parse_fields(bytes@, field_count as nat) == Ok::<
                    Seq<StructTraceField>,
                    TypeLayoutError,
                >(fields@),
                Err(error) => parse_fields(bytes@, field_count as nat) == Err::<
                    Seq<StructTraceField>,
                    TypeLayoutError,
                >(error),
            },
    {
        assert(bytes.len() == bytes@.len());
        let mut fields: Vec<StructTraceField> = Vec::with_capacity(field_count);
        let mut index: usize = 0;
        while index < field_count
            invariant
                index <= field_count,
                bytes.len() == bytes@.len(),
                field_count <= MAX_STRUCT_TRACE_FIELDS,
                has_entries(bytes@, field_count as nat),
                parse_fields(bytes@, index as nat) == Ok::<Seq<StructTraceField>, TypeLayoutError>(
                    fields@,
                ),
            decreases field_count - index,
        {
            let start: usize = TypeLayoutRecordHeader::BYTE_LEN + index
                * TypeLayoutFieldEntry::BYTE_LEN;
            let entry = vstd::slice::slice_subrange(
                bytes,
                start,
                start + TypeLayoutFieldEntry::BYTE_LEN,
            );
            assert(entry@ == entry_at(bytes@, index as int));
            match TypeLayoutFieldEntry::from_bytes(entry) {
                Ok(field) => {
                    fields.push(
                        StructTraceField {
                            field_index: field.field_index,
                            field_offset: field.field_offset,
                            value_size: field.value_size,
                            kind: field.kind,
                        },
                    );
                },
                Err(error) => {
                    proof {
                        lemma_parse_fields_error(
                            bytes@,
                            (index + 1) as nat,
                            field_count as nat,
                        );
                    }
                    return Err(error);
                },
            }
            index += 1;
        }
        Ok(fields)
    }
}

proof fn lemma_parse_fields_error(bytes: Seq<u8>, some: nat, all: nat)
    requires
        some <= all,
        parse_fields(bytes, some) is Err,
    ensures
        parse_fields(bytes, all) == parse_fields(bytes, some),
    decreases all,
{
    if some < all {
        lemma_parse_fields_error(bytes, some, (all - 1) as nat);
    }
}

proof fn lemma_header_at_prefix(bytes: Seq<u8>, len: int)
    requires
        36 <= len <= bytes.len(),
    ensures
        HeaderView::at(bytes.take(len)) == HeaderView::at(bytes),
{
    let prefix = bytes.take(len);
    assert(prefix.subrange(0, 4) =~= bytes.subrange(0, 4));
    assert(prefix.subrange(4, 8) =~= bytes.subrange(4, 8));
    assert(prefix.subrange(8, 12) =~= bytes.subrange(8, 12));
    assert(prefix.subrange(12, 14) =~= bytes.subrange(12, 14));
    assert(prefix.subrange(14, 16) =~= bytes.subrange(14, 16));
    assert(prefix.subrange(16, 24) =~= bytes.subrange(16, 24));
    assert(prefix.subrange(24, 28) =~= bytes.subrange(24, 28));
    assert(prefix.subrange(28, 32) =~= bytes.subrange(28, 32));
    assert(prefix.subrange(33, 36) =~= bytes.subrange(33, 36));
}

proof fn lemma_header_values(bytes: Seq<u8>)
    requires
        bytes.len() >= 36,
    ensures
        ({
            let header = HeaderView::at(bytes);
            &&& header.magic == le_bytes::le_value_at(bytes, 0, 4)
            &&& header.record_len == le_bytes::le_value_at(bytes, 4, 4)
            &&& header.type_layout_id == le_bytes::le_value_at(bytes, 8, 4)
            &&& header.kind == le_bytes::le_value_at(bytes, 12, 2)
            &&& header.reserved == le_bytes::le_value_at(bytes, 14, 2)
            &&& header.fingerprint == le_bytes::le_value_at(bytes, 16, 8)
            &&& header.body_size_or_element_size == le_bytes::le_value_at(bytes, 24, 4)
            &&& header.field_count == le_bytes::le_value_at(bytes, 28, 4)
            &&& header.element_kind == bytes[32]
            &&& header.reserved2 == seq![bytes[33], bytes[34], bytes[35]]
        }),
{
    let header = HeaderView::at(bytes);
    layout_record::law_header_is_read_from_its_places(bytes);
    le_bytes::law_standing_is_encoding(bytes, 0, 4, header.magic as nat);
    le_bytes::law_standing_is_encoding(bytes, 4, 4, header.record_len as nat);
    le_bytes::law_standing_is_encoding(bytes, 8, 4, header.type_layout_id as nat);
    le_bytes::law_standing_is_encoding(bytes, 12, 2, header.kind as nat);
    le_bytes::law_standing_is_encoding(bytes, 14, 2, header.reserved as nat);
    le_bytes::law_standing_is_encoding(bytes, 16, 8, header.fingerprint as nat);
    le_bytes::law_standing_is_encoding(bytes, 24, 4, header.body_size_or_element_size as nat);
    le_bytes::law_standing_is_encoding(bytes, 28, 4, header.field_count as nat);
}

/// Whether entry `index` of the record that `bytes` starts with is in order: its kind is zero
/// or one, and its padding is zero.
pub open spec fn is_entry_in_order(bytes: Seq<u8>, index: int) -> bool {
    &&& bytes[36 + 16 * index + 12] <= 1
    &&& bytes[36 + 16 * index + 13] == 0
    &&& bytes[36 + 16 * index + 14] == 0
    &&& bytes[36 + 16 * index + 15] == 0
}

/// Whether `field` is what entry `index` of the record that `bytes` starts with says.
pub open spec fn is_field_at(bytes: Seq<u8>, index: int, field: StructTraceField) -> bool {
    &&& field.field_index == le_bytes::le_value_at(bytes, 36 + 16 * index, 4)
    &&& field.field_offset == le_bytes::le_value_at(bytes, 36 + 16 * index + 4, 4)
    &&& field.value_size == le_bytes::le_value_at(bytes, 36 + 16 * index + 8, 4)
    &&& field.kind is ObjectRef <==> bytes[36 + 16 * index + 12] == 1
}

proof fn lemma_entry(bytes: Seq<u8>, index: int)
    requires
        0 <= index,
        36 + 16 * (index + 1) <= bytes.len(),
    ensures
        layout_record::parse_field(entry_at(bytes, index)) is Ok <==> is_entry_in_order(
            bytes,
            index,
        ),
        layout_record::parse_field(entry_at(bytes, index)) matches Ok(field) ==> is_field_at(
            bytes,
            index,
            field,
        ),
        !is_entry_in_order(bytes, index) ==> layout_record::parse_field(entry_at(bytes, index))
            == Err::<StructTraceField, TypeLayoutError>(
            if bytes[36 + 16 * index + 13] == 0 && bytes[36 + 16 * index + 14] == 0 && bytes[36 + 16
                * index + 15] == 0 {
                TypeLayoutError::UnknownTraceSlotKind { raw: bytes[36 + 16 * index + 12] }
            } else {
                TypeLayoutError::FieldEntryReservedPadding
            },
        ),
{
    let entry = entry_at(bytes, index);
    let start = 36 + 16 * index;
    layout_record::law_field_entry_is_read_from_its_places(entry);
    assert(entry[12] == bytes[start + 12] && entry[13] == bytes[start + 13] && entry[14]
        == bytes[start + 14] && entry[15] == bytes[start + 15]);
    if layout_record::parse_field(entry) is Ok {
        let field = layout_record::parse_field(entry)->Ok_0;
        le_bytes::law_standing_is_encoding(entry, 0, 4, field.field_index as nat);
        le_bytes::law_standing_is_encoding(entry, 4, 4, field.field_offset as nat);
        le_bytes::law_standing_is_encoding(entry, 8, 4, field.value_size as nat);
        assert(entry.subrange(0, 4) =~= bytes.subrange(start, start + 4));
        assert(entry.subrange(4, 8) =~= bytes.subrange(start + 4, start + 8));
        assert(entry.subrange(8, 12) =~= bytes.subrange(start + 8, start + 12));
    }
}

proof fn lemma_parse_fields_exactly(bytes: Seq<u8>, count: nat)
    requires
        36 + 16 * count <= bytes.len(),
    ensures
        parse_fields(bytes, count) is Ok <==> forall|i: int|
            0 <= i < count ==> #[trigger] is_entry_in_order(bytes, i),
        parse_fields(bytes, count) matches Ok(fields) ==> fields.len() == count && forall|i: int|
            0 <= i < count ==> is_field_at(bytes, i, #[trigger] fields[i]),
    decreases count,
{
    if count > 0 {
        let fewer = (count - 1) as nat;
        lemma_parse_fields_exactly(bytes, fewer);
        lemma_entry(bytes, count - 1);
        assert(is_entry_in_order(bytes, count - 1) || !is_entry_in_order(bytes, count - 1));
        if parse_fields(bytes, count) is Ok {
            let fields = parse_fields(bytes, count)->Ok_0;
            let front = parse_fields(bytes, fewer)->Ok_0;
            assert forall|i: int| 0 <= i < count implies is_field_at(
                bytes,
                i,
                #[trigger] fields[i],
            ) by {
                if i < fewer {
                    assert(fields[i] == front[i]);
                }
            }
        }
    }
}

proof fn lemma_record_and_buffer_agree(bytes: Seq<u8>, len: int, index: int)
    requires
        36 <= len <= bytes.len(),
        0 <= index,
        36 + 16 * (index + 1) <= len,
    ensures
        is_entry_in_order(bytes.take(len), index) == is_entry_in_order(bytes, index),
        forall|field: StructTraceField|
            is_field_at(bytes.take(len), index, field) == #[trigger] is_field_at(
                bytes,
                index,
                field,
            ),
{
    let record = bytes.take(len);
    let start = 36 + 16 * index;
    assert(record.subrange(start, start + 4) =~= bytes.subrange(start, start + 4));
    assert(record.subrange(start + 4, start + 8) =~= bytes.subrange(start + 4, start + 8));
    assert(record.subrange(start + 8, start + 12) =~= bytes.subrange(start + 8, start + 12));
}

/// A buffer starts with a record exactly if it holds a whole header that starts with the magic
/// number, has an id, announces up to 4093 fields and the length that goes with them, has
/// zeros in its reserved parts and a known kind; if the record is all there; and if it suits
/// its kind: the entries of a struct are in order, an array has no fields, and a scalar has
/// neither fields nor a size. The kind of the elements is a known one, and that of a scalar
/// for all but arrays.
pub proof fn law_decode_accepts_exactly(bytes: Seq<u8>)
    ensures
        parse_prefix(bytes) is Ok <==> {
            let kind = le_bytes::le_value_at(bytes, 12, 2);
            let field_count = le_bytes::le_value_at(bytes, 28, 4);
            &&& bytes.len() >= 36
            &&& le_bytes::le_value_at(bytes, 0, 4) == 0x544c_4159
            &&& field_count <= 4093
            &&& le_bytes::le_value_at(bytes, 4, 4) == 36 + 16 * field_count
            &&& bytes.len() >= 36 + 16 * field_count
            &&& le_bytes::le_value_at(bytes, 8, 4) != 0
            &&& le_bytes::le_value_at(bytes, 14, 2) == 0
            &&& bytes[33] == 0 && bytes[34] == 0 && bytes[35] == 0
            &&& 1 <= kind <= 5
            &&& kind == 1 ==> bytes[32] == 0 && forall|i: int|
                0 <= i < field_count ==> #[trigger] is_entry_in_order(bytes, i)
            &&& kind == 2 ==> field_count == 0 && bytes[32] <= 1
            &&& kind >= 3 ==> field_count == 0 && bytes[32] == 0 && le_bytes::le_value_at(
                bytes,
                24,
                4,
            ) == 0
        },
{
    if bytes.len() >= 36 {
        let header = HeaderView::at(bytes);
        lemma_header_values(bytes);
        layout_record::law_reserved_parts_of_header_are_zero(header);
        layout_record::law_shape_of_header(header);
        let len = 36 + 16 * header.field_count;
        if header.field_count <= 4093 && bytes.len() >= len {
            let record = bytes.take(len);
            lemma_parse_fields_exactly(record, header.field_count as nat);
            assert forall|i: int| 0 <= i < header.field_count implies #[trigger] is_entry_in_order(
                record,
                i,
            ) == is_entry_in_order(bytes, i) by {
                lemma_record_and_buffer_agree(bytes, len, i);
            }
            assert((forall|i: int|
                0 <= i < header.field_count ==> #[trigger] is_entry_in_order(record, i)) == (
            forall|i: int|
                0 <= i < header.field_count ==> #[trigger] is_entry_in_order(bytes, i))) by {
                if forall|i: int|
                    0 <= i < header.field_count ==> #[trigger] is_entry_in_order(record, i) {
                    assert forall|i: int| 0 <= i < header.field_count implies
                        #[trigger] is_entry_in_order(bytes, i) by {
                        assert(is_entry_in_order(record, i));
                    }
                }
            }
        }
    }
}

/// What is read of a record stands in its bytes: the id, the fingerprint, the size, the kind
/// of the elements, and the fields one by one.
pub proof fn law_decode_reads_what_stands_there(bytes: Seq<u8>)
    ensures
        parse_prefix(bytes) matches Ok((layout, consumed)) ==> {
            let kind = le_bytes::le_value_at(bytes, 12, 2);
            let size = le_bytes::le_value_at(bytes, 24, 4);
            let field_count = le_bytes::le_value_at(bytes, 28, 4);
            &&& consumed == 36 + 16 * field_count
            &&& match layout {
                LayoutView::Struct { id, fingerprint, body_size, fields } => {
                    &&& kind == 1
                    &&& id == le_bytes::le_value_at(bytes, 8, 4)
                    &&& fingerprint == le_bytes::le_value_at(bytes, 16, 8)
                    &&& body_size == size
                    &&& fields.len() == field_count
                    &&& forall|i: int|
                        0 <= i < field_count ==> is_field_at(bytes, i, #[trigger] fields[i])
                },
                LayoutView::Array { id, fingerprint, element_size, element_kind } => {
                    &&& kind == 2
                    &&& id == le_bytes::le_value_at(bytes, 8, 4)
                    &&& fingerprint == le_bytes::le_value_at(bytes, 16, 8)
                    &&& element_size == size
                    &&& element_kind is ObjectRef <==> bytes[32] == 1
                },
                LayoutView::Scalar { id, fingerprint, kind: scalar } => {
                    &&& id == le_bytes::le_value_at(bytes, 8, 4)
                    &&& fingerprint == le_bytes::le_value_at(bytes, 16, 8)
                    &&& kind == 3 <==> scalar is I31
                    &&& kind == 4 <==> scalar is Extern
                    &&& kind == 5 <==> scalar is Func
                },
            }
        },
{
    if parse_prefix(bytes) is Ok {
        let (layout, consumed) = parse_prefix(bytes)->Ok_0;
        let header = HeaderView::at(bytes);
        lemma_header_values(bytes);
        layout_record::law_shape_of_header(header);
        let record = bytes.take(consumed as int);
        if let LayoutView::Struct { fields, .. } = layout {
            lemma_parse_fields_exactly(record, header.field_count as nat);
            assert forall|i: int| 0 <= i < header.field_count implies is_field_at(
                bytes,
                i,
                #[trigger] fields[i],
            ) by {
                lemma_record_and_buffer_agree(bytes, consumed as int, i);
                assert(is_field_at(record, i, fields[i]));
            }
        }
    }
}

/// Why a buffer does not start with a record. Of several reasons the first is given: too few
/// bytes for a header, then what is reserved, too many fields, too long a record, a length
/// that does not go with the fields, too few bytes for the record, then the magic number, the
/// id, the kind, the kind of the elements, and last what does not suit the kind.
pub proof fn law_decode_gives_the_first_reason(bytes: Seq<u8>, error: TypeLayoutError)
    requires
        parse_prefix(bytes) == Err::<(LayoutView, nat), TypeLayoutError>(error),
    ensures
        ({
            let record_len = le_bytes::le_value_at(bytes, 4, 4);
            let kind = le_bytes::le_value_at(bytes, 12, 2);
            let field_count = le_bytes::le_value_at(bytes, 28, 4);
            let is_entry_bad = exists|i: int|
                {
                    &&& 0 <= i < field_count
                    &&& !#[trigger] is_entry_in_order(bytes, i)
                    &&& forall|j: int| 0 <= j < i ==> #[trigger] is_entry_in_order(bytes, j)
                    &&& error == (if bytes[36 + 16 * i + 13] == 0 && bytes[36 + 16 * i + 14] == 0
                        && bytes[36 + 16 * i + 15] == 0 {
                        TypeLayoutError::UnknownTraceSlotKind { raw: bytes[36 + 16 * i + 12] }
                    } else {
                        TypeLayoutError::FieldEntryReservedPadding
                    })
                };
            if bytes.len() < 36 {
                error == TypeLayoutError::RecordTooShort
            } else if le_bytes::le_value_at(bytes, 14, 2) != 0 {
                error == TypeLayoutError::ReservedHeaderField
            } else if bytes[33] != 0 || bytes[34] != 0 || bytes[35] != 0 {
                error == TypeLayoutError::ReservedHeaderPadding
            } else if field_count > 4096 {
                error == TypeLayoutError::FieldCountExceedsMaximum
            } else if record_len > 65536 || field_count > 4093 {
                error == TypeLayoutError::RecordLengthExceedsMaximum
            } else if record_len != 36 + 16 * field_count {
                error == TypeLayoutError::RecordLengthMismatch
            } else if bytes.len() < record_len {
                error == TypeLayoutError::BufferShorterThanRecord
            } else if le_bytes::le_value_at(bytes, 0, 4) != 0x544c_4159 {
                error == TypeLayoutError::InvalidMagic
            } else if le_bytes::le_value_at(bytes, 8, 4) == 0 {
                error == TypeLayoutError::ZeroId
            } else if kind < 1 || kind > 5 {
                error == TypeLayoutError::UnknownTypeKind { kind: kind as u16 }
            } else if bytes[32] > 1 {
                error == TypeLayoutError::InvalidHeaderElementKind { raw: bytes[32] }
            } else if kind == 1 {
                if bytes[32] == 1 {
                    error == TypeLayoutError::StructElementKind
                } else {
                    is_entry_bad
                }
            } else if kind == 2 {
                error == TypeLayoutError::ArrayHasFields
            } else if field_count != 0 {
                error == TypeLayoutError::ScalarHasFields
            } else if bytes[32] == 1 {
                error == TypeLayoutError::ScalarElementKind
            } else {
                error == TypeLayoutError::ScalarBodySize
            }
        }),
{
    if bytes.len() >= 36 {
        let header = HeaderView::at(bytes);
        lemma_header_values(bytes);
        layout_record::law_reserved_parts_of_header_are_zero(header);
        layout_record::law_shape_of_header(header);
        let len = 36 + 16 * header.field_count;
        if header.defect() is None && bytes.len() >= len && reads_fields(header) {
            let record = bytes.take(len);
            lemma_first_bad_entry(record, header.field_count as nat);
            let i = choose|i: int|
                {
                    &&& 0 <= i < header.field_count
                    &&& !#[trigger] is_entry_in_order(record, i)
                    &&& forall|j: int| 0 <= j < i ==> #[trigger] is_entry_in_order(record, j)
                    &&& parse_fields(record, header.field_count as nat)
                        == Err::<Seq<StructTraceField>, TypeLayoutError>(
                        layout_record::parse_field(entry_at(record, i))->Err_0,
                    )
                };
            lemma_entry(record, i);
            lemma_record_and_buffer_agree(bytes, len, i);
            assert(!is_entry_in_order(bytes, i));
            assert forall|j: int| 0 <= j < i implies #[trigger] is_entry_in_order(bytes, j) by {
                lemma_record_and_buffer_agree(bytes, len, j);
                assert(is_entry_in_order(record, j));
            }
            assert(record[36 + 16 * i + 12] == bytes[36 + 16 * i + 12]);
            assert(record[36 + 16 * i + 13] == bytes[36 + 16 * i + 13]);
            assert(record[36 + 16 * i + 14] == bytes[36 + 16 * i + 14]);
            assert(record[36 + 16 * i + 15] == bytes[36 + 16 * i + 15]);
        }
    }
}

proof fn lemma_first_bad_entry(bytes: Seq<u8>, count: nat)
    requires
        36 + 16 * count <= bytes.len(),
        parse_fields(bytes, count) is Err,
    ensures
        exists|i: int|
            {
                &&& 0 <= i < count
                &&& !#[trigger] is_entry_in_order(bytes, i)
                &&& forall|j: int| 0 <= j < i ==> #[trigger] is_entry_in_order(bytes, j)
                &&& parse_fields(bytes, count) == Err::<Seq<StructTraceField>, TypeLayoutError>(
                    layout_record::parse_field(entry_at(bytes, i))->Err_0,
                )
            },
    decreases count,
{
    if count > 0 {
        let fewer = (count - 1) as nat;
        if parse_fields(bytes, fewer) is Err {
            lemma_first_bad_entry(bytes, fewer);
        } else {
            lemma_parse_fields_exactly(bytes, fewer);
            lemma_entry(bytes, count - 1);
            assert(!is_entry_in_order(bytes, count - 1));
        }
    }
}

proof fn lemma_entry_of_encoding(layout: LayoutView, index: int)
    requires
        0 <= index < layout.fields().len(),
    ensures
        layout.encoding().len() == 36 + 16 * layout.fields().len(),
        entry_at(layout.encoding(), index) == layout_record::field_encoding(
            layout.fields()[index],
        ),
{
    law_record_length(layout);
    layout_record::law_header_reads_back(layout.header(), Seq::empty());
    lemma_entry_of_fields(layout.fields(), index);
    lemma_fields_encoding_len(layout.fields());
    assert(entry_at(layout.encoding(), index) =~= fields_encoding(layout.fields()).subrange(
        16 * index,
        16 * (index + 1),
    ));
}

proof fn lemma_entry_of_fields(fields: Seq<StructTraceField>, index: int)
    requires
        0 <= index < fields.len(),
    ensures
        fields_encoding(fields).len() == 16 * fields.len(),
        fields_encoding(fields).subrange(16 * index, 16 * (index + 1))
            == layout_record::field_encoding(fields[index]),
    decreases fields.len(),
{
    let front = fields.drop_last();
    lemma_fields_encoding_len(fields);
    lemma_fields_encoding_len(front);
    layout_record::law_field_entry_reads_back(fields.last());
    if index < front.len() {
        lemma_entry_of_fields(front, index);
        assert(fields_encoding(fields).subrange(16 * index, 16 * (index + 1)) =~= fields_encoding(
            front,
        ).subrange(16 * index, 16 * (index + 1)));
    } else {
        assert(fields_encoding(fields).subrange(16 * index, 16 * (index + 1))
            =~= layout_record::field_encoding(fields.last()));
    }
}

/// The record of a struct layout: a header of kind one with the size of the body, and one
/// entry for each field, in order.
pub proof fn law_record_of_struct(layout: LayoutView, index: int)
    requires
        layout is Struct,
        layout->Struct_fields.len() <= 4093,
    ensures
        layout.encoding().len() == 36 + 16 * layout->Struct_fields.len(),
        is_header_of(
            layout.encoding(),
            layout->Struct_id,
            1,
            layout->Struct_fingerprint,
            layout->body_size,
            layout->Struct_fields.len(),
            0,
        ),
        0 <= index < layout->Struct_fields.len() ==> is_entry_in_order(layout.encoding(), index)
            && is_field_at(layout.encoding(), index, layout->Struct_fields[index]),
{
    law_record_length(layout);
    lemma_header_of_encoding(layout);
    if 0 <= index < layout->Struct_fields.len() {
        lemma_written_field(layout, index);
    }
}

proof fn lemma_written_field(layout: LayoutView, index: int)
    requires
        0 <= index < layout.fields().len(),
    ensures
        is_entry_in_order(layout.encoding(), index),
        is_field_at(layout.encoding(), index, layout.fields()[index]),
{
    lemma_entry_of_encoding(layout, index);
    layout_record::law_field_entry_reads_back(layout.fields()[index]);
    lemma_entry(layout.encoding(), index);
}

/// Whether a record starts with a header that says this.
pub open spec fn is_header_of(
    record: Seq<u8>,
    id: u32,
    kind: nat,
    fingerprint: u64,
    size: u32,
    field_count: nat,
    element_kind: nat,
) -> bool {
    &&& le_bytes::le_value_at(record, 0, 4) == 0x544c_4159
    &&& le_bytes::le_value_at(record, 4, 4) == 36 + 16 * field_count
    &&& le_bytes::le_value_at(record, 8, 4) == id
    &&& le_bytes::le_value_at(record, 12, 2) == kind
    &&& le_bytes::le_value_at(record, 14, 2) == 0
    &&& le_bytes::le_value_at(record, 16, 8) == fingerprint
    &&& le_bytes::le_value_at(record, 24, 4) == size
    &&& le_bytes::le_value_at(record, 28, 4) == field_count
    &&& record[32] == element_kind
    &&& record[33] == 0 && record[34] == 0 && record[35] == 0
}

proof fn lemma_header_of_encoding(layout: LayoutView)
    requires
        layout.fields().len() <= 4093,
    ensures
        is_header_of(
            layout.encoding(),
            layout.header().type_layout_id,
            layout.header().kind as nat,
            layout.header().fingerprint,
            layout.header().body_size_or_element_size,
            layout.fields().len(),
            layout.header().element_kind as nat,
        ),
{
    let record = layout.encoding();
    law_record_length(layout);
    layout_record::law_header_reads_back(layout.header(), fields_encoding(layout.fields()));
    lemma_header_values(record);
    assert(HeaderView::at(record).reserved2 == layout_record::zero_padding());
    assert(layout_record::zero_padding()[0] == 0 && layout_record::zero_padding()[1] == 0
        && layout_record::zero_padding()[2] == 0);
    let padding = HeaderView::at(record).reserved2;
    assert(padding[0] == record[33] && padding[1] == record[34] && padding[2] == record[35]);
}

/// The record of an array layout: a header of kind two with the size and the kind of the
/// elements.
pub proof fn law_record_of_array(
    id: u32,
    fingerprint: u64,
    element_size: u32,
    element_kind: TraceSlotKind,
)
    ensures
        ({
            let record = (LayoutView::Array {
                id,
                fingerprint,
                element_size,
                element_kind,
            }).encoding();
            &&& record.len() == 36
            &&& is_header_of(
                record,
                id,
                2,
                fingerprint,
                element_size,
                0,
                if element_kind is ObjectRef {
                    1
                } else {
                    0
                },
            )
        }),
{
    let layout = LayoutView::Array { id, fingerprint, element_size, element_kind };
    law_record_length(layout);
    lemma_header_of_encoding(layout);
}

/// The record of a scalar layout: a header of its kind without a size.
pub proof fn law_record_of_scalar(id: u32, fingerprint: u64, kind: PersistentTypeKind)
    ensures
        ({
            let record = (LayoutView::Scalar { id, fingerprint, kind }).encoding();
            &&& record.len() == 36
            &&& is_header_of(
                record,
                id,
                match kind {
                    PersistentTypeKind::Struct => 1,
                    PersistentTypeKind::Array => 2,
                    PersistentTypeKind::I31 => 3,
                    PersistentTypeKind::Extern => 4,
                    PersistentTypeKind::Func => 5,
                },
                fingerprint,
                0,
                0,
                0,
            )
        }),
{
    let layout = LayoutView::Scalar { id, fingerprint, kind };
    law_record_length(layout);
    lemma_header_of_encoding(layout);
}

/// Every struct layout with an id and at most 4093 fields has a record of 36 bytes and 16 for
/// each field, which decodes to the layout; and with more fields it has none.
pub proof fn law_structs_are_stored_up_to_their_field_count(
    id: u32,
    fingerprint: u64,
    body_size: u32,
    fields: Seq<StructTraceField>,
)
    requires
        id != 0,
    ensures
        ({
            let layout = LayoutView::Struct { id, fingerprint, body_size, fields };
            &&& layout_record::record_len(layout.fields().len()) is Ok <==> fields.len() <= 4093
            &&& fields.len() <= 4093 ==> {
                &&& layout.encoding().len() == 36 + 16 * fields.len()
                &&& parse(layout.encoding()) == Ok::<LayoutView, TypeLayoutError>(layout)
            }
        }),
{
    let layout = LayoutView::Struct { id, fingerprint, body_size, fields };
    layout_record::law_record_length_of_field_count(fields.len());
    law_record_length(layout);
    if fields.len() <= 4093 {
        law_decode_inverts_encode(layout);
    }
}

/// Every array layout with an id, and every scalar layout with an id and a scalar kind, has a
/// record of 36 bytes, which decodes to the layout.
pub proof fn law_arrays_and_scalars_are_stored(
    id: u32,
    fingerprint: u64,
    element_size: u32,
    element_kind: TraceSlotKind,
    kind: PersistentTypeKind,
)
    requires
        id != 0,
    ensures
        ({
            let layout = LayoutView::Array { id, fingerprint, element_size, element_kind };
            &&& layout_record::record_len(layout.fields().len()) is Ok
            &&& layout.encoding().len() == 36
            &&& parse(layout.encoding()) == Ok::<LayoutView, TypeLayoutError>(layout)
        }),
        kind is I31 || kind is Extern || kind is Func ==> {
            let layout = LayoutView::Scalar { id, fingerprint, kind };
            &&& layout_record::record_len(layout.fields().len()) is Ok
            &&& layout.encoding().len() == 36
            &&& parse(layout.encoding()) == Ok::<LayoutView, TypeLayoutError>(layout)
        },
{
    let array = LayoutView::Array { id, fingerprint, element_size, element_kind };
    law_record_length(array);
    law_decode_inverts_encode(array);
    if kind is I31 || kind is Extern || kind is Func {
        let scalar = LayoutView::Scalar { id, fingerprint, kind };
        law_record_length(scalar);
        law_decode_inverts_encode(scalar);
    }
}

/// All of a buffer is a record exactly if it starts with a record and nothing is left over.
pub proof fn law_decode_takes_the_whole_buffer(bytes: Seq<u8>)
    ensures
        match parse_prefix(bytes) {
            Ok((layout, consumed)) => if consumed == bytes.len() {
                parse(bytes) == Ok::<LayoutView, TypeLayoutError>(layout)
            } else {
                consumed < bytes.len() && parse(bytes) == Err::<LayoutView, TypeLayoutError>(
                    TypeLayoutError::TrailingBytes,
                )
            },
            Err(error) => parse(bytes) == Err::<LayoutView, TypeLayoutError>(error),
        },
{
    law_decode_prefix_consumes(bytes);
}

/// Whether a record of `count` fields is accepted does not depend on the bytes but for the
/// entries of a struct: the magic number, an id, up to 4093 fields and the length that goes with
/// them, and what suits the kind make a record.
pub proof fn law_headers_decide(header: HeaderView, bytes: Seq<u8>)
    requires
        bytes.len() >= 36 + 16 * header.field_count,
    ensures
        parse_record(header, bytes) is Ok <==> {
            &&& header.magic == 0x544c_4159
            &&& header.field_count <= 4093
            &&& header.record_len == 36 + 16 * header.field_count
            &&& header.type_layout_id != 0
            &&& 1 <= header.kind <= 5
            &&& header.kind == 1 ==> header.element_kind == 0 && forall|i: int|
                0 <= i < header.field_count ==> #[trigger] is_entry_in_order(bytes, i)
            &&& header.kind == 2 ==> header.field_count == 0 && header.element_kind <= 1
            &&& header.kind >= 3 ==> header.field_count == 0 && header.element_kind == 0
                && header.body_size_or_element_size == 0
        },
        parse_record(header, bytes) matches Ok(layout) ==> match layout {
            LayoutView::Struct { id, fingerprint, body_size, fields } => {
                &&& header.kind == 1
                &&& id == header.type_layout_id
                &&& fingerprint == header.fingerprint
                &&& body_size == header.body_size_or_element_size
                &&& fields.len() == header.field_count
                &&& forall|i: int|
                    0 <= i < header.field_count ==> is_field_at(bytes, i, #[trigger] fields[i])
            },
            LayoutView::Array { id, fingerprint, element_size, element_kind } => {
                &&& header.kind == 2
                &&& id == header.type_layout_id
                &&& fingerprint == header.fingerprint
                &&& element_size == header.body_size_or_element_size
                &&& element_kind is ObjectRef <==> header.element_kind == 1
            },
            LayoutView::Scalar { id, fingerprint, kind } => {
                &&& id == header.type_layout_id
                &&& fingerprint == header.fingerprint
                &&& header.kind == 3 <==> kind is I31
                &&& header.kind == 4 <==> kind is Extern
                &&& header.kind == 5 <==> kind is Func
            },
        },
{
    layout_record::law_shape_of_header(header);
    lemma_parse_fields_exactly(bytes, header.field_count as nat);
}

/// Why a record is not accepted: the magic number goes first, then the number of fields and the
/// length, the id, the kind, the kind of the elements, and last what does not suit the kind.
pub proof fn law_headers_give_the_first_reason(
    header: HeaderView,
    bytes: Seq<u8>,
    error: TypeLayoutError,
)
    requires
        parse_record(header, bytes) == Err::<LayoutView, TypeLayoutError>(error),
    ensures
        if header.magic != 0x544c_4159 {
            error == TypeLayoutError::InvalidMagic
        } else if header.field_count > 4096 {
            error == TypeLayoutError::FieldCountExceedsMaximum
        } else if header.record_len > 65536 || header.field_count > 4093 {
            error == TypeLayoutError::RecordLengthExceedsMaximum
        } else if header.record_len != 36 + 16 * header.field_count {
            error == TypeLayoutError::RecordLengthMismatch
        } else if header.type_layout_id == 0 {
            error == TypeLayoutError::ZeroId
        } else if header.kind < 1 || header.kind > 5 {
            error == TypeLayoutError::UnknownTypeKind { kind: header.kind }
        } else if header.element_kind > 1 {
            error == TypeLayoutError::InvalidHeaderElementKind { raw: header.element_kind }
        } else if header.kind == 1 {
            if header.element_kind == 1 {
                error == TypeLayoutError::StructElementKind
            } else {
                parse_fields(bytes, header.field_count as nat) == Err::<
                    Seq<StructTraceField>,
                    TypeLayoutError,
                >(error)
            }
        } else if header.kind == 2 {
            error == TypeLayoutError::ArrayHasFields
        } else if header.field_count != 0 {
            error == TypeLayoutError::ScalarHasFields
        } else if header.element_kind == 1 {
            error == TypeLayoutError::ScalarElementKind
        } else {
            error == TypeLayoutError::ScalarBodySize
        },
{
    layout_record::law_shape_of_header(header);
}

/// The first entry that is not in order stops the reading of fields, and says what is wrong
/// with it.
pub proof fn law_first_bad_entry_is_named(bytes: Seq<u8>, count: nat, index: int)
    requires
        0 <= index < count,
        36 + 16 * (index + 1) <= bytes.len(),
        !is_entry_in_order(bytes, index),
        forall|i: int| 0 <= i < index ==> #[trigger] is_entry_in_order(bytes, i),
    ensures
        parse_fields(bytes, count) == Err::<Seq<StructTraceField>, TypeLayoutError>(
            if bytes[36 + 16 * index + 13] == 0 && bytes[36 + 16 * index + 14] == 0 && bytes[36 + 16
                * index + 15] == 0 {
                TypeLayoutError::UnknownTraceSlotKind { raw: bytes[36 + 16 * index + 12] }
            } else {
                TypeLayoutError::FieldEntryReservedPadding
            },
        ),
{
    lemma_parse_fields_exactly(bytes, index as nat);
    lemma_entry(bytes, index);
    assert(parse_fields(bytes, (index + 1) as nat) is Err);
    lemma_parse_fields_error(bytes, (index + 1) as nat, count);
}

} // verus!
