use transaction::layout_error::TypeLayoutError;
use transaction::layout_record::{
    decode_header_element_kind, encoded_record_len_for_field_count, validated_record_shape,
    TypeLayoutFieldEntry, TypeLayoutRecordHeader, TYPE_LAYOUT_RECORD_MAGIC,
};
use transaction::registry::TypeLayoutRegistry;
use transaction::type_layout::{
    PersistentTypeKind, PersistentTypeLayout, StructTraceField, TraceSlotKind, TypeLayoutId,
};

fn id(raw: u32) -> TypeLayoutId {
    TypeLayoutId::new(raw).unwrap()
}

fn scalar(raw: u32, fingerprint: u64, kind: PersistentTypeKind) -> PersistentTypeLayout {
    PersistentTypeLayout::Scalar {
        id: id(raw),
        fingerprint,
        kind,
    }
}

fn array(raw: u32, fingerprint: u64, element_kind: TraceSlotKind) -> PersistentTypeLayout {
    PersistentTypeLayout::Array {
        id: id(raw),
        fingerprint,
        element_size: 20,
        element_kind,
    }
}

fn struct_with_fields(raw: u32, count: u32) -> PersistentTypeLayout {
    PersistentTypeLayout::Struct {
        id: id(raw),
        fingerprint: 9,
        body_size: 20,
        fields: (0..count)
            .map(|index| StructTraceField {
                field_index: index,
                field_offset: 0,
                value_size: 4,
                kind: TraceSlotKind::Scalar,
            })
            .collect(),
    }
}

fn header() -> TypeLayoutRecordHeader {
    TypeLayoutRecordHeader {
        magic: TYPE_LAYOUT_RECORD_MAGIC,
        record_len: 36,
        type_layout_id: 1,
        kind: PersistentTypeKind::Array.as_raw(),
        reserved: 0,
        fingerprint: 0x0807_0605_0403_0201,
        body_size_or_element_size: 20,
        field_count: 0,
        element_kind: 1,
        reserved2: [0; 3],
    }
}

#[test]
fn builtin_ids_are_fixed() {
    assert_eq!(TypeLayoutId::default_struct().get(), 1);
    assert_eq!(TypeLayoutId::default_array().get(), 2);
    assert_eq!(TypeLayoutId::builtin_i31().get(), 3);
    assert_eq!(TypeLayoutId::builtin_extern().get(), 4);
    assert_eq!(TypeLayoutId::builtin_func().get(), 5);
}

#[test]
fn kinds_have_their_numbers() {
    for (kind, raw) in [
        (PersistentTypeKind::Struct, 1),
        (PersistentTypeKind::Array, 2),
        (PersistentTypeKind::I31, 3),
        (PersistentTypeKind::Extern, 4),
        (PersistentTypeKind::Func, 5),
    ] {
        assert_eq!(kind.as_raw(), raw);
        assert_eq!(PersistentTypeKind::from_raw(raw), Ok(kind));
    }
    assert_eq!(
        PersistentTypeKind::from_raw(0),
        Err(TypeLayoutError::UnknownTypeKind { kind: 0 })
    );
    assert_eq!(TraceSlotKind::from_raw(0), Ok(TraceSlotKind::Scalar));
    assert_eq!(TraceSlotKind::from_raw(1), Ok(TraceSlotKind::ObjectRef));
    assert_eq!(
        TraceSlotKind::from_raw(2),
        Err(TypeLayoutError::UnknownTraceSlotKind { raw: 2 })
    );
    assert_eq!(decode_header_element_kind(1), Ok(TraceSlotKind::ObjectRef));
    assert_eq!(
        decode_header_element_kind(9),
        Err(TypeLayoutError::InvalidHeaderElementKind { raw: 9 })
    );
}

#[test]
fn header_bytes_are_little_endian() {
    let bytes = header().as_bytes();
    assert_eq!(&bytes[0..4], b"YALT");
    assert_eq!(&bytes[4..8], &[36, 0, 0, 0]);
    assert_eq!(&bytes[8..12], &[1, 0, 0, 0]);
    assert_eq!(&bytes[12..16], &[2, 0, 0, 0]);
    assert_eq!(&bytes[16..24], &[1, 2, 3, 4, 5, 6, 7, 8]);
    assert_eq!(&bytes[24..32], &[20, 0, 0, 0, 0, 0, 0, 0]);
    assert_eq!(&bytes[32..36], &[1, 0, 0, 0]);
    assert_eq!(TypeLayoutRecordHeader::from_bytes(&bytes), Ok(header()));
}

#[test]
fn header_refuses_wrong_length_and_reserved_bytes() {
    let bytes = header().as_bytes();
    assert_eq!(
        TypeLayoutRecordHeader::from_bytes(&bytes[..35]),
        Err(TypeLayoutError::HeaderLengthMismatch)
    );
    let mut reserved = bytes;
    reserved[15] = 1;
    reserved[35] = 1;
    assert_eq!(
        TypeLayoutRecordHeader::from_bytes(&reserved),
        Err(TypeLayoutError::ReservedHeaderField)
    );
    let mut padded = bytes;
    padded[35] = 1;
    assert_eq!(
        TypeLayoutRecordHeader::from_bytes(&padded),
        Err(TypeLayoutError::ReservedHeaderPadding)
    );
}

#[test]
fn field_entry_bytes_round_trip() {
    let entry = TypeLayoutFieldEntry {
        field_index: 1,
        field_offset: 0x0102_0304,
        value_size: 20,
        kind: TraceSlotKind::ObjectRef,
    };
    let bytes = entry.as_bytes();
    assert_eq!(bytes, [1, 0, 0, 0, 4, 3, 2, 1, 20, 0, 0, 0, 1, 0, 0, 0]);
    assert_eq!(TypeLayoutFieldEntry::from_bytes(&bytes), Ok(entry));
    assert_eq!(
        TypeLayoutFieldEntry::from_bytes(&bytes[..15]),
        Err(TypeLayoutError::FieldEntryLengthMismatch)
    );
    let mut padded = bytes;
    padded[12] = 7;
    padded[14] = 1;
    assert_eq!(
        TypeLayoutFieldEntry::from_bytes(&padded),
        Err(TypeLayoutError::FieldEntryReservedPadding)
    );
    padded[14] = 0;
    assert_eq!(
        TypeLayoutFieldEntry::from_bytes(&padded),
        Err(TypeLayoutError::UnknownTraceSlotKind { raw: 7 })
    );
}

#[test]
fn record_lengths_follow_field_counts() {
    assert_eq!(encoded_record_len_for_field_count(0), Ok(36));
    assert_eq!(encoded_record_len_for_field_count(3), Ok(84));
    assert_eq!(encoded_record_len_for_field_count(4093), Ok(65524));
    assert_eq!(
        encoded_record_len_for_field_count(4094),
        Err(TypeLayoutError::RecordLengthExceedsMaximum)
    );
    assert_eq!(
        encoded_record_len_for_field_count(4097),
        Err(TypeLayoutError::FieldCountExceedsMaximum)
    );
}

#[test]
fn record_shape_is_validated_in_order() {
    assert_eq!(validated_record_shape(header()), Ok((36, 0)));
    let mut wrong = header();
    wrong.record_len = 52;
    wrong.field_count = 1;
    assert_eq!(validated_record_shape(wrong), Ok((52, 1)));
    wrong.record_len = 36;
    assert_eq!(
        validated_record_shape(wrong),
        Err(TypeLayoutError::RecordLengthMismatch)
    );
    wrong.record_len = 65537;
    assert_eq!(
        validated_record_shape(wrong),
        Err(TypeLayoutError::RecordLengthExceedsMaximum)
    );
    wrong.field_count = 4097;
    assert_eq!(
        validated_record_shape(wrong),
        Err(TypeLayoutError::FieldCountExceedsMaximum)
    );
}

#[test]
fn records_are_refused_for_the_first_reason() {
    let record = |change: fn(&mut TypeLayoutRecordHeader)| {
        let mut changed = header();
        change(&mut changed);
        PersistentTypeLayout::decode(&changed.as_bytes())
    };
    assert_eq!(
        record(|header| header.magic = 1),
        Err(TypeLayoutError::InvalidMagic)
    );
    assert_eq!(
        record(|header| header.type_layout_id = 0),
        Err(TypeLayoutError::ZeroId)
    );
    assert_eq!(
        record(|header| header.kind = 77),
        Err(TypeLayoutError::UnknownTypeKind { kind: 77 })
    );
    assert_eq!(
        record(|header| header.element_kind = 2),
        Err(TypeLayoutError::InvalidHeaderElementKind { raw: 2 })
    );
    assert_eq!(
        record(|header| header.kind = 1),
        Err(TypeLayoutError::StructElementKind)
    );
    assert_eq!(
        record(|header| header.kind = 5),
        Err(TypeLayoutError::ScalarElementKind)
    );
    assert_eq!(
        record(|header| {
            header.kind = 5;
            header.element_kind = 0;
        }),
        Err(TypeLayoutError::ScalarBodySize)
    );
    let with_field = |kind: u16| {
        let mut changed = header();
        changed.kind = kind;
        changed.record_len = 52;
        changed.field_count = 1;
        let mut bytes = changed.as_bytes().to_vec();
        bytes.extend_from_slice(&[0; 16]);
        PersistentTypeLayout::decode(&bytes)
    };
    assert_eq!(with_field(2), Err(TypeLayoutError::ArrayHasFields));
    assert_eq!(with_field(4), Err(TypeLayoutError::ScalarHasFields));
    let bytes = header().as_bytes();
    assert_eq!(
        PersistentTypeLayout::decode(&bytes[..10]),
        Err(TypeLayoutError::RecordTooShort)
    );
    let mut long = bytes.to_vec();
    long.push(0);
    assert_eq!(
        PersistentTypeLayout::decode(&long),
        Err(TypeLayoutError::TrailingBytes)
    );
    let encoded = struct_with_fields(3, 2).encode().unwrap();
    assert_eq!(
        PersistentTypeLayout::decode(&encoded[..60]),
        Err(TypeLayoutError::BufferShorterThanRecord)
    );
}

#[test]
fn decode_record_reads_only_what_it_needs() {
    let struct_header = TypeLayoutRecordHeader {
        record_len: 36,
        kind: PersistentTypeKind::Struct.as_raw(),
        element_kind: 0,
        ..header()
    };
    assert_eq!(
        PersistentTypeLayout::decode_record(struct_header, &[]),
        Ok(PersistentTypeLayout::Struct {
            id: id(1),
            fingerprint: 0x0807_0605_0403_0201,
            body_size: 20,
            fields: vec![],
        })
    );
    let two_fields = TypeLayoutRecordHeader {
        record_len: 68,
        field_count: 2,
        ..struct_header
    };
    for wrong in [
        TypeLayoutRecordHeader {
            magic: 0,
            ..two_fields
        },
        TypeLayoutRecordHeader {
            type_layout_id: 0,
            ..two_fields
        },
        TypeLayoutRecordHeader {
            element_kind: 1,
            ..two_fields
        },
        TypeLayoutRecordHeader {
            element_kind: 0xff,
            ..two_fields
        },
        TypeLayoutRecordHeader {
            record_len: 36,
            ..two_fields
        },
    ] {
        assert!(PersistentTypeLayout::decode_record(wrong, &[]).is_err());
    }
    let mut first_entry_only = two_fields.as_bytes().to_vec();
    first_entry_only.extend_from_slice(&[0xff; 16]);
    assert!(PersistentTypeLayout::decode_record(two_fields, &first_entry_only).is_err());
}

#[test]
fn decode_record_reads_the_fields_behind_the_header() {
    let layout = struct_with_fields(3, 2);
    let encoded = layout.encode().unwrap();
    let header = TypeLayoutRecordHeader::from_bytes(&encoded[..36]).unwrap();
    assert_eq!(
        PersistentTypeLayout::decode_record(header, &encoded),
        Ok(layout)
    );
}

#[test]
fn largest_struct_round_trips_and_larger_ones_are_refused() {
    let layout = struct_with_fields(1, 4093);
    let encoded = layout.encode().unwrap();
    assert_eq!(encoded.len(), 65524);
    assert_eq!(PersistentTypeLayout::decode(&encoded), Ok(layout));
    assert_eq!(
        struct_with_fields(1, 4094).encode(),
        Err(TypeLayoutError::RecordLengthExceedsMaximum)
    );
    assert_eq!(
        struct_with_fields(1, 4097).encode(),
        Err(TypeLayoutError::FieldCountExceedsMaximum)
    );
}

#[test]
fn record_of_a_scalar_struct_reads_as_an_empty_struct() {
    let layout = scalar(4, 8, PersistentTypeKind::Struct);
    assert_eq!(
        PersistentTypeLayout::decode(&layout.encode().unwrap()),
        Ok(PersistentTypeLayout::Struct {
            id: id(4),
            fingerprint: 8,
            body_size: 0,
            fields: vec![],
        })
    );
}

#[test]
fn shapes_ignore_ids_only() {
    let left = array(1, 5, TraceSlotKind::Scalar);
    assert!(left.shape_eq_ignoring_id(&array(2, 5, TraceSlotKind::Scalar)));
    assert!(!left.shape_eq_ignoring_id(&array(1, 6, TraceSlotKind::Scalar)));
    assert!(!left.shape_eq_ignoring_id(&array(1, 5, TraceSlotKind::ObjectRef)));
    assert!(!left.shape_eq_ignoring_id(&scalar(1, 5, PersistentTypeKind::Array)));
    assert!(struct_with_fields(1, 2).shape_eq_ignoring_id(&struct_with_fields(8, 2)));
    assert!(!struct_with_fields(1, 2).shape_eq_ignoring_id(&struct_with_fields(1, 3)));
    assert!(scalar(1, 2, PersistentTypeKind::I31)
        .shape_eq_ignoring_id(&scalar(9, 2, PersistentTypeKind::I31)));
    assert!(!scalar(1, 2, PersistentTypeKind::I31)
        .shape_eq_ignoring_id(&scalar(1, 2, PersistentTypeKind::Func)));
}

#[test]
fn registry_refuses_a_fingerprint_of_another_shape() {
    let mut registry = TypeLayoutRegistry::default();
    registry.insert(array(3, 0xab, TraceSlotKind::Scalar)).unwrap();
    registry.insert(array(2, 0xab, TraceSlotKind::Scalar)).unwrap();
    let error = registry
        .insert(array(4, 0xab, TraceSlotKind::ObjectRef))
        .unwrap_err();
    assert_eq!(
        error,
        TypeLayoutError::IncompatibleFingerprint {
            fingerprint: 0xab,
            id: 3
        }
    );
    assert_eq!(
        error.to_string(),
        "persistent type layout fingerprint 0xab is already registered to incompatible layout id 3"
    );
    assert!(!registry.contains(id(4)));
    assert!(registry.contains(id(2)));
    assert_eq!(registry.get(id(4)), None);
    assert_eq!(registry.ids_for_fingerprint(0xab), vec![id(3), id(2)]);
    assert_eq!(registry.ids_for_fingerprint(0xac), vec![]);
    let listed: Vec<u32> = registry.iter().into_iter().map(|l| l.id().get()).collect();
    assert_eq!(listed, vec![2, 3]);
}

#[test]
fn registry_comes_back_with_ids_in_ascending_order() {
    let mut registry = TypeLayoutRegistry::default();
    registry.insert(array(3, 0xab, TraceSlotKind::Scalar)).unwrap();
    registry.insert(array(2, 0xab, TraceSlotKind::Scalar)).unwrap();
    let copy = registry.clone();
    let decoded = TypeLayoutRegistry::decode_all(&copy.encode_all().unwrap()).unwrap();
    assert_eq!(decoded.iter(), registry.iter());
    assert_eq!(decoded.ids_for_fingerprint(0xab), vec![id(2), id(3)]);
    assert_eq!(TypeLayoutRegistry::decode_all(&[]).unwrap().iter().len(), 0);
}

#[test]
fn registry_that_holds_too_large_a_struct_is_not_encoded() {
    let mut registry = TypeLayoutRegistry::default();
    registry.insert(struct_with_fields(1, 4094)).unwrap();
    assert_eq!(
        registry.encode_all(),
        Err(TypeLayoutError::RecordLengthExceedsMaximum)
    );
}

#[test]
fn errors_have_their_texts() {
    for (error, text) in [
        (
            TypeLayoutError::HeaderLengthMismatch,
            "persistent type layout record header length mismatch",
        ),
        (
            TypeLayoutError::ReservedHeaderField,
            "persistent type layout record reserved header field must be zero",
        ),
        (
            TypeLayoutError::ReservedHeaderPadding,
            "persistent type layout record reserved header padding must be zero",
        ),
        (
            TypeLayoutError::FieldEntryLengthMismatch,
            "persistent type layout field entry length mismatch",
        ),
        (
            TypeLayoutError::FieldEntryReservedPadding,
            "persistent type layout field entry reserved padding must be zero",
        ),
        (
            TypeLayoutError::UnknownTypeKind { kind: 99 },
            "unknown persistent type kind in record header: 99",
        ),
        (
            TypeLayoutError::UnknownTraceSlotKind { raw: 7 },
            "unknown trace slot kind in record field entry: 7",
        ),
        (
            TypeLayoutError::RecordTooShort,
            "persistent type layout record is shorter than expected",
        ),
        (
            TypeLayoutError::BufferShorterThanRecord,
            "persistent type layout buffer is shorter than one full record",
        ),
        (
            TypeLayoutError::TrailingBytes,
            "persistent type layout record length mismatch",
        ),
        (
            TypeLayoutError::InvalidMagic,
            "persistent type layout record has invalid magic",
        ),
        (
            TypeLayoutError::ZeroId,
            "persistent type layout id cannot be zero",
        ),
        (
            TypeLayoutError::StructElementKind,
            "persistent struct type layout header element kind must be scalar",
        ),
        (
            TypeLayoutError::ArrayHasFields,
            "persistent array type layout must not contain field entries",
        ),
        (
            TypeLayoutError::ScalarHasFields,
            "persistent scalar type layout must not contain field entries",
        ),
        (
            TypeLayoutError::ScalarElementKind,
            "persistent scalar type layout header element kind must be scalar",
        ),
        (
            TypeLayoutError::ScalarBodySize,
            "persistent scalar type layout header body size must be zero",
        ),
        (
            TypeLayoutError::FieldCountExceedsMaximum,
            "persistent type layout field count exceeds maximum",
        ),
        (
            TypeLayoutError::RecordLengthExceedsMaximum,
            "persistent type layout record length exceeds maximum",
        ),
        (
            TypeLayoutError::RecordLengthMismatch,
            "persistent type layout record length does not match field count",
        ),
        (
            TypeLayoutError::ConflictingLayout { id: 4294967295 },
            "conflicting persistent type layout for id 4294967295",
        ),
    ] {
        assert_eq!(error.to_string(), text);
    }
    assert!(TypeLayoutError::InvalidHeaderElementKind { raw: 9 }
        .to_string()
        .contains("invalid persistent type layout header element kind"));
}
