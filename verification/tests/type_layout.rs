use transaction::layout_record::{
    encoded_record_len_for_field_count, TypeLayoutFieldEntry, TypeLayoutRecordHeader,
    MAX_STRUCT_TRACE_FIELDS, TYPE_LAYOUT_FIELD_KIND_OFFSET, TYPE_LAYOUT_FIELD_RESERVED_OFFSET,
    TYPE_LAYOUT_RECORD_BODY_SIZE_OR_ELEMENT_SIZE_OFFSET, TYPE_LAYOUT_RECORD_ELEMENT_KIND_OFFSET,
    TYPE_LAYOUT_RECORD_KIND_OFFSET, TYPE_LAYOUT_RECORD_LEN_OFFSET, TYPE_LAYOUT_RECORD_MAGIC,
    TYPE_LAYOUT_RECORD_RESERVED2_OFFSET, TYPE_LAYOUT_RECORD_RESERVED_OFFSET,
};
use transaction::registry::TypeLayoutRegistry;
use transaction::type_layout::{
    PersistentTypeKind, PersistentTypeLayout, StructTraceField, TraceSlotKind, TypeLayoutId,
};

const TEST_MAX_TYPE_LAYOUT_RECORD_LEN: usize = 64 * 1024;
const TEST_MAX_STRUCT_TRACE_FIELDS: usize = 4096;

#[test]
fn struct_layout_round_trips() {
    let layout = PersistentTypeLayout::Struct {
        id: TypeLayoutId::new(11).unwrap(),
        fingerprint: 0x1234_5678_9abc_def0,
        body_size: 40,
        fields: vec![
            StructTraceField {
                field_index: 0,
                field_offset: 0,
                value_size: 4,
                kind: TraceSlotKind::Scalar,
            },
            StructTraceField {
                field_index: 1,
                field_offset: 8,
                value_size: 8,
                kind: TraceSlotKind::Scalar,
            },
            StructTraceField {
                field_index: 2,
                field_offset: 16,
                value_size: 8,
                kind: TraceSlotKind::ObjectRef,
            },
        ],
    };

    let encoded = layout.encode().unwrap();
    let decoded = PersistentTypeLayout::decode(&encoded).unwrap();

    assert_eq!(decoded, layout);
}

#[test]
fn array_layout_round_trips() {
    let layout = PersistentTypeLayout::Array {
        id: TypeLayoutId::new(7).unwrap(),
        fingerprint: 0x0102_0304_0506_0708,
        element_size: 8,
        element_kind: TraceSlotKind::ObjectRef,
    };

    let encoded = layout.encode().unwrap();
    let decoded = PersistentTypeLayout::decode(&encoded).unwrap();

    assert_eq!(decoded, layout);
}

#[test]
fn scalar_layout_round_trips() {
    let layout = PersistentTypeLayout::Scalar {
        id: TypeLayoutId::new(3).unwrap(),
        fingerprint: 0xaabb_ccdd_eeff_0011,
        kind: PersistentTypeKind::Func,
    };

    let encoded = layout.encode().unwrap();
    let decoded = PersistentTypeLayout::decode(&encoded).unwrap();

    assert_eq!(decoded, layout);
}

#[test]
fn type_layout_id_zero_is_rejected() {
    assert_eq!(TypeLayoutId::new(0), None);
}

#[test]
fn unknown_layout_kind_is_rejected() {
    let layout = PersistentTypeLayout::Scalar {
        id: TypeLayoutId::new(5).unwrap(),
        fingerprint: 0x7788_9900_aabb_ccdd,
        kind: PersistentTypeKind::I31,
    };
    let mut encoded = layout.encode().unwrap();
    encoded[TYPE_LAYOUT_RECORD_KIND_OFFSET..TYPE_LAYOUT_RECORD_KIND_OFFSET + 2]
        .copy_from_slice(&99u16.to_le_bytes());

    let err = PersistentTypeLayout::decode(&encoded).unwrap_err();

    assert!(err.to_string().contains("unknown persistent type kind"));
}

#[test]
fn invalid_record_length_is_rejected() {
    let layout = PersistentTypeLayout::Array {
        id: TypeLayoutId::new(9).unwrap(),
        fingerprint: 0x1111_2222_3333_4444,
        element_size: 16,
        element_kind: TraceSlotKind::ObjectRef,
    };
    let mut encoded = layout.encode().unwrap();
    encoded[TYPE_LAYOUT_RECORD_LEN_OFFSET..TYPE_LAYOUT_RECORD_LEN_OFFSET + 4]
        .copy_from_slice(&8u32.to_le_bytes());

    let err = PersistentTypeLayout::decode(&encoded).unwrap_err();

    assert!(err.to_string().contains("record length"));
}

#[test]
fn too_short_buffer_is_rejected() {
    let layout = PersistentTypeLayout::Scalar {
        id: TypeLayoutId::new(4).unwrap(),
        fingerprint: 0x1234,
        kind: PersistentTypeKind::Extern,
    };
    let encoded = layout.encode().unwrap();
    let err = PersistentTypeLayout::decode(&encoded[..encoded.len() - 1]).unwrap_err();

    assert!(err.to_string().contains("shorter than expected"));
}

#[test]
fn struct_field_with_invalid_trace_slot_kind_is_rejected() {
    let layout = PersistentTypeLayout::Struct {
        id: TypeLayoutId::new(13).unwrap(),
        fingerprint: 0x2233_4455_6677_8899,
        body_size: 24,
        fields: vec![StructTraceField {
            field_index: 0,
            field_offset: 0,
            value_size: 8,
            kind: TraceSlotKind::ObjectRef,
        }],
    };
    let mut encoded = layout.encode().unwrap();
    encoded[TYPE_LAYOUT_FIELD_KIND_OFFSET] = 7;

    let err = PersistentTypeLayout::decode(&encoded).unwrap_err();

    assert!(err.to_string().contains("unknown trace slot kind"));
}

#[test]
fn nonzero_header_reserved_bytes_are_rejected() {
    let layout = PersistentTypeLayout::Scalar {
        id: TypeLayoutId::new(6).unwrap(),
        fingerprint: 0xfeed_face_cafe_beef,
        kind: PersistentTypeKind::I31,
    };

    let mut encoded = layout.encode().unwrap();
    encoded[TYPE_LAYOUT_RECORD_RESERVED_OFFSET..TYPE_LAYOUT_RECORD_RESERVED_OFFSET + 2]
        .copy_from_slice(&1u16.to_le_bytes());
    let err = PersistentTypeLayout::decode(&encoded).unwrap_err();
    assert!(err.to_string().contains("reserved"));

    let mut encoded = layout.encode().unwrap();
    encoded[TYPE_LAYOUT_RECORD_RESERVED2_OFFSET..TYPE_LAYOUT_RECORD_RESERVED2_OFFSET + 3]
        .copy_from_slice(&[1, 0, 0]);
    let err = PersistentTypeLayout::decode(&encoded).unwrap_err();
    assert!(err.to_string().contains("reserved"));
}

#[test]
fn nonzero_field_reserved_bytes_are_rejected() {
    let layout = PersistentTypeLayout::Struct {
        id: TypeLayoutId::new(8).unwrap(),
        fingerprint: 0x1000_2000_3000_4000,
        body_size: 16,
        fields: vec![StructTraceField {
            field_index: 0,
            field_offset: 0,
            value_size: 8,
            kind: TraceSlotKind::ObjectRef,
        }],
    };
    let mut encoded = layout.encode().unwrap();
    encoded[TYPE_LAYOUT_FIELD_RESERVED_OFFSET..TYPE_LAYOUT_FIELD_RESERVED_OFFSET + 3]
        .copy_from_slice(&[0, 1, 0]);

    let err = PersistentTypeLayout::decode(&encoded).unwrap_err();

    assert!(err.to_string().contains("reserved"));
}

#[test]
fn struct_layout_rejects_non_scalar_element_kind() {
    let layout = PersistentTypeLayout::Struct {
        id: TypeLayoutId::new(10).unwrap(),
        fingerprint: 0x6677_8899_aabb_ccdd,
        body_size: 16,
        fields: vec![],
    };
    let mut encoded = layout.encode().unwrap();
    encoded[TYPE_LAYOUT_RECORD_ELEMENT_KIND_OFFSET] = TraceSlotKind::ObjectRef.as_raw();

    let err = PersistentTypeLayout::decode(&encoded).unwrap_err();

    assert!(err.to_string().contains("element kind"));
}

#[test]
fn scalar_layout_rejects_nonzero_non_applicable_fields() {
    let layout = PersistentTypeLayout::Scalar {
        id: TypeLayoutId::new(12).unwrap(),
        fingerprint: 0x1111_3333_5555_7777,
        kind: PersistentTypeKind::Func,
    };

    let mut encoded = layout.encode().unwrap();
    encoded[TYPE_LAYOUT_RECORD_ELEMENT_KIND_OFFSET] = TraceSlotKind::ObjectRef.as_raw();
    let err = PersistentTypeLayout::decode(&encoded).unwrap_err();
    assert!(err.to_string().contains("element kind"));

    let mut encoded = layout.encode().unwrap();
    encoded[TYPE_LAYOUT_RECORD_BODY_SIZE_OR_ELEMENT_SIZE_OFFSET
        ..TYPE_LAYOUT_RECORD_BODY_SIZE_OR_ELEMENT_SIZE_OFFSET + 4]
        .copy_from_slice(&4u32.to_le_bytes());
    let err = PersistentTypeLayout::decode(&encoded).unwrap_err();
    assert!(err.to_string().contains("body size"));
}

#[test]
fn decode_prefix_decodes_first_record_with_trailing_bytes() {
    let layout = PersistentTypeLayout::Array {
        id: TypeLayoutId::new(14).unwrap(),
        fingerprint: 0x8888_9999_aaaa_bbbb,
        element_size: 8,
        element_kind: TraceSlotKind::ObjectRef,
    };
    let mut bytes = layout.encode().unwrap();
    bytes.extend_from_slice(&[9, 8, 7, 6]);

    let (decoded, consumed) = PersistentTypeLayout::decode_prefix(&bytes).unwrap();

    assert_eq!(decoded, layout);
    assert_eq!(consumed, layout.encode().unwrap().len());
}

#[test]
fn decode_rejects_trailing_bytes_while_decode_prefix_accepts_them() {
    let layout = PersistentTypeLayout::Scalar {
        id: TypeLayoutId::new(15).unwrap(),
        fingerprint: 0x9999_aaaa_bbbb_cccc,
        kind: PersistentTypeKind::Extern,
    };
    let mut bytes = layout.encode().unwrap();
    bytes.extend_from_slice(&[1, 2, 3, 4]);

    let err = PersistentTypeLayout::decode(&bytes).unwrap_err();
    assert!(err.to_string().contains("record length mismatch"));

    let (decoded, consumed) = PersistentTypeLayout::decode_prefix(&bytes).unwrap();
    assert_eq!(decoded, layout);
    assert_eq!(consumed, layout.encode().unwrap().len());
}

#[test]
fn huge_field_count_is_rejected_before_allocation() {
    let field_count = TEST_MAX_STRUCT_TRACE_FIELDS + 1;
    let record_len =
        TypeLayoutRecordHeader::BYTE_LEN + field_count * TypeLayoutFieldEntry::BYTE_LEN;
    let mut bytes = vec![0; TypeLayoutRecordHeader::BYTE_LEN];
    bytes[0..4].copy_from_slice(&TYPE_LAYOUT_RECORD_MAGIC.to_le_bytes());
    bytes[4..8].copy_from_slice(&u32::try_from(record_len).unwrap().to_le_bytes());
    bytes[8..12].copy_from_slice(&1u32.to_le_bytes());
    bytes[12..14].copy_from_slice(&PersistentTypeKind::Struct.as_raw().to_le_bytes());
    bytes[24..28].copy_from_slice(&16u32.to_le_bytes());
    bytes[28..32].copy_from_slice(&u32::try_from(field_count).unwrap().to_le_bytes());
    bytes[32] = TraceSlotKind::Scalar.as_raw();

    let err = PersistentTypeLayout::decode_prefix(&bytes).unwrap_err();

    assert!(err.to_string().contains("field count"));
}

#[test]
fn record_length_above_max_is_rejected() {
    let mut bytes = vec![0; TypeLayoutRecordHeader::BYTE_LEN];
    bytes[0..4].copy_from_slice(&TYPE_LAYOUT_RECORD_MAGIC.to_le_bytes());
    bytes[4..8].copy_from_slice(
        &u32::try_from(TEST_MAX_TYPE_LAYOUT_RECORD_LEN + 1)
            .unwrap()
            .to_le_bytes(),
    );
    bytes[8..12].copy_from_slice(&1u32.to_le_bytes());
    bytes[12..14].copy_from_slice(&PersistentTypeKind::Func.as_raw().to_le_bytes());
    bytes[32] = TraceSlotKind::Scalar.as_raw();

    let err = PersistentTypeLayout::decode_prefix(&bytes).unwrap_err();

    assert!(err.to_string().contains("record length"));
}

#[test]
fn encode_length_helper_rejects_implausible_field_count() {
    let err = encoded_record_len_for_field_count(MAX_STRUCT_TRACE_FIELDS + 1).unwrap_err();

    assert!(err.to_string().contains("field count"));
}

#[test]
fn registry_accepts_idempotent_duplicate() {
    let layout = PersistentTypeLayout::Scalar {
        id: TypeLayoutId::new(21).unwrap(),
        fingerprint: 0x2100_0000_0000_0001,
        kind: PersistentTypeKind::I31,
    };
    let mut registry = TypeLayoutRegistry::default();

    registry.insert(layout.clone()).unwrap();
    registry.insert(layout.clone()).unwrap();

    assert_eq!(registry.get(layout.id()), Some(&layout));
    assert_eq!(
        registry.ids_for_fingerprint(layout.fingerprint()),
        vec![layout.id()]
    );
}

#[test]
fn registry_rejects_conflicting_duplicate_id() {
    let id = TypeLayoutId::new(22).unwrap();
    let mut registry = TypeLayoutRegistry::default();
    registry
        .insert(PersistentTypeLayout::Scalar {
            id,
            fingerprint: 0x2200_0000_0000_0001,
            kind: PersistentTypeKind::Extern,
        })
        .unwrap();

    let err = registry
        .insert(PersistentTypeLayout::Scalar {
            id,
            fingerprint: 0x2200_0000_0000_0002,
            kind: PersistentTypeKind::Func,
        })
        .unwrap_err();

    assert!(err.to_string().contains("conflicting"));
}

#[test]
fn registry_allows_same_shape_fingerprint_for_distinct_ids() {
    let fingerprint = 0x2300_0000_0000_0001;
    let mut registry = TypeLayoutRegistry::default();
    let first = PersistentTypeLayout::Struct {
        id: TypeLayoutId::new(23).unwrap(),
        fingerprint,
        body_size: 20,
        fields: vec![StructTraceField {
            field_index: 0,
            field_offset: 0,
            value_size: 20,
            kind: TraceSlotKind::ObjectRef,
        }],
    };
    let second = PersistentTypeLayout::Struct {
        id: TypeLayoutId::new(24).unwrap(),
        fingerprint,
        body_size: 20,
        fields: vec![StructTraceField {
            field_index: 0,
            field_offset: 0,
            value_size: 20,
            kind: TraceSlotKind::ObjectRef,
        }],
    };

    registry.insert(first.clone()).unwrap();
    registry.insert(second.clone()).unwrap();

    assert_eq!(registry.get(first.id()), Some(&first));
    assert_eq!(registry.get(second.id()), Some(&second));
    assert_eq!(
        registry.ids_for_fingerprint(fingerprint),
        vec![first.id(), second.id()]
    );
}

#[test]
fn registry_ids_for_fingerprint_survives_encode_decode_round_trip() {
    let fingerprint = 0x2600_0000_0000_0001;
    let first = PersistentTypeLayout::Array {
        id: TypeLayoutId::new(26).unwrap(),
        fingerprint,
        element_size: 20,
        element_kind: TraceSlotKind::ObjectRef,
    };
    let second = PersistentTypeLayout::Array {
        id: TypeLayoutId::new(27).unwrap(),
        fingerprint,
        element_size: 20,
        element_kind: TraceSlotKind::ObjectRef,
    };
    let mut registry = TypeLayoutRegistry::default();
    registry.insert(first).unwrap();
    registry.insert(second).unwrap();

    let decoded = TypeLayoutRegistry::decode_all(&registry.encode_all().unwrap()).unwrap();

    assert_eq!(
        decoded.ids_for_fingerprint(fingerprint),
        vec![
            TypeLayoutId::new(26).unwrap(),
            TypeLayoutId::new(27).unwrap()
        ]
    );
}

#[test]
fn registry_rejects_conflicting_same_id_even_when_shape_differs() {
    let id = TypeLayoutId::new(25).unwrap();
    let mut registry = TypeLayoutRegistry::default();
    registry
        .insert(PersistentTypeLayout::Array {
            id,
            fingerprint: 0x2500_0000_0000_0001,
            element_size: 20,
            element_kind: TraceSlotKind::Scalar,
        })
        .unwrap();

    let err = registry
        .insert(PersistentTypeLayout::Array {
            id,
            fingerprint: 0x2500_0000_0000_0001,
            element_size: 20,
            element_kind: TraceSlotKind::ObjectRef,
        })
        .unwrap_err();

    assert!(err.to_string().contains("conflicting"));
}

#[test]
fn registry_encode_all_decode_all_round_trips_multiple_layouts() {
    let layouts = vec![
        PersistentTypeLayout::Struct {
            id: TypeLayoutId::new(31).unwrap(),
            fingerprint: 0x3100_0000_0000_0001,
            body_size: 24,
            fields: vec![
                StructTraceField {
                    field_index: 0,
                    field_offset: 0,
                    value_size: 8,
                    kind: TraceSlotKind::ObjectRef,
                },
                StructTraceField {
                    field_index: 1,
                    field_offset: 8,
                    value_size: 8,
                    kind: TraceSlotKind::Scalar,
                },
            ],
        },
        PersistentTypeLayout::Array {
            id: TypeLayoutId::new(32).unwrap(),
            fingerprint: 0x3200_0000_0000_0001,
            element_size: 8,
            element_kind: TraceSlotKind::ObjectRef,
        },
        PersistentTypeLayout::Scalar {
            id: TypeLayoutId::new(33).unwrap(),
            fingerprint: 0x3300_0000_0000_0001,
            kind: PersistentTypeKind::Func,
        },
    ];
    let mut registry = TypeLayoutRegistry::default();
    for layout in &layouts {
        registry.insert(layout.clone()).unwrap();
    }

    let encoded = registry.encode_all().unwrap();
    let decoded = TypeLayoutRegistry::decode_all(&encoded).unwrap();

    assert_eq!(decoded.iter().into_iter().cloned().collect::<Vec<_>>(), layouts);
}

#[test]
fn registry_decode_all_rejects_invalid_concatenated_record_data() {
    let first = PersistentTypeLayout::Scalar {
        id: TypeLayoutId::new(41).unwrap(),
        fingerprint: 0x4100_0000_0000_0001,
        kind: PersistentTypeKind::I31,
    };
    let second = PersistentTypeLayout::Array {
        id: TypeLayoutId::new(42).unwrap(),
        fingerprint: 0x4200_0000_0000_0001,
        element_size: 8,
        element_kind: TraceSlotKind::ObjectRef,
    };
    let mut bytes = first.encode().unwrap();
    let second = second.encode().unwrap();
    bytes.extend_from_slice(&second[..second.len() - 1]);

    let err = TypeLayoutRegistry::decode_all(&bytes).unwrap_err();

    assert!(err.to_string().contains("shorter"));
}
