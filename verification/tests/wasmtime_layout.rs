use transaction::layout_fingerprint::{
    stable_fingerprint_bytes, stable_fingerprint_u16, stable_fingerprint_u32,
    stable_fingerprint_u8, wasmtime_array_layout_fingerprint, wasmtime_layout_fingerprint_seed,
    wasmtime_struct_layout_fingerprint, WASMTIME_LAYOUT_FINGERPRINT_OFFSET_BASIS,
};
use transaction::registry::TypeLayoutRegistry;
use transaction::type_layout::{
    PersistentTypeKind, PersistentTypeLayout, StructTraceField, TraceSlotKind, TypeLayoutId,
};
use transaction::values::{
    DurableExternIdentity, DurableFuncIdentity, InstanceId, ObjectId, ObjectValue,
};
use transaction::wasmtime_layout::{
    persistent_layout_for_wasmtime_array_type, persistent_layout_for_wasmtime_struct_type,
    validate_wasmtime_array_element_layout, validate_wasmtime_struct_field_layouts,
    wasmtime_array_layout_from_element_layout, wasmtime_array_layout_from_values,
    wasmtime_struct_body_size_from_field_count, wasmtime_struct_field_layouts_from_values,
    wasmtime_trace_slot_kind, wasmtime_type_layout_namespace, WasmtimeLayoutError,
    WasmtimePersistentFieldLayout, WasmtimePersistentFieldLayoutAbi,
    PERSISTENT_OBJECT_ABI_SLOT_SIZE,
};

fn id(raw: u32) -> TypeLayoutId {
    TypeLayoutId::new(raw).unwrap()
}

fn field(index: u32, offset: u32, size: u32, is_object_ref: bool) -> WasmtimePersistentFieldLayout {
    WasmtimePersistentFieldLayout {
        field_index: index,
        field_offset: offset,
        value_size: size,
        is_object_ref,
    }
}

#[test]
fn wasmtime_type_layout_mapping_struct_same_shape_keeps_fingerprint_across_type_indices() {
    let fields = vec![field(0, 0, 20, false), field(1, 20, 20, true)];
    let first = persistent_layout_for_wasmtime_struct_type(id(6), 40, &fields).unwrap();
    let second = persistent_layout_for_wasmtime_struct_type(id(7), 40, &fields).unwrap();

    assert_ne!(first.id(), second.id());
    assert_eq!(first.fingerprint(), second.fingerprint());
}

#[test]
fn wasmtime_type_layout_mapping_struct_ref_map_changes_fingerprint() {
    let layout_id = id(6);
    let scalar_then_ref = persistent_layout_for_wasmtime_struct_type(
        layout_id,
        40,
        &[field(0, 0, 20, false), field(1, 20, 20, true)],
    )
    .unwrap();
    let ref_then_scalar = persistent_layout_for_wasmtime_struct_type(
        layout_id,
        40,
        &[field(0, 0, 20, true), field(1, 20, 20, false)],
    )
    .unwrap();

    assert_ne!(scalar_then_ref.fingerprint(), ref_then_scalar.fingerprint());
}

#[test]
fn layouts_of_two_types_register_side_by_side() {
    let first =
        persistent_layout_for_wasmtime_struct_type(id(6), 20, &[field(0, 0, 20, false)]).unwrap();
    let second =
        persistent_layout_for_wasmtime_struct_type(id(7), 20, &[field(0, 0, 20, true)]).unwrap();
    let mut registry = TypeLayoutRegistry::default();

    assert_ne!(first.id(), second.id());
    registry.insert(first).unwrap();
    registry.insert(second).unwrap();
}

#[test]
fn one_type_registers_under_two_ids() {
    let fields = [field(0, 0, 20, true)];
    let mut registry = TypeLayoutRegistry::default();
    for raw in [8, 6] {
        registry
            .insert(persistent_layout_for_wasmtime_struct_type(id(raw), 20, &fields).unwrap())
            .unwrap();
    }
    let fingerprint = wasmtime_struct_layout_fingerprint(20, &fields).unwrap();
    assert_eq!(registry.ids_for_fingerprint(fingerprint), vec![id(8), id(6)]);
}

#[test]
fn struct_layouts_carry_their_fields() {
    let layout = persistent_layout_for_wasmtime_struct_type(
        id(9),
        40,
        &[field(0, 0, 4, false), field(1, 20, 20, true)],
    )
    .unwrap();
    assert_eq!(
        layout,
        PersistentTypeLayout::Struct {
            id: id(9),
            fingerprint: wasmtime_struct_layout_fingerprint(
                40,
                &[field(0, 0, 4, false), field(1, 20, 20, true)]
            )
            .unwrap(),
            body_size: 40,
            fields: vec![
                StructTraceField {
                    field_index: 0,
                    field_offset: 0,
                    value_size: 4,
                    kind: TraceSlotKind::Scalar,
                },
                StructTraceField {
                    field_index: 1,
                    field_offset: 20,
                    value_size: 20,
                    kind: TraceSlotKind::ObjectRef,
                },
            ],
        }
    );
    assert_eq!(
        PersistentTypeLayout::decode(&layout.encode().unwrap()),
        Ok(layout)
    );
}

#[test]
fn fingerprints_have_known_values() {
    assert_eq!(WASMTIME_LAYOUT_FINGERPRINT_OFFSET_BASIS, 0xcbf29ce484222325);
    assert_eq!(
        stable_fingerprint_bytes(WASMTIME_LAYOUT_FINGERPRINT_OFFSET_BASIS, b"a"),
        0x1162bb908601ec8c
    );
    assert_eq!(stable_fingerprint_bytes(5, &[]), 5);
    assert_eq!(wasmtime_array_layout_fingerprint(20, false), 0xf4c873fc8ffac0a1);
    assert_eq!(wasmtime_array_layout_fingerprint(20, true), 0xf4c873fb8ffabeee);
    assert_eq!(wasmtime_array_layout_fingerprint(1, false), 0xf2ba7af2dcdfa5fa);
    assert_eq!(
        wasmtime_struct_layout_fingerprint(0, &[]),
        Ok(0x5cbd33809da6cd44)
    );
    assert_eq!(
        wasmtime_struct_layout_fingerprint(40, &[field(0, 0, 20, false), field(1, 20, 20, true)]),
        Ok(0xc67c68d21b1884da)
    );
    assert_eq!(
        wasmtime_struct_layout_fingerprint(40, &[field(0, 0, 20, true), field(1, 20, 20, false)]),
        Ok(0x2e82aa69a8ad0440)
    );
}

#[test]
fn fingerprints_of_numbers_are_those_of_their_bytes() {
    let seed = wasmtime_layout_fingerprint_seed(PersistentTypeKind::Func);
    assert_eq!(
        seed,
        stable_fingerprint_bytes(WASMTIME_LAYOUT_FINGERPRINT_OFFSET_BASIS, &[5, 0])
    );
    assert_eq!(
        stable_fingerprint_u8(seed, 0x12),
        stable_fingerprint_bytes(seed, &[0x12])
    );
    assert_eq!(
        stable_fingerprint_u16(seed, 0x1234),
        stable_fingerprint_bytes(seed, &[0x34, 0x12])
    );
    assert_eq!(
        stable_fingerprint_u32(seed, 0x12345678),
        stable_fingerprint_u16(stable_fingerprint_u16(seed, 0x5678), 0x1234)
    );
}

#[test]
fn one_changed_byte_changes_the_fingerprint() {
    let seed = wasmtime_layout_fingerprint_seed(PersistentTypeKind::Struct);
    let base = stable_fingerprint_bytes(seed, &[1, 2, 3, 4]);
    for byte in 0..=255u8 {
        if byte != 3 {
            assert_ne!(base, stable_fingerprint_bytes(seed, &[1, 2, byte, 4]));
        }
    }
    for size in [0, 1, 20, u32::MAX] {
        assert_ne!(
            wasmtime_array_layout_fingerprint(size, true),
            wasmtime_array_layout_fingerprint(size, false)
        );
    }
}

#[test]
fn ref_flags_of_compiled_code_are_zero_or_one() {
    let abi = |is_object_ref| WasmtimePersistentFieldLayoutAbi {
        field_index: 3,
        field_offset: 60,
        value_size: 20,
        is_object_ref,
    };
    assert_eq!(abi(0).to_field_layout(), Ok(field(3, 60, 20, false)));
    assert_eq!(abi(1).to_field_layout(), Ok(field(3, 60, 20, true)));
    let error = abi(2).to_field_layout().unwrap_err();
    assert_eq!(error, WasmtimeLayoutError::RefFlag);
    assert_eq!(
        error.to_string(),
        "transactional persistent field layout ref flag must be 0 or 1"
    );
    assert_eq!(wasmtime_trace_slot_kind(true), TraceSlotKind::ObjectRef);
    assert_eq!(wasmtime_trace_slot_kind(false), TraceSlotKind::Scalar);
}

#[test]
fn namespaces_follow_instances() {
    assert_eq!(wasmtime_type_layout_namespace(None), Ok(0));
    assert_eq!(
        wasmtime_type_layout_namespace(Some(InstanceId::from_u32(0))),
        Ok(1)
    );
    assert_eq!(
        wasmtime_type_layout_namespace(Some(InstanceId::from_u32(u32::MAX - 1))),
        Ok(u32::MAX)
    );
    let error = wasmtime_type_layout_namespace(Some(InstanceId::from_u32(u32::MAX))).unwrap_err();
    assert_eq!(error.to_string(), "transactional instance namespace overflow");
    assert_eq!(InstanceId::from_u32(6).as_u32(), 6);
}

#[test]
fn struct_fields_must_be_canonical() {
    assert_eq!(PERSISTENT_OBJECT_ABI_SLOT_SIZE, 20);
    assert_eq!(validate_wasmtime_struct_field_layouts(&[]), Ok(0));
    assert_eq!(
        validate_wasmtime_struct_field_layouts(&[field(0, 0, 4, false), field(1, 20, 20, true)]),
        Ok(40)
    );
    for (wrong, error, text) in [
        (
            field(2, 20, 4, false),
            WasmtimeLayoutError::FieldIndexNotCanonical,
            "transactional persistent struct layout field index is not canonical",
        ),
        (
            field(1, 21, 4, false),
            WasmtimeLayoutError::FieldOffsetNotCanonical,
            "transactional persistent struct layout field offset is not canonical",
        ),
        (
            field(1, 20, 0, true),
            WasmtimeLayoutError::FieldValueSizeZero,
            "transactional persistent struct layout field value size is zero",
        ),
        (
            field(1, 20, 8, true),
            WasmtimeLayoutError::FieldRefSize,
            "transactional persistent struct object-ref layout field must use object value ABI size",
        ),
    ] {
        assert_eq!(
            validate_wasmtime_struct_field_layouts(&[field(0, 0, 20, false), wrong]),
            Err(error)
        );
        assert_eq!(error.to_string(), text);
    }
}

#[test]
fn struct_sizes_are_bounded() {
    assert_eq!(wasmtime_struct_body_size_from_field_count(3), Ok(60));
    assert_eq!(
        wasmtime_struct_body_size_from_field_count(214_748_364),
        Ok(4_294_967_280)
    );
    assert_eq!(
        wasmtime_struct_body_size_from_field_count(214_748_365),
        Err(WasmtimeLayoutError::StructBodySize)
    );
    assert_eq!(
        wasmtime_struct_body_size_from_field_count(0x1_0000_0000),
        Err(WasmtimeLayoutError::StructFieldCount)
    );
    assert_eq!(
        WasmtimeLayoutError::StructBodySize.to_string(),
        "transactional struct body size overflow"
    );
    assert_eq!(
        WasmtimeLayoutError::StructFieldCount.to_string(),
        "transactional struct field count exceeds u32"
    );
    assert_eq!(
        WasmtimeLayoutError::FingerprintFieldCount.to_string(),
        "wasmtime struct field count exceeds u32"
    );
    assert_eq!(
        WasmtimeLayoutError::FieldOffsetOverflow.to_string(),
        "transactional struct field offset overflow"
    );
}

#[test]
fn array_elements_must_suit_what_they_hold() {
    assert_eq!(validate_wasmtime_array_element_layout(1, false), Ok(1));
    assert_eq!(validate_wasmtime_array_element_layout(20, true), Ok(20));
    let zero = validate_wasmtime_array_element_layout(0, true).unwrap_err();
    assert_eq!(zero, WasmtimeLayoutError::ElementSizeZero);
    assert_eq!(
        zero.to_string(),
        "transactional persistent array element size is zero"
    );
    let small = wasmtime_array_layout_from_element_layout(id(6), 4, true).unwrap_err();
    assert_eq!(small, WasmtimeLayoutError::ElementRefSize);
    assert_eq!(
        small.to_string(),
        "transactional persistent object-ref array element layout must use object value ABI size"
    );
    assert_eq!(
        wasmtime_array_layout_from_element_layout(id(6), 4, false),
        Ok(persistent_layout_for_wasmtime_array_type(id(6), 4, false))
    );
}

#[test]
fn values_make_layouts_that_pass_validation() {
    let func = ObjectValue::FuncRef(DurableFuncIdentity {
        module_fingerprint: 1,
        function_index: 2,
        type_layout_id: TypeLayoutId::builtin_func(),
    });
    let host = ObjectValue::ExternRef(DurableExternIdentity {
        namespace: 1,
        handle: 2,
        type_layout_id: TypeLayoutId::builtin_extern(),
    });
    let values = [
        ObjectValue::I32(1),
        ObjectValue::Ref(None),
        func,
        ObjectValue::Ref(Some(ObjectId { object_index: 4 })),
        host,
    ];
    let (body_size, fields) = wasmtime_struct_field_layouts_from_values(&values).unwrap();
    assert_eq!(body_size, 100);
    assert_eq!(
        fields,
        vec![
            field(0, 0, 20, false),
            field(1, 20, 20, true),
            field(2, 40, 20, false),
            field(3, 60, 20, true),
            field(4, 80, 20, false),
        ]
    );
    assert_eq!(validate_wasmtime_struct_field_layouts(&fields), Ok(100));
    assert_eq!(
        wasmtime_array_layout_from_values(id(6), &values),
        persistent_layout_for_wasmtime_array_type(id(6), 20, true)
    );
    assert_eq!(
        wasmtime_array_layout_from_values(id(6), &values[..1]),
        persistent_layout_for_wasmtime_array_type(id(6), 20, false)
    );
}
