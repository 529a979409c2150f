//! The layouts that compiled struct and array types have in persistent storage.

use vstd::prelude::*;
use vstd::string::StringExecFns;

use crate::layout_codec;
use crate::layout_error::TypeLayoutError;
use crate::layout_fingerprint;
use crate::layout_fingerprint::{
    wasmtime_array_layout_fingerprint, wasmtime_struct_layout_fingerprint,
};
use crate::layout_record;
use crate::type_layout::{
    LayoutView, PersistentTypeLayout, StructTraceField, TraceSlotKind, TypeLayoutId,
};
use crate::values::{InstanceId, ObjectValue};

verus! {

/// The size of one slot of a persistent object.
pub const PERSISTENT_OBJECT_ABI_SLOT_SIZE: u32 = 20;

/// The reasons for which a compiled type has no persistent layout.
#[derive(Clone, Copy, Debug, PartialEq, Eq, Structural)]
pub enum WasmtimeLayoutError {
    /// A reference flag is neither zero nor one.
    RefFlag,
    /// The instance number leaves no namespace.
    NamespaceOverflow,
    /// More fields than a fingerprint can count.
    FingerprintFieldCount,
    /// More fields than a struct can have.
    StructFieldCount,
    /// The fields of a struct take more room than a size can say.
    StructBodySize,
    /// A field stands further off than an offset can say.
    FieldOffsetOverflow,
    /// A field does not have the index of its position.
    FieldIndexNotCanonical,
    /// A field does not have the offset of its position.
    FieldOffsetNotCanonical,
    /// A field takes no room.
    FieldValueSizeZero,
    /// A field that holds a reference does not have the size of a slot.
    FieldRefSize,
    /// An array element takes no room.
    ElementSizeZero,
    /// An array element that holds a reference does not have the size of a slot.
    ElementRefSize,
}

impl WasmtimeLayoutError {
    /// The text of the error.
    pub open spec fn message(self) -> Seq<char> {
        match self {
            WasmtimeLayoutError::RefFlag => "transactional persistent field layout ref flag must be 0 or 1"@,
            WasmtimeLayoutError::NamespaceOverflow => "transactional instance namespace overflow"@,
            WasmtimeLayoutError::FingerprintFieldCount => "wasmtime struct field count exceeds u32"@,
            WasmtimeLayoutError::StructFieldCount => "transactional struct field count exceeds u32"@,
            WasmtimeLayoutError::StructBodySize => "transactional struct body size overflow"@,
            WasmtimeLayoutError::FieldOffsetOverflow => "transactional struct field offset overflow"@,
            WasmtimeLayoutError::FieldIndexNotCanonical => "transactional persistent struct layout field index is not canonical"@,
            WasmtimeLayoutError::FieldOffsetNotCanonical => "transactional persistent struct layout field offset is not canonical"@,
            WasmtimeLayoutError::FieldValueSizeZero => "transactional persistent struct layout field value size is zero"@,
            WasmtimeLayoutError::FieldRefSize => "transactional persistent struct object-ref layout field must use object value ABI size"@,
            WasmtimeLayoutError::ElementSizeZero => "transactional persistent array element size is zero"@,
            WasmtimeLayoutError::ElementRefSize => "transactional persistent object-ref array element layout must use object value ABI size"@,
        }
    }

    /// The text of the error.
    pub fn to_string(&self) -> (text: String)
        ensures
            text@ == self.message(),
    {
        String::from_str(
            match self {
                WasmtimeLayoutError::RefFlag => "transactional persistent field layout ref flag must be 0 or 1",
                WasmtimeLayoutError::NamespaceOverflow => "transactional instance namespace overflow",
                WasmtimeLayoutError::FingerprintFieldCount => "wasmtime struct field count exceeds u32",
                WasmtimeLayoutError::StructFieldCount => "transactional struct field count exceeds u32",
                WasmtimeLayoutError::StructBodySize => "transactional struct body size overflow",
                WasmtimeLayoutError::FieldOffsetOverflow => "transactional struct field offset overflow",
                WasmtimeLayoutError::FieldIndexNotCanonical => "transactional persistent struct layout field index is not canonical",
                WasmtimeLayoutError::FieldOffsetNotCanonical => "transactional persistent struct layout field offset is not canonical",
                WasmtimeLayoutError::FieldValueSizeZero => "transactional persistent struct layout field value size is zero",
                WasmtimeLayoutError::FieldRefSize => "transactional persistent struct object-ref layout field must use object value ABI size",
                WasmtimeLayoutError::ElementSizeZero => "transactional persistent array element size is zero",
                WasmtimeLayoutError::ElementRefSize => "transactional persistent object-ref array element layout must use object value ABI size",
            },
        )
    }
}

/// One field of a compiled struct type.
#[derive(Clone, Copy, Debug, PartialEq, Eq, Structural)]
pub struct WasmtimePersistentFieldLayout {
    pub field_index: u32,
    pub field_offset: u32,
    pub value_size: u32,
    pub is_object_ref: bool,
}

/// One field of a compiled struct type, as compiled code hands it over.
#[derive(Clone, Copy, Debug, PartialEq, Eq, Structural)]
pub struct WasmtimePersistentFieldLayoutAbi {
    pub field_index: u32,
    pub field_offset: u32,
    pub value_size: u32,
    pub is_object_ref: u32,
}

impl WasmtimePersistentFieldLayoutAbi {
    /// The field that compiled code means.
    pub fn to_field_layout(self) -> (field: Result<
        WasmtimePersistentFieldLayout,
        WasmtimeLayoutError,
    >)
        ensures
            match field {
                Ok(field) => self.is_object_ref <= 1 && field == (WasmtimePersistentFieldLayout {
                    field_index: self.field_index,
                    field_offset: self.field_offset,
                    value_size: self.value_size,
                    is_object_ref: self.is_object_ref == 1,
                }),
                Err(error) => self.is_object_ref > 1 && error == WasmtimeLayoutError::RefFlag,
            },
    {
        if self.is_object_ref > 1 {
            return Err(WasmtimeLayoutError::RefFlag);
        }
        Ok(
            WasmtimePersistentFieldLayout {
                field_index: self.field_index,
                field_offset: self.field_offset,
                value_size: self.value_size,
                is_object_ref: self.is_object_ref != 0,
            },
        )
    }
}

/// The kind of a slot that holds an object reference or not.
pub open spec fn slot_kind(is_object_ref: bool) -> TraceSlotKind {
    if is_object_ref {
        TraceSlotKind::ObjectRef
    } else {
        TraceSlotKind::Scalar
    }
}

/// The kind of a slot that holds an object reference or not.
pub fn wasmtime_trace_slot_kind(is_object_ref: bool) -> (kind: TraceSlotKind)
    ensures
        kind == slot_kind(is_object_ref),
{
    if is_object_ref {
        TraceSlotKind::ObjectRef
    } else {
        TraceSlotKind::Scalar
    }
}

/// The trace field that a field of a compiled struct type gives.
pub open spec fn trace_field(field: WasmtimePersistentFieldLayout) -> StructTraceField {
    StructTraceField {
        field_index: field.field_index,
        field_offset: field.field_offset,
        value_size: field.value_size,
        kind: slot_kind(field.is_object_ref),
    }
}

/// The layout of a compiled struct type.
pub open spec fn struct_layout(
    id: u32,
    body_size: u32,
    fields: Seq<WasmtimePersistentFieldLayout>,
) -> LayoutView {
    LayoutView::Struct {
        id,
        fingerprint: layout_fingerprint::struct_fingerprint(body_size, fields),
        body_size,
        fields: fields.map_values(|field: WasmtimePersistentFieldLayout| trace_field(field)),
    }
}

/// The layout of a compiled array type.
pub open spec fn array_layout(
    id: u32,
    element_size: u32,
    element_is_object_ref: bool,
) -> LayoutView {
    LayoutView::Array {
        id,
        fingerprint: layout_fingerprint::array_fingerprint(element_size, element_is_object_ref),
        element_size,
        element_kind: slot_kind(element_is_object_ref),
    }
}

/// The layout of a compiled struct type.
pub fn persistent_layout_for_wasmtime_struct_type(
    type_layout_id: TypeLayoutId,
    body_size: u32,
    fields: &[WasmtimePersistentFieldLayout],
) -> (layout: Result<PersistentTypeLayout, WasmtimeLayoutError>)
    ensures
        match layout {
            Ok(layout) => fields@.len() <= u32::MAX && layout@ == struct_layout(
                type_layout_id@,
                body_size,
                fields@,
            ),
            Err(error) => fields@.len() > u32::MAX && error
                == WasmtimeLayoutError::FingerprintFieldCount,
        },
{
    let mut trace_fields: Vec<StructTraceField> = Vec::new();
    let mut index: usize = 0;
    while index < fields.len()
        invariant
            index <= fields@.len(),
            trace_fields@.len() == index,
            forall|i: int| 0 <= i < index ==> trace_fields@[i] == trace_field(#[trigger] fields@[i]),
        decreases fields@.len() - index,
    {
        let field = fields[index];
        trace_fields.push(
            StructTraceField {
                field_index: field.field_index,
                field_offset: field.field_offset,
                value_size: field.value_size,
                kind: wasmtime_trace_slot_kind(field.is_object_ref),
            },
        );
        index += 1;
    }
    match wasmtime_struct_layout_fingerprint(body_size, fields) {
        Ok(fingerprint) => {
            assert(trace_fields@ =~= fields@.map_values(
                |field: WasmtimePersistentFieldLayout| trace_field(field),
            ));
            Ok(
                PersistentTypeLayout::Struct {
                    id: type_layout_id,
                    fingerprint,
                    body_size,
                    fields: trace_fields,
                },
            )
        },
        Err(error) => Err(error),
    }
}

/// The layout of a compiled array type.
pub fn persistent_layout_for_wasmtime_array_type(
    type_layout_id: TypeLayoutId,
    element_size: u32,
    element_is_object_ref: bool,
) -> (layout: PersistentTypeLayout)
    ensures
        layout@ == array_layout(type_layout_id@, element_size, element_is_object_ref),
{
    PersistentTypeLayout::Array {
        id: type_layout_id,
        fingerprint: wasmtime_array_layout_fingerprint(element_size, element_is_object_ref),
        element_size,
        element_kind: wasmtime_trace_slot_kind(element_is_object_ref),
    }
}

/// The namespace of the types that an instance owns: zero for types that none owns.
pub open spec fn namespace(owner_instance: Option<InstanceId>) -> int {
    match owner_instance {
        Some(instance) => instance@ + 1,
        None => 0,
    }
}

/// The namespace of the types that an instance owns.
pub fn wasmtime_type_layout_namespace(owner_instance: Option<InstanceId>) -> (result: Result<
    u32,
    WasmtimeLayoutError,
>)
    ensures
        match result {
            Ok(raw) => raw == namespace(owner_instance),
            Err(error) => namespace(owner_instance) > u32::MAX && error
                == WasmtimeLayoutError::NamespaceOverflow,
        },
{
    match owner_instance {
        Some(instance) => match instance.as_u32().checked_add(1) {
            Some(raw) => Ok(raw),
            None => Err(WasmtimeLayoutError::NamespaceOverflow),
        },
        None => Ok(0),
    }
}

/// Different owners have different namespaces.
pub proof fn law_namespaces_are_distinct(left: Option<InstanceId>, right: Option<InstanceId>)
    requires
        namespace(left) == namespace(right),
    ensures
        match (left, right) {
            (Some(left), Some(right)) => left@ == right@,
            (None, None) => true,
            _ => false,
        },
{
}

/// The size of a struct with `field_count` fields.
pub fn wasmtime_struct_body_size_from_field_count(field_count: usize) -> (result: Result<
    u32,
    WasmtimeLayoutError,
>)
    ensures
        result == body_size_of(field_count as nat),
{
    if field_count > u32::MAX as usize {
        return Err(WasmtimeLayoutError::StructFieldCount);
    }
    match (field_count as u32).checked_mul(PERSISTENT_OBJECT_ABI_SLOT_SIZE) {
        Some(body_size) => Ok(body_size),
        None => Err(WasmtimeLayoutError::StructBodySize),
    }
}

/// The size of a struct with `field_count` fields, each of which takes one slot.
pub open spec fn body_size_of(field_count: nat) -> Result<u32, WasmtimeLayoutError> {
    if field_count > u32::MAX {
        Err(WasmtimeLayoutError::StructFieldCount)
    } else if field_count * PERSISTENT_OBJECT_ABI_SLOT_SIZE > u32::MAX {
        Err(WasmtimeLayoutError::StructBodySize)
    } else {
        Ok((field_count * PERSISTENT_OBJECT_ABI_SLOT_SIZE) as u32)
    }
}

/// What is wrong with a field at position `index`, if anything is.
pub open spec fn field_defect(index: int, field: WasmtimePersistentFieldLayout) -> Option<
    WasmtimeLayoutError,
> {
    if index * PERSISTENT_OBJECT_ABI_SLOT_SIZE > u32::MAX {
        Some(WasmtimeLayoutError::FieldOffsetOverflow)
    } else if field.field_index != index {
        Some(WasmtimeLayoutError::FieldIndexNotCanonical)
    } else if field.field_offset != index * PERSISTENT_OBJECT_ABI_SLOT_SIZE {
        Some(WasmtimeLayoutError::FieldOffsetNotCanonical)
    } else if field.value_size == 0 {
        Some(WasmtimeLayoutError::FieldValueSizeZero)
    } else if field.is_object_ref && field.value_size != PERSISTENT_OBJECT_ABI_SLOT_SIZE {
        Some(WasmtimeLayoutError::FieldRefSize)
    } else {
        None
    }
}

/// What is wrong with the first field of a struct that has something wrong with it.
pub open spec fn first_field_defect(fields: Seq<WasmtimePersistentFieldLayout>) -> Option<
    WasmtimeLayoutError,
>
    decreases fields.len(),
{
    if fields.len() == 0 {
        None
    } else {
        match first_field_defect(fields.drop_last()) {
            Some(defect) => Some(defect),
            None => field_defect(fields.len() - 1, fields.last()),
        }
    }
}

/// The size of a struct with these fields, if they are in order.
pub open spec fn validated_body_size(fields: Seq<WasmtimePersistentFieldLayout>) -> Result<
    u32,
    WasmtimeLayoutError,
> {
    match first_field_defect(fields) {
        Some(defect) => Err(defect),
        None => body_size_of(fields.len()),
    }
}

/// The first defect of the first fields is that of all of them.
proof fn lemma_first_defect_is_kept(fields: Seq<WasmtimePersistentFieldLayout>, count: int)
    requires
        0 <= count <= fields.len(),
        first_field_defect(fields.take(count)) is Some,
    ensures
        first_field_defect(fields) == first_field_defect(fields.take(count)),
    decreases fields.len(),
{
    if count == fields.len() {
        assert(fields.take(count) =~= fields);
    } else {
        assert(fields.drop_last().take(count) =~= fields.take(count));
        lemma_first_defect_is_kept(fields.drop_last(), count);
    }
}

/// The size of a struct with these fields, each of which must have the index and the offset
/// of its position, and a size that suits what it holds.
pub fn validate_wasmtime_struct_field_layouts(fields: &[WasmtimePersistentFieldLayout]) -> (result:
    Result<u32, WasmtimeLayoutError>)
    ensures
        result == validated_body_size(fields@),
{
    let mut index: usize = 0;
    while index < fields.len()
        invariant
            index <= fields@.len(),
            first_field_defect(fields@.take(index as int)) is None,
        decreases fields@.len() - index,
    {
        let field = fields[index];
        proof {
            let taken = fields@.take(index + 1);
            assert(taken.drop_last() =~= fields@.take(index as int));
            assert(first_field_defect(taken) == field_defect(index as int, field));
            if field_defect(index as int, field) is Some {
                lemma_first_defect_is_kept(fields@, index + 1);
            }
        }
        if index > u32::MAX as usize {
            return Err(WasmtimeLayoutError::FieldOffsetOverflow);
        }
        let expected_index: u32 = index as u32;
        let expected_offset: u32 = match expected_index.checked_mul(
            PERSISTENT_OBJECT_ABI_SLOT_SIZE,
        ) {
            Some(offset) => offset,
            None => return Err(WasmtimeLayoutError::FieldOffsetOverflow),
        };
        if field.field_index != expected_index {
            return Err(WasmtimeLayoutError::FieldIndexNotCanonical);
        }
        if field.field_offset != expected_offset {
            return Err(WasmtimeLayoutError::FieldOffsetNotCanonical);
        }
        if field.value_size == 0 {
            return Err(WasmtimeLayoutError::FieldValueSizeZero);
        }
        if field.is_object_ref && field.value_size != PERSISTENT_OBJECT_ABI_SLOT_SIZE {
            return Err(WasmtimeLayoutError::FieldRefSize);
        }
        index += 1;
    }
    assert(fields@.take(index as int) =~= fields@);
    wasmtime_struct_body_size_from_field_count(fields.len())
}

/// The size of an array element, if it suits what the element holds.
pub open spec fn validated_element_size(element_size: u32, element_is_object_ref: bool) -> Result<
    u32,
    WasmtimeLayoutError,
> {
    if element_size == 0 {
        Err(WasmtimeLayoutError::ElementSizeZero)
    } else if element_is_object_ref && element_size != PERSISTENT_OBJECT_ABI_SLOT_SIZE {
        Err(WasmtimeLayoutError::ElementRefSize)
    } else {
        Ok(element_size)
    }
}

/// The size of an array element, which must suit what the element holds.
pub fn validate_wasmtime_array_element_layout(
    element_size: u32,
    element_is_object_ref: bool,
) -> (result: Result<u32, WasmtimeLayoutError>)
    ensures
        result == validated_element_size(element_size, element_is_object_ref),
{
    if element_size == 0 {
        return Err(WasmtimeLayoutError::ElementSizeZero);
    }
    if element_is_object_ref && element_size != PERSISTENT_OBJECT_ABI_SLOT_SIZE {
        return Err(WasmtimeLayoutError::ElementRefSize);
    }
    Ok(element_size)
}

/// The layout of an array type, whose element size must suit what the elements hold.
pub fn wasmtime_array_layout_from_element_layout(
    type_layout_id: TypeLayoutId,
    element_size: u32,
    element_is_object_ref: bool,
) -> (layout: Result<PersistentTypeLayout, WasmtimeLayoutError>)
    ensures
        match layout {
            Ok(layout) => validated_element_size(element_size, element_is_object_ref) is Ok
                && layout@ == array_layout(type_layout_id@, element_size, element_is_object_ref),
            Err(error) => validated_element_size(element_size, element_is_object_ref) == Err::<
                u32,
                WasmtimeLayoutError,
            >(error),
        },
{
    match validate_wasmtime_array_element_layout(element_size, element_is_object_ref) {
        Ok(size) => Ok(
            persistent_layout_for_wasmtime_array_type(type_layout_id, size, element_is_object_ref),
        ),
        Err(error) => Err(error),
    }
}

/// The field at position `index` that a value asks for.
pub open spec fn field_for_value(index: int, value: ObjectValue) -> WasmtimePersistentFieldLayout {
    WasmtimePersistentFieldLayout {
        field_index: index as u32,
        field_offset: (index * PERSISTENT_OBJECT_ABI_SLOT_SIZE) as u32,
        value_size: PERSISTENT_OBJECT_ABI_SLOT_SIZE,
        is_object_ref: value.is_object_ref(),
    }
}

/// The fields that some values ask for.
pub open spec fn fields_for_values(values: Seq<ObjectValue>) -> Seq<WasmtimePersistentFieldLayout> {
    values.map(|index: int, value: ObjectValue| field_for_value(index, value))
}

/// The size and the fields of a struct that holds `fields`.
pub fn wasmtime_struct_field_layouts_from_values(fields: &[ObjectValue]) -> (result: Result<
    (u32, Vec<WasmtimePersistentFieldLayout>),
    WasmtimeLayoutError,
>)
    ensures
        match result {
            Ok((body_size, layouts)) => body_size == fields@.len()
                * PERSISTENT_OBJECT_ABI_SLOT_SIZE && layouts@ == fields_for_values(fields@),
            Err(error) => fields@.len() * PERSISTENT_OBJECT_ABI_SLOT_SIZE > u32::MAX && error == (
            if (fields@.len() - 1) * PERSISTENT_OBJECT_ABI_SLOT_SIZE > u32::MAX {
                WasmtimeLayoutError::FieldOffsetOverflow
            } else {
                WasmtimeLayoutError::StructBodySize
            }),
        },
{
    let mut layouts: Vec<WasmtimePersistentFieldLayout> = Vec::new();
    let mut index: usize = 0;
    while index < fields.len()
        invariant
            index <= fields@.len(),
            layouts@.len() == index,
            (index - 1) * PERSISTENT_OBJECT_ABI_SLOT_SIZE <= u32::MAX,
            forall|i: int|
                0 <= i < index ==> layouts@[i] == field_for_value(i, #[trigger] fields@[i]),
        decreases fields@.len() - index,
    {
        if index > u32::MAX as usize {
            return Err(WasmtimeLayoutError::FieldOffsetOverflow);
        }
        let field_index: u32 = index as u32;
        let field_offset: u32 = match field_index.checked_mul(PERSISTENT_OBJECT_ABI_SLOT_SIZE) {
            Some(offset) => offset,
            None => return Err(WasmtimeLayoutError::FieldOffsetOverflow),
        };
        let is_object_ref = match fields[index] {
            ObjectValue::Ref(_) => true,
            _ => false,
        };
        layouts.push(
            WasmtimePersistentFieldLayout {
                field_index,
                field_offset,
                value_size: PERSISTENT_OBJECT_ABI_SLOT_SIZE,
                is_object_ref,
            },
        );
        index += 1;
    }
    assert(layouts@ =~= fields_for_values(fields@));
    match wasmtime_struct_body_size_from_field_count(fields.len()) {
        Ok(body_size) => Ok((body_size, layouts)),
        Err(error) => Err(error),
    }
}

/// The layout of an array that holds `elements`: it is an array of references if one of
/// the elements can refer to an object.
pub fn wasmtime_array_layout_from_values(
    type_layout_id: TypeLayoutId,
    elements: &[ObjectValue],
) -> (layout: PersistentTypeLayout)
    ensures
        layout@ == array_layout(
            type_layout_id@,
            PERSISTENT_OBJECT_ABI_SLOT_SIZE,
            exists|i: int| 0 <= i < elements@.len() && (#[trigger] elements@[i]).is_object_ref(),
        ),
{
    let mut any_object_ref = false;
    let mut index: usize = 0;
    while index < elements.len()
        invariant
            index <= elements@.len(),
            any_object_ref == (exists|i: int|
                0 <= i < index && (#[trigger] elements@[i]).is_object_ref()),
        decreases elements@.len() - index,
    {
        match elements[index] {
            ObjectValue::Ref(_) => {
                assert(elements@[index as int].is_object_ref());
                any_object_ref = true;
            },
            _ => {
                assert(!elements@[index as int].is_object_ref());
            },
        }
        index += 1;
    }
    persistent_layout_for_wasmtime_array_type(
        type_layout_id,
        PERSISTENT_OBJECT_ABI_SLOT_SIZE,
        any_object_ref,
    )
}

/// The fields that values ask for are always in order, and their struct has the size that
/// goes with them.
pub proof fn law_fields_for_values_are_valid(values: Seq<ObjectValue>)
    requires
        values.len() * PERSISTENT_OBJECT_ABI_SLOT_SIZE <= u32::MAX,
    ensures
        validated_body_size(fields_for_values(values)) == Ok::<u32, WasmtimeLayoutError>(
            (values.len() * PERSISTENT_OBJECT_ABI_SLOT_SIZE) as u32,
        ),
    decreases values.len(),
{
    let fields = fields_for_values(values);
    if values.len() > 0 {
        law_fields_for_values_are_valid(values.drop_last());
        assert(fields_for_values(values.drop_last()) =~= fields.drop_last());
    }
}

/// Fields pass validation exactly if each of them is in order and their struct's size fits,
/// and the size is one slot for each.
pub proof fn law_validated_body_size(fields: Seq<WasmtimePersistentFieldLayout>)
    ensures
        validated_body_size(fields) is Ok <==> fields.len() * PERSISTENT_OBJECT_ABI_SLOT_SIZE
            <= u32::MAX && forall|i: int|
            0 <= i < fields.len() ==> field_defect(i, #[trigger] fields[i]) is None,
        validated_body_size(fields) matches Ok(body_size) ==> body_size == fields.len()
            * PERSISTENT_OBJECT_ABI_SLOT_SIZE,
{
    lemma_no_field_defect(fields);
}

/// There is no first defect exactly if there is none at all.
proof fn lemma_no_field_defect(fields: Seq<WasmtimePersistentFieldLayout>)
    ensures
        first_field_defect(fields) is None <==> forall|i: int|
            0 <= i < fields.len() ==> field_defect(i, #[trigger] fields[i]) is None,
    decreases fields.len(),
{
    if fields.len() > 0 {
        let front = fields.drop_last();
        lemma_no_field_defect(front);
        assert(fields.last() == fields[fields.len() - 1]);
        assert forall|i: int| 0 <= i < front.len() implies #[trigger] front[i] == fields[i] by {}
        if first_field_defect(fields) is None {
            assert forall|i: int| 0 <= i < fields.len() implies field_defect(
                i,
                #[trigger] fields[i],
            ) is None by {
                if i < front.len() {
                    assert(front[i] == fields[i]);
                }
            }
        }
    }
}

/// One compiled struct type under two ids has one shape, and so one fingerprint.
pub proof fn law_struct_shape_is_independent_of_id(
    left_id: u32,
    right_id: u32,
    body_size: u32,
    fields: Seq<WasmtimePersistentFieldLayout>,
)
    ensures
        struct_layout(left_id, body_size, fields).same_shape(
            struct_layout(right_id, body_size, fields),
        ),
        struct_layout(left_id, body_size, fields).fingerprint() == struct_layout(
            right_id,
            body_size,
            fields,
        ).fingerprint(),
{
}

/// One compiled array type under two ids has one shape, and so one fingerprint.
pub proof fn law_array_shape_is_independent_of_id(
    left_id: u32,
    right_id: u32,
    element_size: u32,
    element_is_object_ref: bool,
)
    ensures
        array_layout(left_id, element_size, element_is_object_ref).same_shape(
            array_layout(right_id, element_size, element_is_object_ref),
        ),
        array_layout(left_id, element_size, element_is_object_ref).fingerprint() == array_layout(
            right_id,
            element_size,
            element_is_object_ref,
        ).fingerprint(),
{
}

/// The layout of a compiled struct type comes back from storage as it was, provided that it
/// does not have more fields than a record can hold.
pub proof fn law_struct_layout_survives_storage(
    id: u32,
    body_size: u32,
    fields: Seq<WasmtimePersistentFieldLayout>,
)
    requires
        id != 0,
        layout_record::record_len(fields.len()) is Ok,
    ensures
        layout_codec::parse(struct_layout(id, body_size, fields).encoding()) == Ok::<
            LayoutView,
            TypeLayoutError,
        >(struct_layout(id, body_size, fields)),
{
    layout_codec::law_decode_inverts_encode(struct_layout(id, body_size, fields));
}

/// The layout of a compiled array type comes back from storage as it was.
pub proof fn law_array_layout_survives_storage(
    id: u32,
    element_size: u32,
    element_is_object_ref: bool,
)
    requires
        id != 0,
    ensures
        layout_codec::parse(array_layout(id, element_size, element_is_object_ref).encoding())
            == Ok::<LayoutView, TypeLayoutError>(
            array_layout(id, element_size, element_is_object_ref),
        ),
{
    layout_codec::law_decode_inverts_encode(
        array_layout(id, element_size, element_is_object_ref),
    );
}

/// Whether a field has the index and the offset of its position, and a size: any but zero if
/// it holds no references, and that of a slot if it does.
pub open spec fn is_canonical_field(index: int, field: WasmtimePersistentFieldLayout) -> bool {
    &&& field.field_index == index
    &&& field.field_offset == 20 * index
    &&& field.value_size > 0
    &&& field.is_object_ref ==> field.value_size == 20
}

/// Fields pass validation exactly if 20 times their number fits a size, and each of them is
/// canonical; and then the size is 20 for each.
pub proof fn law_fields_pass_exactly(fields: Seq<WasmtimePersistentFieldLayout>)
    ensures
        validated_body_size(fields) is Ok <==> 20 * fields.len() <= u32::MAX && forall|i: int|
            0 <= i < fields.len() ==> is_canonical_field(i, #[trigger] fields[i]),
        validated_body_size(fields) matches Ok(body_size) ==> body_size == 20 * fields.len(),
{
    lemma_no_field_defect(fields);
    if validated_body_size(fields) is Ok {
        assert forall|i: int| 0 <= i < fields.len() implies is_canonical_field(
            i,
            #[trigger] fields[i],
        ) by {
            assert(field_defect(i, fields[i]) is None);
        }
    }
    if 20 * fields.len() <= u32::MAX && forall|i: int|
        0 <= i < fields.len() ==> is_canonical_field(i, #[trigger] fields[i]) {
        assert forall|i: int| 0 <= i < fields.len() implies field_defect(i, #[trigger] fields[i])
            is None by {
            assert(is_canonical_field(i, fields[i]));
        }
    }
}

/// The first field that is not canonical is named by what is wrong with it: an offset that is
/// too large goes first, then the index, the offset, a size of zero, and last a reference that
/// does not have the size of a slot.
pub proof fn law_first_bad_field_is_named(fields: Seq<WasmtimePersistentFieldLayout>, index: int)
    requires
        0 <= index < fields.len(),
        forall|i: int|
            0 <= i < index ==> is_canonical_field(i, #[trigger] fields[i]),
        20 * (index - 1) <= u32::MAX,
        20 * index > u32::MAX || !is_canonical_field(index, fields[index]),
    ensures
        validated_body_size(fields) == Err::<u32, WasmtimeLayoutError>(
            if 20 * index > u32::MAX {
                WasmtimeLayoutError::FieldOffsetOverflow
            } else if fields[index].field_index != index {
                WasmtimeLayoutError::FieldIndexNotCanonical
            } else if fields[index].field_offset != 20 * index {
                WasmtimeLayoutError::FieldOffsetNotCanonical
            } else if fields[index].value_size == 0 {
                WasmtimeLayoutError::FieldValueSizeZero
            } else {
                WasmtimeLayoutError::FieldRefSize
            },
        ),
{
    let front = fields.take(index);
    lemma_no_field_defect(front);
    assert forall|i: int| 0 <= i < front.len() implies field_defect(i, #[trigger] front[i])
        is None by {
        assert(front[i] == fields[i]);
        assert(is_canonical_field(i, fields[i]));
    }
    let taken = fields.take(index + 1);
    assert(taken.drop_last() =~= front);
    assert(first_field_defect(taken) == field_defect(index, fields[index]));
    lemma_first_defect_is_kept(fields, index + 1);
}

/// A struct takes 20 bytes for each field. It can have 214748364 fields; with more its size
/// does not fit, or even their number does not.
pub proof fn law_body_size_of_field_count(field_count: nat)
    ensures
        field_count <= 214748364 ==> body_size_of(field_count) == Ok::<u32, WasmtimeLayoutError>(
            (20 * field_count) as u32,
        ),
        214748364 < field_count <= u32::MAX ==> body_size_of(field_count) == Err::<
            u32,
            WasmtimeLayoutError,
        >(WasmtimeLayoutError::StructBodySize),
        field_count > u32::MAX ==> body_size_of(field_count) == Err::<u32, WasmtimeLayoutError>(
            WasmtimeLayoutError::StructFieldCount,
        ),
{
}

/// An array element passes exactly if it has a size, which is 20 if it holds references; and
/// then its size is what it was.
pub proof fn law_elements_pass_exactly(element_size: u32, element_is_object_ref: bool)
    ensures
        validated_element_size(element_size, element_is_object_ref) == Ok::<
            u32,
            WasmtimeLayoutError,
        >(element_size) <==> element_size > 0 && (element_is_object_ref ==> element_size == 20),
        element_size == 0 ==> validated_element_size(element_size, element_is_object_ref) == Err::<
            u32,
            WasmtimeLayoutError,
        >(WasmtimeLayoutError::ElementSizeZero),
        element_size != 0 && element_size != 20 && element_is_object_ref ==> validated_element_size(
            element_size,
            element_is_object_ref,
        ) == Err::<u32, WasmtimeLayoutError>(WasmtimeLayoutError::ElementRefSize),
{
}

/// The layout of a compiled struct type has the size, and for each field of the type a field
/// with its index, its offset and its size, which is traced exactly if it holds references.
pub proof fn law_struct_layout_keeps_the_type(
    id: u32,
    body_size: u32,
    fields: Seq<WasmtimePersistentFieldLayout>,
    index: int,
)
    ensures
        struct_layout(id, body_size, fields) matches LayoutView::Struct {
            id: named,
            fingerprint: _,
            body_size: size,
            fields: traced,
        } && {
            &&& named == id
            &&& size == body_size
            &&& traced.len() == fields.len()
            &&& 0 <= index < fields.len() ==> {
                &&& traced[index].field_index == fields[index].field_index
                &&& traced[index].field_offset == fields[index].field_offset
                &&& traced[index].value_size == fields[index].value_size
                &&& traced[index].kind == TraceSlotKind::ObjectRef <==> fields[index].is_object_ref
            }
        },
{
}

/// The layout of a compiled array type has the size of its elements, which are traced exactly
/// if they hold references.
pub proof fn law_array_layout_keeps_the_type(
    id: u32,
    element_size: u32,
    element_is_object_ref: bool,
)
    ensures
        array_layout(id, element_size, element_is_object_ref) matches LayoutView::Array {
            id: named,
            fingerprint: _,
            element_size: size,
            element_kind,
        } && {
            &&& named == id
            &&& size == element_size
            &&& element_kind == TraceSlotKind::ObjectRef <==> element_is_object_ref
        },
        slot_kind(element_is_object_ref) == TraceSlotKind::ObjectRef <==> element_is_object_ref,
{
}

/// Struct types that differ in one byte of one number of one field, or in whether one field
/// holds references, have layouts that share neither fingerprint nor shape.
pub proof fn law_different_structs_have_different_layouts(
    left_id: u32,
    right_id: u32,
    body_size: u32,
    left: Seq<WasmtimePersistentFieldLayout>,
    right: Seq<WasmtimePersistentFieldLayout>,
    index: int,
    at: nat,
)
    requires
        0 <= index < left.len(),
        right == left.update(index, right[index]),
        layout_fingerprint::fields_differ_in_byte(left[index], right[index], at) || right[index]
            == (WasmtimePersistentFieldLayout {
            is_object_ref: !left[index].is_object_ref,
            ..left[index]
        }),
    ensures
        struct_layout(left_id, body_size, left).fingerprint() != struct_layout(
            right_id,
            body_size,
            right,
        ).fingerprint(),
        !struct_layout(left_id, body_size, left).same_shape(
            struct_layout(right_id, body_size, right),
        ),
{
    if layout_fingerprint::fields_differ_in_byte(left[index], right[index], at) {
        layout_fingerprint::law_field_members_change_fingerprint(
            body_size,
            left,
            right,
            index,
            at,
        );
    } else {
        layout_fingerprint::law_field_ref_flag_changes_fingerprint(body_size, left, right, index);
    }
}

/// Types that nobody owns have namespace zero, and those of instance `n` have namespace
/// `n + 1`.
pub proof fn law_namespace_numbers(instance: InstanceId)
    ensures
        namespace(None) == 0,
        namespace(Some(instance)) == instance@ + 1,
{
}

/// The fields that values ask for: one slot for each value, in order, which holds references
/// exactly if the value is one.
pub proof fn law_fields_for_values(values: Seq<ObjectValue>, index: int)
    requires
        0 <= index < values.len(),
        20 * values.len() <= u32::MAX,
    ensures
        fields_for_values(values).len() == values.len(),
        fields_for_values(values)[index].field_index == index,
        fields_for_values(values)[index].field_offset == 20 * index,
        fields_for_values(values)[index].value_size == 20,
        fields_for_values(values)[index].is_object_ref <==> exists|object: Option<
            crate::values::ObjectId,
        >|
            values[index] == ObjectValue::Ref(object),
{
    if let ObjectValue::Ref(object) = values[index] {
        assert(values[index] == ObjectValue::Ref(object));
    }
}

} // verus!
