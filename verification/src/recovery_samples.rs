//! Small regions of objects that recovery is tried on.

use vstd::prelude::*;

use crate::object_model::PackedGranuleDomain;
use crate::type_layout::{
    LayoutView, PersistentTypeLayout, StructTraceField, TraceSlotKind, TypeLayoutId,
};
use crate::values::{ObjectId, ObjectPayload, ObjectValue, PayloadView};

verus! {

/// The fingerprints of the struct layouts of the samples, but for their ids.
pub const SAMPLE_STRUCT_FINGERPRINT: u64 = 0x5354_5255_4354_2000;

/// The fingerprints of the array layouts of the samples, but for their ids.
pub const SAMPLE_ARRAY_FINGERPRINT: u64 = 0x4152_5241_5900_2000;

/// The layout of a struct with a number and a reference.
pub open spec fn sample_struct_layout(id: u32) -> LayoutView {
    LayoutView::Struct {
        id,
        fingerprint: SAMPLE_STRUCT_FINGERPRINT | (id as u64),
        body_size: 40,
        fields: seq![
            StructTraceField {
                field_index: 0,
                field_offset: 0,
                value_size: 4,
                kind: TraceSlotKind::Scalar,
            },
            StructTraceField {
                field_index: 1,
                field_offset: 20,
                value_size: 20,
                kind: TraceSlotKind::ObjectRef,
            },
        ],
    }
}

/// The layout of an array of references.
pub open spec fn sample_array_layout(id: u32) -> LayoutView {
    LayoutView::Array {
        id,
        fingerprint: SAMPLE_ARRAY_FINGERPRINT | (id as u64),
        element_size: 20,
        element_kind: TraceSlotKind::ObjectRef,
    }
}

/// The layout of a struct with a number and a reference.
pub fn recovery_struct_layout(layout_id: u32) -> (layout: PersistentTypeLayout)
    requires
        layout_id != 0,
    ensures
        layout@ == sample_struct_layout(layout_id),
{
    let mut fields: Vec<StructTraceField> = Vec::new();
    fields.push(
        StructTraceField {
            field_index: 0,
            field_offset: 0,
            value_size: 4,
            kind: TraceSlotKind::Scalar,
        },
    );
    fields.push(
        StructTraceField {
            field_index: 1,
            field_offset: 20,
            value_size: 20,
            kind: TraceSlotKind::ObjectRef,
        },
    );
    let layout = PersistentTypeLayout::Struct {
        id: TypeLayoutId::new(layout_id).unwrap(),
        fingerprint: SAMPLE_STRUCT_FINGERPRINT | (layout_id as u64),
        body_size: 40,
        fields,
    };
    assert(layout@->Struct_fields =~= sample_struct_layout(layout_id)->Struct_fields);
    layout
}

/// The layout of an array of references.
pub fn recovery_array_layout(layout_id: u32) -> (layout: PersistentTypeLayout)
    requires
        layout_id != 0,
    ensures
        layout@ == sample_array_layout(layout_id),
{
    PersistentTypeLayout::Array {
        id: TypeLayoutId::new(layout_id).unwrap(),
        fingerprint: SAMPLE_ARRAY_FINGERPRINT | (layout_id as u64),
        element_size: 20,
        element_kind: TraceSlotKind::ObjectRef,
    }
}

/// A committed version of an object, and the stream that it was published to.
#[derive(Clone, Debug, PartialEq, Eq)]
pub struct SampleObject {
    pub stream_id: u32,
    pub domain: PackedGranuleDomain,
    pub object_id: u64,
    pub version: u32,
    pub type_layout_id: u32,
    pub payload: ObjectPayload,
}

/// A committed update of a global that refers to objects, and the stream that it was published
/// to.
#[derive(Clone, Debug, PartialEq, Eq)]
pub struct SampleRoot {
    pub stream_id: u32,
    pub global_index: u64,
    pub version: u32,
    pub object_ids: Vec<Option<u64>>,
}

/// What a region holds.
#[derive(Clone, Debug, PartialEq, Eq)]
pub struct SampleRegion {
    pub layouts: Vec<PersistentTypeLayout>,
    pub objects: Vec<SampleObject>,
    pub roots: Vec<SampleRoot>,
}

/// Whether an object of a region is the first version of `object_id`, in a stream and with a
/// layout.
pub open spec fn is_sample(
    object: SampleObject,
    stream_id: u32,
    object_id: u64,
    type_layout_id: u32,
    payload: PayloadView,
) -> bool {
    &&& object.stream_id == stream_id
    &&& object.domain == (if payload is Struct {
        PackedGranuleDomain::TStruct
    } else {
        PackedGranuleDomain::TArray
    })
    &&& object.object_id == object_id
    &&& object.version == 1
    &&& object.type_layout_id == type_layout_id
    &&& object.payload@ == payload
}

/// The contents of the struct that both samples have: one, and a reference to nothing.
pub open spec fn leaf_payload() -> PayloadView {
    PayloadView::Struct(seq![ObjectValue::I32(1), ObjectValue::Ref(None)])
}

/// A reference to the struct that both samples have.
pub open spec fn leaf_ref() -> ObjectValue {
    ObjectValue::Ref(Some(ObjectId { object_index: 41 }))
}

/// Where an object with some contents is published.
fn payload_domain(payload: &ObjectPayload) -> (domain: PackedGranuleDomain)
    ensures
        domain == (if payload@ is Struct {
            PackedGranuleDomain::TStruct
        } else {
            PackedGranuleDomain::TArray
        }),
{
    match payload {
        ObjectPayload::Struct(_) => PackedGranuleDomain::TStruct,
        ObjectPayload::Array(_) => PackedGranuleDomain::TArray,
    }
}

/// The first version of an object.
pub fn sample_object(
    stream_id: u32,
    object_id: u64,
    type_layout_id: u32,
    payload: ObjectPayload,
) -> (object: SampleObject)
    ensures
        is_sample(object, stream_id, object_id, type_layout_id, payload@),
{
    let domain = payload_domain(&payload);
    SampleObject { stream_id, domain, object_id, version: 1, type_layout_id, payload }
}

fn pair(first: ObjectValue, second: ObjectValue) -> (values: Vec<ObjectValue>)
    ensures
        values@ == seq![first, second],
{
    let mut values: Vec<ObjectValue> = Vec::new();
    values.push(first);
    values.push(second);
    assert(values@ =~= seq![first, second]);
    values
}

/// A region with a struct and an array that refers to it.
pub fn sample_region_with_two_object_winners() -> (region: SampleRegion)
    ensures
        region.layouts@.len() == 2,
        region.layouts@[0]@ == sample_struct_layout(7),
        region.layouts@[1]@ == sample_array_layout(9),
        region.objects@.len() == 2,
        is_sample(region.objects@[0], 1, 41, 7, leaf_payload()),
        is_sample(
            region.objects@[1],
            2,
            42,
            9,
            PayloadView::Array(seq![leaf_ref(), ObjectValue::I64(9)]),
        ),
        region.roots@.len() == 0,
{
    let mut layouts: Vec<PersistentTypeLayout> = Vec::new();
    layouts.push(recovery_struct_layout(7));
    layouts.push(recovery_array_layout(9));
    let mut objects: Vec<SampleObject> = Vec::new();
    objects.push(
        sample_object(
            1,
            41,
            7,
            ObjectPayload::Struct(pair(ObjectValue::I32(1), ObjectValue::Ref(None))),
        ),
    );
    objects.push(
        sample_object(
            2,
            42,
            9,
            ObjectPayload::Array(
                pair(
                    ObjectValue::Ref(Some(ObjectId { object_index: 41 })),
                    ObjectValue::I64(9),
                ),
            ),
        ),
    );
    SampleRegion { layouts, objects, roots: Vec::new() }
}

/// A region with a struct, a struct that refers to it, and a global that refers to the latter.
pub fn sample_region_with_two_object_winners_and_global_root() -> (region: SampleRegion)
    ensures
        region.layouts@.len() == 1,
        region.layouts@[0]@ == sample_struct_layout(7),
        region.objects@.len() == 2,
        is_sample(region.objects@[0], 1, 41, 7, leaf_payload()),
        is_sample(
            region.objects@[1],
            2,
            42,
            7,
            PayloadView::Struct(seq![ObjectValue::I32(2), leaf_ref()]),
        ),
        region.roots@.len() == 1,
        region.roots@[0].stream_id == 3,
        region.roots@[0].global_index == 1,
        region.roots@[0].version == 1,
        region.roots@[0].object_ids@ == seq![Some(42u64)],
{
    let mut layouts: Vec<PersistentTypeLayout> = Vec::new();
    layouts.push(recovery_struct_layout(7));
    let mut objects: Vec<SampleObject> = Vec::new();
    objects.push(
        sample_object(
            1,
            41,
            7,
            ObjectPayload::Struct(pair(ObjectValue::I32(1), ObjectValue::Ref(None))),
        ),
    );
    objects.push(
        sample_object(
            2,
            42,
            7,
            ObjectPayload::Struct(
                pair(
                    ObjectValue::I32(2),
                    ObjectValue::Ref(Some(ObjectId { object_index: 41 })),
                ),
            ),
        ),
    );
    let mut object_ids: Vec<Option<u64>> = Vec::new();
    object_ids.push(Some(42));
    assert(object_ids@ =~= seq![Some(42u64)]);
    let mut roots: Vec<SampleRoot> = Vec::new();
    roots.push(SampleRoot { stream_id: 3, global_index: 1, version: 1, object_ids });
    SampleRegion { layouts, objects, roots }
}

/// The struct layout of the samples: a scalar of four bytes in the first slot, a reference in
/// the second, and a fingerprint made from the id.
pub proof fn law_sample_struct_layout(layout_id: u32)
    ensures
        sample_struct_layout(layout_id) matches LayoutView::Struct {
            id,
            fingerprint,
            body_size,
            fields,
        } && {
            &&& id == layout_id
            &&& fingerprint == 0x5354_5255_4354_2000 | (layout_id as u64)
            &&& body_size == 40
            &&& fields.len() == 2
            &&& fields[0].field_index == 0
            &&& fields[0].field_offset == 0
            &&& fields[0].value_size == 4
            &&& fields[0].kind is Scalar
            &&& fields[1].field_index == 1
            &&& fields[1].field_offset == 20
            &&& fields[1].value_size == 20
            &&& fields[1].kind is ObjectRef
        },
{
}

/// The array layout of the samples: references of the size of a slot, and a fingerprint made
/// from the id.
pub proof fn law_sample_array_layout(layout_id: u32)
    ensures
        sample_array_layout(layout_id) matches LayoutView::Array {
            id,
            fingerprint,
            element_size,
            element_kind,
        } && {
            &&& id == layout_id
            &&& fingerprint == 0x4152_5241_5900_2000 | (layout_id as u64)
            &&& element_size == 20
            &&& element_kind is ObjectRef
        },
{
}

/// A sample is the first version of its object, in the domain that its contents say.
pub proof fn law_samples(
    object: SampleObject,
    stream_id: u32,
    object_id: u64,
    type_layout_id: u32,
    payload: PayloadView,
)
    ensures
        is_sample(object, stream_id, object_id, type_layout_id, payload) <==> {
            &&& object.stream_id == stream_id
            &&& object.domain is TStruct <==> payload is Struct
            &&& object.object_id == object_id
            &&& object.version == 1
            &&& object.type_layout_id == type_layout_id
            &&& object.payload@ == payload
        },
        leaf_payload() matches PayloadView::Struct(fields) && fields.len() == 2 && fields[0]
            == ObjectValue::I32(1) && fields[1] == ObjectValue::Ref(None),
        leaf_ref() == ObjectValue::Ref(Some(ObjectId { object_index: 41 })),
{
}

} // verus!
