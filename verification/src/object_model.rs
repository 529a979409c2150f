//! A model of how objects are rebuilt from what transactions published of them.
//!
//! Of each object the committed version with the largest number comes back; what was
//! published and not committed does not.

use std::collections::BTreeMap;

use vstd::prelude::*;

use crate::type_layout::{
    LayoutView, PersistentTypeLayout, StructTraceField, TraceSlotKind, TypeLayoutId,
};
use crate::values::{ObjectKind, ObjectPayload, ObjectValue, RecordedKind};

verus! {

/// The first type layout id of the model.
pub const MODEL_TYPE_LAYOUT_BASE: u32 = 100;

/// What the number of a transaction has over that of its stream.
pub const MODEL_TRANSACTION_BASE: u32 = 400;

/// The fingerprints of the model's struct layouts, but for their ids.
pub const MODEL_STRUCT_FINGERPRINT: u64 = 0x5354_5255_4354_1000;

/// The fingerprints of the model's array layouts, but for their ids.
pub const MODEL_ARRAY_FINGERPRINT: u64 = 0x4152_5241_5900_1000;

/// A version of an object that a transaction published, and whether it committed.
#[derive(Clone, Copy, Debug, PartialEq, Eq, Structural)]
pub struct ModelObjectRecord {
    pub object_id: u64,
    pub version: u32,
    pub kind: RecordedKind,
    pub field: i32,
    pub committed: bool,
}

/// What a version is made from.
#[derive(Clone, Copy, Debug, PartialEq, Eq, Structural)]
pub struct ModelObjectSeed {
    pub object_id: u64,
    pub field: i32,
    pub committed: bool,
}

/// Where a version of an object is published.
#[derive(Clone, Copy, Debug, PartialEq, Eq, Structural)]
pub enum PackedGranuleDomain {
    TStruct,
    TArray,
}

/// Why a version has no place in the model.
#[derive(Clone, Copy, Debug, PartialEq, Eq, Structural)]
pub enum ObjectModelError {
    /// The number of a kind names nothing.
    UnknownKind { raw: u16 },
    /// The model has structs and arrays only.
    UnsupportedKind { kind: ObjectKind },
    /// The number of an object is too large to make a type layout id from.
    ObjectIdTooLarge { object_id: u64 },
    /// The position of a version is too large to make a transaction number from.
    TransactionIdTooLarge,
}

/// The number of versions of an object among the first `count` seeds.
pub open spec fn versions_before(seeds: Seq<ModelObjectSeed>, object_id: u64, count: nat) -> nat
    decreases count,
{
    if count == 0 {
        0
    } else {
        versions_before(seeds, object_id, (count - 1) as nat) + if seeds[count - 1].object_id
            == object_id {
            1nat
        } else {
            0nat
        }
    }
}

/// The version that seed `index` makes: versions of one object count up from one.
pub open spec fn seeded_record(
    kinds: Seq<RecordedKind>,
    seeds: Seq<ModelObjectSeed>,
    index: int,
) -> ModelObjectRecord {
    ModelObjectRecord {
        object_id: seeds[index].object_id,
        version: (versions_before(seeds, seeds[index].object_id, index as nat) + 1) as u32,
        kind: kinds[seeds[index].object_id as int],
        field: seeds[index].field,
        committed: seeds[index].committed,
    }
}

proof fn lemma_versions_before_bound(seeds: Seq<ModelObjectSeed>, object_id: u64, count: nat)
    ensures
        versions_before(seeds, object_id, count) <= count,
    decreases count,
{
    if count > 0 {
        lemma_versions_before_bound(seeds, object_id, (count - 1) as nat);
    }
}

/// The history that seeds make, in which object `i` is of kind `kinds[i]`.
pub fn model_object_history(kinds: &[RecordedKind], seeds: &[ModelObjectSeed]) -> (history: Vec<
    ModelObjectRecord,
>)
    requires
        seeds@.len() <= u32::MAX,
        forall|i: int| 0 <= i < seeds@.len() ==> (#[trigger] seeds@[i]).object_id < kinds@.len(),
    ensures
        history@.len() == seeds@.len(),
        forall|i: int|
            0 <= i < seeds@.len() ==> #[trigger] history@[i] == seeded_record(kinds@, seeds@, i),
{
    let mut history: Vec<ModelObjectRecord> = Vec::new();
    let mut versions: BTreeMap<u64, u32> = BTreeMap::new();
    let mut index: usize = 0;
    while index < seeds.len()
        invariant
            index <= seeds@.len() <= u32::MAX,
            forall|i: int|
                0 <= i < seeds@.len() ==> (#[trigger] seeds@[i]).object_id < kinds@.len(),
            history@.len() == index,
            forall|i: int|
                0 <= i < index ==> #[trigger] history@[i] == seeded_record(kinds@, seeds@, i),
            forall|object_id: u64|
                (if versions@.contains_key(object_id) {
                    versions@[object_id] as nat
                } else {
                    0
                }) == #[trigger] versions_before(seeds@, object_id, index as nat),
        decreases seeds@.len() - index,
    {
        let seed = seeds[index];
        proof {
            lemma_versions_before_bound(seeds@, seed.object_id, index as nat);
            assert(seeds@[index as int].object_id < kinds@.len());
        }
        let version: u32 = match versions.get(&seed.object_id) {
            Some(version) => *version + 1,
            None => 1,
        };
        versions.insert(seed.object_id, version);
        history.push(
            ModelObjectRecord {
                object_id: seed.object_id,
                version,
                kind: kinds[seed.object_id as usize],
                field: seed.field,
                committed: seed.committed,
            },
        );
        proof {
            assert forall|object_id: u64|
                (if versions@.contains_key(object_id) {
                    versions@[object_id] as nat
                } else {
                    0
                }) == #[trigger] versions_before(seeds@, object_id, (index + 1) as nat) by {
                let before = versions_before(seeds@, object_id, index as nat);
            }
        }
        index += 1;
    }
    history
}

/// Whether no version of an object is committed twice.
pub open spec fn has_distinct_versions(history: Seq<ModelObjectRecord>) -> bool {
    forall|i: int, j: int|
        0 <= i < j < history.len() && (#[trigger] history[i]).committed && (
        #[trigger] history[j]).committed && history[i].object_id == history[j].object_id
            ==> history[i].version != history[j].version
}

proof fn lemma_versions_grow(
    seeds: Seq<ModelObjectSeed>,
    object_id: u64,
    left: nat,
    right: nat,
)
    requires
        left <= right,
    ensures
        versions_before(seeds, object_id, left) <= versions_before(seeds, object_id, right),
        left < right && seeds[left as int].object_id == object_id ==> versions_before(
            seeds,
            object_id,
            left,
        ) < versions_before(seeds, object_id, right),
    decreases right,
{
    if left < right {
        lemma_versions_grow(seeds, object_id, left, (right - 1) as nat);
    }
}

/// In the histories that seeds make no version of an object occurs twice.
pub proof fn law_seeded_history_has_distinct_versions(
    kinds: Seq<RecordedKind>,
    seeds: Seq<ModelObjectSeed>,
    history: Seq<ModelObjectRecord>,
)
    requires
        seeds.len() <= u32::MAX,
        history.len() == seeds.len(),
        forall|i: int|
            0 <= i < seeds.len() ==> #[trigger] history[i] == seeded_record(kinds, seeds, i),
    ensures
        has_distinct_versions(history),
{
    assert forall|i: int, j: int|
        0 <= i < j < history.len() && (#[trigger] history[i]).committed && (
        #[trigger] history[j]).committed && history[i].object_id
            == history[j].object_id implies history[i].version != history[j].version by {
        let object_id = seeds[i].object_id;
        lemma_versions_grow(seeds, object_id, i as nat, j as nat);
        lemma_versions_before_bound(seeds, object_id, j as nat);
    }
}

/// Whether `record` is the version of object `object_id` that comes back: it is committed, and
/// no committed version of the object is larger.
pub open spec fn is_latest(
    history: Seq<ModelObjectRecord>,
    object_id: u64,
    record: ModelObjectRecord,
) -> bool {
    &&& history.contains(record)
    &&& record.committed
    &&& record.object_id == object_id
    &&& forall|i: int|
        0 <= i < history.len() && (#[trigger] history[i]).committed && history[i].object_id
            == object_id ==> history[i].version <= record.version
}

/// Whether a version of object `object_id` is committed.
pub open spec fn is_committed(history: Seq<ModelObjectRecord>, object_id: u64) -> bool {
    exists|i: int|
        0 <= i < history.len() && (#[trigger] history[i]).committed && history[i].object_id
            == object_id
}

/// Only one version can come back.
pub proof fn law_latest_is_unique(
    history: Seq<ModelObjectRecord>,
    object_id: u64,
    left: ModelObjectRecord,
    right: ModelObjectRecord,
)
    requires
        has_distinct_versions(history),
        is_latest(history, object_id, left),
        is_latest(history, object_id, right),
    ensures
        left == right,
{
    let i = choose|i: int| 0 <= i < history.len() && history[i] == left;
    let j = choose|j: int| 0 <= j < history.len() && history[j] == right;
    assert(history[i].committed && history[j].committed);
    if i < j {
        assert(history[i].version != history[j].version);
    } else if j < i {
        assert(history[j].version != history[i].version);
    }
}

/// The versions that come back, by object.
pub fn expected_latest_committed_by_object(history: &[ModelObjectRecord]) -> (latest: BTreeMap<
    u64,
    ModelObjectRecord,
>)
    requires
        has_distinct_versions(history@),
    ensures
        forall|object_id: u64| #[trigger]
            latest@.contains_key(object_id) <==> is_committed(history@, object_id),
        forall|object_id: u64| #[trigger]
            latest@.contains_key(object_id) ==> is_latest(history@, object_id, latest@[object_id]),
{
    let mut latest: BTreeMap<u64, ModelObjectRecord> = BTreeMap::new();
    let mut index: usize = 0;
    while index < history.len()
        invariant
            index <= history@.len(),
            forall|object_id: u64| #[trigger]
                latest@.contains_key(object_id) <==> is_committed(
                    history@.take(index as int),
                    object_id,
                ),
            forall|object_id: u64| #[trigger]
                latest@.contains_key(object_id) ==> is_latest(
                    history@.take(index as int),
                    object_id,
                    latest@[object_id],
                ),
        decreases history@.len() - index,
    {
        let record = history[index];
        let ghost before = latest@;
        if record.committed {
            let replace = match latest.get(&record.object_id) {
                Some(current) => current.version <= record.version,
                None => true,
            };
            if replace {
                latest.insert(record.object_id, record);
            }
        }
        proof {
            lemma_latest_step(history@, index as int, before, latest@);
        }
        index += 1;
    }
    assert(history@.take(index as int) =~= history@);
    latest
}

/// One more version either comes back in place of the one before, or does not matter.
proof fn lemma_latest_step(
    history: Seq<ModelObjectRecord>,
    index: int,
    before: Map<u64, ModelObjectRecord>,
    after: Map<u64, ModelObjectRecord>,
)
    requires
        0 <= index < history.len(),
        forall|object_id: u64| #[trigger]
            before.contains_key(object_id) <==> is_committed(history.take(index), object_id),
        forall|object_id: u64| #[trigger]
            before.contains_key(object_id) ==> is_latest(
                history.take(index),
                object_id,
                before[object_id],
            ),
        after == (if history[index].committed && (!before.contains_key(history[index].object_id)
            || before[history[index].object_id].version <= history[index].version) {
            before.insert(history[index].object_id, history[index])
        } else {
            before
        }),
    ensures
        forall|object_id: u64| #[trigger]
            after.contains_key(object_id) <==> is_committed(history.take(index + 1), object_id),
        forall|object_id: u64| #[trigger]
            after.contains_key(object_id) ==> is_latest(
                history.take(index + 1),
                object_id,
                after[object_id],
            ),
{
    let fewer = history.take(index);
    let more = history.take(index + 1);
    let record = history[index];
    assert(more[index] == record);
    assert(forall|i: int| 0 <= i < index ==> #[trigger] fewer[i] == more[i]);
    assert forall|object_id: u64| #[trigger]
        after.contains_key(object_id) <==> is_committed(more, object_id) by {
        if is_committed(fewer, object_id) {
            let i = choose|i: int|
                0 <= i < fewer.len() && (#[trigger] fewer[i]).committed && fewer[i].object_id
                    == object_id;
            assert(more[i] == fewer[i]);
        }
        if is_committed(more, object_id) {
            let i = choose|i: int|
                0 <= i < more.len() && (#[trigger] more[i]).committed && more[i].object_id
                    == object_id;
            if i < index {
                assert(fewer[i] == more[i]);
                assert(before.contains_key(object_id));
            }
        }
        if after.contains_key(object_id) && !before.contains_key(object_id) {
            assert(more[index].committed);
        }
        if before.contains_key(object_id) {
            assert(is_committed(fewer, object_id));
        }
    }
    assert forall|object_id: u64| #[trigger] after.contains_key(object_id) implies is_latest(
        more,
        object_id,
        after[object_id],
    ) by {
        let found = after[object_id];
        if before.contains_key(object_id) {
            let earlier = before[object_id];
            assert(is_latest(fewer, object_id, earlier));
            let at = choose|at: int| 0 <= at < fewer.len() && fewer[at] == earlier;
            assert(more[at] == earlier);
        } else {
            assert(!is_committed(fewer, object_id));
        }
        assert(more[index] == record);
        assert forall|i: int|
            0 <= i < more.len() && (#[trigger] more[i]).committed && more[i].object_id
                == object_id implies more[i].version <= found.version by {
            if i < index {
                assert(fewer[i] == more[i]);
            }
        }
    }
}

/// The contents of a version: one field or one element.
pub open spec fn is_payload_of(payload: ObjectPayload, record: ModelObjectRecord) -> bool {
    match (payload, record.kind) {
        (ObjectPayload::Struct(fields), RecordedKind::Known(ObjectKind::Struct)) => fields@ == seq![
            ObjectValue::I32(record.field),
        ],
        (ObjectPayload::Array(elements), RecordedKind::Known(ObjectKind::Array)) => elements@
            == seq![ObjectValue::I32(record.field)],
        _ => false,
    }
}

/// Whether the model has objects of a kind.
pub open spec fn is_supported(kind: RecordedKind) -> bool {
    kind == RecordedKind::Known(ObjectKind::Struct) || kind == RecordedKind::Known(
        ObjectKind::Array,
    )
}

/// Why the model has no objects of a kind.
pub open spec fn kind_error(kind: RecordedKind) -> ObjectModelError {
    match kind {
        RecordedKind::Known(kind) => ObjectModelError::UnsupportedKind { kind },
        RecordedKind::Unknown(raw) => ObjectModelError::UnknownKind { raw },
    }
}

/// The kind of a version.
pub fn object_kind_of(record: &ModelObjectRecord) -> (kind: Result<ObjectKind, ObjectModelError>)
    ensures
        match record.kind {
            RecordedKind::Known(known) => kind == Ok::<ObjectKind, ObjectModelError>(known),
            RecordedKind::Unknown(raw) => kind == Err::<ObjectKind, ObjectModelError>(
                ObjectModelError::UnknownKind { raw },
            ),
        },
{
    match record.kind {
        RecordedKind::Known(kind) => Ok(kind),
        RecordedKind::Unknown(raw) => Err(ObjectModelError::UnknownKind { raw }),
    }
}

/// The contents of a version.
pub fn model_payload(record: &ModelObjectRecord) -> (payload: Result<
    ObjectPayload,
    ObjectModelError,
>)
    ensures
        match payload {
            Ok(payload) => is_payload_of(payload, *record),
            Err(error) => !is_supported(record.kind) && error == kind_error(record.kind),
        },
{
    let mut values: Vec<ObjectValue> = Vec::new();
    values.push(ObjectValue::I32(record.field));
    assert(values@ =~= seq![ObjectValue::I32(record.field)]);
    match object_kind_of(record) {
        Ok(ObjectKind::Struct) => Ok(ObjectPayload::Struct(values)),
        Ok(ObjectKind::Array) => Ok(ObjectPayload::Array(values)),
        Ok(kind) => Err(ObjectModelError::UnsupportedKind { kind }),
        Err(error) => Err(error),
    }
}

/// Where objects of a kind are published.
pub open spec fn domain_of(kind: RecordedKind) -> Result<PackedGranuleDomain, ObjectModelError> {
    match kind {
        RecordedKind::Known(ObjectKind::Struct) => Ok(PackedGranuleDomain::TStruct),
        RecordedKind::Known(ObjectKind::Array) => Ok(PackedGranuleDomain::TArray),
        _ => Err(kind_error(kind)),
    }
}

/// Where a version is published.
pub fn model_domain(record: &ModelObjectRecord) -> (domain: Result<
    PackedGranuleDomain,
    ObjectModelError,
>)
    ensures
        domain == domain_of(record.kind),
{
    match object_kind_of(record) {
        Ok(ObjectKind::Struct) => Ok(PackedGranuleDomain::TStruct),
        Ok(ObjectKind::Array) => Ok(PackedGranuleDomain::TArray),
        Ok(kind) => Err(ObjectModelError::UnsupportedKind { kind }),
        Err(error) => Err(error),
    }
}

/// Whether the number of an object leaves room for the base of the type layout ids, or is too
/// large to be considered at all.
pub open spec fn has_layout_room(object_id: u64) -> bool {
    object_id > u32::MAX || object_id + MODEL_TYPE_LAYOUT_BASE <= u32::MAX
}

/// The type layout id of an object.
pub open spec fn layout_id_of(object_id: u64) -> Result<u32, ObjectModelError> {
    if object_id > u32::MAX {
        Err(ObjectModelError::ObjectIdTooLarge { object_id })
    } else {
        Ok((object_id + MODEL_TYPE_LAYOUT_BASE) as u32)
    }
}

/// The type layout id of an object.
pub fn model_type_layout_id(record: &ModelObjectRecord) -> (id: Result<u32, ObjectModelError>)
    requires
        has_layout_room(record.object_id),
    ensures
        id == layout_id_of(record.object_id),
{
    if record.object_id > u32::MAX as u64 {
        return Err(ObjectModelError::ObjectIdTooLarge { object_id: record.object_id });
    }
    Ok(MODEL_TYPE_LAYOUT_BASE + record.object_id as u32)
}

/// The type layout of an object.
pub open spec fn layout_of(record: ModelObjectRecord) -> Result<LayoutView, ObjectModelError> {
    match layout_id_of(record.object_id) {
        Err(error) => Err(error),
        Ok(id) => match record.kind {
            RecordedKind::Known(ObjectKind::Struct) => Ok(
                LayoutView::Struct {
                    id,
                    fingerprint: MODEL_STRUCT_FINGERPRINT | (id as u64),
                    body_size: 4,
                    fields: seq![
                        StructTraceField {
                            field_index: 0,
                            field_offset: 0,
                            value_size: 4,
                            kind: TraceSlotKind::Scalar,
                        },
                    ],
                },
            ),
            RecordedKind::Known(ObjectKind::Array) => Ok(
                LayoutView::Array {
                    id,
                    fingerprint: MODEL_ARRAY_FINGERPRINT | (id as u64),
                    element_size: 4,
                    element_kind: TraceSlotKind::Scalar,
                },
            ),
            kind => Err(kind_error(kind)),
        },
    }
}

/// The type layout of an object.
pub fn model_type_layout(record: &ModelObjectRecord) -> (layout: Result<
    PersistentTypeLayout,
    ObjectModelError,
>)
    requires
        has_layout_room(record.object_id),
    ensures
        match layout {
            Ok(layout) => layout_of(*record) == Ok::<LayoutView, ObjectModelError>(layout@),
            Err(error) => layout_of(*record) == Err::<LayoutView, ObjectModelError>(error),
        },
{
    let raw: u32 = match model_type_layout_id(record) {
        Ok(raw) => raw,
        Err(error) => return Err(error),
    };
    let id = TypeLayoutId::new(raw).unwrap();
    match object_kind_of(record) {
        Ok(ObjectKind::Struct) => {
            let mut fields: Vec<StructTraceField> = Vec::new();
            fields.push(
                StructTraceField {
                    field_index: 0,
                    field_offset: 0,
                    value_size: 4,
                    kind: TraceSlotKind::Scalar,
                },
            );
            let layout = PersistentTypeLayout::Struct {
                id,
                fingerprint: MODEL_STRUCT_FINGERPRINT | (raw as u64),
                body_size: 4,
                fields,
            };
            assert(layout@->Struct_fields =~= (layout_of(*record)->Ok_0)->Struct_fields);
            Ok(layout)
        },
        Ok(ObjectKind::Array) => Ok(
            PersistentTypeLayout::Array {
                id,
                fingerprint: MODEL_ARRAY_FINGERPRINT | (raw as u64),
                element_size: 4,
                element_kind: TraceSlotKind::Scalar,
            },
        ),
        Ok(kind) => Err(ObjectModelError::UnsupportedKind { kind }),
        Err(error) => Err(error),
    }
}

/// A version that is not committed does not change what comes back.
pub proof fn law_loose_end_does_not_matter(
    history: Seq<ModelObjectRecord>,
    loose: ModelObjectRecord,
    object_id: u64,
    record: ModelObjectRecord,
)
    requires
        !loose.committed,
    ensures
        is_latest(history.push(loose), object_id, record) <==> is_latest(
            history,
            object_id,
            record,
        ),
        is_committed(history.push(loose), object_id) <==> is_committed(history, object_id),
{
    let more = history.push(loose);
    assert(more[history.len() as int] == loose);
    assert(forall|i: int| 0 <= i < history.len() ==> #[trigger] more[i] == history[i]);
    if is_committed(history, object_id) {
        let i = choose|i: int|
            0 <= i < history.len() && (#[trigger] history[i]).committed && history[i].object_id
                == object_id;
        assert(more[i] == history[i]);
    }
    if is_latest(history, object_id, record) {
        let at = choose|at: int| 0 <= at < history.len() && history[at] == record;
        assert(more[at] == record);
    }
    if is_latest(more, object_id, record) {
        let at = choose|at: int| 0 <= at < more.len() && more[at] == record;
        assert(history[at] == record);
        assert forall|i: int|
            0 <= i < history.len() && (#[trigger] history[i]).committed && history[i].object_id
                == object_id implies history[i].version <= record.version by {
            assert(more[i] == history[i]);
        }
    }
}

/// A committed version comes back if it is larger than what came back before, and does not
/// change what comes back if it is smaller.
pub proof fn law_larger_version_wins(
    history: Seq<ModelObjectRecord>,
    current: ModelObjectRecord,
    record: ModelObjectRecord,
)
    requires
        is_latest(history, record.object_id, current),
        record.committed,
    ensures
        record.version > current.version ==> is_latest(
            history.push(record),
            record.object_id,
            record,
        ),
        record.version < current.version ==> is_latest(
            history.push(record),
            record.object_id,
            current,
        ),
{
    let more = history.push(record);
    assert(more[history.len() as int] == record);
    let at = choose|at: int| 0 <= at < history.len() && history[at] == current;
    assert(more[at] == current);
    assert(forall|i: int| 0 <= i < history.len() ==> #[trigger] more[i] == history[i]);
}

/// A version that a seed makes has the seed's object, field and end, and the kind of the
/// object. It is the first version of its object, or follows on the one before it.
pub proof fn law_seeds_count_versions_up(
    kinds: Seq<RecordedKind>,
    seeds: Seq<ModelObjectSeed>,
    index: int,
    before: int,
)
    requires
        0 <= before < index < seeds.len() <= u32::MAX,
    ensures
        seeded_record(kinds, seeds, index).object_id == seeds[index].object_id,
        seeded_record(kinds, seeds, index).field == seeds[index].field,
        seeded_record(kinds, seeds, index).committed == seeds[index].committed,
        seeded_record(kinds, seeds, index).kind == kinds[seeds[index].object_id as int],
        seeded_record(kinds, seeds, 0).version == 1,
        (forall|i: int|
            0 <= i < index ==> (#[trigger] seeds[i]).object_id != seeds[index].object_id)
            ==> seeded_record(kinds, seeds, index).version == 1,
        seeds[before].object_id == seeds[index].object_id && (forall|i: int|
            before < i < index ==> (#[trigger] seeds[i]).object_id != seeds[index].object_id)
            ==> seeded_record(kinds, seeds, index).version == seeded_record(
            kinds,
            seeds,
            before,
        ).version + 1,
{
    let object_id = seeds[index].object_id;
    lemma_versions_before_bound(seeds, object_id, index as nat);
    lemma_versions_before_bound(seeds, object_id, before as nat);
    if forall|i: int| 0 <= i < index ==> (#[trigger] seeds[i]).object_id != object_id {
        lemma_no_versions_between(seeds, object_id, 0, index as nat);
    }
    if seeds[before].object_id == object_id && forall|i: int|
        before < i < index ==> (#[trigger] seeds[i]).object_id != object_id {
        lemma_no_versions_between(seeds, object_id, (before + 1) as nat, index as nat);
    }
}

proof fn lemma_no_versions_between(
    seeds: Seq<ModelObjectSeed>,
    object_id: u64,
    first: nat,
    last: nat,
)
    requires
        first <= last <= seeds.len(),
        forall|i: int| first <= i < last ==> (#[trigger] seeds[i]).object_id != object_id,
    ensures
        versions_before(seeds, object_id, first) == versions_before(seeds, object_id, last),
    decreases last,
{
    if first < last {
        lemma_no_versions_between(seeds, object_id, first, (last - 1) as nat);
        assert(seeds[last - 1].object_id != object_id);
    }
}

/// What comes back of an object is one of the versions that were committed of it, and none of
/// these is larger.
pub proof fn law_latest_means(
    history: Seq<ModelObjectRecord>,
    object_id: u64,
    record: ModelObjectRecord,
    index: int,
)
    requires
        0 <= index < history.len(),
    ensures
        is_latest(history, object_id, record) ==> {
            &&& exists|i: int|
                0 <= i < history.len() && #[trigger] history[i] == record
            &&& record.committed
            &&& record.object_id == object_id
            &&& history[index].committed && history[index].object_id == object_id
                ==> history[index].version <= record.version
        },
        history[index].committed && history[index].object_id == object_id ==> is_committed(
            history,
            object_id,
        ),
        is_committed(history, object_id) ==> exists|i: int|
            0 <= i < history.len() && (#[trigger] history[i]).committed && history[i].object_id
                == object_id,
{
}

/// A version of which no committed version of the object is larger comes back, if it is
/// committed itself.
pub proof fn law_largest_committed_comes_back(history: Seq<ModelObjectRecord>, index: int)
    requires
        0 <= index < history.len(),
        history[index].committed,
        forall|i: int|
            0 <= i < history.len() && (#[trigger] history[i]).committed && history[i].object_id
                == history[index].object_id ==> history[i].version <= history[index].version,
    ensures
        is_latest(history, history[index].object_id, history[index]),
{
}

/// The contents of a version are one value, its field: in a struct or in an array, as its kind
/// says. A version of any other kind has no contents.
pub proof fn law_contents_are_the_field(record: ModelObjectRecord, payload: ObjectPayload)
    ensures
        is_payload_of(payload, record) <==> match payload {
            ObjectPayload::Struct(values) => record.kind == RecordedKind::Known(ObjectKind::Struct)
                && values@.len() == 1 && values@[0] == ObjectValue::I32(record.field),
            ObjectPayload::Array(values) => record.kind == RecordedKind::Known(ObjectKind::Array)
                && values@.len() == 1 && values@[0] == ObjectValue::I32(record.field),
        },
{
    let one = seq![ObjectValue::I32(record.field)];
    match payload {
        ObjectPayload::Struct(values) => {
            if values@.len() == 1 && values@[0] == ObjectValue::I32(record.field) {
                assert(values@ =~= one);
            }
            assert(one[0] == ObjectValue::I32(record.field));
        },
        ObjectPayload::Array(values) => {
            if values@.len() == 1 && values@[0] == ObjectValue::I32(record.field) {
                assert(values@ =~= one);
            }
            assert(one[0] == ObjectValue::I32(record.field));
        },
    }
}

/// Structs and arrays are published in domains of their own. The model has no other kinds, and
/// says of each what it is, or which number names none.
pub proof fn law_kinds_of_the_model(kind: ObjectKind, raw: u16)
    ensures
        domain_of(RecordedKind::Known(kind)) == Ok::<PackedGranuleDomain, ObjectModelError>(
            PackedGranuleDomain::TStruct,
        ) <==> kind is Struct,
        domain_of(RecordedKind::Known(kind)) == Ok::<PackedGranuleDomain, ObjectModelError>(
            PackedGranuleDomain::TArray,
        ) <==> kind is Array,
        !(kind is Struct) && !(kind is Array) ==> domain_of(RecordedKind::Known(kind)) == Err::<
            PackedGranuleDomain,
            ObjectModelError,
        >(ObjectModelError::UnsupportedKind { kind }),
        domain_of(RecordedKind::Unknown(raw)) == Err::<PackedGranuleDomain, ObjectModelError>(
            ObjectModelError::UnknownKind { raw },
        ),
        is_supported(RecordedKind::Known(kind)) <==> kind is Struct || kind is Array,
        !is_supported(RecordedKind::Unknown(raw)),
        kind_error(RecordedKind::Known(kind)) == (ObjectModelError::UnsupportedKind { kind }),
        kind_error(RecordedKind::Unknown(raw)) == (ObjectModelError::UnknownKind { raw }),
{
}

/// Objects have type layout ids from 100 on, each its own.
pub proof fn law_type_layout_ids(left: u64, right: u64)
    ensures
        left + 100 <= u32::MAX ==> has_layout_room(left) && layout_id_of(left) == Ok::<
            u32,
            ObjectModelError,
        >((left + 100) as u32),
        left > u32::MAX ==> has_layout_room(left) && layout_id_of(left) == Err::<
            u32,
            ObjectModelError,
        >(ObjectModelError::ObjectIdTooLarge { object_id: left }),
        u32::MAX - 100 < left <= u32::MAX ==> !has_layout_room(left),
        has_layout_room(left) && has_layout_room(right) && layout_id_of(left) is Ok && layout_id_of(
            left,
        ) == layout_id_of(right) ==> left == right,
{
}

/// The layout of an object whose number leaves room for an id: a struct of one scalar field of
/// four bytes, or an array of scalars of four bytes, with the id of the object and the
/// fingerprint that is made from it.
pub proof fn law_type_layouts(record: ModelObjectRecord)
    requires
        record.object_id + 100 <= u32::MAX,
    ensures
        match record.kind {
            RecordedKind::Known(ObjectKind::Struct) => layout_of(record) matches Ok(
                LayoutView::Struct { id, fingerprint, body_size, fields },
            ) && {
                &&& id == record.object_id + 100
                &&& fingerprint == 0x5354_5255_4354_1000 | (id as u64)
                &&& body_size == 4
                &&& fields.len() == 1
                &&& fields[0].field_index == 0
                &&& fields[0].field_offset == 0
                &&& fields[0].value_size == 4
                &&& fields[0].kind is Scalar
            },
            RecordedKind::Known(ObjectKind::Array) => layout_of(record) matches Ok(
                LayoutView::Array { id, fingerprint, element_size, element_kind },
            ) && {
                &&& id == record.object_id + 100
                &&& fingerprint == 0x4152_5241_5900_1000 | (id as u64)
                &&& element_size == 4
                &&& element_kind is Scalar
            },
            RecordedKind::Known(kind) => layout_of(record) == Err::<LayoutView, ObjectModelError>(
                ObjectModelError::UnsupportedKind { kind },
            ),
            RecordedKind::Unknown(raw) => layout_of(record) == Err::<LayoutView, ObjectModelError>(
                ObjectModelError::UnknownKind { raw },
            ),
        },
{
}

/// An object whose number is too large for an id has no layout, whatever its kind.
pub proof fn law_too_large_objects_have_no_layout(record: ModelObjectRecord)
    requires
        record.object_id > u32::MAX,
    ensures
        layout_of(record) == Err::<LayoutView, ObjectModelError>(
            ObjectModelError::ObjectIdTooLarge { object_id: record.object_id },
        ),
{
}

/// No version is committed twice exactly if two committed versions of an object that stand at
/// different places of a history differ.
pub proof fn law_distinct_versions_mean(history: Seq<ModelObjectRecord>, i: int, j: int)
    requires
        has_distinct_versions(history),
        0 <= i < history.len(),
        0 <= j < history.len(),
        history[i].committed,
        history[j].committed,
        history[i].object_id == history[j].object_id,
    ensures
        history[i].version == history[j].version <==> i == j,
{
    if i < j {
        assert(history[i].version != history[j].version);
    } else if j < i {
        assert(history[j].version != history[i].version);
    }
}

} // verus!
