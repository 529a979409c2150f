//! Holds what a runtime rebuilt from its log against the object model.

use std::collections::BTreeMap;

use vstd::prelude::*;

use crate::object_model;
use crate::object_model::{
    expected_latest_committed_by_object, model_domain, model_payload, model_type_layout,
    model_type_layout_id, object_kind_of, ModelObjectRecord, ObjectModelError, PackedGranuleDomain,
    MODEL_TRANSACTION_BASE,
};
use crate::ordered::u64_keys;
use crate::type_layout::{LayoutView, PersistentTypeLayout};
use crate::values::{ObjectKind, ObjectPayload, ObjectValue, RecordedKind};

verus! {

/// A version that is to be published, and by whom.
#[derive(Clone, Debug, PartialEq, Eq)]
pub struct PlannedPublication {
    pub stream_id: u32,
    pub txid: u32,
    pub domain: PackedGranuleDomain,
    pub object_id: u64,
    pub version: u32,
    pub type_layout_id: u32,
    pub payload: ObjectPayload,
    pub committed: bool,
}

/// What a history asks a log to hold: the type layouts first, then the versions in order.
#[derive(Clone, Debug, PartialEq, Eq)]
pub struct RecoveryPlan {
    pub layouts: Vec<PersistentTypeLayout>,
    pub publications: Vec<PlannedPublication>,
}

/// Why the first version of a history that has no type layout has none.
pub open spec fn first_layout_error(history: Seq<ModelObjectRecord>) -> Option<ObjectModelError>
    decreases history.len(),
{
    if history.len() == 0 {
        None
    } else if first_layout_error(history.drop_last()) is Some {
        first_layout_error(history.drop_last())
    } else {
        match object_model::layout_of(history.last()) {
            Err(error) => Some(error),
            Ok(_) => None,
        }
    }
}

proof fn lemma_first_layout_error_is_kept(history: Seq<ModelObjectRecord>, count: int)
    requires
        0 <= count <= history.len(),
        first_layout_error(history.take(count)) is Some,
    ensures
        first_layout_error(history) == first_layout_error(history.take(count)),
    decreases history.len(),
{
    if count == history.len() {
        assert(history.take(count) =~= history);
    } else {
        assert(history.drop_last().take(count) =~= history.take(count));
        lemma_first_layout_error_is_kept(history.drop_last(), count);
    }
}

/// Whether a version is published as it is to be: each by a transaction and to a stream of
/// its own.
pub open spec fn is_publication_of(
    publication: PlannedPublication,
    record: ModelObjectRecord,
    index: int,
) -> bool {
    &&& publication.stream_id == index + 1
    &&& publication.txid == index + 1 + MODEL_TRANSACTION_BASE
    &&& object_model::domain_of(record.kind) == Ok::<PackedGranuleDomain, ObjectModelError>(
        publication.domain,
    )
    &&& publication.object_id == record.object_id
    &&& publication.version == record.version
    &&& object_model::layout_id_of(record.object_id) == Ok::<u32, ObjectModelError>(
        publication.type_layout_id,
    )
    &&& object_model::is_payload_of(publication.payload, record)
    &&& publication.committed == record.committed
}

/// What a history asks a log to hold.
pub fn recover_object_history(history: &[ModelObjectRecord]) -> (plan: Result<
    RecoveryPlan,
    ObjectModelError,
>)
    requires
        forall|i: int|
            0 <= i < history@.len() ==> object_model::has_layout_room(
                (#[trigger] history@[i]).object_id,
            ),
    ensures
        match plan {
            Ok(plan) => {
                &&& first_layout_error(history@) is None
                &&& history@.len() + MODEL_TRANSACTION_BASE <= u32::MAX
                &&& plan.layouts@.len() == history@.len()
                &&& plan.publications@.len() == history@.len()
                &&& forall|i: int|
                    0 <= i < history@.len() ==> object_model::layout_of(#[trigger] history@[i])
                        == Ok::<LayoutView, ObjectModelError>(plan.layouts@[i]@)
                &&& forall|i: int|
                    0 <= i < history@.len() ==> is_publication_of(
                        #[trigger] plan.publications@[i],
                        history@[i],
                        i,
                    )
            },
            Err(error) => if first_layout_error(history@) is Some {
                first_layout_error(history@) == Some(error)
            } else {
                history@.len() + MODEL_TRANSACTION_BASE > u32::MAX && error
                    == ObjectModelError::TransactionIdTooLarge
            },
        },
{
    let mut layouts: Vec<PersistentTypeLayout> = Vec::new();
    let mut index: usize = 0;
    assert(history@.take(0) =~= Seq::empty());
    while index < history.len()
        invariant
            index <= history@.len(),
            forall|i: int|
                0 <= i < history@.len() ==> object_model::has_layout_room(
                    (#[trigger] history@[i]).object_id,
                ),
            layouts@.len() == index,
            forall|i: int|
                0 <= i < index ==> object_model::layout_of(#[trigger] history@[i]) == Ok::<
                    LayoutView,
                    ObjectModelError,
                >(layouts@[i]@),
            first_layout_error(history@.take(index as int)) is None,
        decreases history@.len() - index,
    {
        let record = history[index];
        proof {
            assert(history@.take(index + 1).drop_last() =~= history@.take(index as int));
            if object_model::layout_of(record) is Err {
                lemma_first_layout_error_is_kept(history@, index + 1);
            }
        }
        match model_type_layout(&record) {
            Ok(layout) => {
                layouts.push(layout);
            },
            Err(error) => return Err(error),
        }
        index += 1;
    }
    assert(history@.take(index as int) =~= history@);
    let mut publications: Vec<PlannedPublication> = Vec::new();
    let mut index: usize = 0;
    while index < history.len()
        invariant
            index <= history@.len(),
            forall|i: int|
                0 <= i < history@.len() ==> object_model::has_layout_room(
                    (#[trigger] history@[i]).object_id,
                ),
            forall|i: int|
                0 <= i < history@.len() ==> object_model::layout_of(#[trigger] history@[i]) is Ok,
            first_layout_error(history@) is None,
            index + MODEL_TRANSACTION_BASE <= u32::MAX,
            publications@.len() == index,
            forall|i: int|
                0 <= i < index ==> is_publication_of(
                    #[trigger] publications@[i],
                    history@[i],
                    i,
                ),
        decreases history@.len() - index,
    {
        let record = history[index];
        assert(object_model::layout_of(history@[index as int]) is Ok);
        if index >= (u32::MAX - MODEL_TRANSACTION_BASE) as usize {
            return Err(ObjectModelError::TransactionIdTooLarge);
        }
        let stream_id: u32 = index as u32 + 1;
        let txid: u32 = stream_id + MODEL_TRANSACTION_BASE;
        let domain = match model_domain(&record) {
            Ok(domain) => domain,
            Err(error) => return Err(error),
        };
        let type_layout_id: u32 = match model_type_layout_id(&record) {
            Ok(id) => id,
            Err(error) => return Err(error),
        };
        let payload = match model_payload(&record) {
            Ok(payload) => payload,
            Err(error) => return Err(error),
        };
        publications.push(
            PlannedPublication {
                stream_id,
                txid,
                domain,
                object_id: record.object_id,
                version: record.version,
                type_layout_id,
                payload,
                committed: record.committed,
            },
        );
        index += 1;
    }
    Ok(RecoveryPlan { layouts, publications })
}

/// An object that a runtime rebuilt.
#[derive(Clone, Debug, PartialEq, Eq)]
pub struct RebuiltObject {
    pub object_id: u64,
    pub kind: ObjectKind,
    pub persistent: bool,
    pub payload: ObjectPayload,
    /// The number under which the object would be published.
    pub logical_id: u64,
    pub version: u32,
    pub type_layout_id: u32,
    /// How many objects the object refers to.
    pub traced_objects: usize,
}

/// The number that a domain and the number of an object pack into.
#[derive(Clone, Copy, Debug, PartialEq, Eq, Structural)]
pub struct PackedObjectId {
    pub domain: PackedGranuleDomain,
    pub object_id: u64,
    pub packed_id: u64,
}

/// The version of an object that a log gave back.
#[derive(Clone, Copy, Debug, PartialEq, Eq, Structural)]
pub struct RecoveredVersion {
    pub object_id: u64,
    pub version: u32,
}

/// What a runtime rebuilt from its log.
#[derive(Clone, Debug, PartialEq, Eq)]
pub struct RecoveredObjectHistory {
    pub live_count: usize,
    pub objects: Vec<RebuiltObject>,
    pub versions: Vec<RecoveredVersion>,
    pub winner_count: usize,
}

/// How what was rebuilt departs from the model.
#[derive(Clone, Copy, Debug, PartialEq, Eq, Structural)]
pub enum ObjectRebuildMismatch {
    /// More or fewer objects are alive than versions are to come back.
    LiveCount { expected: usize, actual: usize },
    /// An object is not there.
    MissingObject { object_id: u64 },
    /// An object is of another kind.
    WrongKind { object_id: u64 },
    /// An object is not persistent.
    NotPersistent { object_id: u64 },
    /// An object has other contents.
    WrongPayload { object_id: u64 },
    /// What an object is to be published under packs into no number.
    NotPacked { object_id: u64 },
    /// An object would be published under another number.
    WrongLogicalId { object_id: u64 },
    /// An object would be published as another version.
    WrongVersion { object_id: u64 },
    /// An object would be published with another type layout.
    WrongTypeLayout { object_id: u64 },
    /// An object refers to objects.
    TracesObjects { object_id: u64 },
    /// The log gave another version of an object back.
    WrongRecoveredVersion { object_id: u64 },
    /// An object is there of which nothing was committed.
    LooseEnd { object_id: u64 },
    /// The log gave more or fewer objects back than versions are to come back.
    WinnerCount { expected: usize, actual: usize },
    /// A version has no place in the model.
    Model { error: ObjectModelError },
}

/// The object with number `object_id`, if it is there.
pub open spec fn object_at(objects: Seq<RebuiltObject>, object_id: u64) -> Option<RebuiltObject>
    decreases objects.len(),
{
    if objects.len() == 0 {
        None
    } else if objects.last().object_id == object_id {
        Some(objects.last())
    } else {
        object_at(objects.drop_last(), object_id)
    }
}

/// The version of an object that a log gave back, if it gave one back.
pub open spec fn version_at(versions: Seq<RecoveredVersion>, object_id: u64) -> Option<u32>
    decreases versions.len(),
{
    if versions.len() == 0 {
        None
    } else if versions.last().object_id == object_id {
        Some(versions.last().version)
    } else {
        version_at(versions.drop_last(), object_id)
    }
}

/// The number that `domain` and `object_id` pack into, if they pack into one.
pub open spec fn packing_at(
    packings: Seq<PackedObjectId>,
    domain: PackedGranuleDomain,
    object_id: u64,
) -> Option<u64>
    decreases packings.len(),
{
    if packings.len() == 0 {
        None
    } else if packings.last().domain == domain && packings.last().object_id == object_id {
        Some(packings.last().packed_id)
    } else {
        packing_at(packings.drop_last(), domain, object_id)
    }
}

/// What the number under which a version is published is packed from.
pub open spec fn logical_key_of(record: ModelObjectRecord) -> Result<
    (PackedGranuleDomain, u64),
    ObjectModelError,
> {
    match object_model::domain_of(record.kind) {
        Ok(domain) => Ok((domain, record.object_id)),
        Err(error) => Err(error),
    }
}

/// The number under which a version is published.
pub open spec fn logical_id_of(
    record: ModelObjectRecord,
    packings: Seq<PackedObjectId>,
) -> Result<u64, ObjectRebuildMismatch> {
    match logical_key_of(record) {
        Err(error) => Err(ObjectRebuildMismatch::Model { error }),
        Ok((domain, object_id)) => match packing_at(packings, domain, object_id) {
            None => Err(ObjectRebuildMismatch::NotPacked { object_id }),
            Some(packed_id) => Ok(packed_id),
        },
    }
}

/// How a rebuilt object departs from the version that is to come back.
pub open spec fn object_defect(
    record: ModelObjectRecord,
    packings: Seq<PackedObjectId>,
    found: Option<RebuiltObject>,
    recovered_version: Option<u32>,
) -> Option<ObjectRebuildMismatch> {
    let object_id = record.object_id;
    match found {
        None => Some(ObjectRebuildMismatch::MissingObject { object_id }),
        Some(object) => if record.kind is Unknown {
            Some(ObjectRebuildMismatch::Model { error: object_model::kind_error(record.kind) })
        } else if record.kind != RecordedKind::Known(object.kind) {
            Some(ObjectRebuildMismatch::WrongKind { object_id })
        } else if !object.persistent {
            Some(ObjectRebuildMismatch::NotPersistent { object_id })
        } else if !object_model::is_supported(record.kind) {
            Some(ObjectRebuildMismatch::Model { error: object_model::kind_error(record.kind) })
        } else if !object_model::is_payload_of(object.payload, record) {
            Some(ObjectRebuildMismatch::WrongPayload { object_id })
        } else if logical_id_of(record, packings) is Err {
            Some(logical_id_of(record, packings)->Err_0)
        } else if logical_id_of(record, packings) != Ok::<u64, ObjectRebuildMismatch>(
            object.logical_id,
        ) {
            Some(ObjectRebuildMismatch::WrongLogicalId { object_id })
        } else if object.version != record.version {
            Some(ObjectRebuildMismatch::WrongVersion { object_id })
        } else {
            match object_model::layout_id_of(object_id) {
                Err(error) => Some(ObjectRebuildMismatch::Model { error }),
                Ok(id) => if object.type_layout_id != id {
                    Some(ObjectRebuildMismatch::WrongTypeLayout { object_id })
                } else if object.traced_objects != 0 {
                    Some(ObjectRebuildMismatch::TracesObjects { object_id })
                } else if recovered_version != Some(record.version) {
                    Some(ObjectRebuildMismatch::WrongRecoveredVersion { object_id })
                } else {
                    None
                },
            }
        },
    }
}

/// The version of object `object_id` that is to come back.
pub open spec fn latest_of(history: Seq<ModelObjectRecord>, object_id: u64) -> ModelObjectRecord {
    choose|record: ModelObjectRecord| object_model::is_latest(history, object_id, record)
}

/// The objects of which a version is to come back.
pub open spec fn committed_objects(history: Seq<ModelObjectRecord>) -> Set<u64> {
    Set::new(|object_id: u64| object_model::is_committed(history, object_id))
}

/// How an object of which a version is to come back departs from that version.
pub open spec fn defect_of(
    history: Seq<ModelObjectRecord>,
    packings: Seq<PackedObjectId>,
    recovered: RecoveredObjectHistory,
    object_id: u64,
) -> Option<ObjectRebuildMismatch> {
    object_defect(
        latest_of(history, object_id),
        packings,
        object_at(recovered.objects@, object_id),
        version_at(recovered.versions@, object_id),
    )
}

/// Whether an object is there of which nothing was committed.
pub open spec fn is_loose_end(
    history: Seq<ModelObjectRecord>,
    recovered: RecoveredObjectHistory,
    object_id: u64,
) -> bool {
    !object_model::is_committed(history, object_id) && object_at(recovered.objects@, object_id)
        is Some
}

/// Whether every object of which a version is to come back is that version.
pub open spec fn is_each_rebuilt(
    history: Seq<ModelObjectRecord>,
    packings: Seq<PackedObjectId>,
    recovered: RecoveredObjectHistory,
) -> bool {
    forall|object_id: u64| #[trigger]
        object_model::is_committed(history, object_id) ==> defect_of(history, packings, recovered, object_id)
            is None
}

/// Whether no object is there of which nothing was committed.
pub open spec fn has_no_loose_end(
    history: Seq<ModelObjectRecord>,
    recovered: RecoveredObjectHistory,
) -> bool {
    forall|i: int|
        0 <= i < history.len() ==> !is_loose_end(
            history,
            recovered,
            (#[trigger] history[i]).object_id,
        )
}

/// Whether exactly what is to come back was rebuilt.
pub open spec fn is_rebuilt(
    history: Seq<ModelObjectRecord>,
    packings: Seq<PackedObjectId>,
    recovered: RecoveredObjectHistory,
) -> bool {
    &&& recovered.live_count == committed_objects(history).len()
    &&& is_each_rebuilt(history, packings, recovered)
    &&& has_no_loose_end(history, recovered)
    &&& recovered.winner_count == committed_objects(history).len()
}

/// Whether `mismatch` goes first: the number of live objects does, then the objects by number,
/// then the loose ends by their place in the history, then the number of recovered objects.
pub open spec fn is_first_mismatch(
    history: Seq<ModelObjectRecord>,
    packings: Seq<PackedObjectId>,
    recovered: RecoveredObjectHistory,
    mismatch: ObjectRebuildMismatch,
) -> bool {
    let count = committed_objects(history).len();
    if recovered.live_count != count {
        mismatch == (ObjectRebuildMismatch::LiveCount {
            expected: count as usize,
            actual: recovered.live_count,
        })
    } else if !is_each_rebuilt(history, packings, recovered) {
        exists|object_id: u64|
            {
                &&& #[trigger] object_model::is_committed(history, object_id)
                &&& defect_of(history, packings, recovered, object_id) == Some(mismatch)
                &&& forall|other: u64| #[trigger]
                    object_model::is_committed(history, other) && other < object_id ==> defect_of(
                        history,
                        packings,
                        recovered,
                        other,
                    ) is None
            }
    } else if !has_no_loose_end(history, recovered) {
        exists|i: int|
            {
                &&& 0 <= i < history.len()
                &&& is_loose_end(history, recovered, (#[trigger] history[i]).object_id)
                &&& mismatch == (ObjectRebuildMismatch::LooseEnd {
                    object_id: history[i].object_id,
                })
                &&& forall|j: int|
                    0 <= j < i ==> !is_loose_end(
                        history,
                        recovered,
                        (#[trigger] history[j]).object_id,
                    )
            }
    } else {
        &&& recovered.winner_count != count
        &&& mismatch == (ObjectRebuildMismatch::WinnerCount {
            expected: count as usize,
            actual: recovered.winner_count,
        })
    }
}

fn find_object(objects: &Vec<RebuiltObject>, object_id: u64) -> (found: Option<&RebuiltObject>)
    ensures
        match found {
            Some(object) => object_at(objects@, object_id) == Some(*object),
            None => object_at(objects@, object_id) is None,
        },
{
    let mut index: usize = objects.len();
    assert(objects@.take(index as int) =~= objects@);
    while index > 0
        invariant
            index <= objects@.len(),
            object_at(objects@, object_id) == object_at(objects@.take(index as int), object_id),
        decreases index,
    {
        proof {
            assert(objects@.take(index as int).drop_last() =~= objects@.take(index - 1));
        }
        index -= 1;
        if objects[index].object_id == object_id {
            return Some(&objects[index]);
        }
    }
    None
}

fn find_version(versions: &Vec<RecoveredVersion>, object_id: u64) -> (found: Option<u32>)
    ensures
        found == version_at(versions@, object_id),
{
    let mut index: usize = versions.len();
    assert(versions@.take(index as int) =~= versions@);
    while index > 0
        invariant
            index <= versions@.len(),
            version_at(versions@, object_id) == version_at(versions@.take(index as int), object_id),
        decreases index,
    {
        proof {
            assert(versions@.take(index as int).drop_last() =~= versions@.take(index - 1));
        }
        index -= 1;
        if versions[index].object_id == object_id {
            return Some(versions[index].version);
        }
    }
    None
}

fn is_one_i32(values: &Vec<ObjectValue>, field: i32) -> (same: bool)
    ensures
        same == (values@ == seq![ObjectValue::I32(field)]),
{
    if values.len() != 1 {
        return false;
    }
    match values[0] {
        ObjectValue::I32(value) => {
            assert(value == field ==> values@ =~= seq![ObjectValue::I32(field)]);
            assert(seq![ObjectValue::I32(field)][0] == ObjectValue::I32(field));
            value == field
        },
        _ => {
            assert(seq![ObjectValue::I32(field)][0] == ObjectValue::I32(field));
            false
        },
    }
}

fn is_payload_of(payload: &ObjectPayload, record: &ModelObjectRecord) -> (same: bool)
    ensures
        same == object_model::is_payload_of(*payload, *record),
{
    match (payload, record.kind) {
        (ObjectPayload::Struct(fields), RecordedKind::Known(ObjectKind::Struct)) => is_one_i32(
            fields,
            record.field,
        ),
        (ObjectPayload::Array(elements), RecordedKind::Known(ObjectKind::Array)) => is_one_i32(
            elements,
            record.field,
        ),
        _ => false,
    }
}

fn find_packing(
    packings: &[PackedObjectId],
    domain: PackedGranuleDomain,
    object_id: u64,
) -> (found: Option<u64>)
    ensures
        found == packing_at(packings@, domain, object_id),
{
    let mut index: usize = packings.len();
    assert(packings@.take(index as int) =~= packings@);
    while index > 0
        invariant
            index <= packings@.len(),
            packing_at(packings@, domain, object_id) == packing_at(
                packings@.take(index as int),
                domain,
                object_id,
            ),
        decreases index,
    {
        proof {
            assert(packings@.take(index as int).drop_last() =~= packings@.take(index - 1));
        }
        index -= 1;
        if packings[index].domain == domain && packings[index].object_id == object_id {
            return Some(packings[index].packed_id);
        }
    }
    None
}

/// What the number under which a version is published is packed from: where it is published,
/// and the number of the object.
pub fn expected_logical_key(record: &ModelObjectRecord) -> (key: Result<
    (PackedGranuleDomain, u64),
    ObjectModelError,
>)
    ensures
        key == logical_key_of(*record),
{
    match model_domain(record) {
        Ok(domain) => Ok((domain, record.object_id)),
        Err(error) => Err(error),
    }
}

/// The number under which a version is published.
pub fn expected_logical_id(
    record: &ModelObjectRecord,
    packings: &[PackedObjectId],
) -> (logical_id: Result<u64, ObjectRebuildMismatch>)
    ensures
        logical_id == logical_id_of(*record, packings@),
{
    match expected_logical_key(record) {
        Ok((domain, object_id)) => match find_packing(packings, domain, object_id) {
            Some(packed_id) => Ok(packed_id),
            None => Err(ObjectRebuildMismatch::NotPacked { object_id }),
        },
        Err(error) => Err(ObjectRebuildMismatch::Model { error }),
    }
}

fn check_object(
    record: &ModelObjectRecord,
    packings: &[PackedObjectId],
    found: Option<&RebuiltObject>,
    recovered_version: Option<u32>,
) -> (checked: Result<(), ObjectRebuildMismatch>)
    requires
        object_model::has_layout_room(record.object_id),
    ensures
        checked == (match object_defect(
            *record,
            packings@,
            match found {
                Some(object) => Some(*object),
                None => None,
            },
            recovered_version,
        ) {
            Some(mismatch) => Err::<(), ObjectRebuildMismatch>(mismatch),
            None => Ok(()),
        }),
{
    let object_id: u64 = record.object_id;
    let object = match found {
        Some(object) => object,
        None => return Err(ObjectRebuildMismatch::MissingObject { object_id }),
    };
    let kind = match object_kind_of(record) {
        Ok(kind) => kind,
        Err(error) => return Err(ObjectRebuildMismatch::Model { error }),
    };
    if object.kind != kind {
        return Err(ObjectRebuildMismatch::WrongKind { object_id });
    }
    if !object.persistent {
        return Err(ObjectRebuildMismatch::NotPersistent { object_id });
    }
    if let Err(error) = model_domain(record) {
        return Err(ObjectRebuildMismatch::Model { error });
    }
    if !is_payload_of(&object.payload, record) {
        return Err(ObjectRebuildMismatch::WrongPayload { object_id });
    }
    let logical_id: u64 = match expected_logical_id(record, packings) {
        Ok(logical_id) => logical_id,
        Err(mismatch) => return Err(mismatch),
    };
    if object.logical_id != logical_id {
        return Err(ObjectRebuildMismatch::WrongLogicalId { object_id });
    }
    if object.version != record.version {
        return Err(ObjectRebuildMismatch::WrongVersion { object_id });
    }
    let type_layout_id: u32 = match model_type_layout_id(record) {
        Ok(id) => id,
        Err(error) => return Err(ObjectRebuildMismatch::Model { error }),
    };
    if object.type_layout_id != type_layout_id {
        return Err(ObjectRebuildMismatch::WrongTypeLayout { object_id });
    }
    if object.traced_objects != 0 {
        return Err(ObjectRebuildMismatch::TracesObjects { object_id });
    }
    let same_version = match recovered_version {
        Some(version) => version == record.version,
        None => false,
    };
    if !same_version {
        return Err(ObjectRebuildMismatch::WrongRecoveredVersion { object_id });
    }
    Ok(())
}

/// Holds what a runtime rebuilt from a log of `history` against the model, given what the
/// logical keys of the history pack into.
pub fn assert_model_object_rebuild_matches_real_recovery(
    history: &[ModelObjectRecord],
    packings: &[PackedObjectId],
    recovered: &RecoveredObjectHistory,
) -> (checked: Result<(), ObjectRebuildMismatch>)
    requires
        object_model::has_distinct_versions(history@),
        forall|i: int|
            0 <= i < history@.len() ==> object_model::has_layout_room(
                (#[trigger] history@[i]).object_id,
            ),
    ensures
        match checked {
            Ok(()) => is_rebuilt(history@, packings@, *recovered),
            Err(mismatch) => !is_rebuilt(history@, packings@, *recovered) && is_first_mismatch(
                history@,
                packings@,
                *recovered,
                mismatch,
            ),
        },
{
    let expected: BTreeMap<u64, ModelObjectRecord> = expected_latest_committed_by_object(history);
    proof {
        assert(expected@.dom() =~= committed_objects(history@));
    }
    if recovered.live_count != expected.len() {
        return Err(
            ObjectRebuildMismatch::LiveCount {
                expected: expected.len(),
                actual: recovered.live_count,
            },
        );
    }
    let object_ids: Vec<u64> = u64_keys(&expected);
    let mut index: usize = 0;
    while index < object_ids.len()
        invariant
            index <= object_ids@.len(),
            object_model::has_distinct_versions(history@),
            forall|i: int|
                0 <= i < history@.len() ==> object_model::has_layout_room(
                    (#[trigger] history@[i]).object_id,
                ),
            recovered.live_count == committed_objects(history@).len(),
            forall|i: int, j: int|
                0 <= i < j < object_ids@.len() ==> object_ids@[i] < object_ids@[j],
            forall|object_id: u64| #[trigger]
                object_ids@.contains(object_id) <==> expected@.contains_key(object_id),
            forall|object_id: u64| #[trigger]
                expected@.contains_key(object_id) <==> object_model::is_committed(
                    history@,
                    object_id,
                ),
            forall|object_id: u64| #[trigger]
                expected@.contains_key(object_id) ==> object_model::is_latest(
                    history@,
                    object_id,
                    expected@[object_id],
                ),
            forall|i: int|
                0 <= i < index ==> defect_of(history@, packings@, *recovered, #[trigger] object_ids@[i])
                    is None,
        decreases object_ids@.len() - index,
    {
        let object_id: u64 = object_ids[index];
        assert(object_ids@.contains(object_id));
        let record = expected.get(&object_id).unwrap();
        proof {
            assert(object_model::is_latest(history@, object_id, *record));
            object_model::law_latest_is_unique(
                history@,
                object_id,
                *record,
                latest_of(history@, object_id),
            );
            let at = choose|at: int| 0 <= at < history@.len() && history@[at] == *record;
            assert(object_model::has_layout_room(history@[at].object_id));
        }
        let checked = check_object(
            record,
            packings,
            find_object(&recovered.objects, object_id),
            find_version(&recovered.versions, object_id),
        );
        if let Err(mismatch) = checked {
            proof {
                assert(object_model::is_committed(history@, object_id));
                assert(defect_of(history@, packings@, *recovered, object_id) == Some(mismatch));
                assert forall|other: u64| #[trigger]
                    object_model::is_committed(history@, other) && other
                        < object_id implies defect_of(history@, packings@, *recovered, other) is None by {
                    assert(expected@.contains_key(other));
                    assert(object_ids@.contains(other));
                    let at = choose|at: int|
                        0 <= at < object_ids@.len() && object_ids@[at] == other;
                    assert(at < index);
                }
            }
            return Err(mismatch);
        }
        index += 1;
    }
    assert forall|object_id: u64| #[trigger]
        object_model::is_committed(history@, object_id) implies defect_of(
        history@,
        packings@,
        *recovered,
        object_id,
    ) is None by {
        assert(expected@.contains_key(object_id));
        assert(object_ids@.contains(object_id));
    }
    let mut index: usize = 0;
    while index < history.len()
        invariant
            index <= history@.len(),
            recovered.live_count == committed_objects(history@).len(),
            is_each_rebuilt(history@, packings@, *recovered),
            forall|object_id: u64| #[trigger]
                expected@.contains_key(object_id) <==> object_model::is_committed(
                    history@,
                    object_id,
                ),
            forall|i: int|
                0 <= i < index ==> !is_loose_end(
                    history@,
                    *recovered,
                    (#[trigger] history@[i]).object_id,
                ),
        decreases history@.len() - index,
    {
        let object_id: u64 = history[index].object_id;
        if !expected.contains_key(&object_id) {
            if let Some(_) = find_object(&recovered.objects, object_id) {
                assert(is_loose_end(history@, *recovered, history@[index as int].object_id));
                return Err(ObjectRebuildMismatch::LooseEnd { object_id });
            }
        }
        index += 1;
    }
    if recovered.winner_count != expected.len() {
        return Err(
            ObjectRebuildMismatch::WinnerCount {
                expected: expected.len(),
                actual: recovered.winner_count,
            },
        );
    }
    Ok(())
}

/// Whether the version at `index` of a history is to come back: it is committed, and no
/// committed version of its object is larger.
pub open spec fn is_to_come_back(history: Seq<ModelObjectRecord>, index: int) -> bool {
    &&& 0 <= index < history.len()
    &&& history[index].committed
    &&& forall|i: int|
        0 <= i < history.len() && (#[trigger] history[i]).committed && history[i].object_id
            == history[index].object_id ==> history[i].version <= history[index].version
}

/// Whether entry `at` is what objects say of object `object_id`: no later entry is about it.
pub open spec fn is_object_entry(objects: Seq<RebuiltObject>, object_id: u64, at: int) -> bool {
    &&& 0 <= at < objects.len()
    &&& objects[at].object_id == object_id
    &&& forall|i: int| at < i < objects.len() ==> (#[trigger] objects[i]).object_id != object_id
}

/// Whether entry `at` is what versions say of object `object_id`: no later entry is about it.
pub open spec fn is_version_entry(
    versions: Seq<RecoveredVersion>,
    object_id: u64,
    at: int,
) -> bool {
    &&& 0 <= at < versions.len()
    &&& versions[at].object_id == object_id
    &&& forall|i: int| at < i < versions.len() ==> (#[trigger] versions[i]).object_id != object_id
}

/// Whether entry `at` is what packings say of a domain and an object: no later entry is about
/// them.
pub open spec fn is_packing_entry(
    packings: Seq<PackedObjectId>,
    domain: PackedGranuleDomain,
    object_id: u64,
    at: int,
) -> bool {
    &&& 0 <= at < packings.len()
    &&& packings[at].domain == domain
    &&& packings[at].object_id == object_id
    &&& forall|i: int|
        at < i < packings.len() ==> !((#[trigger] packings[i]).domain == domain
            && packings[i].object_id == object_id)
}

/// Whether the object that was rebuilt, the number that it is packed into and the version that
/// the log gave back are those of a version: its kind, its only value, its number, its version
/// and its type layout.
pub open spec fn is_rebuilt_from(
    record: ModelObjectRecord,
    object: RebuiltObject,
    packing: PackedObjectId,
    version: RecoveredVersion,
) -> bool {
    &&& object.persistent
    &&& object.logical_id == packing.packed_id
    &&& object.version == record.version
    &&& version.version == record.version
    &&& record.object_id <= u32::MAX
    &&& object.type_layout_id == record.object_id + 100
    &&& object.traced_objects == 0
    &&& match object.payload {
        ObjectPayload::Struct(values) => {
            &&& record.kind == RecordedKind::Known(ObjectKind::Struct)
            &&& object.kind is Struct
            &&& packing.domain is TStruct
            &&& values@.len() == 1
            &&& values@[0] == ObjectValue::I32(record.field)
        },
        ObjectPayload::Array(values) => {
            &&& record.kind == RecordedKind::Known(ObjectKind::Array)
            &&& object.kind is Array
            &&& packing.domain is TArray
            &&& values@.len() == 1
            &&& values@[0] == ObjectValue::I32(record.field)
        },
    }
}

proof fn lemma_object_entry(objects: Seq<RebuiltObject>, object_id: u64)
    ensures
        match object_at(objects, object_id) {
            Some(object) => exists|at: int| #[trigger]
                is_object_entry(objects, object_id, at) && objects[at] == object,
            None => forall|i: int|
                0 <= i < objects.len() ==> (#[trigger] objects[i]).object_id != object_id,
        },
        forall|at: int| #[trigger]
            is_object_entry(objects, object_id, at) ==> object_at(objects, object_id) == Some(
                objects[at],
            ),
    decreases objects.len(),
{
    if objects.len() > 0 {
        let front = objects.drop_last();
        let last = objects.len() - 1;
        lemma_object_entry(front, object_id);
        assert(objects.last() == objects[last]);
        assert forall|i: int| 0 <= i < front.len() implies #[trigger] front[i] == objects[i] by {}
        if objects.last().object_id == object_id {
            assert(is_object_entry(objects, object_id, last));
        } else if object_at(front, object_id) is Some {
            let at = choose|at: int| #[trigger]
                is_object_entry(front, object_id, at) && front[at] == object_at(
                    front,
                    object_id,
                )->0;
            assert forall|i: int| at < i < objects.len() implies (#[trigger] objects[i]).object_id
                != object_id by {
                if i < last {
                    assert(front[i].object_id != object_id);
                }
            }
            assert(is_object_entry(objects, object_id, at));
        } else {
            assert forall|i: int| 0 <= i < objects.len() implies (#[trigger] objects[i]).object_id
                != object_id by {
                if i < last {
                    assert(front[i].object_id != object_id);
                }
            }
        }
        assert forall|at: int| #[trigger]
            is_object_entry(objects, object_id, at) implies object_at(objects, object_id) == Some(
            objects[at],
        ) by {
            if at < last {
                assert(objects[last].object_id != object_id);
                assert forall|i: int| at < i < front.len() implies (#[trigger] front[i]).object_id
                    != object_id by {
                    assert(objects[i].object_id != object_id);
                }
                assert(is_object_entry(front, object_id, at));
            }
        }
    }
}

proof fn lemma_version_entry(versions: Seq<RecoveredVersion>, object_id: u64)
    ensures
        match version_at(versions, object_id) {
            Some(version) => exists|at: int| #[trigger]
                is_version_entry(versions, object_id, at) && versions[at].version == version,
            None => forall|i: int|
                0 <= i < versions.len() ==> (#[trigger] versions[i]).object_id != object_id,
        },
        forall|at: int| #[trigger]
            is_version_entry(versions, object_id, at) ==> version_at(versions, object_id) == Some(
                versions[at].version,
            ),
    decreases versions.len(),
{
    if versions.len() > 0 {
        let front = versions.drop_last();
        let last = versions.len() - 1;
        lemma_version_entry(front, object_id);
        assert(versions.last() == versions[last]);
        assert forall|i: int| 0 <= i < front.len() implies #[trigger] front[i] == versions[i] by {}
        if versions.last().object_id == object_id {
            assert(is_version_entry(versions, object_id, last));
        } else if version_at(front, object_id) is Some {
            let at = choose|at: int| #[trigger]
                is_version_entry(front, object_id, at) && front[at].version == version_at(
                    front,
                    object_id,
                )->0;
            assert forall|i: int| at < i < versions.len() implies (
            #[trigger] versions[i]).object_id != object_id by {
                if i < last {
                    assert(front[i].object_id != object_id);
                }
            }
            assert(is_version_entry(versions, object_id, at));
        } else {
            assert forall|i: int| 0 <= i < versions.len() implies (
            #[trigger] versions[i]).object_id != object_id by {
                if i < last {
                    assert(front[i].object_id != object_id);
                }
            }
        }
        assert forall|at: int| #[trigger]
            is_version_entry(versions, object_id, at) implies version_at(versions, object_id)
            == Some(versions[at].version) by {
            if at < last {
                assert(versions[last].object_id != object_id);
                assert forall|i: int| at < i < front.len() implies (#[trigger] front[i]).object_id
                    != object_id by {
                    assert(versions[i].object_id != object_id);
                }
                assert(is_version_entry(front, object_id, at));
            }
        }
    }
}

proof fn lemma_packing_entry(
    packings: Seq<PackedObjectId>,
    domain: PackedGranuleDomain,
    object_id: u64,
)
    ensures
        match packing_at(packings, domain, object_id) {
            Some(packed_id) => exists|at: int| #[trigger]
                is_packing_entry(packings, domain, object_id, at) && packings[at].packed_id
                    == packed_id,
            None => forall|i: int|
                0 <= i < packings.len() ==> !((#[trigger] packings[i]).domain == domain
                    && packings[i].object_id == object_id),
        },
        forall|at: int| #[trigger]
            is_packing_entry(packings, domain, object_id, at) ==> packing_at(
                packings,
                domain,
                object_id,
            ) == Some(packings[at].packed_id),
    decreases packings.len(),
{
    if packings.len() > 0 {
        let front = packings.drop_last();
        let last = packings.len() - 1;
        lemma_packing_entry(front, domain, object_id);
        assert(packings.last() == packings[last]);
        assert forall|i: int| 0 <= i < front.len() implies #[trigger] front[i] == packings[i] by {}
        if packings.last().domain == domain && packings.last().object_id == object_id {
            assert(is_packing_entry(packings, domain, object_id, last));
        } else if packing_at(front, domain, object_id) is Some {
            let at = choose|at: int| #[trigger]
                is_packing_entry(front, domain, object_id, at) && front[at].packed_id
                    == packing_at(front, domain, object_id)->0;
            assert forall|i: int| at < i < packings.len() implies !((
            #[trigger] packings[i]).domain == domain && packings[i].object_id == object_id) by {
                if i < last {
                    assert(front[i] == packings[i]);
                }
            }
            assert(is_packing_entry(packings, domain, object_id, at));
        } else {
            assert forall|i: int| 0 <= i < packings.len() implies !((
            #[trigger] packings[i]).domain == domain && packings[i].object_id == object_id) by {
                if i < last {
                    assert(front[i] == packings[i]);
                }
            }
        }
        assert forall|at: int| #[trigger]
            is_packing_entry(packings, domain, object_id, at) implies packing_at(
            packings,
            domain,
            object_id,
        ) == Some(packings[at].packed_id) by {
            if at < last {
                assert(!(packings[last].domain == domain && packings[last].object_id
                    == object_id));
                assert forall|i: int| at < i < front.len() implies !((
                #[trigger] front[i]).domain == domain && front[i].object_id == object_id) by {
                    assert(front[i] == packings[i]);
                }
                assert(is_packing_entry(front, domain, object_id, at));
            }
        }
    }
}

/// The version that is to come back is the one that no committed version is larger than.
proof fn lemma_latest_of(history: Seq<ModelObjectRecord>, index: int)
    requires
        object_model::has_distinct_versions(history),
        is_to_come_back(history, index),
    ensures
        latest_of(history, history[index].object_id) == history[index],
{
    let object_id = history[index].object_id;
    object_model::law_largest_committed_comes_back(history, index);
    object_model::law_latest_is_unique(
        history,
        object_id,
        history[index],
        latest_of(history, object_id),
    );
}

/// Of every object of which something was committed one version is to come back.
proof fn lemma_some_version_is_to_come_back(history: Seq<ModelObjectRecord>, object_id: u64) -> (
    index: int)
    requires
        object_model::is_committed(history, object_id),
    ensures
        is_to_come_back(history, index),
        history[index].object_id == object_id,
    decreases history.len(),
{
    let last = history.len() - 1;
    let front = history.drop_last();
    assert forall|i: int| 0 <= i < front.len() implies #[trigger] front[i] == history[i] by {}
    let found = choose|i: int|
        0 <= i < history.len() && (#[trigger] history[i]).committed && history[i].object_id
            == object_id;
    if object_model::is_committed(front, object_id) {
        let before = lemma_some_version_is_to_come_back(front, object_id);
        assert(history[before] == front[before]);
        let best = if history[last].committed && history[last].object_id == object_id
            && history[last].version >= history[before].version {
            last
        } else {
            before
        };
        assert forall|i: int|
            0 <= i < history.len() && (#[trigger] history[i]).committed && history[i].object_id
                == history[best].object_id implies history[i].version
            <= history[best].version by {
            if i < last {
                assert(front[i] == history[i]);
            }
        }
        best
    } else {
        if found < last {
            assert(front[found] == history[found]);
        }
        assert forall|i: int|
            0 <= i < history.len() && (#[trigger] history[i]).committed && history[i].object_id
                == object_id implies i == last by {
            if i < last {
                assert(front[i] == history[i]);
            }
        }
        last
    }
}

proof fn lemma_no_defect_exactly(
    record: ModelObjectRecord,
    packings: Seq<PackedObjectId>,
    recovered: RecoveredObjectHistory,
)
    requires
        record.object_id > u32::MAX || record.object_id + 100 <= u32::MAX,
    ensures
        object_defect(
            record,
            packings,
            object_at(recovered.objects@, record.object_id),
            version_at(recovered.versions@, record.object_id),
        ) is None <==> exists|at: int, packing: int, version: int|
            {
                &&& #[trigger] is_object_entry(recovered.objects@, record.object_id, at)
                &&& 0 <= packing < packings.len()
                &&& #[trigger] is_packing_entry(
                    packings,
                    packings[packing].domain,
                    record.object_id,
                    packing,
                )
                &&& #[trigger] is_version_entry(recovered.versions@, record.object_id, version)
                &&& is_rebuilt_from(
                    record,
                    recovered.objects@[at],
                    packings[packing],
                    recovered.versions@[version],
                )
            },
{
    let object_id = record.object_id;
    let objects = recovered.objects@;
    let versions = recovered.versions@;
    lemma_object_entry(objects, object_id);
    lemma_version_entry(versions, object_id);
    lemma_packing_entry(packings, PackedGranuleDomain::TStruct, object_id);
    lemma_packing_entry(packings, PackedGranuleDomain::TArray, object_id);
    if let Some(object) = object_at(objects, object_id) {
        object_model::law_contents_are_the_field(record, object.payload);
    }
    if object_defect(
        record,
        packings,
        object_at(objects, object_id),
        version_at(versions, object_id),
    ) is None {
        let object = object_at(objects, object_id)->0;
        let at = choose|at: int| #[trigger]
            is_object_entry(objects, object_id, at) && objects[at] == object;
        let domain = object_model::domain_of(record.kind)->Ok_0;
        let packed_id = packing_at(packings, domain, object_id)->0;
        let packing = choose|packing: int| #[trigger]
            is_packing_entry(packings, domain, object_id, packing) && packings[packing].packed_id
                == packed_id;
        let version = choose|version: int| #[trigger]
            is_version_entry(versions, object_id, version) && versions[version].version
                == record.version;
        assert(is_packing_entry(packings, packings[packing].domain, object_id, packing));
        assert(is_rebuilt_from(record, objects[at], packings[packing], versions[version]));
    }
}

/// The rebuild check passes exactly if of every version that is to come back the object, its
/// number and its version were rebuilt, if no object is there of which nothing was committed,
/// and if as many objects are alive, and were found, as have a committed version.
pub proof fn law_rebuild_passes_exactly(
    history: Seq<ModelObjectRecord>,
    packings: Seq<PackedObjectId>,
    recovered: RecoveredObjectHistory,
)
    requires
        object_model::has_distinct_versions(history),
        forall|i: int|
            0 <= i < history.len() ==> (#[trigger] history[i]).object_id > u32::MAX
                || history[i].object_id + 100 <= u32::MAX,
    ensures
        is_rebuilt(history, packings, recovered) <==> {
            let count = Set::new(
                |object_id: u64|
                    exists|i: int|
                        0 <= i < history.len() && (#[trigger] history[i]).committed
                            && history[i].object_id == object_id,
            ).len();
            &&& recovered.live_count == count
            &&& recovered.winner_count == count
            &&& forall|index: int| #[trigger]
                is_to_come_back(history, index) ==> exists|at: int, packing: int, version: int|
                    {
                        &&& #[trigger] is_object_entry(
                            recovered.objects@,
                            history[index].object_id,
                            at,
                        )
                        &&& 0 <= packing < packings.len()
                        &&& #[trigger] is_packing_entry(
                            packings,
                            packings[packing].domain,
                            history[index].object_id,
                            packing,
                        )
                        &&& #[trigger] is_version_entry(
                            recovered.versions@,
                            history[index].object_id,
                            version,
                        )
                        &&& is_rebuilt_from(
                            history[index],
                            recovered.objects@[at],
                            packings[packing],
                            recovered.versions@[version],
                        )
                    }
            &&& forall|i: int, at: int|
                #![trigger history[i], recovered.objects@[at]]
                0 <= i < history.len() && 0 <= at < recovered.objects@.len()
                    && recovered.objects@[at].object_id == history[i].object_id ==> exists|j: int|
                    0 <= j < history.len() && (#[trigger] history[j]).committed
                        && history[j].object_id == history[i].object_id
        },
{
    let objects = Set::new(
        |object_id: u64|
            exists|i: int|
                0 <= i < history.len() && (#[trigger] history[i]).committed && history[i].object_id
                    == object_id,
    );
    assert(objects =~= committed_objects(history));
    lemma_each_rebuilt_exactly(history, packings, recovered);
    lemma_no_loose_end_exactly(history, recovered);
}

proof fn lemma_each_rebuilt_exactly(
    history: Seq<ModelObjectRecord>,
    packings: Seq<PackedObjectId>,
    recovered: RecoveredObjectHistory,
)
    requires
        object_model::has_distinct_versions(history),
        forall|i: int|
            0 <= i < history.len() ==> (#[trigger] history[i]).object_id > u32::MAX
                || history[i].object_id + 100 <= u32::MAX,
    ensures
        is_each_rebuilt(history, packings, recovered) <==> forall|index: int| #[trigger]
            is_to_come_back(history, index) ==> exists|at: int, packing: int, version: int|
                {
                    &&& #[trigger] is_object_entry(
                        recovered.objects@,
                        history[index].object_id,
                        at,
                    )
                    &&& 0 <= packing < packings.len()
                    &&& #[trigger] is_packing_entry(
                        packings,
                        packings[packing].domain,
                        history[index].object_id,
                        packing,
                    )
                    &&& #[trigger] is_version_entry(
                        recovered.versions@,
                        history[index].object_id,
                        version,
                    )
                    &&& is_rebuilt_from(
                        history[index],
                        recovered.objects@[at],
                        packings[packing],
                        recovered.versions@[version],
                    )
                },
{
    assert forall|index: int| #[trigger] is_to_come_back(history, index) implies (defect_of(
        history,
        packings,
        recovered,
        history[index].object_id,
    ) is None <==> exists|at: int, packing: int, version: int|
        {
            &&& #[trigger] is_object_entry(recovered.objects@, history[index].object_id, at)
            &&& 0 <= packing < packings.len()
            &&& #[trigger] is_packing_entry(
                packings,
                packings[packing].domain,
                history[index].object_id,
                packing,
            )
            &&& #[trigger] is_version_entry(
                recovered.versions@,
                history[index].object_id,
                version,
            )
            &&& is_rebuilt_from(
                history[index],
                recovered.objects@[at],
                packings[packing],
                recovered.versions@[version],
            )
        }) by {
        lemma_latest_of(history, index);
        lemma_no_defect_exactly(history[index], packings, recovered);
    }
    if is_each_rebuilt(history, packings, recovered) {
        assert forall|index: int| #[trigger] is_to_come_back(history, index) implies defect_of(
            history,
            packings,
            recovered,
            history[index].object_id,
        ) is None by {
            assert(object_model::is_committed(history, history[index].object_id));
        }
    }
    if forall|index: int| #[trigger]
        is_to_come_back(history, index) ==> defect_of(
            history,
            packings,
            recovered,
            history[index].object_id,
        ) is None {
        assert forall|object_id: u64| #[trigger]
            object_model::is_committed(history, object_id) implies defect_of(
            history,
            packings,
            recovered,
            object_id,
        ) is None by {
            let index = lemma_some_version_is_to_come_back(history, object_id);
            assert(is_to_come_back(history, index));
        }
    }
}

proof fn lemma_no_loose_end_exactly(
    history: Seq<ModelObjectRecord>,
    recovered: RecoveredObjectHistory,
)
    ensures
        has_no_loose_end(history, recovered) <==> forall|i: int, at: int|
            #![trigger history[i], recovered.objects@[at]]
            0 <= i < history.len() && 0 <= at < recovered.objects@.len()
                && recovered.objects@[at].object_id == history[i].object_id ==> exists|j: int|
                0 <= j < history.len() && (#[trigger] history[j]).committed && history[j].object_id
                    == history[i].object_id,
{
    let objects = recovered.objects@;
    if has_no_loose_end(history, recovered) {
        assert forall|i: int, at: int|
            #![trigger history[i], objects[at]]
            0 <= i < history.len() && 0 <= at < objects.len() && objects[at].object_id
                == history[i].object_id implies exists|j: int|
            0 <= j < history.len() && (#[trigger] history[j]).committed && history[j].object_id
                == history[i].object_id by {
            lemma_object_entry(objects, history[i].object_id);
            assert(!is_loose_end(history, recovered, history[i].object_id));
        }
    }
    if forall|i: int, at: int|
        #![trigger history[i], objects[at]]
        0 <= i < history.len() && 0 <= at < objects.len() && objects[at].object_id
            == history[i].object_id ==> exists|j: int|
            0 <= j < history.len() && (#[trigger] history[j]).committed && history[j].object_id
                == history[i].object_id {
        assert forall|i: int| 0 <= i < history.len() implies !is_loose_end(
            history,
            recovered,
            (#[trigger] history[i]).object_id,
        ) by {
            lemma_object_entry(objects, history[i].object_id);
            if is_loose_end(history, recovered, history[i].object_id) {
                let at = choose|at: int| #[trigger]
                    is_object_entry(objects, history[i].object_id, at);
                assert(objects[at].object_id == history[i].object_id);
            }
        }
    }
}

/// What is wrong with an object that was rebuilt in place of a version. Of several things the
/// first is given: that it is missing, that the version has no known kind, another kind, that
/// it is not persistent, a kind that the model does not have, other contents, another number,
/// another version, another type layout, references, and last another version in the log.
pub proof fn law_first_defect_is_named(
    record: ModelObjectRecord,
    packings: Seq<PackedObjectId>,
    object: RebuiltObject,
    recovered_version: Option<u32>,
)
    requires
        record.object_id + 100 <= u32::MAX,
    ensures
        ({
            let object_id = record.object_id;
            let defect = object_defect(record, packings, Some(object), recovered_version);
            let values = match object.payload {
                ObjectPayload::Struct(values) => values@,
                ObjectPayload::Array(values) => values@,
            };
            &&& object_defect(record, packings, None, recovered_version) == Some(
                ObjectRebuildMismatch::MissingObject { object_id },
            )
            &&& match record.kind {
                RecordedKind::Unknown(raw) => defect == Some(
                    ObjectRebuildMismatch::Model { error: ObjectModelError::UnknownKind { raw } },
                ),
                RecordedKind::Known(kind) => if object.kind != kind {
                    defect == Some(ObjectRebuildMismatch::WrongKind { object_id })
                } else if !object.persistent {
                    defect == Some(ObjectRebuildMismatch::NotPersistent { object_id })
                } else if !(kind is Struct) && !(kind is Array) {
                    defect == Some(
                        ObjectRebuildMismatch::Model {
                            error: ObjectModelError::UnsupportedKind { kind },
                        },
                    )
                } else if (object.payload is Struct) != (kind is Struct) || values.len() != 1
                    || values[0] != ObjectValue::I32(record.field) {
                    defect == Some(ObjectRebuildMismatch::WrongPayload { object_id })
                } else {
                    let packed = packing_at(
                        packings,
                        if kind is Struct {
                            PackedGranuleDomain::TStruct
                        } else {
                            PackedGranuleDomain::TArray
                        },
                        object_id,
                    );
                    if packed is None {
                        defect == Some(ObjectRebuildMismatch::NotPacked { object_id })
                    } else if packed != Some(object.logical_id) {
                        defect == Some(ObjectRebuildMismatch::WrongLogicalId { object_id })
                    } else if object.version != record.version {
                        defect == Some(ObjectRebuildMismatch::WrongVersion { object_id })
                    } else if object.type_layout_id != object_id + 100 {
                        defect == Some(ObjectRebuildMismatch::WrongTypeLayout { object_id })
                    } else if object.traced_objects != 0 {
                        defect == Some(ObjectRebuildMismatch::TracesObjects { object_id })
                    } else if recovered_version != Some(record.version) {
                        defect == Some(ObjectRebuildMismatch::WrongRecoveredVersion { object_id })
                    } else {
                        defect is None
                    }
                },
            }
        }),
{
    object_model::law_contents_are_the_field(record, object.payload);
}

/// What goes first of several mismatches: the number of live objects, then the defects of the
/// objects, then the loose ends, and last the number of objects that were found.
pub proof fn law_mismatches_come_in_order(
    history: Seq<ModelObjectRecord>,
    packings: Seq<PackedObjectId>,
    recovered: RecoveredObjectHistory,
    mismatch: ObjectRebuildMismatch,
    object_id: u64,
    index: int,
)
    requires
        is_first_mismatch(history, packings, recovered, mismatch),
    ensures
        ({
            let count = committed_objects(history).len();
            &&& recovered.live_count != count ==> mismatch == (ObjectRebuildMismatch::LiveCount {
                expected: count as usize,
                actual: recovered.live_count,
            })
            &&& recovered.live_count == count && object_model::is_committed(history, object_id)
                && defect_of(history, packings, recovered, object_id) is Some ==> exists|
                first: u64,
            |
                {
                    &&& #[trigger] object_model::is_committed(history, first)
                    &&& first <= object_id
                    &&& defect_of(history, packings, recovered, first) == Some(mismatch)
                }
            &&& recovered.live_count == count && is_each_rebuilt(history, packings, recovered)
                && 0 <= index < history.len() && is_loose_end(
                history,
                recovered,
                history[index].object_id,
            ) ==> exists|first: int|
                {
                    &&& 0 <= first <= index
                    &&& is_loose_end(history, recovered, (#[trigger] history[first]).object_id)
                    &&& mismatch == (ObjectRebuildMismatch::LooseEnd {
                        object_id: history[first].object_id,
                    })
                }
            &&& recovered.live_count == count && is_each_rebuilt(history, packings, recovered)
                && has_no_loose_end(history, recovered) ==> recovered.winner_count != count
                && mismatch == (ObjectRebuildMismatch::WinnerCount {
                expected: count as usize,
                actual: recovered.winner_count,
            })
        }),
{
}

/// A history has a plan exactly if every version is a struct or an array, no number of an
/// object is too large for a type layout id, and there are not too many versions for the
/// numbers of their transactions. Otherwise the first version that has no layout says why.
pub proof fn law_histories_have_plans(history: Seq<ModelObjectRecord>, index: int)
    requires
        forall|i: int|
            0 <= i < history.len() ==> (#[trigger] history[i]).object_id > u32::MAX
                || history[i].object_id + 100 <= u32::MAX,
    ensures
        first_layout_error(history) is None <==> forall|i: int|
            0 <= i < history.len() ==> (#[trigger] history[i]).object_id <= u32::MAX && (
            history[i].kind == RecordedKind::Known(ObjectKind::Struct) || history[i].kind
                == RecordedKind::Known(ObjectKind::Array)),
        0 <= index < history.len() && first_layout_error(history.take(index)) is None
            && object_model::layout_of(history[index]) is Err ==> first_layout_error(history)
            == Some(object_model::layout_of(history[index])->Err_0),
    decreases history.len(),
{
    if history.len() > 0 {
        let front = history.drop_last();
        let last = history.len() - 1;
        assert forall|i: int| 0 <= i < front.len() implies #[trigger] front[i] == history[i] by {}
        assert forall|i: int| 0 <= i < front.len() implies (#[trigger] front[i]).object_id
            > u32::MAX || front[i].object_id + 100 <= u32::MAX by {
            assert(history[i].object_id > u32::MAX || history[i].object_id + 100 <= u32::MAX);
        }
        law_histories_have_plans(front, 0);
        assert(history.last() == history[last]);
        if first_layout_error(history) is None {
            assert forall|i: int| 0 <= i < history.len() implies (
            #[trigger] history[i]).object_id <= u32::MAX && (history[i].kind
                == RecordedKind::Known(ObjectKind::Struct) || history[i].kind
                == RecordedKind::Known(ObjectKind::Array)) by {
                if i < last {
                    assert(front[i] == history[i]);
                }
            }
        }
        if 0 <= index < history.len() && first_layout_error(history.take(index)) is None
            && object_model::layout_of(history[index]) is Err {
            let taken = history.take(index + 1);
            assert(taken.drop_last() =~= history.take(index));
            assert(taken.last() == history[index]);
            lemma_first_layout_error_is_kept(history, index + 1);
        }
    }
}

/// The version at place `index` of a history is published by transaction `401 + index` to
/// stream `1 + index`: in the domain of its kind, with its object, its version, the type layout
/// of its object and its field, and committed if it is.
pub proof fn law_versions_are_published(
    publication: PlannedPublication,
    record: ModelObjectRecord,
    index: int,
)
    requires
        record.object_id + 100 <= u32::MAX,
    ensures
        is_publication_of(publication, record, index) <==> {
            &&& publication.stream_id == index + 1
            &&& publication.txid == index + 401
            &&& publication.object_id == record.object_id
            &&& publication.version == record.version
            &&& publication.type_layout_id == record.object_id + 100
            &&& publication.committed == record.committed
            &&& match publication.payload {
                ObjectPayload::Struct(values) => {
                    &&& record.kind == RecordedKind::Known(ObjectKind::Struct)
                    &&& publication.domain is TStruct
                    &&& values@.len() == 1
                    &&& values@[0] == ObjectValue::I32(record.field)
                },
                ObjectPayload::Array(values) => {
                    &&& record.kind == RecordedKind::Known(ObjectKind::Array)
                    &&& publication.domain is TArray
                    &&& values@.len() == 1
                    &&& values@[0] == ObjectValue::I32(record.field)
                },
            }
        },
{
    object_model::law_contents_are_the_field(record, publication.payload);
}

/// The number of a version is packed from its object and the domain of its kind.
pub proof fn law_logical_keys(record: ModelObjectRecord)
    ensures
        match record.kind {
            RecordedKind::Known(ObjectKind::Struct) => logical_key_of(record) == Ok::<
                (PackedGranuleDomain, u64),
                ObjectModelError,
            >((PackedGranuleDomain::TStruct, record.object_id)),
            RecordedKind::Known(ObjectKind::Array) => logical_key_of(record) == Ok::<
                (PackedGranuleDomain, u64),
                ObjectModelError,
            >((PackedGranuleDomain::TArray, record.object_id)),
            RecordedKind::Known(kind) => logical_key_of(record) == Err::<
                (PackedGranuleDomain, u64),
                ObjectModelError,
            >(ObjectModelError::UnsupportedKind { kind }),
            RecordedKind::Unknown(raw) => logical_key_of(record) == Err::<
                (PackedGranuleDomain, u64),
                ObjectModelError,
            >(ObjectModelError::UnknownKind { raw }),
        },
{
}

/// The number that a version is published under is what the last entry for its key says.
pub proof fn law_logical_ids_are_looked_up(
    record: ModelObjectRecord,
    packings: Seq<PackedObjectId>,
    at: int,
)
    ensures
        match logical_key_of(record) {
            Err(error) => logical_id_of(record, packings) == Err::<u64, ObjectRebuildMismatch>(
                ObjectRebuildMismatch::Model { error },
            ),
            Ok((domain, object_id)) => {
                &&& is_packing_entry(packings, domain, object_id, at) ==> logical_id_of(
                    record,
                    packings,
                ) == Ok::<u64, ObjectRebuildMismatch>(packings[at].packed_id)
                &&& (forall|i: int|
                    0 <= i < packings.len() ==> !((#[trigger] packings[i]).domain == domain
                        && packings[i].object_id == object_id)) ==> logical_id_of(record, packings)
                    == Err::<u64, ObjectRebuildMismatch>(
                    ObjectRebuildMismatch::NotPacked { object_id },
                )
            },
        },
{
    lemma_packing_entry(packings, PackedGranuleDomain::TStruct, record.object_id);
    lemma_packing_entry(packings, PackedGranuleDomain::TArray, record.object_id);
}

} // verus!
