//! A model of one transaction that writes memory and objects.
//!
//! After recovery either all of its writes are to be there, or none of them. What a runtime
//! left behind is read from the bytes of its memory and the objects that it found.

use std::collections::BTreeMap;

use vstd::prelude::*;

use crate::permission_model;
use crate::permission_model::{payload_i32, PermissionModelError};
use crate::values::ObjectPayload;

verus! {

/// The transaction, and the stream that it publishes to.
pub const MIXED_MODEL_TRANSACTION: u32 = 71;

/// The number of objects that are prepared.
pub const MIXED_MODEL_OBJECTS: u64 = 2;

/// The heap reference of the first prepared object.
pub const MIXED_MODEL_FIRST_GC_REF: u32 = 0x200;

/// What is there after recovery.
#[derive(Clone, Debug, PartialEq, Eq)]
pub struct ModelWorld {
    /// The byte that each granule is full of.
    pub tmemory_granules: BTreeMap<u32, u8>,
    /// The field of each object.
    pub object_fields: BTreeMap<u64, i32>,
}

/// What is there after recovery as a mathematical value.
#[verifier::ext_equal]
pub struct WorldView {
    pub tmemory_granules: Map<u32, u8>,
    pub object_fields: Map<u64, i32>,
}

impl View for ModelWorld {
    type V = WorldView;

    open spec fn view(&self) -> WorldView {
        WorldView {
            tmemory_granules: self.tmemory_granules@,
            object_fields: self.object_fields@,
        }
    }
}

/// A granule of memory that is overwritten.
#[derive(Clone, Copy, Debug, PartialEq, Eq, Structural)]
pub struct ModelTMemoryWrite {
    pub granule: u32,
    pub old_byte: u8,
    pub new_byte: u8,
}

/// An object that is overwritten.
#[derive(Clone, Copy, Debug, PartialEq, Eq, Structural)]
pub struct ModelObjectWrite {
    pub object_id: u64,
    pub old_value: i32,
    pub new_value: i32,
}

/// The writes of the transaction, and whether it commits.
#[derive(Clone, Debug, PartialEq, Eq)]
pub struct MixedModelCase {
    pub tmemory_writes: Vec<ModelTMemoryWrite>,
    pub object_writes: Vec<ModelObjectWrite>,
    pub committed: bool,
}

/// What is there after recovery, and how many objects recovery found.
#[derive(Clone, Debug, PartialEq, Eq)]
pub struct ActualMixedWorld {
    pub world: ModelWorld,
    pub object_winner_count: usize,
}

/// Why a case could not be run, or what recovery left behind made no sense.
#[derive(Clone, Copy, Debug, PartialEq, Eq)]
pub enum MixedModelError {
    /// A granule starts further off than a position can say.
    GranuleStartOverflow,
    /// A granule ends further off than a position can say.
    GranuleEndOverflow,
    /// A granule lies outside the memory.
    GranuleOutOfBounds,
    /// Granules have no bytes.
    EmptyGranule,
    /// A granule is not full of one byte.
    MixedGranule,
    /// A write goes to an object that is not prepared.
    ObjectOutsideSlots { object_id: u64 },
    /// The transaction is to commit and has published nothing.
    NothingPublished,
    /// A recovered object is not what a prepared object is.
    RecoveredObject { error: PermissionModelError },
}

/// What the granules hold if each write left `new_byte` (or, if it was undone, `old_byte`).
pub open spec fn granule_bytes(writes: Seq<ModelTMemoryWrite>, committed: bool) -> Map<u32, u8>
    decreases writes.len(),
{
    if writes.len() == 0 {
        Map::empty()
    } else {
        granule_bytes(writes.drop_last(), committed).insert(
            writes.last().granule,
            if committed {
                writes.last().new_byte
            } else {
                writes.last().old_byte
            },
        )
    }
}

/// What the objects hold after the writes.
pub open spec fn object_values(writes: Seq<ModelObjectWrite>) -> Map<u64, i32>
    decreases writes.len(),
{
    if writes.len() == 0 {
        Map::empty()
    } else {
        object_values(writes.drop_last()).insert(writes.last().object_id, writes.last().new_value)
    }
}

impl MixedModelCase {
    /// What is to be there after recovery: all new values if the transaction commits, and the
    /// old bytes and no objects if it does not.
    pub open spec fn expected(self) -> WorldView {
        WorldView {
            tmemory_granules: granule_bytes(self.tmemory_writes@, self.committed),
            object_fields: if self.committed {
                object_values(self.object_writes@)
            } else {
                Map::empty()
            },
        }
    }

    /// How many objects recovery is to find.
    pub open spec fn expected_winner_count(self) -> nat {
        if self.committed {
            self.object_writes@.len()
        } else {
            0
        }
    }

    /// What running the case asks of the runtime, up to the point where the staged objects are
    /// published.
    pub open spec fn actions(self) -> Seq<MixedModelAction> {
        fill_actions(self.tmemory_writes@) + allocate_actions() + set_actions(self.object_writes@)
            + overwrite_actions(self.tmemory_writes@) + stage_actions(self.object_writes@)
    }

    /// What is to be there after recovery.
    pub fn expected_world(&self) -> (world: ModelWorld)
        ensures
            world@ == self.expected(),
    {
        let mut tmemory_granules: BTreeMap<u32, u8> = BTreeMap::new();
        let mut index: usize = 0;
        assert(self.tmemory_writes@.take(0) =~= Seq::empty());
        while index < self.tmemory_writes.len()
            invariant
                index <= self.tmemory_writes@.len(),
                tmemory_granules@ == granule_bytes(
                    self.tmemory_writes@.take(index as int),
                    self.committed,
                ),
            decreases self.tmemory_writes@.len() - index,
        {
            let write = self.tmemory_writes[index];
            tmemory_granules.insert(
                write.granule,
                if self.committed {
                    write.new_byte
                } else {
                    write.old_byte
                },
            );
            index += 1;
            assert(self.tmemory_writes@.take(index as int).drop_last()
                =~= self.tmemory_writes@.take(index - 1));
        }
        assert(self.tmemory_writes@.take(index as int) =~= self.tmemory_writes@);
        let mut object_fields: BTreeMap<u64, i32> = BTreeMap::new();
        if self.committed {
            let mut index: usize = 0;
            assert(self.object_writes@.take(0) =~= Seq::empty());
            while index < self.object_writes.len()
                invariant
                    index <= self.object_writes@.len(),
                    object_fields@ == object_values(self.object_writes@.take(index as int)),
                decreases self.object_writes@.len() - index,
            {
                let write = self.object_writes[index];
                object_fields.insert(write.object_id, write.new_value);
                index += 1;
                assert(self.object_writes@.take(index as int).drop_last()
                    =~= self.object_writes@.take(index - 1));
            }
            assert(self.object_writes@.take(index as int) =~= self.object_writes@);
        }
        ModelWorld { tmemory_granules, object_fields }
    }
}

/// Where no granule is written twice, each holds what its write left.
pub proof fn law_each_granule_holds_its_write(
    writes: Seq<ModelTMemoryWrite>,
    committed: bool,
    index: int,
)
    requires
        0 <= index < writes.len(),
        forall|i: int, j: int|
            0 <= i < j < writes.len() ==> (#[trigger] writes[i]).granule != (
            #[trigger] writes[j]).granule,
    ensures
        granule_bytes(writes, committed).contains_key(writes[index].granule),
        granule_bytes(writes, committed)[writes[index].granule] == (if committed {
            writes[index].new_byte
        } else {
            writes[index].old_byte
        }),
    decreases writes.len(),
{
    if index < writes.len() - 1 {
        let front = writes.drop_last();
        assert forall|i: int, j: int| 0 <= i < j < front.len() implies (#[trigger] front[i]).granule
            != (#[trigger] front[j]).granule by {
            assert(front[i] == writes[i] && front[j] == writes[j]);
        }
        law_each_granule_holds_its_write(front, committed, index);
        assert(front[index] == writes[index]);
        assert(writes[index].granule != writes[writes.len() - 1].granule);
    }
}

/// Where no object is written twice, each holds what was written.
pub proof fn law_each_object_holds_its_write(writes: Seq<ModelObjectWrite>, index: int)
    requires
        0 <= index < writes.len(),
        forall|i: int, j: int|
            0 <= i < j < writes.len() ==> (#[trigger] writes[i]).object_id != (
            #[trigger] writes[j]).object_id,
    ensures
        object_values(writes).contains_key(writes[index].object_id),
        object_values(writes)[writes[index].object_id] == writes[index].new_value,
    decreases writes.len(),
{
    if index < writes.len() - 1 {
        let front = writes.drop_last();
        assert forall|i: int, j: int| 0 <= i < j < front.len() implies (
        #[trigger] front[i]).object_id != (#[trigger] front[j]).object_id by {
            assert(front[i] == writes[i] && front[j] == writes[j]);
        }
        law_each_object_holds_its_write(front, index);
        assert(front[index] == writes[index]);
        assert(writes[index].object_id != writes[writes.len() - 1].object_id);
    }
}

/// A granule full of one byte.
pub open spec fn full_granule(byte: u8, granule_size: nat) -> Seq<u8> {
    Seq::new(granule_size, |i: int| byte)
}

/// A granule full of one byte.
pub fn repeated_granule(byte: u8, granule_size: usize) -> (granule: Vec<u8>)
    ensures
        granule@ == full_granule(byte, granule_size as nat),
{
    let mut granule: Vec<u8> = Vec::new();
    while granule.len() < granule_size
        invariant
            granule@.len() <= granule_size,
            forall|i: int| 0 <= i < granule@.len() ==> granule@[i] == byte,
        decreases granule_size - granule@.len(),
    {
        granule.push(byte);
    }
    assert(granule@ =~= full_granule(byte, granule_size as nat));
    granule
}

/// The byte that a granule of a memory is full of.
pub open spec fn granule_byte(bytes: Seq<u8>, granule_size: usize, granule: u32) -> Result<
    u8,
    MixedModelError,
> {
    let start = granule * granule_size;
    let end = start + granule_size;
    if start > usize::MAX {
        Err(MixedModelError::GranuleStartOverflow)
    } else if end > usize::MAX {
        Err(MixedModelError::GranuleEndOverflow)
    } else if end > bytes.len() {
        Err(MixedModelError::GranuleOutOfBounds)
    } else if granule_size == 0 {
        Err(MixedModelError::EmptyGranule)
    } else if bytes.subrange(start, end) != full_granule(bytes[start], granule_size as nat) {
        Err(MixedModelError::MixedGranule)
    } else {
        Ok(bytes[start])
    }
}

/// The byte that a granule of a memory is full of.
pub fn file_backed_granule_byte(bytes: &[u8], granule_size: usize, granule: u32) -> (byte: Result<
    u8,
    MixedModelError,
>)
    ensures
        byte == granule_byte(bytes@, granule_size, granule),
{
    let start: usize = match (granule as usize).checked_mul(granule_size) {
        Some(start) => start,
        None => return Err(MixedModelError::GranuleStartOverflow),
    };
    let end: usize = match start.checked_add(granule_size) {
        Some(end) => end,
        None => return Err(MixedModelError::GranuleEndOverflow),
    };
    assert(bytes.len() == bytes@.len());
    if end > bytes.len() {
        return Err(MixedModelError::GranuleOutOfBounds);
    }
    if granule_size == 0 {
        return Err(MixedModelError::EmptyGranule);
    }
    let first: u8 = bytes[start];
    let ghost part = bytes@.subrange(start as int, end as int);
    let ghost full = full_granule(first, granule_size as nat);
    let mut index: usize = start;
    while index < end
        invariant
            start <= index <= end <= bytes@.len(),
            end == start + granule_size,
            start == granule * granule_size,
            granule_size > 0,
            first == bytes@[start as int],
            part == bytes@.subrange(start as int, end as int),
            full == full_granule(first, granule_size as nat),
            forall|i: int| start <= i < index ==> bytes@[i] == first,
        decreases end - index,
    {
        if bytes[index] != first {
            assert(part[index - start] != full[index - start]);
            return Err(MixedModelError::MixedGranule);
        }
        index += 1;
    }
    assert(part =~= full);
    Ok(first)
}

/// A granule that was filled with a byte reads back as that byte, whatever stands around it.
pub proof fn law_filled_granule_reads_back(
    before: Seq<u8>,
    byte: u8,
    granule_size: usize,
    after: Seq<u8>,
    granule: u32,
)
    requires
        granule_size > 0,
        before.len() == granule * granule_size,
        before.len() + granule_size <= usize::MAX,
    ensures
        granule_byte(
            before + full_granule(byte, granule_size as nat) + after,
            granule_size,
            granule,
        ) == Ok::<u8, MixedModelError>(byte),
{
    let bytes = before + full_granule(byte, granule_size as nat) + after;
    assert(bytes.subrange(before.len() as int, before.len() + granule_size) =~= full_granule(
        byte,
        granule_size as nat,
    ));
}

/// How many pairs two lists make.
pub open spec fn pairs(left: nat, right: nat) -> nat {
    if left < right {
        left
    } else {
        right
    }
}

/// The writes to the selected ones of the first `count` granules.
pub open spec fn selected_granules(
    flags: Seq<bool>,
    bytes: Seq<(u8, u8)>,
    count: nat,
) -> Seq<ModelTMemoryWrite>
    decreases count,
{
    if count == 0 {
        Seq::empty()
    } else {
        let last = count - 1;
        let writes = selected_granules(flags, bytes, last as nat);
        if flags[last] {
            writes.push(
                ModelTMemoryWrite {
                    granule: last as u32,
                    old_byte: bytes[last].0,
                    new_byte: bytes[last].1,
                },
            )
        } else {
            writes
        }
    }
}

/// The writes to the selected ones of the first `count` objects.
pub open spec fn selected_objects(
    flags: Seq<bool>,
    values: Seq<(i32, i32)>,
    count: nat,
) -> Seq<ModelObjectWrite>
    decreases count,
{
    if count == 0 {
        Seq::empty()
    } else {
        let last = count - 1;
        let writes = selected_objects(flags, values, last as nat);
        if flags[last] {
            writes.push(
                ModelObjectWrite {
                    object_id: last as u64,
                    old_value: values[last].0,
                    new_value: values[last].1,
                },
            )
        } else {
            writes
        }
    }
}

/// Whether anything is selected.
pub fn any_selected(flags: &[bool]) -> (any: bool)
    ensures
        any == flags@.contains(true),
{
    let mut index: usize = 0;
    while index < flags.len()
        invariant
            index <= flags@.len(),
            forall|i: int| 0 <= i < index ==> !flags@[i],
        decreases flags@.len() - index,
    {
        if flags[index] {
            assert(flags@[index as int]);
            return true;
        }
        index += 1;
    }
    false
}

/// The case that writes the selected granules and objects. Each granule has its old and its
/// new byte, each object its old and its new value.
pub fn model_case_from_selection(
    tmemory_flags: &[bool],
    tmemory_bytes: &[(u8, u8)],
    object_flags: &[bool],
    object_values: &[(i32, i32)],
    committed: bool,
) -> (case: MixedModelCase)
    requires
        pairs(tmemory_flags@.len(), tmemory_bytes@.len()) <= 0x1_0000_0000,
    ensures
        case.tmemory_writes@ == selected_granules(
            tmemory_flags@,
            tmemory_bytes@,
            pairs(tmemory_flags@.len(), tmemory_bytes@.len()),
        ),
        case.object_writes@ == selected_objects(
            object_flags@,
            object_values@,
            pairs(object_flags@.len(), object_values@.len()),
        ),
        case.committed == committed,
{
    let mut tmemory_writes: Vec<ModelTMemoryWrite> = Vec::new();
    let mut index: usize = 0;
    while index < tmemory_flags.len() && index < tmemory_bytes.len()
        invariant
            index <= pairs(tmemory_flags@.len(), tmemory_bytes@.len()) <= 0x1_0000_0000,
            tmemory_writes@ == selected_granules(tmemory_flags@, tmemory_bytes@, index as nat),
        decreases tmemory_flags@.len() - index,
    {
        if tmemory_flags[index] {
            let (old_byte, new_byte) = tmemory_bytes[index];
            tmemory_writes.push(
                ModelTMemoryWrite { granule: index as u32, old_byte, new_byte },
            );
        }
        index += 1;
    }
    let mut object_writes: Vec<ModelObjectWrite> = Vec::new();
    let mut index: usize = 0;
    while index < object_flags.len() && index < object_values.len()
        invariant
            index <= pairs(object_flags@.len(), object_values@.len()),
            object_writes@ == selected_objects(object_flags@, object_values@, index as nat),
        decreases object_flags@.len() - index,
    {
        if object_flags[index] {
            let (old_value, new_value) = object_values[index];
            object_writes.push(
                ModelObjectWrite { object_id: index as u64, old_value, new_value },
            );
        }
        index += 1;
    }
    MixedModelCase { tmemory_writes, object_writes, committed }
}

/// No granule is selected twice.
pub proof fn law_selected_granules_are_distinct(
    flags: Seq<bool>,
    bytes: Seq<(u8, u8)>,
    count: nat,
)
    requires
        count <= 0x1_0000_0000,
    ensures
        forall|i: int, j: int|
            0 <= i < j < selected_granules(flags, bytes, count).len() ==> (
            #[trigger] selected_granules(flags, bytes, count)[i]).granule < (
            #[trigger] selected_granules(flags, bytes, count)[j]).granule,
        forall|i: int|
            0 <= i < selected_granules(flags, bytes, count).len() ==> (
            #[trigger] selected_granules(flags, bytes, count)[i]).granule < count,
    decreases count,
{
    if count > 0 {
        law_selected_granules_are_distinct(flags, bytes, (count - 1) as nat);
        let fewer = selected_granules(flags, bytes, (count - 1) as nat);
        let all = selected_granules(flags, bytes, count);
        assert forall|i: int| 0 <= i < all.len() implies (#[trigger] all[i]).granule < count by {
            if i < fewer.len() {
                assert(all[i] == fewer[i]);
            }
        }
        assert forall|i: int, j: int| 0 <= i < j < all.len() implies (#[trigger] all[i]).granule < (
        #[trigger] all[j]).granule by {
            assert(all[i] == fewer[i]);
            if j < fewer.len() {
                assert(all[j] == fewer[j]);
            }
        }
    }
}

/// No object is selected twice.
pub proof fn law_selected_objects_are_distinct(
    flags: Seq<bool>,
    values: Seq<(i32, i32)>,
    count: nat,
)
    requires
        count <= 0x1_0000_0000_0000_0000,
    ensures
        forall|i: int, j: int|
            0 <= i < j < selected_objects(flags, values, count).len() ==> (
            #[trigger] selected_objects(flags, values, count)[i]).object_id < (
            #[trigger] selected_objects(flags, values, count)[j]).object_id,
        forall|i: int|
            0 <= i < selected_objects(flags, values, count).len() ==> (
            #[trigger] selected_objects(flags, values, count)[i]).object_id < count,
    decreases count,
{
    if count > 0 {
        law_selected_objects_are_distinct(flags, values, (count - 1) as nat);
        let fewer = selected_objects(flags, values, (count - 1) as nat);
        let all = selected_objects(flags, values, count);
        assert forall|i: int| 0 <= i < all.len() implies (#[trigger] all[i]).object_id < count by {
            if i < fewer.len() {
                assert(all[i] == fewer[i]);
            }
        }
        assert forall|i: int, j: int| 0 <= i < j < all.len() implies (#[trigger] all[i]).object_id < (
        #[trigger] all[j]).object_id by {
            assert(all[i] == fewer[i]);
            if j < fewer.len() {
                assert(all[j] == fewer[j]);
            }
        }
    }
}

/// Something that running a case asks of the runtime.
#[derive(Clone, Copy, Debug, PartialEq, Eq, Structural)]
pub enum MixedModelAction {
    /// Fill a granule with a byte, outside the transaction.
    FillGranule { granule: u32, byte: u8 },
    /// Make an object with one field, which holds `value`.
    AllocateObject { object_id: u64, gc_ref: u32, value: i32 },
    /// Set the field of an object, outside the transaction.
    SetObject { object_id: u64, value: i32 },
    /// Publish how to undo a write, and then fill the granule.
    OverwriteGranule { granule: u32, byte: u8 },
    /// Take an object and stage a new value of its field.
    StageObject { object_id: u64, value: i32 },
}

/// The granules filled with their old bytes.
pub open spec fn fill_actions(writes: Seq<ModelTMemoryWrite>) -> Seq<MixedModelAction> {
    writes.map_values(
        |write: ModelTMemoryWrite|
            MixedModelAction::FillGranule { granule: write.granule, byte: write.old_byte },
    )
}

/// The prepared objects.
pub open spec fn allocate_actions() -> Seq<MixedModelAction> {
    seq![
        MixedModelAction::AllocateObject {
            object_id: 0,
            gc_ref: MIXED_MODEL_FIRST_GC_REF,
            value: 0,
        },
        MixedModelAction::AllocateObject {
            object_id: 1,
            gc_ref: (MIXED_MODEL_FIRST_GC_REF + 1) as u32,
            value: 0,
        },
    ]
}

/// The objects set to their old values.
pub open spec fn set_actions(writes: Seq<ModelObjectWrite>) -> Seq<MixedModelAction> {
    writes.map_values(
        |write: ModelObjectWrite|
            MixedModelAction::SetObject { object_id: write.object_id, value: write.old_value },
    )
}

/// The granules overwritten.
pub open spec fn overwrite_actions(writes: Seq<ModelTMemoryWrite>) -> Seq<MixedModelAction> {
    writes.map_values(
        |write: ModelTMemoryWrite|
            MixedModelAction::OverwriteGranule { granule: write.granule, byte: write.new_byte },
    )
}

/// The new values of the objects staged.
pub open spec fn stage_actions(writes: Seq<ModelObjectWrite>) -> Seq<MixedModelAction> {
    writes.map_values(
        |write: ModelObjectWrite|
            MixedModelAction::StageObject { object_id: write.object_id, value: write.new_value },
    )
}

/// The first write to an object that is not prepared.
pub open spec fn first_unprepared(writes: Seq<ModelObjectWrite>) -> Option<u64>
    decreases writes.len(),
{
    if writes.len() == 0 {
        None
    } else if first_unprepared(writes.drop_last()) is Some {
        first_unprepared(writes.drop_last())
    } else if writes.last().object_id >= MIXED_MODEL_OBJECTS {
        Some(writes.last().object_id)
    } else {
        None
    }
}

proof fn lemma_first_unprepared_is_kept(writes: Seq<ModelObjectWrite>, count: int)
    requires
        0 <= count <= writes.len(),
        first_unprepared(writes.take(count)) is Some,
    ensures
        first_unprepared(writes) == first_unprepared(writes.take(count)),
    decreases writes.len(),
{
    if count == writes.len() {
        assert(writes.take(count) =~= writes);
    } else {
        assert(writes.drop_last().take(count) =~= writes.take(count));
        lemma_first_unprepared_is_kept(writes.drop_last(), count);
    }
}

/// What running a case asks of the runtime, up to the point where the staged objects are
/// published.
pub fn mixed_model_actions(case: &MixedModelCase) -> (actions: Result<
    Vec<MixedModelAction>,
    MixedModelError,
>)
    ensures
        match actions {
            Ok(actions) => first_unprepared(case.object_writes@) is None && actions@
                == case.actions(),
            Err(error) => first_unprepared(case.object_writes@) matches Some(object_id) && error
                == (MixedModelError::ObjectOutsideSlots { object_id }),
        },
{
    let mut actions: Vec<MixedModelAction> = Vec::new();
    let mut index: usize = 0;
    while index < case.tmemory_writes.len()
        invariant
            index <= case.tmemory_writes@.len(),
            actions@ =~= fill_actions(case.tmemory_writes@.take(index as int)),
        decreases case.tmemory_writes@.len() - index,
    {
        let write = case.tmemory_writes[index];
        actions.push(
            MixedModelAction::FillGranule { granule: write.granule, byte: write.old_byte },
        );
        index += 1;
    }
    assert(case.tmemory_writes@.take(index as int) =~= case.tmemory_writes@);
    actions.push(
        MixedModelAction::AllocateObject {
            object_id: 0,
            gc_ref: MIXED_MODEL_FIRST_GC_REF,
            value: 0,
        },
    );
    actions.push(
        MixedModelAction::AllocateObject {
            object_id: 1,
            gc_ref: MIXED_MODEL_FIRST_GC_REF + 1,
            value: 0,
        },
    );
    let ghost prepared = fill_actions(case.tmemory_writes@) + allocate_actions();
    assert(actions@ =~= prepared);
    let mut index: usize = 0;
    assert(case.object_writes@.take(0) =~= Seq::empty());
    while index < case.object_writes.len()
        invariant
            index <= case.object_writes@.len(),
            first_unprepared(case.object_writes@.take(index as int)) is None,
            actions@ =~= prepared + set_actions(case.object_writes@.take(index as int)),
        decreases case.object_writes@.len() - index,
    {
        let write = case.object_writes[index];
        proof {
            assert(case.object_writes@.take(index + 1).drop_last() =~= case.object_writes@.take(
                index as int,
            ));
            if write.object_id >= MIXED_MODEL_OBJECTS {
                lemma_first_unprepared_is_kept(case.object_writes@, index + 1);
            }
        }
        if write.object_id >= MIXED_MODEL_OBJECTS {
            return Err(MixedModelError::ObjectOutsideSlots { object_id: write.object_id });
        }
        actions.push(
            MixedModelAction::SetObject { object_id: write.object_id, value: write.old_value },
        );
        index += 1;
    }
    assert(case.object_writes@.take(index as int) =~= case.object_writes@);
    let ghost set = prepared + set_actions(case.object_writes@);
    let mut index: usize = 0;
    while index < case.tmemory_writes.len()
        invariant
            index <= case.tmemory_writes@.len(),
            actions@ =~= set + overwrite_actions(case.tmemory_writes@.take(index as int)),
        decreases case.tmemory_writes@.len() - index,
    {
        let write = case.tmemory_writes[index];
        actions.push(
            MixedModelAction::OverwriteGranule { granule: write.granule, byte: write.new_byte },
        );
        index += 1;
    }
    assert(case.tmemory_writes@.take(index as int) =~= case.tmemory_writes@);
    let ghost overwritten = set + overwrite_actions(case.tmemory_writes@);
    let mut index: usize = 0;
    while index < case.object_writes.len()
        invariant
            index <= case.object_writes@.len(),
            actions@ =~= overwritten + stage_actions(case.object_writes@.take(index as int)),
        decreases case.object_writes@.len() - index,
    {
        let write = case.object_writes[index];
        actions.push(
            MixedModelAction::StageObject { object_id: write.object_id, value: write.new_value },
        );
        index += 1;
    }
    assert(case.object_writes@.take(index as int) =~= case.object_writes@);
    Ok(actions)
}

/// Where to publish the commit: behind the objects if there were any, else behind the last
/// granule that was overwritten. A transaction that does not commit publishes none.
pub fn commit_marker(
    committed: bool,
    undo_marker: Option<u64>,
    object_marker: Option<u64>,
) -> (marker: Result<Option<u64>, MixedModelError>)
    ensures
        marker == (if !committed {
            Ok::<Option<u64>, MixedModelError>(None)
        } else if object_marker is Some {
            Ok(object_marker)
        } else if undo_marker is Some {
            Ok(undo_marker)
        } else {
            Err(MixedModelError::NothingPublished)
        }),
{
    if !committed {
        return Ok(None);
    }
    match (object_marker, undo_marker) {
        (Some(marker), _) => Ok(Some(marker)),
        (None, Some(marker)) => Ok(Some(marker)),
        (None, None) => Err(MixedModelError::NothingPublished),
    }
}

/// An object that recovery found.
#[derive(Clone, Debug, PartialEq, Eq)]
pub struct RecoveredObject {
    pub object_id: u64,
    pub payload: ObjectPayload,
}

/// What a memory holds in the granules that were written.
pub open spec fn observed_granules(
    writes: Seq<ModelTMemoryWrite>,
    bytes: Seq<u8>,
    granule_size: usize,
) -> Result<Map<u32, u8>, MixedModelError>
    decreases writes.len(),
{
    if writes.len() == 0 {
        Ok(Map::empty())
    } else {
        match (
            observed_granules(writes.drop_last(), bytes, granule_size),
            granule_byte(bytes, granule_size, writes.last().granule),
        ) {
            (Err(error), _) => Err(error),
            (_, Err(error)) => Err(error),
            (Ok(granules), Ok(byte)) => Ok(granules.insert(writes.last().granule, byte)),
        }
    }
}

/// What the objects that recovery found hold.
pub open spec fn observed_objects(winners: Seq<RecoveredObject>) -> Result<
    Map<u64, i32>,
    MixedModelError,
>
    decreases winners.len(),
{
    if winners.len() == 0 {
        Ok(Map::empty())
    } else {
        match (
            observed_objects(winners.drop_last()),
            permission_model::first_i32(winners.last().payload),
        ) {
            (Err(error), _) => Err(error),
            (_, Err(error)) => Err(MixedModelError::RecoveredObject { error }),
            (Ok(objects), Ok(value)) => Ok(objects.insert(winners.last().object_id, value)),
        }
    }
}

proof fn lemma_observed_granules_fail(
    writes: Seq<ModelTMemoryWrite>,
    bytes: Seq<u8>,
    granule_size: usize,
    count: int,
)
    requires
        0 <= count <= writes.len(),
        observed_granules(writes.take(count), bytes, granule_size) is Err,
    ensures
        observed_granules(writes, bytes, granule_size) == observed_granules(
            writes.take(count),
            bytes,
            granule_size,
        ),
    decreases writes.len(),
{
    if count == writes.len() {
        assert(writes.take(count) =~= writes);
    } else {
        assert(writes.drop_last().take(count) =~= writes.take(count));
        lemma_observed_granules_fail(writes.drop_last(), bytes, granule_size, count);
    }
}

proof fn lemma_observed_objects_fail(winners: Seq<RecoveredObject>, count: int)
    requires
        0 <= count <= winners.len(),
        observed_objects(winners.take(count)) is Err,
    ensures
        observed_objects(winners) == observed_objects(winners.take(count)),
    decreases winners.len(),
{
    if count == winners.len() {
        assert(winners.take(count) =~= winners);
    } else {
        assert(winners.drop_last().take(count) =~= winners.take(count));
        lemma_observed_objects_fail(winners.drop_last(), count);
    }
}

/// What is there after recovery and how many objects recovery found, given the bytes of the
/// memory and the objects.
pub open spec fn observed(
    case: MixedModelCase,
    granule_size: usize,
    bytes: Seq<u8>,
    winners: Seq<RecoveredObject>,
) -> Result<(WorldView, nat), MixedModelError> {
    match (
        observed_granules(case.tmemory_writes@, bytes, granule_size),
        observed_objects(winners),
    ) {
        (Err(error), _) => Err(error),
        (_, Err(error)) => Err(error),
        (Ok(tmemory_granules), Ok(object_fields)) => Ok(
            (WorldView { tmemory_granules, object_fields }, winners.len()),
        ),
    }
}

/// What is there after recovery, given the bytes of the memory and the objects that recovery
/// found.
pub fn observed_mixed_world(
    case: &MixedModelCase,
    granule_size: usize,
    tmemory_file: &[u8],
    winners: &[RecoveredObject],
) -> (actual: Result<ActualMixedWorld, MixedModelError>)
    ensures
        observed(*case, granule_size, tmemory_file@, winners@) == (match actual {
            Ok(actual) => Ok::<(WorldView, nat), MixedModelError>(
                (actual.world@, actual.object_winner_count as nat),
            ),
            Err(error) => Err(error),
        }),
{
    let mut tmemory_granules: BTreeMap<u32, u8> = BTreeMap::new();
    let mut index: usize = 0;
    let ghost writes = case.tmemory_writes@;
    assert(writes.take(0) =~= Seq::empty());
    while index < case.tmemory_writes.len()
        invariant
            index <= writes.len(),
            writes == case.tmemory_writes@,
            observed_granules(writes.take(index as int), tmemory_file@, granule_size) == Ok::<
                Map<u32, u8>,
                MixedModelError,
            >(tmemory_granules@),
        decreases writes.len() - index,
    {
        let granule: u32 = case.tmemory_writes[index].granule;
        assert(writes.take(index + 1).drop_last() =~= writes.take(index as int));
        match file_backed_granule_byte(tmemory_file, granule_size, granule) {
            Ok(byte) => {
                tmemory_granules.insert(granule, byte);
            },
            Err(error) => {
                proof {
                    lemma_observed_granules_fail(writes, tmemory_file@, granule_size, index + 1);
                }
                return Err(error);
            },
        }
        index += 1;
    }
    assert(writes.take(index as int) =~= writes);
    let mut object_fields: BTreeMap<u64, i32> = BTreeMap::new();
    let mut index: usize = 0;
    assert(winners@.take(0) =~= Seq::empty());
    while index < winners.len()
        invariant
            index <= winners@.len(),
            observed_granules(case.tmemory_writes@, tmemory_file@, granule_size) == Ok::<
                Map<u32, u8>,
                MixedModelError,
            >(tmemory_granules@),
            observed_objects(winners@.take(index as int)) == Ok::<Map<u64, i32>, MixedModelError>(
                object_fields@,
            ),
        decreases winners@.len() - index,
    {
        let winner = &winners[index];
        assert(winners@.take(index + 1).drop_last() =~= winners@.take(index as int));
        match payload_i32(&winner.payload) {
            Ok(value) => {
                object_fields.insert(winner.object_id, value);
            },
            Err(error) => {
                proof {
                    lemma_observed_objects_fail(winners@, index + 1);
                }
                return Err(MixedModelError::RecoveredObject { error });
            },
        }
        index += 1;
    }
    assert(winners@.take(index as int) =~= winners@);
    Ok(
        ActualMixedWorld {
            world: ModelWorld { tmemory_granules, object_fields },
            object_winner_count: winners.len(),
        },
    )
}

/// Exactly the written granules hold something, and each what its last write left: the new
/// byte, or the old one if the write was undone.
pub proof fn law_granules_hold_the_last_write(
    writes: Seq<ModelTMemoryWrite>,
    committed: bool,
    granule: u32,
    index: int,
)
    ensures
        granule_bytes(writes, committed).contains_key(granule) <==> exists|i: int|
            0 <= i < writes.len() && (#[trigger] writes[i]).granule == granule,
        0 <= index < writes.len() && writes[index].granule == granule && (forall|i: int|
            index < i < writes.len() ==> (#[trigger] writes[i]).granule != granule)
            ==> granule_bytes(writes, committed)[granule] == (if committed {
            writes[index].new_byte
        } else {
            writes[index].old_byte
        }),
    decreases writes.len(),
{
    if writes.len() > 0 {
        let front = writes.drop_last();
        let last = writes.len() - 1;
        law_granules_hold_the_last_write(front, committed, granule, index);
        assert(writes.last() == writes[last]);
        assert forall|i: int| 0 <= i < front.len() implies #[trigger] front[i] == writes[i] by {}
        if exists|i: int| 0 <= i < front.len() && (#[trigger] front[i]).granule == granule {
            let i = choose|i: int|
                0 <= i < front.len() && (#[trigger] front[i]).granule == granule;
            assert(writes[i].granule == granule);
        }
        if exists|i: int| 0 <= i < writes.len() && (#[trigger] writes[i]).granule == granule {
            let i = choose|i: int|
                0 <= i < writes.len() && (#[trigger] writes[i]).granule == granule;
            if i < last {
                assert(front[i].granule == granule);
            }
        }
        if 0 <= index < last && writes[index].granule == granule && forall|i: int|
            index < i < writes.len() ==> (#[trigger] writes[i]).granule != granule {
            assert(writes[last].granule != granule);
            assert(front[index].granule == granule);
            assert forall|i: int| index < i < front.len() implies (#[trigger] front[i]).granule
                != granule by {
                assert(writes[i].granule != granule);
            }
        }
    }
}

/// Exactly the written objects hold something, and each the new value of its last write.
pub proof fn law_objects_hold_the_last_write(
    writes: Seq<ModelObjectWrite>,
    object_id: u64,
    index: int,
)
    ensures
        object_values(writes).contains_key(object_id) <==> exists|i: int|
            0 <= i < writes.len() && (#[trigger] writes[i]).object_id == object_id,
        0 <= index < writes.len() && writes[index].object_id == object_id && (forall|i: int|
            index < i < writes.len() ==> (#[trigger] writes[i]).object_id != object_id)
            ==> object_values(writes)[object_id] == writes[index].new_value,
    decreases writes.len(),
{
    if writes.len() > 0 {
        let front = writes.drop_last();
        let last = writes.len() - 1;
        law_objects_hold_the_last_write(front, object_id, index);
        assert(writes.last() == writes[last]);
        assert forall|i: int| 0 <= i < front.len() implies #[trigger] front[i] == writes[i] by {}
        if exists|i: int| 0 <= i < front.len() && (#[trigger] front[i]).object_id == object_id {
            let i = choose|i: int|
                0 <= i < front.len() && (#[trigger] front[i]).object_id == object_id;
            assert(writes[i].object_id == object_id);
        }
        if exists|i: int| 0 <= i < writes.len() && (#[trigger] writes[i]).object_id == object_id {
            let i = choose|i: int|
                0 <= i < writes.len() && (#[trigger] writes[i]).object_id == object_id;
            if i < last {
                assert(front[i].object_id == object_id);
            }
        }
        if 0 <= index < last && writes[index].object_id == object_id && forall|i: int|
            index < i < writes.len() ==> (#[trigger] writes[i]).object_id != object_id {
            assert(writes[last].object_id != object_id);
            assert(front[index].object_id == object_id);
            assert forall|i: int| index < i < front.len() implies (#[trigger] front[i]).object_id
                != object_id by {
                assert(writes[i].object_id != object_id);
            }
        }
    }
}

/// All writes of a transaction are to be there if it commits. Otherwise the written granules
/// hold their old bytes, and there are no objects.
pub proof fn law_all_or_nothing_is_expected(case: MixedModelCase, granule: u32, object_id: u64)
    ensures
        case.expected().tmemory_granules.contains_key(granule) <==> exists|i: int|
            0 <= i < case.tmemory_writes@.len() && (#[trigger] case.tmemory_writes@[i]).granule
                == granule,
        case.expected().tmemory_granules.contains_key(granule) ==> exists|i: int|
            {
                &&& 0 <= i < case.tmemory_writes@.len()
                &&& (#[trigger] case.tmemory_writes@[i]).granule == granule
                &&& case.expected().tmemory_granules[granule] == (if case.committed {
                    case.tmemory_writes@[i].new_byte
                } else {
                    case.tmemory_writes@[i].old_byte
                })
            },
        case.expected().object_fields.contains_key(object_id) <==> case.committed && exists|i: int|
            0 <= i < case.object_writes@.len() && (#[trigger] case.object_writes@[i]).object_id
                == object_id,
        case.expected().object_fields.contains_key(object_id) ==> exists|i: int|
            {
                &&& 0 <= i < case.object_writes@.len()
                &&& (#[trigger] case.object_writes@[i]).object_id == object_id
                &&& case.expected().object_fields[object_id] == case.object_writes@[i].new_value
            },
        case.expected_winner_count() == (if case.committed {
            case.object_writes@.len()
        } else {
            0
        }),
{
    law_granules_hold_the_last_write(case.tmemory_writes@, case.committed, granule, 0);
    law_objects_hold_the_last_write(case.object_writes@, object_id, 0);
    if case.expected().tmemory_granules.contains_key(granule) {
        let i = lemma_last_granule_write(case.tmemory_writes@, granule);
        law_granules_hold_the_last_write(case.tmemory_writes@, case.committed, granule, i);
        assert(case.tmemory_writes@[i].granule == granule);
    }
    if case.expected().object_fields.contains_key(object_id) {
        let i = lemma_last_object_write(case.object_writes@, object_id);
        law_objects_hold_the_last_write(case.object_writes@, object_id, i);
        assert(case.object_writes@[i].object_id == object_id);
    }
}

proof fn lemma_last_granule_write(writes: Seq<ModelTMemoryWrite>, granule: u32) -> (index: int)
    requires
        exists|i: int| 0 <= i < writes.len() && (#[trigger] writes[i]).granule == granule,
    ensures
        0 <= index < writes.len(),
        writes[index].granule == granule,
        forall|i: int| index < i < writes.len() ==> (#[trigger] writes[i]).granule != granule,
    decreases writes.len(),
{
    let last = writes.len() - 1;
    if writes[last].granule == granule {
        last
    } else {
        let front = writes.drop_last();
        let found = choose|i: int|
            0 <= i < writes.len() && (#[trigger] writes[i]).granule == granule;
        assert(front[found].granule == granule);
        let index = lemma_last_granule_write(front, granule);
        assert(writes[index] == front[index]);
        assert forall|i: int| index < i < writes.len() implies (#[trigger] writes[i]).granule
            != granule by {
            if i < last {
                assert(front[i] == writes[i]);
            }
        }
        index
    }
}

proof fn lemma_last_object_write(writes: Seq<ModelObjectWrite>, object_id: u64) -> (index: int)
    requires
        exists|i: int| 0 <= i < writes.len() && (#[trigger] writes[i]).object_id == object_id,
    ensures
        0 <= index < writes.len(),
        writes[index].object_id == object_id,
        forall|i: int| index < i < writes.len() ==> (#[trigger] writes[i]).object_id != object_id,
    decreases writes.len(),
{
    let last = writes.len() - 1;
    if writes[last].object_id == object_id {
        last
    } else {
        let front = writes.drop_last();
        let found = choose|i: int|
            0 <= i < writes.len() && (#[trigger] writes[i]).object_id == object_id;
        assert(front[found].object_id == object_id);
        let index = lemma_last_object_write(front, object_id);
        assert(writes[index] == front[index]);
        assert forall|i: int| index < i < writes.len() implies (#[trigger] writes[i]).object_id
            != object_id by {
            if i < last {
                assert(front[i] == writes[i]);
            }
        }
        index
    }
}

/// A granule is full of a byte exactly if granules have bytes, all of the granule lies in the
/// memory, and each of its bytes is that byte. Otherwise a position that is too large goes
/// first, then the end of the memory, and then granules without bytes.
pub proof fn law_granule_is_full_of_one_byte(
    bytes: Seq<u8>,
    granule_size: usize,
    granule: u32,
    byte: u8,
)
    requires
        bytes.len() <= usize::MAX,
    ensures
        ({
            let start = granule * granule_size;
            &&& granule_byte(bytes, granule_size, granule) == Ok::<u8, MixedModelError>(byte)
                <==> granule_size > 0 && start + granule_size <= bytes.len() && forall|i: int|
                start <= i < start + granule_size ==> #[trigger] bytes[i] == byte
            &&& start > usize::MAX ==> granule_byte(bytes, granule_size, granule) == Err::<
                u8,
                MixedModelError,
            >(MixedModelError::GranuleStartOverflow)
            &&& start <= usize::MAX && start + granule_size > usize::MAX ==> granule_byte(
                bytes,
                granule_size,
                granule,
            ) == Err::<u8, MixedModelError>(MixedModelError::GranuleEndOverflow)
            &&& start + granule_size <= usize::MAX && start + granule_size > bytes.len()
                ==> granule_byte(bytes, granule_size, granule) == Err::<u8, MixedModelError>(
                MixedModelError::GranuleOutOfBounds,
            )
            &&& granule_size == 0 ==> granule_byte(bytes, granule_size, granule) == Err::<
                u8,
                MixedModelError,
            >(MixedModelError::EmptyGranule)
            &&& granule_size > 0 && start + granule_size <= bytes.len() && granule_byte(
                bytes,
                granule_size,
                granule,
            ) is Err ==> granule_byte(bytes, granule_size, granule) == Err::<u8, MixedModelError>(
                MixedModelError::MixedGranule,
            )
        }),
{
    let start = granule * granule_size;
    let end = start + granule_size;
    assert(start >= 0) by (nonlinear_arith)
        requires
            start == granule * granule_size,
    ;
    if granule_size == 0 {
        assert(start == 0) by (nonlinear_arith)
            requires
                start == granule * granule_size,
                granule_size == 0,
        ;
    }
    if granule_size > 0 && end <= bytes.len() {
        let part = bytes.subrange(start, end);
        let full = full_granule(bytes[start], granule_size as nat);
        if part == full {
            assert forall|i: int| start <= i < end implies #[trigger] bytes[i] == bytes[start] by {
                assert(part[i - start] == full[i - start]);
            }
        }
        if forall|i: int| start <= i < end ==> #[trigger] bytes[i] == byte {
            assert(bytes[start] == byte);
            assert forall|i: int| 0 <= i < granule_size implies part[i] == full[i] by {
                assert(bytes[start + i] == byte);
            }
            assert(part =~= full);
        }
    }
}

/// A granule is written exactly if it is selected, with the bytes that go with it.
pub proof fn law_selected_granules_are_written(
    flags: Seq<bool>,
    bytes: Seq<(u8, u8)>,
    count: nat,
    write: ModelTMemoryWrite,
)
    requires
        count <= 0x1_0000_0000,
    ensures
        selected_granules(flags, bytes, count).contains(write) <==> {
            &&& write.granule < count
            &&& flags[write.granule as int]
            &&& write.old_byte == bytes[write.granule as int].0
            &&& write.new_byte == bytes[write.granule as int].1
        },
    decreases count,
{
    if count > 0 {
        let last = count - 1;
        let fewer = selected_granules(flags, bytes, last as nat);
        let all = selected_granules(flags, bytes, count);
        law_selected_granules_are_written(flags, bytes, last as nat, write);
        if flags[last] {
            assert(all[fewer.len() as int].granule == last);
            if fewer.contains(write) {
                let i = choose|i: int| 0 <= i < fewer.len() && fewer[i] == write;
                assert(all[i] == write);
            }
            if all.contains(write) {
                let i = choose|i: int| 0 <= i < all.len() && all[i] == write;
                if i < fewer.len() {
                    assert(fewer[i] == write);
                }
            }
        }
    }
}

/// An object is written exactly if it is selected, with the values that go with it.
pub proof fn law_selected_objects_are_written(
    flags: Seq<bool>,
    values: Seq<(i32, i32)>,
    count: nat,
    write: ModelObjectWrite,
)
    requires
        count <= 0x1_0000_0000_0000_0000,
    ensures
        selected_objects(flags, values, count).contains(write) <==> {
            &&& write.object_id < count
            &&& flags[write.object_id as int]
            &&& write.old_value == values[write.object_id as int].0
            &&& write.new_value == values[write.object_id as int].1
        },
    decreases count,
{
    if count > 0 {
        let last = count - 1;
        let fewer = selected_objects(flags, values, last as nat);
        let all = selected_objects(flags, values, count);
        law_selected_objects_are_written(flags, values, last as nat, write);
        if flags[last] {
            assert(all[fewer.len() as int].object_id == last);
            if fewer.contains(write) {
                let i = choose|i: int| 0 <= i < fewer.len() && fewer[i] == write;
                assert(all[i] == write);
            }
            if all.contains(write) {
                let i = choose|i: int| 0 <= i < all.len() && all[i] == write;
                if i < fewer.len() {
                    assert(fewer[i] == write);
                }
            }
        }
    }
}

/// Two lists make as many pairs as the shorter one has members.
pub proof fn law_pairs(left: nat, right: nat)
    ensures
        pairs(left, right) <= left,
        pairs(left, right) <= right,
        pairs(left, right) == left || pairs(left, right) == right,
{
}

/// The first write to an object that is neither object zero nor object one stops a case.
pub proof fn law_objects_zero_and_one_are_prepared(writes: Seq<ModelObjectWrite>, index: int)
    ensures
        first_unprepared(writes) is None <==> forall|i: int|
            0 <= i < writes.len() ==> (#[trigger] writes[i]).object_id <= 1,
        0 <= index < writes.len() && writes[index].object_id > 1 && (forall|i: int|
            0 <= i < index ==> (#[trigger] writes[i]).object_id <= 1) ==> first_unprepared(writes)
            == Some(writes[index].object_id),
    decreases writes.len(),
{
    if writes.len() > 0 {
        let front = writes.drop_last();
        let last = writes.len() - 1;
        law_objects_zero_and_one_are_prepared(front, index);
        assert(writes.last() == writes[last]);
        assert forall|i: int| 0 <= i < front.len() implies #[trigger] front[i] == writes[i] by {}
        if first_unprepared(writes) is None {
            assert forall|i: int| 0 <= i < writes.len() implies (#[trigger] writes[i]).object_id
                <= 1 by {
                if i < last {
                    assert(front[i] == writes[i]);
                }
            }
        }
        if 0 <= index < writes.len() && writes[index].object_id > 1 && forall|i: int|
            0 <= i < index ==> (#[trigger] writes[i]).object_id <= 1 {
            assert forall|i: int| 0 <= i < front.len() && i < index implies (
            #[trigger] front[i]).object_id <= 1 by {
                assert(writes[i].object_id <= 1);
            }
            if index < last {
                assert(front[index] == writes[index]);
            }
        }
    }
}

/// What a case asks for, in order: every written granule is filled with its old byte, objects
/// zero and one are made for the references `0x200` and `0x201` with zero in their fields, and
/// set to their old values; then the granules are overwritten, and last the objects are staged.
pub proof fn law_actions_of_a_case(case: MixedModelCase, index: int)
    ensures
        ({
            let granules = case.tmemory_writes@;
            let objects = case.object_writes@;
            let actions = case.actions();
            let made = granules.len();
            let set = granules.len() + 2;
            let overwritten = set + objects.len();
            let staged = overwritten + granules.len();
            &&& actions.len() == staged + objects.len()
            &&& actions[made as int] == (MixedModelAction::AllocateObject {
                object_id: 0,
                gc_ref: 0x200,
                value: 0,
            })
            &&& actions[made as int + 1] == (MixedModelAction::AllocateObject {
                object_id: 1,
                gc_ref: 0x201,
                value: 0,
            })
            &&& 0 <= index < granules.len() ==> {
                &&& actions[index] == (MixedModelAction::FillGranule {
                    granule: granules[index].granule,
                    byte: granules[index].old_byte,
                })
                &&& actions[overwritten as int + index] == (MixedModelAction::OverwriteGranule {
                    granule: granules[index].granule,
                    byte: granules[index].new_byte,
                })
            }
            &&& 0 <= index < objects.len() ==> {
                &&& actions[set as int + index] == (MixedModelAction::SetObject {
                    object_id: objects[index].object_id,
                    value: objects[index].old_value,
                })
                &&& actions[staged as int + index] == (MixedModelAction::StageObject {
                    object_id: objects[index].object_id,
                    value: objects[index].new_value,
                })
            }
        }),
{
}

/// What is read of a memory is the byte of each written granule, if each is full of one; and
/// otherwise why the first one is not.
pub proof fn law_granules_are_read_in_order(
    writes: Seq<ModelTMemoryWrite>,
    bytes: Seq<u8>,
    granule_size: usize,
    granule: u32,
    index: int,
)
    ensures
        observed_granules(writes, bytes, granule_size) is Ok <==> forall|i: int|
            0 <= i < writes.len() ==> granule_byte(
                bytes,
                granule_size,
                (#[trigger] writes[i]).granule,
            ) is Ok,
        observed_granules(writes, bytes, granule_size) matches Ok(granules) ==> {
            &&& granules.contains_key(granule) <==> exists|i: int|
                0 <= i < writes.len() && (#[trigger] writes[i]).granule == granule
            &&& granules.contains_key(granule) ==> granule_byte(bytes, granule_size, granule)
                == Ok::<u8, MixedModelError>(granules[granule])
        },
        0 <= index < writes.len() && granule_byte(bytes, granule_size, writes[index].granule)
            is Err && (forall|i: int|
            0 <= i < index ==> granule_byte(bytes, granule_size, (#[trigger] writes[i]).granule)
                is Ok) ==> observed_granules(writes, bytes, granule_size) == Err::<
            Map<u32, u8>,
            MixedModelError,
        >(granule_byte(bytes, granule_size, writes[index].granule)->Err_0),
    decreases writes.len(),
{
    if writes.len() > 0 {
        let front = writes.drop_last();
        let last = writes.len() - 1;
        law_granules_are_read_in_order(front, bytes, granule_size, granule, index);
        assert(writes.last() == writes[last]);
        assert forall|i: int| 0 <= i < front.len() implies #[trigger] front[i] == writes[i] by {}
        if observed_granules(writes, bytes, granule_size) is Ok {
            assert forall|i: int| 0 <= i < writes.len() implies granule_byte(
                bytes,
                granule_size,
                (#[trigger] writes[i]).granule,
            ) is Ok by {
                if i < last {
                    assert(front[i] == writes[i]);
                }
            }
            if exists|i: int| 0 <= i < front.len() && (#[trigger] front[i]).granule == granule {
                let i = choose|i: int|
                    0 <= i < front.len() && (#[trigger] front[i]).granule == granule;
                assert(writes[i].granule == granule);
            }
            if exists|i: int| 0 <= i < writes.len() && (#[trigger] writes[i]).granule == granule {
                let i = choose|i: int|
                    0 <= i < writes.len() && (#[trigger] writes[i]).granule == granule;
                if i < last {
                    assert(front[i].granule == granule);
                }
            }
        }
        if 0 <= index < writes.len() && granule_byte(bytes, granule_size, writes[index].granule)
            is Err && forall|i: int|
            0 <= i < index ==> granule_byte(bytes, granule_size, (#[trigger] writes[i]).granule)
                is Ok {
            assert forall|i: int| 0 <= i < front.len() && i < index implies granule_byte(
                bytes,
                granule_size,
                (#[trigger] front[i]).granule,
            ) is Ok by {
                assert(front[i] == writes[i]);
                assert(granule_byte(bytes, granule_size, writes[i].granule) is Ok);
            }
            if index < last {
                assert(front[index] == writes[index]);
            }
        }
    }
}

/// What is read of the objects that were found is the integer of each, the last one found of
/// an object counting; and otherwise why the first one has none.
pub proof fn law_objects_are_read_in_order(
    winners: Seq<RecoveredObject>,
    object_id: u64,
    index: int,
)
    ensures
        observed_objects(winners) is Ok <==> forall|i: int|
            0 <= i < winners.len() ==> permission_model::first_i32(
                (#[trigger] winners[i]).payload,
            ) is Ok,
        observed_objects(winners) matches Ok(objects) ==> {
            &&& objects.contains_key(object_id) <==> exists|i: int|
                0 <= i < winners.len() && (#[trigger] winners[i]).object_id == object_id
            &&& 0 <= index < winners.len() && winners[index].object_id == object_id && (forall|
                i: int,
            |
                index < i < winners.len() ==> (#[trigger] winners[i]).object_id != object_id)
                ==> permission_model::first_i32(winners[index].payload) == Ok::<
                i32,
                PermissionModelError,
            >(objects[object_id])
        },
        0 <= index < winners.len() && permission_model::first_i32(winners[index].payload) is Err
            && (forall|i: int|
            0 <= i < index ==> permission_model::first_i32((#[trigger] winners[i]).payload) is Ok)
            ==> observed_objects(winners) == Err::<Map<u64, i32>, MixedModelError>(
            MixedModelError::RecoveredObject {
                error: permission_model::first_i32(winners[index].payload)->Err_0,
            },
        ),
    decreases winners.len(),
{
    if winners.len() > 0 {
        let front = winners.drop_last();
        let last = winners.len() - 1;
        law_objects_are_read_in_order(front, object_id, index);
        assert(winners.last() == winners[last]);
        assert forall|i: int| 0 <= i < front.len() implies #[trigger] front[i] == winners[i] by {}
        if observed_objects(winners) is Ok {
            assert forall|i: int| 0 <= i < winners.len() implies permission_model::first_i32(
                (#[trigger] winners[i]).payload,
            ) is Ok by {
                if i < last {
                    assert(front[i] == winners[i]);
                }
            }
            if exists|i: int| 0 <= i < front.len() && (#[trigger] front[i]).object_id == object_id {
                let i = choose|i: int|
                    0 <= i < front.len() && (#[trigger] front[i]).object_id == object_id;
                assert(winners[i].object_id == object_id);
            }
            if exists|i: int|
                0 <= i < winners.len() && (#[trigger] winners[i]).object_id == object_id {
                let i = choose|i: int|
                    0 <= i < winners.len() && (#[trigger] winners[i]).object_id == object_id;
                if i < last {
                    assert(front[i].object_id == object_id);
                }
            }
            if 0 <= index < last && winners[index].object_id == object_id && forall|i: int|
                index < i < winners.len() ==> (#[trigger] winners[i]).object_id != object_id {
                assert(winners[last].object_id != object_id);
                assert(front[index] == winners[index]);
                assert forall|i: int| index < i < front.len() implies (
                #[trigger] front[i]).object_id != object_id by {
                    assert(winners[i].object_id != object_id);
                }
            }
        }
        if 0 <= index < winners.len() && permission_model::first_i32(winners[index].payload) is Err
            && forall|i: int|
            0 <= i < index ==> permission_model::first_i32((#[trigger] winners[i]).payload)
                is Ok {
            assert forall|i: int| 0 <= i < front.len() && i < index implies
                permission_model::first_i32((#[trigger] front[i]).payload) is Ok by {
                assert(front[i] == winners[i]);
                assert(permission_model::first_i32(winners[i].payload) is Ok);
            }
            if index < last {
                assert(front[index] == winners[index]);
            }
        }
    }
}

/// What is there after recovery is what is read of the memory and of the objects, and as many
/// objects as were found. What is wrong with the memory goes first.
pub proof fn law_worlds_are_read_in_order(
    case: MixedModelCase,
    granule_size: usize,
    bytes: Seq<u8>,
    winners: Seq<RecoveredObject>,
)
    ensures
        match observed_granules(case.tmemory_writes@, bytes, granule_size) {
            Err(error) => observed(case, granule_size, bytes, winners) == Err::<
                (WorldView, nat),
                MixedModelError,
            >(error),
            Ok(granules) => match observed_objects(winners) {
                Err(error) => observed(case, granule_size, bytes, winners) == Err::<
                    (WorldView, nat),
                    MixedModelError,
                >(error),
                Ok(objects) => observed(case, granule_size, bytes, winners) matches Ok(
                    (world, count),
                ) && world.tmemory_granules == granules && world.object_fields == objects && count
                    == winners.len(),
            },
        },
{
}

/// The numbers of a case: its transaction, its objects, and the first reference.
pub proof fn law_numbers_of_a_case()
    ensures
        MIXED_MODEL_TRANSACTION == 71,
        MIXED_MODEL_OBJECTS == 2,
        MIXED_MODEL_FIRST_GC_REF == 0x200,
{
}

/// A granule full of a byte is that byte as often as granules have bytes.
pub proof fn law_full_granules(byte: u8, granule_size: nat, index: int)
    ensures
        full_granule(byte, granule_size).len() == granule_size,
        0 <= index < granule_size ==> full_granule(byte, granule_size)[index] == byte,
{
}

/// A world and its mathematical value say the same.
pub proof fn law_view_of_worlds(world: ModelWorld)
    ensures
        world@.tmemory_granules == world.tmemory_granules@,
        world@.object_fields == world.object_fields@,
{
}

} // verus!
