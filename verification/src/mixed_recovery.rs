//! What recovery leaves behind of a mixed case.
//!
//! A runtime that does what a case asks of it, and undoes what was not committed, leaves the
//! expected world behind; and where a runtime left that world behind, that world is read.

use vstd::prelude::*;

use crate::mixed_model;
use crate::mixed_model::{
    MixedModelAction, MixedModelCase, MixedModelError, ModelObjectWrite, ModelTMemoryWrite,
    RecoveredObject, WorldView,
};
use crate::permission_model;
use crate::permission_model::PermissionModelError;

verus! {

/// A runtime in the middle of a case.
#[verifier::ext_equal]
pub struct MixedRunView {
    /// The byte that each granule is full of.
    pub memory: Map<u32, u8>,
    /// The granules that were overwritten, each with the byte that it was full of before.
    pub undo: Seq<(u32, u8)>,
    /// The staged values of the objects.
    pub staged: Map<u64, i32>,
}

impl MixedRunView {
    /// The runtime before the case.
    pub open spec fn new(memory: Map<u32, u8>) -> MixedRunView {
        MixedRunView { memory, undo: Seq::empty(), staged: Map::empty() }
    }

    /// The runtime after one action. Objects come back as far as the transaction published
    /// them, so that what they held before does not matter.
    pub open spec fn perform(self, action: MixedModelAction) -> MixedRunView {
        match action {
            MixedModelAction::FillGranule { granule, byte } => MixedRunView {
                memory: self.memory.insert(granule, byte),
                ..self
            },
            MixedModelAction::AllocateObject { .. } => self,
            MixedModelAction::SetObject { .. } => self,
            MixedModelAction::OverwriteGranule { granule, byte } => MixedRunView {
                memory: self.memory.insert(granule, byte),
                undo: self.undo.push((granule, self.memory[granule])),
                ..self
            },
            MixedModelAction::StageObject { object_id, value } => MixedRunView {
                staged: self.staged.insert(object_id, value),
                ..self
            },
        }
    }

    /// The runtime after some actions.
    pub open spec fn perform_all(self, actions: Seq<MixedModelAction>) -> MixedRunView
        decreases actions.len(),
    {
        if actions.len() == 0 {
            self
        } else {
            self.perform_all(actions.drop_last()).perform(actions.last())
        }
    }

    /// What recovery leaves behind: everything if the transaction committed, and otherwise what
    /// was there before it.
    pub open spec fn recover(self, committed: bool) -> WorldView {
        if committed {
            WorldView { tmemory_granules: self.memory, object_fields: self.staged }
        } else {
            WorldView {
                tmemory_granules: rolled_back(self.memory, self.undo),
                object_fields: Map::empty(),
            }
        }
    }
}

/// A memory in which what was overwritten last is undone first.
pub open spec fn rolled_back(memory: Map<u32, u8>, undo: Seq<(u32, u8)>) -> Map<u32, u8>
    decreases undo.len(),
{
    if undo.len() == 0 {
        memory
    } else {
        rolled_back(memory.insert(undo.last().0, undo.last().1), undo.drop_last())
    }
}

proof fn lemma_perform_in_two_parts(
    run: MixedRunView,
    first: Seq<MixedModelAction>,
    second: Seq<MixedModelAction>,
)
    ensures
        run.perform_all(first + second) == run.perform_all(first).perform_all(second),
    decreases second.len(),
{
    if second.len() == 0 {
        assert(first + second =~= first);
    } else {
        assert((first + second).drop_last() =~= first + second.drop_last());
        lemma_perform_in_two_parts(run, first, second.drop_last());
    }
}

proof fn lemma_fill(run: MixedRunView, writes: Seq<ModelTMemoryWrite>)
    ensures
        run.perform_all(mixed_model::fill_actions(writes)) == (MixedRunView {
            memory: run.memory.union_prefer_right(mixed_model::granule_bytes(writes, false)),
            ..run
        }),
    decreases writes.len(),
{
    let actions = mixed_model::fill_actions(writes);
    if writes.len() == 0 {
        assert(run.memory =~= run.memory.union_prefer_right(Map::empty()));
    } else {
        assert(actions.drop_last() =~= mixed_model::fill_actions(writes.drop_last()));
        lemma_fill(run, writes.drop_last());
        assert(run.perform_all(actions).memory =~= run.memory.union_prefer_right(
            mixed_model::granule_bytes(writes, false),
        ));
    }
}

proof fn lemma_allocate(run: MixedRunView)
    ensures
        run.perform_all(mixed_model::allocate_actions()) == run,
{
    let actions = mixed_model::allocate_actions();
    let first = actions.drop_last();
    assert(run.perform_all(first.drop_last()) == run);
    assert(run.perform_all(first) == run);
}

proof fn lemma_set(run: MixedRunView, writes: Seq<ModelObjectWrite>)
    ensures
        run.perform_all(mixed_model::set_actions(writes)) == run,
    decreases writes.len(),
{
    if writes.len() > 0 {
        assert(mixed_model::set_actions(writes).drop_last() =~= mixed_model::set_actions(
            writes.drop_last(),
        ));
        lemma_set(run, writes.drop_last());
    }
}

proof fn lemma_overwrite(run: MixedRunView, writes: Seq<ModelTMemoryWrite>)
    requires
        run.undo.len() == 0,
        forall|i: int|
            0 <= i < writes.len() ==> run.memory.contains_key((#[trigger] writes[i]).granule),
    ensures
        ({
            let after = run.perform_all(mixed_model::overwrite_actions(writes));
            &&& after.memory == run.memory.union_prefer_right(
                mixed_model::granule_bytes(writes, true),
            )
            &&& after.undo.len() == writes.len()
            &&& rolled_back(after.memory, after.undo) == run.memory
            &&& after.staged == run.staged
        }),
    decreases writes.len(),
{
    let actions = mixed_model::overwrite_actions(writes);
    if writes.len() == 0 {
        assert(run.memory =~= run.memory.union_prefer_right(Map::empty()));
    } else {
        let front = writes.drop_last();
        assert(actions.drop_last() =~= mixed_model::overwrite_actions(front));
        assert forall|i: int| 0 <= i < front.len() implies run.memory.contains_key(
            (#[trigger] front[i]).granule,
        ) by {
            assert(front[i] == writes[i]);
        }
        lemma_overwrite(run, front);
        let before = run.perform_all(actions.drop_last());
        let after = run.perform_all(actions);
        let granule = writes.last().granule;
        assert(run.memory.contains_key(writes[writes.len() - 1].granule));
        assert(after.memory =~= run.memory.union_prefer_right(
            mixed_model::granule_bytes(writes, true),
        ));
        assert(after.undo.drop_last() =~= before.undo);
        assert(after.memory.insert(granule, before.memory[granule]) =~= before.memory);
    }
}

proof fn lemma_stage(run: MixedRunView, writes: Seq<ModelObjectWrite>)
    ensures
        run.perform_all(mixed_model::stage_actions(writes)) == (MixedRunView {
            staged: run.staged.union_prefer_right(mixed_model::object_values(writes)),
            ..run
        }),
    decreases writes.len(),
{
    let actions = mixed_model::stage_actions(writes);
    if writes.len() == 0 {
        assert(run.staged =~= run.staged.union_prefer_right(Map::empty()));
    } else {
        assert(actions.drop_last() =~= mixed_model::stage_actions(writes.drop_last()));
        lemma_stage(run, writes.drop_last());
        assert(run.perform_all(actions).staged =~= run.staged.union_prefer_right(
            mixed_model::object_values(writes),
        ));
    }
}

/// A granule holds something after the writes exactly if it was written.
proof fn lemma_granule_bytes_keys(
    writes: Seq<ModelTMemoryWrite>,
    committed: bool,
    granule: u32,
)
    ensures
        mixed_model::granule_bytes(writes, committed).contains_key(granule) <==> exists|i: int|
            0 <= i < writes.len() && (#[trigger] writes[i]).granule == granule,
    decreases writes.len(),
{
    if writes.len() > 0 {
        let front = writes.drop_last();
        lemma_granule_bytes_keys(front, committed, granule);
        assert forall|i: int| 0 <= i < front.len() implies #[trigger] front[i] == writes[i] by {}
        assert(writes[writes.len() - 1] == writes.last());
        if exists|i: int| 0 <= i < front.len() && (#[trigger] front[i]).granule == granule {
            let i = choose|i: int|
                0 <= i < front.len() && (#[trigger] front[i]).granule == granule;
            assert(writes[i].granule == granule);
        }
        if exists|i: int| 0 <= i < writes.len() && (#[trigger] writes[i]).granule == granule {
            let i = choose|i: int|
                0 <= i < writes.len() && (#[trigger] writes[i]).granule == granule;
            if i < front.len() {
                assert(front[i].granule == granule);
            }
        }
    }
}

/// An object holds something after the writes exactly if it was written.
proof fn lemma_object_values_keys(writes: Seq<ModelObjectWrite>, object_id: u64)
    ensures
        mixed_model::object_values(writes).contains_key(object_id) <==> exists|i: int|
            0 <= i < writes.len() && (#[trigger] writes[i]).object_id == object_id,
    decreases writes.len(),
{
    if writes.len() > 0 {
        let front = writes.drop_last();
        lemma_object_values_keys(front, object_id);
        assert forall|i: int| 0 <= i < front.len() implies #[trigger] front[i] == writes[i] by {}
        assert(writes[writes.len() - 1] == writes.last());
        if exists|i: int| 0 <= i < front.len() && (#[trigger] front[i]).object_id == object_id {
            let i = choose|i: int|
                0 <= i < front.len() && (#[trigger] front[i]).object_id == object_id;
            assert(writes[i].object_id == object_id);
        }
        if exists|i: int| 0 <= i < writes.len() && (#[trigger] writes[i]).object_id == object_id {
            let i = choose|i: int|
                0 <= i < writes.len() && (#[trigger] writes[i]).object_id == object_id;
            if i < front.len() {
                assert(front[i].object_id == object_id);
            }
        }
    }
}

/// A runtime that does what a case asks of it, and undoes what was not committed, leaves the
/// expected world behind, and nothing else of its memory changed. It has published something
/// to commit behind wherever the case writes anything.
pub proof fn law_performed_case_leaves_expected_world(memory: Map<u32, u8>, case: MixedModelCase)
    ensures
        ({
            let run = MixedRunView::new(memory).perform_all(case.actions());
            &&& run.recover(case.committed).tmemory_granules == memory.union_prefer_right(
                case.expected().tmemory_granules,
            )
            &&& run.recover(case.committed).object_fields == case.expected().object_fields
            &&& run.undo.len() == case.tmemory_writes@.len()
            &&& run.staged == mixed_model::object_values(case.object_writes@)
        }),
{
    let granules = case.tmemory_writes@;
    let objects = case.object_writes@;
    let start = MixedRunView::new(memory);
    let fill = mixed_model::fill_actions(granules);
    let allocate = mixed_model::allocate_actions();
    let set = mixed_model::set_actions(objects);
    let overwrite = mixed_model::overwrite_actions(granules);
    let stage = mixed_model::stage_actions(objects);
    lemma_perform_in_two_parts(start, fill + allocate + set + overwrite, stage);
    lemma_perform_in_two_parts(start, fill + allocate + set, overwrite);
    lemma_perform_in_two_parts(start, fill + allocate, set);
    lemma_perform_in_two_parts(start, fill, allocate);
    lemma_fill(start, granules);
    let filled = start.perform_all(fill);
    lemma_allocate(filled);
    lemma_set(filled, objects);
    assert forall|i: int| 0 <= i < granules.len() implies filled.memory.contains_key(
        (#[trigger] granules[i]).granule,
    ) by {
        lemma_granule_bytes_keys(granules, false, granules[i].granule);
    }
    lemma_overwrite(filled, granules);
    let overwritten = filled.perform_all(overwrite);
    lemma_stage(overwritten, objects);
    assert(overwritten.staged.union_prefer_right(mixed_model::object_values(objects))
        =~= mixed_model::object_values(objects));
    assert forall|granule: u32| mixed_model::granule_bytes(
        granules,
        true,
    ).contains_key(granule) <==> mixed_model::granule_bytes(granules, false).contains_key(
        granule,
    ) by {
        lemma_granule_bytes_keys(granules, true, granule);
        lemma_granule_bytes_keys(granules, false, granule);
    }
    assert(filled.memory.union_prefer_right(mixed_model::granule_bytes(granules, true))
        =~= memory.union_prefer_right(mixed_model::granule_bytes(granules, true)));
}

/// What is read of a memory holds nothing but what its granules are full of.
proof fn lemma_observed_granules_within(
    writes: Seq<ModelTMemoryWrite>,
    bytes: Seq<u8>,
    granule_size: usize,
    world: Map<u32, u8>,
)
    requires
        forall|i: int|
            0 <= i < writes.len() ==> mixed_model::granule_byte(
                bytes,
                granule_size,
                (#[trigger] writes[i]).granule,
            ) == Ok::<u8, MixedModelError>(world[writes[i].granule]),
    ensures
        mixed_model::observed_granules(writes, bytes, granule_size) matches Ok(granules) && {
            &&& granules.dom() == mixed_model::granule_bytes(writes, true).dom()
            &&& forall|granule: u32| #[trigger]
                granules.contains_key(granule) ==> granules[granule] == world[granule]
        },
    decreases writes.len(),
{
    if writes.len() > 0 {
        let front = writes.drop_last();
        assert forall|i: int| 0 <= i < front.len() implies mixed_model::granule_byte(
            bytes,
            granule_size,
            (#[trigger] front[i]).granule,
        ) == Ok::<u8, MixedModelError>(world[front[i].granule]) by {
            assert(front[i] == writes[i]);
        }
        lemma_observed_granules_within(front, bytes, granule_size, world);
        assert(writes[writes.len() - 1] == writes.last());
    }
}

/// A memory in which every written granule is full of the byte that it is to hold shows the
/// expected granules.
pub proof fn law_recovered_memory_shows_expected_granules(
    writes: Seq<ModelTMemoryWrite>,
    committed: bool,
    bytes: Seq<u8>,
    granule_size: usize,
)
    requires
        forall|i: int|
            0 <= i < writes.len() ==> mixed_model::granule_byte(
                bytes,
                granule_size,
                (#[trigger] writes[i]).granule,
            ) == Ok::<u8, MixedModelError>(
                mixed_model::granule_bytes(writes, committed)[writes[i].granule],
            ),
    ensures
        mixed_model::observed_granules(writes, bytes, granule_size) == Ok::<
            Map<u32, u8>,
            MixedModelError,
        >(mixed_model::granule_bytes(writes, committed)),
{
    let world = mixed_model::granule_bytes(writes, committed);
    lemma_observed_granules_within(writes, bytes, granule_size, world);
    assert forall|granule: u32| mixed_model::granule_bytes(
        writes,
        true,
    ).contains_key(granule) <==> world.contains_key(granule) by {
        lemma_granule_bytes_keys(writes, true, granule);
        lemma_granule_bytes_keys(writes, committed, granule);
    }
    assert(mixed_model::observed_granules(writes, bytes, granule_size)->Ok_0 =~= world);
}

/// The number of each object that recovery found, with what its field holds.
pub open spec fn found_fields(winners: Seq<RecoveredObject>) -> Seq<
    (u64, Result<i32, PermissionModelError>),
> {
    winners.map_values(
        |winner: RecoveredObject|
            (winner.object_id, permission_model::first_i32(winner.payload)),
    )
}

/// The number of each object that was written, with what its field is to hold.
pub open spec fn written_fields(writes: Seq<ModelObjectWrite>) -> Seq<
    (u64, Result<i32, PermissionModelError>),
> {
    writes.map_values(
        |write: ModelObjectWrite|
            (write.object_id, Ok::<i32, PermissionModelError>(write.new_value)),
    )
}

/// Whether recovery found each object that was written once, with its new value, in any order.
pub open spec fn is_permutation_of_writes(
    winners: Seq<RecoveredObject>,
    writes: Seq<ModelObjectWrite>,
) -> bool {
    found_fields(winners).to_multiset() == written_fields(writes).to_multiset()
}

/// Whether no object is written twice.
pub open spec fn has_distinct_objects(writes: Seq<ModelObjectWrite>) -> bool {
    forall|i: int, j: int|
        0 <= i < j < writes.len() ==> (#[trigger] writes[i]).object_id != (
        #[trigger] writes[j]).object_id
}

/// What is read of the objects holds nothing but what was found.
proof fn lemma_observed_objects_within(winners: Seq<RecoveredObject>, world: Map<u64, i32>)
    requires
        forall|i: int|
            0 <= i < winners.len() ==> permission_model::first_i32(
                (#[trigger] winners[i]).payload,
            ) == Ok::<i32, PermissionModelError>(world[winners[i].object_id]),
    ensures
        mixed_model::observed_objects(winners) matches Ok(objects) && {
            &&& forall|object_id: u64| #[trigger]
                objects.contains_key(object_id) <==> exists|i: int|
                    0 <= i < winners.len() && (#[trigger] winners[i]).object_id == object_id
            &&& forall|object_id: u64| #[trigger]
                objects.contains_key(object_id) ==> objects[object_id] == world[object_id]
        },
    decreases winners.len(),
{
    if winners.len() > 0 {
        let front = winners.drop_last();
        assert forall|i: int| 0 <= i < front.len() implies permission_model::first_i32(
            (#[trigger] front[i]).payload,
        ) == Ok::<i32, PermissionModelError>(world[front[i].object_id]) by {
            assert(front[i] == winners[i]);
        }
        lemma_observed_objects_within(front, world);
        assert(winners[winners.len() - 1] == winners.last());
        let objects = mixed_model::observed_objects(winners)->Ok_0;
        assert forall|object_id: u64| #[trigger]
            objects.contains_key(object_id) <==> exists|i: int|
                0 <= i < winners.len() && (#[trigger] winners[i]).object_id == object_id by {
            if exists|i: int| 0 <= i < front.len() && (#[trigger] front[i]).object_id == object_id {
                let i = choose|i: int|
                    0 <= i < front.len() && (#[trigger] front[i]).object_id == object_id;
                assert(winners[i].object_id == object_id);
            }
            if exists|i: int|
                0 <= i < winners.len() && (#[trigger] winners[i]).object_id == object_id {
                let i = choose|i: int|
                    0 <= i < winners.len() && (#[trigger] winners[i]).object_id == object_id;
                if i < front.len() {
                    assert(front[i].object_id == object_id);
                }
            }
        }
    }
}

/// Where recovery finds the objects that were written, each with its new value and in whatever
/// order, it shows the expected fields, and as many objects as were written.
pub proof fn law_recovered_objects_show_expected_fields(
    writes: Seq<ModelObjectWrite>,
    winners: Seq<RecoveredObject>,
)
    requires
        has_distinct_objects(writes),
        is_permutation_of_writes(winners, writes),
    ensures
        mixed_model::observed_objects(winners) == Ok::<Map<u64, i32>, MixedModelError>(
            mixed_model::object_values(writes),
        ),
        winners.len() == writes.len(),
{
    let found = found_fields(winners);
    let written = written_fields(writes);
    let world = mixed_model::object_values(writes);
    found.to_multiset_ensures();
    written.to_multiset_ensures();
    assert(found.len() == written.len());
    assert forall|i: int| 0 <= i < winners.len() implies permission_model::first_i32(
        (#[trigger] winners[i]).payload,
    ) == Ok::<i32, PermissionModelError>(world[winners[i].object_id]) && world.contains_key(
        winners[i].object_id,
    ) by {
        assert(found.contains(found[i]));
        assert(written.to_multiset().count(found[i]) > 0);
        let j = choose|j: int| 0 <= j < written.len() && written[j] == found[i];
        mixed_model::law_each_object_holds_its_write(writes, j);
    }
    lemma_observed_objects_within(winners, world);
    let objects = mixed_model::observed_objects(winners)->Ok_0;
    assert forall|object_id: u64|
        objects.contains_key(object_id) <==> world.contains_key(object_id) by {
        lemma_object_values_keys(writes, object_id);
        if world.contains_key(object_id) {
            let j = choose|j: int|
                0 <= j < writes.len() && (#[trigger] writes[j]).object_id == object_id;
            assert(written.contains(written[j]));
            assert(found.to_multiset().count(written[j]) > 0);
            let i = choose|i: int| 0 <= i < found.len() && found[i] == written[j];
            assert(winners[i].object_id == object_id);
        }
    }
    assert(objects =~= world);
}

/// Where recovery left what it is to leave behind, the expected world is read: every written
/// granule is full of the byte that it is to hold, and the objects that were written are found,
/// in whatever order, if the transaction committed, and none if it did not.
pub proof fn law_recovered_case_shows_expected_world(
    case: MixedModelCase,
    granule_size: usize,
    bytes: Seq<u8>,
    winners: Seq<RecoveredObject>,
)
    requires
        forall|i: int|
            0 <= i < case.tmemory_writes@.len() ==> mixed_model::granule_byte(
                bytes,
                granule_size,
                (#[trigger] case.tmemory_writes@[i]).granule,
            ) == Ok::<u8, MixedModelError>(
                case.expected().tmemory_granules[case.tmemory_writes@[i].granule],
            ),
        case.committed ==> has_distinct_objects(case.object_writes@) && is_permutation_of_writes(
            winners,
            case.object_writes@,
        ),
        !case.committed ==> winners.len() == 0,
    ensures
        mixed_model::observed(case, granule_size, bytes, winners) == Ok::<
            (WorldView, nat),
            MixedModelError,
        >((case.expected(), case.expected_winner_count())),
{
    law_recovered_memory_shows_expected_granules(
        case.tmemory_writes@,
        case.committed,
        bytes,
        granule_size,
    );
    if case.committed {
        law_recovered_objects_show_expected_fields(case.object_writes@, winners);
    }
}

/// Whether recovery found the objects of a world, each once and with its value.
pub open spec fn is_listing_of(winners: Seq<RecoveredObject>, objects: Map<u64, i32>) -> bool {
    &&& forall|i: int, j: int|
        0 <= i < j < winners.len() ==> (#[trigger] winners[i]).object_id != (
        #[trigger] winners[j]).object_id
    &&& forall|i: int|
        0 <= i < winners.len() ==> objects.contains_key((#[trigger] winners[i]).object_id)
            && permission_model::first_i32(winners[i].payload) == Ok::<i32, PermissionModelError>(
            objects[winners[i].object_id],
        )
    &&& forall|object_id: u64| #[trigger]
        objects.contains_key(object_id) ==> exists|i: int|
            0 <= i < winners.len() && (#[trigger] winners[i]).object_id == object_id
}

/// Where no object is written twice, what lists the written objects is a permutation of the
/// writes.
proof fn lemma_listing_is_permutation(
    winners: Seq<RecoveredObject>,
    writes: Seq<ModelObjectWrite>,
)
    requires
        has_distinct_objects(writes),
        is_listing_of(winners, mixed_model::object_values(writes)),
    ensures
        is_permutation_of_writes(winners, writes),
{
    let found = found_fields(winners);
    let written = written_fields(writes);
    let world = mixed_model::object_values(writes);
    assert forall|i: int, j: int| 0 <= i < found.len() && 0 <= j < found.len() && i
        != j implies found[i] != found[j] by {
        assert(winners[i].object_id != winners[j].object_id);
    }
    assert forall|i: int, j: int| 0 <= i < written.len() && 0 <= j < written.len() && i
        != j implies written[i] != written[j] by {
        assert(writes[i].object_id != writes[j].object_id);
    }
    found.lemma_multiset_has_no_duplicates();
    written.lemma_multiset_has_no_duplicates();
    found.to_multiset_ensures();
    written.to_multiset_ensures();
    assert forall|field: (u64, Result<i32, PermissionModelError>)|
        found.contains(field) <==> written.contains(field) by {
        if found.contains(field) {
            let i = choose|i: int| 0 <= i < found.len() && found[i] == field;
            let object_id = winners[i].object_id;
            assert(world.contains_key(object_id));
            lemma_object_values_keys(writes, object_id);
            let j = choose|j: int|
                0 <= j < writes.len() && (#[trigger] writes[j]).object_id == object_id;
            mixed_model::law_each_object_holds_its_write(writes, j);
            assert(written[j] == field);
        }
        if written.contains(field) {
            let j = choose|j: int| 0 <= j < written.len() && written[j] == field;
            mixed_model::law_each_object_holds_its_write(writes, j);
            let object_id = writes[j].object_id;
            assert(world.contains_key(object_id));
            let i = choose|i: int|
                0 <= i < winners.len() && (#[trigger] winners[i]).object_id == object_id;
            assert(found[i] == field);
        }
    }
    assert forall|field: (u64, Result<i32, PermissionModelError>)| #[trigger]
        found.to_multiset().count(field) == written.to_multiset().count(field) by {
        assert(found.contains(field) <==> written.contains(field));
    }
    assert(found.to_multiset() =~= written.to_multiset());
}

/// A case that is run as it asks ends as expected: where the memory and the objects are those
/// of a runtime that did what the case asks of it and undid what was not committed, the
/// expected world is read, with as many objects as were written if the transaction committed
/// and none if it did not.
pub proof fn law_performed_case_shows_expected_world(
    memory: Map<u32, u8>,
    case: MixedModelCase,
    granule_size: usize,
    bytes: Seq<u8>,
    winners: Seq<RecoveredObject>,
)
    requires
        case.committed ==> has_distinct_objects(case.object_writes@),
        ({
            let left = MixedRunView::new(memory).perform_all(case.actions()).recover(
                case.committed,
            );
            &&& forall|i: int|
                0 <= i < case.tmemory_writes@.len() ==> mixed_model::granule_byte(
                    bytes,
                    granule_size,
                    (#[trigger] case.tmemory_writes@[i]).granule,
                ) == Ok::<u8, MixedModelError>(
                    left.tmemory_granules[case.tmemory_writes@[i].granule],
                )
            &&& is_listing_of(winners, left.object_fields)
        }),
    ensures
        mixed_model::observed(case, granule_size, bytes, winners) == Ok::<
            (WorldView, nat),
            MixedModelError,
        >((case.expected(), case.expected_winner_count())),
{
    law_performed_case_leaves_expected_world(memory, case);
    let writes = case.tmemory_writes@;
    assert forall|i: int| 0 <= i < writes.len() implies mixed_model::granule_byte(
        bytes,
        granule_size,
        (#[trigger] writes[i]).granule,
    ) == Ok::<u8, MixedModelError>(case.expected().tmemory_granules[writes[i].granule]) by {
        lemma_granule_bytes_keys(writes, case.committed, writes[i].granule);
    }
    if case.committed {
        lemma_listing_is_permutation(winners, case.object_writes@);
    } else if winners.len() > 0 {
        assert(Map::<u64, i32>::empty().contains_key(winners[0].object_id));
    }
    law_recovered_case_shows_expected_world(case, granule_size, bytes, winners);
}

} // verus!
