//! The versions of objects that a log gives back, and where they stand in it.

use vstd::prelude::*;

use crate::values::{ObjectId, RecordedKind};

verus! {

/// A version of an object that a log gave back.
#[derive(Clone, Debug, PartialEq, Eq)]
pub struct RecoveredObjectWinner {
    pub object_id: u64,
    pub version: u32,
    pub kind: RecordedKind,
    pub type_layout_id: u32,
    pub data_block: u32,
    pub data_offset: u32,
    pub record_len: u64,
    pub record_bytes: Vec<u8>,
}

/// Where the record of a version stands.
#[derive(Clone, Copy, Debug, PartialEq, Eq, Structural)]
pub struct PersistentRecoveredRecordLocation {
    pub object_id: ObjectId,
    pub version: u32,
    pub data_block: u32,
    pub data_offset: u32,
    pub record_len: u64,
}

/// The version whose record is `record_bytes` and stands at a place.
pub fn recovered_object_winner_with_location(
    object_id: u64,
    version: u32,
    kind: RecordedKind,
    type_layout_id: u32,
    data_block: u32,
    data_offset: u32,
    record_bytes: Vec<u8>,
) -> (winner: RecoveredObjectWinner)
    ensures
        winner.object_id == object_id,
        winner.version == version,
        winner.kind == kind,
        winner.type_layout_id == type_layout_id,
        winner.data_block == data_block,
        winner.data_offset == data_offset,
        winner.record_len == record_bytes@.len(),
        winner.record_bytes@ == record_bytes@,
{
    let record_len: u64 = record_bytes.len() as u64;
    RecoveredObjectWinner {
        object_id,
        version,
        kind,
        type_layout_id,
        data_block,
        data_offset,
        record_len,
        record_bytes,
    }
}

/// The version whose record is `record_bytes` and stands at the start of the first block.
pub fn recovered_object_winner(
    object_id: u64,
    version: u32,
    kind: RecordedKind,
    type_layout_id: u32,
    record_bytes: Vec<u8>,
) -> (winner: RecoveredObjectWinner)
    ensures
        winner.object_id == object_id,
        winner.version == version,
        winner.kind == kind,
        winner.type_layout_id == type_layout_id,
        winner.data_block == 1,
        winner.data_offset == 0,
        winner.record_len == record_bytes@.len(),
        winner.record_bytes@ == record_bytes@,
{
    recovered_object_winner_with_location(
        object_id,
        version,
        kind,
        type_layout_id,
        1,
        0,
        record_bytes,
    )
}

/// The first version of an object among some, if there is one.
pub fn recovered_object_winner_by_id<'a>(
    winners: &'a [RecoveredObjectWinner],
    object_id: ObjectId,
) -> (found: Option<&'a RecoveredObjectWinner>)
    ensures
        match found {
            Some(winner) => exists|i: int|
                {
                    &&& 0 <= i < winners@.len()
                    &&& *winner == #[trigger] winners@[i]
                    &&& winners@[i].object_id == object_id.object_index
                    &&& forall|j: int|
                        0 <= j < i ==> (#[trigger] winners@[j]).object_id != object_id.object_index
                },
            None => forall|i: int|
                0 <= i < winners@.len() ==> (#[trigger] winners@[i]).object_id
                    != object_id.object_index,
        },
{
    let mut index: usize = 0;
    while index < winners.len()
        invariant
            index <= winners@.len(),
            forall|i: int|
                0 <= i < index ==> (#[trigger] winners@[i]).object_id != object_id.object_index,
        decreases winners@.len() - index,
    {
        if winners[index].object_id == object_id.object_index {
            assert(winners@[index as int].object_id == object_id.object_index);
            return Some(&winners[index]);
        }
        index += 1;
    }
    None
}

/// Where the record of a version stands, header included.
pub fn recovered_record_location(
    winner: &RecoveredObjectWinner,
    header_len: u64,
) -> (location: PersistentRecoveredRecordLocation)
    requires
        winner.record_len + header_len <= u64::MAX,
    ensures
        location == (PersistentRecoveredRecordLocation {
            object_id: ObjectId { object_index: winner.object_id },
            version: winner.version,
            data_block: winner.data_block,
            data_offset: winner.data_offset,
            record_len: (winner.record_len + header_len) as u64,
        }),
{
    PersistentRecoveredRecordLocation {
        object_id: ObjectId { object_index: winner.object_id },
        version: winner.version,
        data_block: winner.data_block,
        data_offset: winner.data_offset,
        record_len: winner.record_len + header_len,
    }
}

} // verus!
