//! Entries of the transaction log, and the events that a log backend records.

use vstd::prelude::*;

use crate::le_bytes;
use crate::le_bytes::{u32_to_le, u64_to_le};

verus! {

/// An entry of the transaction log.
#[derive(Clone, Copy, Debug, PartialEq, Eq, Structural)]
pub struct TxLogEntry {
    pub logical_id: u64,
    pub version: u32,
    pub tx_meta: u32,
    pub data_block: u32,
    pub data_offset: u32,
    pub crc32: u32,
    pub entry_meta: u32,
}

impl TxLogEntry {
    /// The bytes of the entry.
    pub open spec fn encoding(self) -> Seq<u8> {
        le_bytes::le_bytes(self.logical_id as nat, 8) + le_bytes::le_bytes(self.version as nat, 4)
            + le_bytes::le_bytes(self.tx_meta as nat, 4) + le_bytes::le_bytes(
            self.data_block as nat,
            4,
        ) + le_bytes::le_bytes(self.data_offset as nat, 4) + le_bytes::le_bytes(
            self.crc32 as nat,
            4,
        ) + le_bytes::le_bytes(self.entry_meta as nat, 4)
    }
}

/// The bytes of a log entry.
pub fn encode_tx_log_entry(entry: TxLogEntry) -> (bytes: [u8; 32])
    ensures
        bytes@ == entry.encoding(),
{
    let logical_id = u64_to_le(entry.logical_id);
    let version = u32_to_le(entry.version);
    let tx_meta = u32_to_le(entry.tx_meta);
    let data_block = u32_to_le(entry.data_block);
    let data_offset = u32_to_le(entry.data_offset);
    let crc32 = u32_to_le(entry.crc32);
    let entry_meta = u32_to_le(entry.entry_meta);
    let mut bytes: [u8; 32] = [0;32];
    let mut index: usize = 0;
    while index < 8
        invariant
            index <= 8,
            forall|i: int| 0 <= i < index ==> bytes@[i] == logical_id@[i],
        decreases 8 - index,
    {
        bytes[index] = logical_id[index];
        index += 1;
    }
    let mut index: usize = 0;
    while index < 4
        invariant
            index <= 4,
            forall|i: int| 0 <= i < 8 ==> bytes@[i] == logical_id@[i],
            forall|i: int| 0 <= i < index ==> bytes@[8 + i] == version@[i],
            forall|i: int| 0 <= i < index ==> bytes@[12 + i] == tx_meta@[i],
            forall|i: int| 0 <= i < index ==> bytes@[16 + i] == data_block@[i],
            forall|i: int| 0 <= i < index ==> bytes@[20 + i] == data_offset@[i],
            forall|i: int| 0 <= i < index ==> bytes@[24 + i] == crc32@[i],
            forall|i: int| 0 <= i < index ==> bytes@[28 + i] == entry_meta@[i],
        decreases 4 - index,
    {
        bytes[8 + index] = version[index];
        bytes[12 + index] = tx_meta[index];
        bytes[16 + index] = data_block[index];
        bytes[20 + index] = data_offset[index];
        bytes[24 + index] = crc32[index];
        bytes[28 + index] = entry_meta[index];
        index += 1;
    }
    proof {
        lemma_encoding_parts(entry);
        assert(bytes@ =~= entry.encoding()) by {
            assert forall|i: int| 0 <= i < 32 implies bytes@[i] == entry.encoding()[i] by {
                if 8 <= i < 12 {
                    assert(bytes@[8 + (i - 8)] == version@[i - 8]);
                } else if 12 <= i < 16 {
                    assert(bytes@[12 + (i - 12)] == tx_meta@[i - 12]);
                } else if 16 <= i < 20 {
                    assert(bytes@[16 + (i - 16)] == data_block@[i - 16]);
                } else if 20 <= i < 24 {
                    assert(bytes@[20 + (i - 20)] == data_offset@[i - 20]);
                } else if 24 <= i < 28 {
                    assert(bytes@[24 + (i - 24)] == crc32@[i - 24]);
                } else if 28 <= i {
                    assert(bytes@[28 + (i - 28)] == entry_meta@[i - 28]);
                }
            }
        }
    }
    bytes
}

/// Where the parts of an entry stand.
proof fn lemma_encoding_parts(entry: TxLogEntry)
    ensures
        entry.encoding().len() == 32,
        entry.encoding().subrange(0, 8) == le_bytes::le_bytes(entry.logical_id as nat, 8),
        entry.encoding().subrange(8, 12) == le_bytes::le_bytes(entry.version as nat, 4),
        entry.encoding().subrange(12, 16) == le_bytes::le_bytes(entry.tx_meta as nat, 4),
        entry.encoding().subrange(16, 20) == le_bytes::le_bytes(entry.data_block as nat, 4),
        entry.encoding().subrange(20, 24) == le_bytes::le_bytes(entry.data_offset as nat, 4),
        entry.encoding().subrange(24, 28) == le_bytes::le_bytes(entry.crc32 as nat, 4),
        entry.encoding().subrange(28, 32) == le_bytes::le_bytes(entry.entry_meta as nat, 4),
{
    le_bytes::lemma_le_bytes_len(entry.logical_id as nat, 8);
    le_bytes::lemma_le_bytes_len(entry.version as nat, 4);
    le_bytes::lemma_le_bytes_len(entry.tx_meta as nat, 4);
    le_bytes::lemma_le_bytes_len(entry.data_block as nat, 4);
    le_bytes::lemma_le_bytes_len(entry.data_offset as nat, 4);
    le_bytes::lemma_le_bytes_len(entry.crc32 as nat, 4);
    le_bytes::lemma_le_bytes_len(entry.entry_meta as nat, 4);
    let encoding = entry.encoding();
    assert(encoding.subrange(0, 8) =~= le_bytes::le_bytes(entry.logical_id as nat, 8));
    assert(encoding.subrange(8, 12) =~= le_bytes::le_bytes(entry.version as nat, 4));
    assert(encoding.subrange(12, 16) =~= le_bytes::le_bytes(entry.tx_meta as nat, 4));
    assert(encoding.subrange(16, 20) =~= le_bytes::le_bytes(entry.data_block as nat, 4));
    assert(encoding.subrange(20, 24) =~= le_bytes::le_bytes(entry.data_offset as nat, 4));
    assert(encoding.subrange(24, 28) =~= le_bytes::le_bytes(entry.crc32 as nat, 4));
    assert(encoding.subrange(28, 32) =~= le_bytes::le_bytes(entry.entry_meta as nat, 4));
}

/// The bytes of an entry say everything about it.
pub proof fn law_log_entry_bytes_determine_entry(left: TxLogEntry, right: TxLogEntry)
    requires
        left.encoding() == right.encoding(),
    ensures
        left == right,
{
    lemma_encoding_parts(left);
    lemma_encoding_parts(right);
    le_bytes::lemma_pow_256();
    le_bytes::lemma_le_value_of_le_bytes(left.logical_id as nat, 8);
    le_bytes::lemma_le_value_of_le_bytes(right.logical_id as nat, 8);
    le_bytes::lemma_le_value_of_le_bytes(left.version as nat, 4);
    le_bytes::lemma_le_value_of_le_bytes(right.version as nat, 4);
    le_bytes::lemma_le_value_of_le_bytes(left.tx_meta as nat, 4);
    le_bytes::lemma_le_value_of_le_bytes(right.tx_meta as nat, 4);
    le_bytes::lemma_le_value_of_le_bytes(left.data_block as nat, 4);
    le_bytes::lemma_le_value_of_le_bytes(right.data_block as nat, 4);
    le_bytes::lemma_le_value_of_le_bytes(left.data_offset as nat, 4);
    le_bytes::lemma_le_value_of_le_bytes(right.data_offset as nat, 4);
    le_bytes::lemma_le_value_of_le_bytes(left.crc32 as nat, 4);
    le_bytes::lemma_le_value_of_le_bytes(right.crc32 as nat, 4);
    le_bytes::lemma_le_value_of_le_bytes(left.entry_meta as nat, 4);
    le_bytes::lemma_le_value_of_le_bytes(right.entry_meta as nat, 4);
}

/// Something that a log backend did.
#[derive(Clone, Copy, Debug, PartialEq, Eq, Structural)]
pub enum RecordingBackendEvent {
    /// It retired a chunk of undo records, or tried to.
    RetireCommittedLinearUndoChunk(u32),
    /// It failed to retire a chunk of undo records.
    RetireCommittedLinearUndoChunkFailed(u32),
    /// It did something else.
    Other,
}

/// How often an event occurs.
pub open spec fn occurrences(
    events: Seq<RecordingBackendEvent>,
    event: RecordingBackendEvent,
) -> nat
    decreases events.len(),
{
    if events.len() == 0 {
        0
    } else {
        occurrences(events.drop_last(), event) + if events.last() == event {
            1nat
        } else {
            0nat
        }
    }
}

fn count_event(events: &[RecordingBackendEvent], event: RecordingBackendEvent) -> (count: usize)
    ensures
        count == occurrences(events@, event),
{
    let mut count: usize = 0;
    let mut index: usize = 0;
    assert(events@.take(0) =~= Seq::empty());
    while index < events.len()
        invariant
            index <= events@.len(),
            count <= index,
            count == occurrences(events@.take(index as int), event),
        decreases events@.len() - index,
    {
        if events[index] == event {
            count += 1;
        }
        index += 1;
        assert(events@.take(index as int).drop_last() =~= events@.take(index - 1));
    }
    assert(events@.take(index as int) =~= events@);
    count
}

/// How often a backend tried to retire the chunk that starts at a block.
pub fn count_retire_committed_linear_undo_attempts(
    events: &[RecordingBackendEvent],
    chunk_start_block: u32,
) -> (count: usize)
    ensures
        count == occurrences(
            events@,
            RecordingBackendEvent::RetireCommittedLinearUndoChunk(chunk_start_block),
        ),
{
    count_event(events, RecordingBackendEvent::RetireCommittedLinearUndoChunk(chunk_start_block))
}

/// How often a backend failed to retire the chunk that starts at a block.
pub fn count_retire_committed_linear_undo_failures(
    events: &[RecordingBackendEvent],
    chunk_start_block: u32,
) -> (count: usize)
    ensures
        count == occurrences(
            events@,
            RecordingBackendEvent::RetireCommittedLinearUndoChunkFailed(chunk_start_block),
        ),
{
    count_event(
        events,
        RecordingBackendEvent::RetireCommittedLinearUndoChunkFailed(chunk_start_block),
    )
}

/// Where the parts of a log entry stand.
pub proof fn law_places_in_log_entry(entry: TxLogEntry)
    ensures
        entry.encoding().len() == 32,
        le_bytes::stands_at(entry.encoding(), 0, 8, entry.logical_id as nat),
        le_bytes::stands_at(entry.encoding(), 8, 4, entry.version as nat),
        le_bytes::stands_at(entry.encoding(), 12, 4, entry.tx_meta as nat),
        le_bytes::stands_at(entry.encoding(), 16, 4, entry.data_block as nat),
        le_bytes::stands_at(entry.encoding(), 20, 4, entry.data_offset as nat),
        le_bytes::stands_at(entry.encoding(), 24, 4, entry.crc32 as nat),
        le_bytes::stands_at(entry.encoding(), 28, 4, entry.entry_meta as nat),
{
    let bytes = entry.encoding();
    lemma_encoding_parts(entry);
    le_bytes::lemma_pow_256();
    le_bytes::law_standing_is_encoding(bytes, 0, 8, entry.logical_id as nat);
    le_bytes::law_standing_is_encoding(bytes, 8, 4, entry.version as nat);
    le_bytes::law_standing_is_encoding(bytes, 12, 4, entry.tx_meta as nat);
    le_bytes::law_standing_is_encoding(bytes, 16, 4, entry.data_block as nat);
    le_bytes::law_standing_is_encoding(bytes, 20, 4, entry.data_offset as nat);
    le_bytes::law_standing_is_encoding(bytes, 24, 4, entry.crc32 as nat);
    le_bytes::law_standing_is_encoding(bytes, 28, 4, entry.entry_meta as nat);
}

/// An event occurs as often as there are places at which it stands.
pub proof fn law_occurrences_are_counted(
    events: Seq<RecordingBackendEvent>,
    event: RecordingBackendEvent,
)
    ensures
        occurrences(events, event) == events.to_multiset().count(event),
        occurrences(events, event) == 0 <==> !events.contains(event),
    decreases events.len(),
{
    events.to_multiset_ensures();
    if events.len() > 0 {
        let front = events.drop_last();
        law_occurrences_are_counted(front, event);
        front.to_multiset_ensures();
        assert(events =~= front.push(events.last()));
        assert(events.to_multiset() =~= front.to_multiset().insert(events.last()));
    }
}

} // verus!
