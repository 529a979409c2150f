use transaction::module_metadata::{
    with_transaction_global_metadata, with_transaction_memory_metadata,
    with_transaction_object_metadata,
};
use transaction::object_graph::PersistentObjects;
use transaction::object_model::PackedGranuleDomain;
use transaction::recovered_winner::{
    recovered_object_winner, recovered_object_winner_by_id, recovered_object_winner_with_location,
    recovered_record_location,
};
use transaction::recovery_samples::{
    recovery_array_layout, recovery_struct_layout, sample_region_with_two_object_winners,
    sample_region_with_two_object_winners_and_global_root,
};
use transaction::tx_log::{
    count_retire_committed_linear_undo_attempts, count_retire_committed_linear_undo_failures,
    encode_tx_log_entry, RecordingBackendEvent, TxLogEntry,
};
use transaction::type_layout::{PersistentTypeLayout, TraceSlotKind, TypeLayoutId};
use transaction::values::{ObjectId, ObjectKind, ObjectPayload, ObjectValue, RecordedKind};

#[test]
fn metadata_goes_behind_the_module() {
    let mut expected = b"\0asm".to_vec();
    expected.extend_from_slice(&[0, 32, 27]);
    expected.extend_from_slice(b"shisoft.transaction.objects");
    let objects = with_transaction_object_metadata(b"\0asm", &[9, 8]);
    assert_eq!(&objects[..expected.len()], &expected[..]);
    assert_eq!(&objects[expected.len()..], &[9, 8]);
    let memory = with_transaction_memory_metadata(b"\0asm");
    assert_eq!(&memory[expected.len()..], &[1, 1, 0, 0]);
    assert_eq!(memory.len() - 4 - 2, 32);
    let global = with_transaction_global_metadata(b"\0asm");
    assert_eq!(&global[expected.len()..], &[1, 0, 1, 0]);
}

#[test]
fn log_entries_are_little_endian() {
    let bytes = encode_tx_log_entry(TxLogEntry {
        logical_id: 0x0807_0605_0403_0201,
        version: 0x0c0b_0a09,
        tx_meta: 0x100f_0e0d,
        data_block: 0x1413_1211,
        data_offset: 0x1817_1615,
        crc32: 0x1c1b_1a19,
        entry_meta: 0x201f_1e1d,
    });
    let counted: Vec<u8> = (1..=32).collect();
    assert_eq!(bytes.to_vec(), counted);
}

#[test]
fn events_are_counted_by_chunk() {
    let events = [
        RecordingBackendEvent::RetireCommittedLinearUndoChunk(4),
        RecordingBackendEvent::Other,
        RecordingBackendEvent::RetireCommittedLinearUndoChunkFailed(4),
        RecordingBackendEvent::RetireCommittedLinearUndoChunk(4),
        RecordingBackendEvent::RetireCommittedLinearUndoChunk(5),
    ];
    assert_eq!(count_retire_committed_linear_undo_attempts(&events, 4), 2);
    assert_eq!(count_retire_committed_linear_undo_attempts(&events, 6), 0);
    assert_eq!(count_retire_committed_linear_undo_failures(&events, 4), 1);
    assert_eq!(count_retire_committed_linear_undo_failures(&events, 5), 0);
}

#[test]
fn winners_are_found_by_id() {
    let winners = [
        recovered_object_winner(
            7,
            3,
            RecordedKind::Known(ObjectKind::Struct),
            207,
            vec![1, 2, 3],
        ),
        recovered_object_winner_with_location(
            8,
            1,
            RecordedKind::Known(ObjectKind::Array),
            208,
            5,
            64,
            vec![],
        ),
        recovered_object_winner(8, 2, RecordedKind::Unknown(999), 208, vec![4]),
    ];
    assert_eq!(winners[0].kind, RecordedKind::Known(ObjectKind::Struct));
    assert_eq!(winners[2].kind, RecordedKind::Unknown(999));
    assert_eq!(winners[0].data_block, 1);
    assert_eq!(winners[0].data_offset, 0);
    assert_eq!(winners[0].record_len, 3);
    let found = recovered_object_winner_by_id(&winners, ObjectId { object_index: 8 }).unwrap();
    assert_eq!(found, &winners[1]);
    assert_eq!(
        recovered_object_winner_by_id(&winners, ObjectId { object_index: 9 }),
        None
    );
    let location = recovered_record_location(&winners[0], 24);
    assert_eq!(location.record_len, 27);
    assert_eq!(location.object_id, ObjectId { object_index: 7 });
    assert_eq!(location.version, 3);
}

#[test]
fn made_lists_sum_up() {
    let mut objects = PersistentObjects::new();
    let list = objects.allocate_persistent_linked_list(50, 0x900);
    assert_eq!(list.object_index, 49);
    assert_eq!(objects.gc_refs.len(), 50);
    assert_eq!(objects.gc_refs[49], 0x931);
    let garbage = objects.allocate_persistent_struct_for_gc_ref(0x950, vec![ObjectValue::I32(950)]);
    assert_eq!(garbage.object_index, 50);
    let chain = objects.allocate_persistent_linked_list(16, 0x960);

    assert_eq!(objects.persistent_linked_list_sum(list), 1225);
    assert_eq!(objects.persistent_linked_list_sum(chain), 120);
    assert_eq!(
        objects.payloads[1],
        ObjectPayload::Struct(vec![
            ObjectValue::Ref(Some(ObjectId { object_index: 0 })),
            ObjectValue::I32(1),
        ])
    );
}

#[test]
fn made_trees_sum_up() {
    let mut objects = PersistentObjects::new();
    let mut next_gc_ref = 0x990;
    let tree = objects.allocate_persistent_binary_tree(5, 1, &mut next_gc_ref);
    assert_eq!(tree, Some(ObjectId { object_index: 30 }));
    assert_eq!(next_gc_ref, 0x990 + 31);
    assert_eq!(objects.payloads.len(), 31);
    assert_eq!(objects.persistent_binary_tree_sum(tree), 496);
    assert_eq!(objects.persistent_binary_tree_sum(None), 0);
    assert_eq!(
        objects.allocate_persistent_binary_tree(0, 1, &mut next_gc_ref),
        None
    );
}

#[test]
fn samples_hold_what_they_name() {
    let region = sample_region_with_two_object_winners();
    assert_eq!(
        region.layouts,
        vec![recovery_struct_layout(7), recovery_array_layout(9)]
    );
    assert_eq!(region.objects[1].domain, PackedGranuleDomain::TArray);
    assert_eq!(
        region.objects[1].payload,
        ObjectPayload::Array(vec![
            ObjectValue::Ref(Some(ObjectId { object_index: 41 })),
            ObjectValue::I64(9),
        ])
    );
    assert!(region.roots.is_empty());
    let rooted = sample_region_with_two_object_winners_and_global_root();
    assert_eq!(rooted.layouts, vec![recovery_struct_layout(7)]);
    assert_eq!(rooted.objects[0], region.objects[0]);
    assert_eq!(rooted.roots[0].object_ids, vec![Some(42)]);
    assert_eq!(rooted.roots[0].stream_id, 3);
}

#[test]
fn sample_layouts_come_back_from_storage() {
    assert_eq!(recovery_struct_layout(7).fingerprint(), 0x5354_5255_4354_2007);
    assert_eq!(
        recovery_array_layout(9),
        PersistentTypeLayout::Array {
            id: TypeLayoutId::new(9).unwrap(),
            fingerprint: 0x4152_5241_5900_2009,
            element_size: 20,
            element_kind: TraceSlotKind::ObjectRef,
        }
    );
    for layout in [recovery_struct_layout(7), recovery_array_layout(9)] {
        assert_eq!(
            PersistentTypeLayout::decode(&layout.encode().unwrap()),
            Ok(layout)
        );
    }
}
