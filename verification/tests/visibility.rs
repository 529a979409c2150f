use transaction::values::{
    GlobalSnapshot, GranuleId, ObjectId, ObjectPayload, ObjectValue, TableElementSnapshot,
    TableGranuleSnapshot,
};
use transaction::visibility::{
    SelectedTransactionVisibility, SelectedVisibilitySnapshot, SingleVersionVisibility,
    TransactionError, TransactionVisibility, BASELINE_TIMESTAMP,
};

#[test]
fn single_version_visibility_passes_all_typed_reads_to_current_state() {
    let visibility = SingleVersionVisibility;
    let granule = GranuleId::TGlobal {
        instance: None,
        global_index: 0,
    };
    let table = TableGranuleSnapshot {
        elements: vec![TableElementSnapshot::FuncRef(4)],
    };
    let object = ObjectPayload::Struct(vec![ObjectValue::I32(5)]);

    assert_eq!(
        visibility.read_memory(99, granule, || Ok(vec![1])).unwrap(),
        vec![1]
    );
    assert_eq!(
        visibility.read_memory_size(99, granule, || Ok(2)).unwrap(),
        2
    );
    assert_eq!(
        visibility
            .read_global(99, granule, || Ok(GlobalSnapshot::I32(3)))
            .unwrap(),
        GlobalSnapshot::I32(3)
    );
    assert_eq!(
        visibility
            .read_table(99, granule, || Ok(table.clone()))
            .unwrap(),
        table
    );
    assert_eq!(
        visibility.read_table_size(99, granule, || Ok(4)).unwrap(),
        4
    );
    assert_eq!(
        visibility
            .read_object(99, ObjectId { object_index: 6 }, || Ok(Some(
                object.clone()
            )))
            .unwrap(),
        Some(object)
    );
}

#[test]
fn single_version_snapshots_are_at_the_baseline() {
    let visibility = SelectedTransactionVisibility::default();
    assert!(!visibility.is_multiversion());
    let snapshot: SelectedVisibilitySnapshot = visibility.begin_snapshot().unwrap();
    assert_eq!(
        SingleVersionVisibility::snapshot_timestamp(&snapshot),
        BASELINE_TIMESTAMP
    );
    assert_eq!(BASELINE_TIMESTAMP, 0);
    visibility.finish_snapshot(snapshot).unwrap();
}

#[test]
fn failed_reads_are_passed_on() {
    let visibility = SingleVersionVisibility;
    let error = TransactionError {
        message: "gone".to_string(),
    };
    let granule = GranuleId::TMemorySize {
        instance: Some(1),
        memory_index: 0,
    };
    let failed = error.clone();
    assert_eq!(
        visibility.read_memory_size(0, granule, move || Err(failed)),
        Err(error.clone())
    );
    let failed = error.clone();
    assert_eq!(
        visibility.read_object(0, ObjectId { object_index: 1 }, move || Err(failed)),
        Err(error)
    );
}
