use transaction::values::{GranuleId, ObjectId};

#[test]
fn granule_id_orders_by_object_space_and_index() {
    let mut ids = vec![
        GranuleId::TGlobal {
            instance: None,
            global_index: 2,
        },
        GranuleId::TMemorySize {
            instance: None,
            memory_index: 4,
        },
        GranuleId::TMemory {
            instance: Some(2),
            memory_index: 0,
            granule_index: 0,
        },
        GranuleId::TMemory {
            instance: Some(1),
            memory_index: 7,
            granule_index: 3,
        },
        GranuleId::TGlobal {
            instance: None,
            global_index: 1,
        },
        GranuleId::TMemorySize {
            instance: None,
            memory_index: 1,
        },
        GranuleId::TMemory {
            instance: Some(1),
            memory_index: 7,
            granule_index: 1,
        },
        GranuleId::Object {
            object_id: ObjectId { object_index: 2 },
        },
        GranuleId::Object {
            object_id: ObjectId { object_index: 1 },
        },
        GranuleId::TTableSize {
            instance: None,
            table_index: 3,
        },
        GranuleId::TTable {
            instance: Some(1),
            table_index: 2,
            granule_index: 0,
        },
    ];

    ids.sort();

    assert_eq!(
        ids,
        vec![
            GranuleId::TMemory {
                instance: Some(1),
                memory_index: 7,
                granule_index: 1,
            },
            GranuleId::TMemory {
                instance: Some(1),
                memory_index: 7,
                granule_index: 3,
            },
            GranuleId::TMemory {
                instance: Some(2),
                memory_index: 0,
                granule_index: 0,
            },
            GranuleId::TMemorySize {
                instance: None,
                memory_index: 1,
            },
            GranuleId::TMemorySize {
                instance: None,
                memory_index: 4,
            },
            GranuleId::TGlobal {
                instance: None,
                global_index: 1,
            },
            GranuleId::TGlobal {
                instance: None,
                global_index: 2,
            },
            GranuleId::TTable {
                instance: Some(1),
                table_index: 2,
                granule_index: 0,
            },
            GranuleId::TTableSize {
                instance: None,
                table_index: 3,
            },
            GranuleId::Object {
                object_id: ObjectId { object_index: 1 },
            },
            GranuleId::Object {
                object_id: ObjectId { object_index: 2 },
            },
        ]
    );
}
