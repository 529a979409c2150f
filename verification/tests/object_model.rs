use proptest::prelude::{any, Strategy, TestCaseError};
use proptest::sample::select;
use proptest::test_runner::{Config, RngSeed, TestRunner};
use transaction::object_model::{
    expected_latest_committed_by_object, model_domain, model_object_history, model_payload,
    model_type_layout, model_type_layout_id, object_kind_of, ModelObjectRecord, ModelObjectSeed,
    ObjectModelError, PackedGranuleDomain,
};
use transaction::object_rebuild::{
    assert_model_object_rebuild_matches_real_recovery, expected_logical_id, expected_logical_key,
    recover_object_history, ObjectRebuildMismatch, PackedObjectId, PlannedPublication,
    RebuiltObject, RecoveredObjectHistory, RecoveredVersion,
};
use transaction::type_layout::{
    PersistentTypeLayout, StructTraceField, TraceSlotKind, TypeLayoutId,
};
use transaction::values::{ObjectKind, ObjectPayload, ObjectValue, RecordedKind};

fn record(object_id: u64, version: u32, field: i32, committed: bool) -> ModelObjectRecord {
    ModelObjectRecord {
        object_id,
        version,
        kind: RecordedKind::Known(ObjectKind::Struct),
        field,
        committed,
    }
}

fn packed(domain: PackedGranuleDomain, object_id: u64) -> u64 {
    match domain {
        PackedGranuleDomain::TStruct => (1 << 60) | object_id,
        PackedGranuleDomain::TArray => (2 << 60) | object_id,
    }
}

/// What the logical keys of a history pack into.
fn packings(history: &[ModelObjectRecord]) -> Vec<PackedObjectId> {
    history
        .iter()
        .filter_map(|record| expected_logical_key(record).ok())
        .map(|(domain, object_id)| PackedObjectId {
            domain,
            object_id,
            packed_id: packed(domain, object_id),
        })
        .collect()
}

/// Replays what was published: of each object the largest committed version stays.
fn replay(publications: &[PlannedPublication]) -> RecoveredObjectHistory {
    let mut winners: Vec<&PlannedPublication> = vec![];
    for publication in publications {
        if !publication.committed {
            continue;
        }
        match winners
            .iter()
            .position(|winner| winner.object_id == publication.object_id)
        {
            Some(at) if winners[at].version < publication.version => winners[at] = publication,
            Some(_) => {}
            None => winners.push(publication),
        }
    }
    RecoveredObjectHistory {
        live_count: winners.len(),
        objects: winners
            .iter()
            .map(|winner| RebuiltObject {
                object_id: winner.object_id,
                kind: match winner.payload {
                    ObjectPayload::Struct(_) => ObjectKind::Struct,
                    ObjectPayload::Array(_) => ObjectKind::Array,
                },
                persistent: true,
                payload: winner.payload.clone(),
                logical_id: packed(winner.domain, winner.object_id),
                version: winner.version,
                type_layout_id: winner.type_layout_id,
                traced_objects: 0,
            })
            .collect(),
        versions: winners
            .iter()
            .map(|winner| RecoveredVersion {
                object_id: winner.object_id,
                version: winner.version,
            })
            .collect(),
        winner_count: winners.len(),
    }
}

fn rebuilt(history: &[ModelObjectRecord]) -> RecoveredObjectHistory {
    let recovered = replay(&recover_object_history(history).unwrap().publications);
    assert_eq!(
        assert_model_object_rebuild_matches_real_recovery(
            history,
            &packings(history),
            &recovered
        ),
        Ok(())
    );
    recovered
}

#[test]
fn model_object_rebuild_latest_committed_version_wins() {
    let rebuilt = rebuilt(&[
        record(41, 2, 20, true),
        record(41, 9, 90, true),
        record(41, 7, 70, true),
    ]);

    assert_eq!(rebuilt.live_count, 1);
    assert_eq!(rebuilt.objects[0].object_id, 41);
    assert!(rebuilt.objects[0].persistent);
    assert_eq!(
        rebuilt.objects[0].payload,
        ObjectPayload::Struct(vec![ObjectValue::I32(90)])
    );
    assert_eq!(rebuilt.objects[0].version, 9);
    assert_eq!(rebuilt.objects[0].type_layout_id, 141);
}

#[test]
fn model_object_rebuild_ignores_loose_end_publication() {
    let rebuilt = rebuilt(&[record(52, 1, 10, true), record(52, 3, 30, false)]);

    assert_eq!(rebuilt.live_count, 1);
    assert_eq!(
        rebuilt.objects[0].payload,
        ObjectPayload::Struct(vec![ObjectValue::I32(10)])
    );
}

#[test]
fn model_object_rebuild_preserves_recovered_object_identity() {
    let rebuilt = rebuilt(&[record(77, 4, 17, true), record(103, 6, 88, true)]);

    let object = &rebuilt.objects[1];
    assert_eq!(object.object_id, 103);
    assert_eq!(object.kind, ObjectKind::Struct);
    assert_eq!(
        object.payload,
        ObjectPayload::Struct(vec![ObjectValue::I32(88)])
    );
    assert_eq!(object.logical_id, packed(PackedGranuleDomain::TStruct, 103));
    assert_eq!(object.type_layout_id, 203);
}

#[test]
fn model_object_rebuild_generated_histories_match_real_recovery_and_reference_model() {
    let histories = proptest::collection::vec(
        select(vec![
            RecordedKind::Known(ObjectKind::Struct),
            RecordedKind::Known(ObjectKind::Array),
        ]),
        4,
    )
    .prop_flat_map(|kinds| {
        proptest::collection::vec(
            (0u64..=3u64, -20i32..=20i32, any::<bool>()).prop_map(
                |(object_id, field, committed)| ModelObjectSeed {
                    object_id,
                    field,
                    committed,
                },
            ),
            1..=8usize,
        )
        .prop_map(move |seeds| model_object_history(&kinds, &seeds))
    });
    let mut runner = TestRunner::new(Config {
        cases: 64,
        failure_persistence: None,
        max_shrink_iters: 256,
        rng_seed: RngSeed::Fixed(0x5eed_0009),
        ..Config::default()
    });

    runner
        .run(&histories, |history| {
            let plan = recover_object_history(&history)
                .map_err(|error| TestCaseError::fail(format!("{error:?}")))?;
            assert_model_object_rebuild_matches_real_recovery(
                &history,
                &packings(&history),
                &replay(&plan.publications),
            )
            .map_err(|error| TestCaseError::fail(format!("{error:?}")))
        })
        .unwrap();
}

#[test]
fn seeds_count_versions_by_object() {
    let seed = |object_id, field, committed| ModelObjectSeed {
        object_id,
        field,
        committed,
    };
    let history = model_object_history(
        &[
            RecordedKind::Known(ObjectKind::Struct),
            RecordedKind::Known(ObjectKind::Array),
        ],
        &[seed(1, 5, true), seed(0, 6, false), seed(1, 7, true)],
    );
    assert_eq!(history.len(), 3);
    assert_eq!(
        history[2],
        ModelObjectRecord {
            object_id: 1,
            version: 2,
            kind: RecordedKind::Known(ObjectKind::Array),
            field: 7,
            committed: true,
        }
    );
    assert_eq!(history[0].version, 1);
    assert_eq!(history[1], record(0, 1, 6, false));
    let latest = expected_latest_committed_by_object(&history);
    assert_eq!(latest.len(), 1);
    assert_eq!(latest.get(&1), Some(&history[2]));
}

#[test]
fn records_make_payloads_and_layouts() {
    let mut model = record(5, 1, -3, true);
    assert_eq!(
        model_payload(&model),
        Ok(ObjectPayload::Struct(vec![ObjectValue::I32(-3)]))
    );
    assert_eq!(model_domain(&model), Ok(PackedGranuleDomain::TStruct));
    assert_eq!(model_type_layout_id(&model), Ok(105));
    assert_eq!(
        model_type_layout(&model),
        Ok(PersistentTypeLayout::Struct {
            id: TypeLayoutId::new(105).unwrap(),
            fingerprint: 0x5354_5255_4354_1069,
            body_size: 4,
            fields: vec![StructTraceField {
                field_index: 0,
                field_offset: 0,
                value_size: 4,
                kind: TraceSlotKind::Scalar,
            }],
        })
    );
    model.kind = RecordedKind::Known(ObjectKind::Array);
    assert_eq!(
        model_payload(&model),
        Ok(ObjectPayload::Array(vec![ObjectValue::I32(-3)]))
    );
    assert_eq!(model_domain(&model), Ok(PackedGranuleDomain::TArray));
    assert_eq!(
        model_type_layout(&model),
        Ok(PersistentTypeLayout::Array {
            id: TypeLayoutId::new(105).unwrap(),
            fingerprint: 0x4152_5241_5900_1069,
            element_size: 4,
            element_kind: TraceSlotKind::Scalar,
        })
    );
    model.kind = RecordedKind::Known(ObjectKind::I31);
    let unsupported = ObjectModelError::UnsupportedKind {
        kind: ObjectKind::I31,
    };
    assert_eq!(model_payload(&model), Err(unsupported));
    assert_eq!(model_domain(&model), Err(unsupported));
    assert_eq!(model_type_layout(&model), Err(unsupported));
    assert_eq!(
        recover_object_history(&[record(1, 1, 1, true), model]),
        Err(unsupported)
    );
    model.kind = RecordedKind::Unknown(0x7777);
    let unknown = ObjectModelError::UnknownKind { raw: 0x7777 };
    assert_eq!(object_kind_of(&model), Err(unknown));
    assert_eq!(model_payload(&model), Err(unknown));
    assert_eq!(model_domain(&model), Err(unknown));
    assert_eq!(model_type_layout(&model), Err(unknown));
    assert_eq!(expected_logical_key(&model), Err(unknown));
    assert_eq!(
        recover_object_history(&[record(1, 1, 1, true), model]),
        Err(unknown)
    );
    model.object_id = 0x1_0000_0000;
    assert_eq!(
        model_type_layout(&model),
        Err(ObjectModelError::ObjectIdTooLarge {
            object_id: 0x1_0000_0000
        })
    );
}

#[test]
fn histories_are_published_in_order() {
    let plan = recover_object_history(&[record(1, 1, 10, true), record(2, 4, 20, false)]).unwrap();
    assert_eq!(plan.layouts.len(), 2);
    assert_eq!(
        plan.publications[1],
        PlannedPublication {
            stream_id: 2,
            txid: 402,
            domain: PackedGranuleDomain::TStruct,
            object_id: 2,
            version: 4,
            type_layout_id: 102,
            payload: ObjectPayload::Struct(vec![ObjectValue::I32(20)]),
            committed: false,
        }
    );
}

#[test]
fn wrong_rebuilds_are_named() {
    let history = [
        record(1, 1, 10, true),
        record(2, 1, 20, true),
        record(3, 1, 30, false),
    ];
    let right = rebuilt(&history);
    let check = |change: fn(&mut RecoveredObjectHistory)| {
        let mut wrong = right.clone();
        change(&mut wrong);
        assert_model_object_rebuild_matches_real_recovery(&history, &packings(&history), &wrong)
            .unwrap_err()
    };
    assert_eq!(
        check(|wrong| wrong.live_count = 3),
        ObjectRebuildMismatch::LiveCount {
            expected: 2,
            actual: 3
        }
    );
    assert_eq!(
        check(|wrong| {
            wrong.objects[1].kind = ObjectKind::Array;
            wrong.objects[0].object_id = 9;
        }),
        ObjectRebuildMismatch::MissingObject { object_id: 1 }
    );
    assert_eq!(
        check(|wrong| wrong.objects[1].kind = ObjectKind::Array),
        ObjectRebuildMismatch::WrongKind { object_id: 2 }
    );
    assert_eq!(
        check(|wrong| wrong.objects[0].persistent = false),
        ObjectRebuildMismatch::NotPersistent { object_id: 1 }
    );
    assert_eq!(
        check(|wrong| wrong.objects[0].payload = ObjectPayload::Struct(vec![])),
        ObjectRebuildMismatch::WrongPayload { object_id: 1 }
    );
    assert_eq!(
        check(|wrong| wrong.objects[0].logical_id = 0),
        ObjectRebuildMismatch::WrongLogicalId { object_id: 1 }
    );
    assert_eq!(
        check(|wrong| wrong.objects[0].version = 2),
        ObjectRebuildMismatch::WrongVersion { object_id: 1 }
    );
    assert_eq!(
        check(|wrong| wrong.objects[0].type_layout_id = 2),
        ObjectRebuildMismatch::WrongTypeLayout { object_id: 1 }
    );
    assert_eq!(
        check(|wrong| wrong.objects[0].traced_objects = 1),
        ObjectRebuildMismatch::TracesObjects { object_id: 1 }
    );
    assert_eq!(
        check(|wrong| wrong.versions[1].version = 7),
        ObjectRebuildMismatch::WrongRecoveredVersion { object_id: 2 }
    );
    assert_eq!(
        check(|wrong| {
            let mut loose = wrong.objects[0].clone();
            loose.object_id = 3;
            wrong.objects.push(loose);
        }),
        ObjectRebuildMismatch::LooseEnd { object_id: 3 }
    );
    assert_eq!(
        check(|wrong| wrong.winner_count = 1),
        ObjectRebuildMismatch::WinnerCount {
            expected: 2,
            actual: 1
        }
    );
}

#[test]
fn unsupported_kinds_are_named_when_they_were_rebuilt() {
    let mut history = [record(1, 1, 10, true)];
    let mut recovered = rebuilt(&history);
    history[0].kind = RecordedKind::Known(ObjectKind::Func);
    recovered.objects[0].kind = ObjectKind::Func;
    assert_eq!(
        assert_model_object_rebuild_matches_real_recovery(&history, &[], &recovered),
        Err(ObjectRebuildMismatch::Model {
            error: ObjectModelError::UnsupportedKind {
                kind: ObjectKind::Func
            }
        })
    );
}

#[test]
fn unknown_kinds_are_named_when_an_object_was_rebuilt() {
    let mut history = [record(1, 1, 10, true)];
    let mut recovered = rebuilt(&history);
    history[0].kind = RecordedKind::Unknown(99);
    recovered.objects[0].persistent = false;
    assert_eq!(
        assert_model_object_rebuild_matches_real_recovery(&history, &[], &recovered),
        Err(ObjectRebuildMismatch::Model {
            error: ObjectModelError::UnknownKind { raw: 99 }
        })
    );
    recovered.objects.clear();
    assert_eq!(
        assert_model_object_rebuild_matches_real_recovery(&history, &[], &recovered),
        Err(ObjectRebuildMismatch::MissingObject { object_id: 1 })
    );
}

#[test]
fn logical_ids_are_packed_from_what_the_model_says() {
    let mut model = record(5, 1, 0, true);
    assert_eq!(
        expected_logical_key(&model),
        Ok((PackedGranuleDomain::TStruct, 5))
    );
    let packing = |domain, object_id, packed_id| PackedObjectId {
        domain,
        object_id,
        packed_id,
    };
    let packings = [
        packing(PackedGranuleDomain::TArray, 5, 50),
        packing(PackedGranuleDomain::TStruct, 6, 60),
        packing(PackedGranuleDomain::TStruct, 5, 70),
    ];
    assert_eq!(expected_logical_id(&model, &packings), Ok(70));
    assert_eq!(
        expected_logical_id(&model, &packings[..2]),
        Err(ObjectRebuildMismatch::NotPacked { object_id: 5 })
    );
    model.kind = RecordedKind::Known(ObjectKind::Array);
    assert_eq!(
        expected_logical_key(&model),
        Ok((PackedGranuleDomain::TArray, 5))
    );
    assert_eq!(expected_logical_id(&model, &packings), Ok(50));
    model.kind = RecordedKind::Known(ObjectKind::Extern);
    let unsupported = ObjectModelError::UnsupportedKind {
        kind: ObjectKind::Extern,
    };
    assert_eq!(expected_logical_key(&model), Err(unsupported));
    assert_eq!(
        expected_logical_id(&model, &packings),
        Err(ObjectRebuildMismatch::Model { error: unsupported })
    );
}

#[test]
fn objects_published_under_the_number_of_another_kind_are_named() {
    let history = [record(1, 1, 10, true)];
    let mut recovered = rebuilt(&history);
    recovered.objects[0].logical_id = packed(PackedGranuleDomain::TArray, 1);
    assert_eq!(
        assert_model_object_rebuild_matches_real_recovery(
            &history,
            &packings(&history),
            &recovered
        ),
        Err(ObjectRebuildMismatch::WrongLogicalId { object_id: 1 })
    );
    assert_eq!(
        assert_model_object_rebuild_matches_real_recovery(&history, &[], &recovered),
        Err(ObjectRebuildMismatch::NotPacked { object_id: 1 })
    );
}
