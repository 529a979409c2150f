use proptest::prelude::{any, Strategy, TestCaseError};
use proptest::test_runner::{Config, RngSeed, TestRunner};
use std::collections::BTreeMap;
use transaction::mixed_model::{
    any_selected, commit_marker, file_backed_granule_byte, mixed_model_actions,
    model_case_from_selection, observed_mixed_world, repeated_granule, ActualMixedWorld,
    MixedModelAction, MixedModelCase, MixedModelError, ModelObjectWrite, ModelTMemoryWrite,
    RecoveredObject,
};
use transaction::permission_model::PermissionModelError;
use transaction::values::{ObjectPayload, ObjectValue};

const GRANULE_SIZE: usize = 16;

/// A memory and objects that recover by undoing what was not committed.
fn recover(case: &MixedModelCase) -> Result<ActualMixedWorld, MixedModelError> {
    let mut memory = vec![0; 4 * GRANULE_SIZE];
    let mut undo: Vec<(usize, Vec<u8>)> = vec![];
    let mut staged = BTreeMap::new();
    for action in mixed_model_actions(case)? {
        match action {
            MixedModelAction::FillGranule { granule, byte } => {
                let start = granule as usize * GRANULE_SIZE;
                memory[start..start + GRANULE_SIZE]
                    .copy_from_slice(&repeated_granule(byte, GRANULE_SIZE));
            }
            MixedModelAction::OverwriteGranule { granule, byte } => {
                let start = granule as usize * GRANULE_SIZE;
                undo.push((start, memory[start..start + GRANULE_SIZE].to_vec()));
                memory[start..start + GRANULE_SIZE].fill(byte);
            }
            MixedModelAction::StageObject { object_id, value } => {
                staged.insert(object_id, value);
            }
            MixedModelAction::AllocateObject {
                object_id,
                gc_ref,
                value,
            } => {
                assert_eq!(u64::from(gc_ref), 0x200 + object_id);
                assert_eq!(value, 0);
            }
            MixedModelAction::SetObject { .. } => {}
        }
    }
    let undo_marker = undo.len().checked_sub(1).map(|last| last as u64);
    let object_marker = (!staged.is_empty()).then_some(99);
    if commit_marker(case.committed, undo_marker, object_marker)?.is_none() {
        for (start, bytes) in undo.into_iter().rev() {
            memory[start..start + GRANULE_SIZE].copy_from_slice(&bytes);
        }
        staged.clear();
    }
    let winners: Vec<RecoveredObject> = staged
        .into_iter()
        .map(|(object_id, value)| RecoveredObject {
            object_id,
            payload: ObjectPayload::Struct(vec![ObjectValue::I32(value)]),
        })
        .collect();
    observed_mixed_world(case, GRANULE_SIZE, &memory, &winners)
}

#[test]
fn model_mixed_file_backed_commit_matches_reference_world() {
    let case = MixedModelCase {
        tmemory_writes: vec![ModelTMemoryWrite {
            granule: 0,
            old_byte: 0x11,
            new_byte: 0x22,
        }],
        object_writes: vec![ModelObjectWrite {
            object_id: 0,
            old_value: 1,
            new_value: 9,
        }],
        committed: true,
    };

    let actual = recover(&case).unwrap();

    assert_eq!(actual.world, case.expected_world());
    assert_eq!(actual.world.tmemory_granules.get(&0), Some(&0x22));
    assert_eq!(actual.world.object_fields.get(&0), Some(&9));
    assert_eq!(actual.object_winner_count, 1);
}

#[test]
fn model_mixed_file_backed_loose_end_matches_reference_world() {
    let case = MixedModelCase {
        tmemory_writes: vec![ModelTMemoryWrite {
            granule: 0,
            old_byte: 0x33,
            new_byte: 0x44,
        }],
        object_writes: vec![ModelObjectWrite {
            object_id: 0,
            old_value: 1,
            new_value: 9,
        }],
        committed: false,
    };

    let actual = recover(&case).unwrap();

    assert_eq!(actual.world, case.expected_world());
    assert_eq!(actual.world.tmemory_granules.get(&0), Some(&0x33));
    assert!(actual.world.object_fields.is_empty());
    assert_eq!(actual.object_winner_count, 0);
}

#[test]
fn model_mixed_file_backed_generated_histories_match_reference_world() {
    let cases = (
        proptest::collection::vec(any::<bool>(), 3)
            .prop_filter("must write at least one tmemory granule", |flags| {
                any_selected(flags)
            }),
        proptest::collection::vec(
            (any::<u8>(), any::<u8>())
                .prop_filter("old and new tmemory bytes must differ", |(old, new)| {
                    old != new
                }),
            3,
        ),
        proptest::collection::vec(any::<bool>(), 2),
        proptest::collection::vec((0i32..=9, 10i32..=19), 2),
        any::<bool>(),
    )
        .prop_map(|(flags, bytes, object_flags, values, committed)| {
            model_case_from_selection(&flags, &bytes, &object_flags, &values, committed)
        });
    let mut runner = TestRunner::new(Config {
        cases: 48,
        failure_persistence: None,
        max_shrink_iters: 256,
        rng_seed: RngSeed::Fixed(0x5eed_0003),
        ..Config::default()
    });

    runner
        .run(&cases, |case| {
            let actual =
                recover(&case).map_err(|error| TestCaseError::fail(format!("{error:?}")))?;
            assert_eq!(actual.world, case.expected_world());
            if case.committed {
                assert_eq!(actual.object_winner_count, case.object_writes.len());
            } else {
                assert_eq!(actual.object_winner_count, 0);
            }
            Ok(())
        })
        .unwrap();
}

#[test]
fn selections_make_cases() {
    let case = model_case_from_selection(
        &[true, false, true, true],
        &[(1, 2), (3, 4), (5, 6)],
        &[false, true],
        &[(7, 17), (8, 18)],
        true,
    );
    assert_eq!(
        case,
        MixedModelCase {
            tmemory_writes: vec![
                ModelTMemoryWrite {
                    granule: 0,
                    old_byte: 1,
                    new_byte: 2,
                },
                ModelTMemoryWrite {
                    granule: 2,
                    old_byte: 5,
                    new_byte: 6,
                },
            ],
            object_writes: vec![ModelObjectWrite {
                object_id: 1,
                old_value: 8,
                new_value: 18,
            }],
            committed: true,
        }
    );
    assert!(any_selected(&[false, true]));
    assert!(!any_selected(&[false, false]));
    assert!(!any_selected(&[]));
}

#[test]
fn cases_ask_for_actions_in_order() {
    let mut case = model_case_from_selection(&[true], &[(1, 2)], &[true], &[(3, 13)], true);
    assert_eq!(
        mixed_model_actions(&case),
        Ok(vec![
            MixedModelAction::FillGranule {
                granule: 0,
                byte: 1
            },
            MixedModelAction::AllocateObject {
                object_id: 0,
                gc_ref: 0x200,
                value: 0
            },
            MixedModelAction::AllocateObject {
                object_id: 1,
                gc_ref: 0x201,
                value: 0
            },
            MixedModelAction::SetObject {
                object_id: 0,
                value: 3
            },
            MixedModelAction::OverwriteGranule {
                granule: 0,
                byte: 2
            },
            MixedModelAction::StageObject {
                object_id: 0,
                value: 13
            },
        ])
    );
    case.object_writes[0].object_id = 2;
    assert_eq!(
        mixed_model_actions(&case),
        Err(MixedModelError::ObjectOutsideSlots { object_id: 2 })
    );
}

#[test]
fn commits_go_behind_what_was_published_last() {
    assert_eq!(commit_marker(false, Some(1), Some(2)), Ok(None));
    assert_eq!(commit_marker(true, Some(1), Some(2)), Ok(Some(2)));
    assert_eq!(commit_marker(true, Some(1), None), Ok(Some(1)));
    assert_eq!(
        commit_marker(true, None, None),
        Err(MixedModelError::NothingPublished)
    );
}

#[test]
fn granules_must_be_full_of_one_byte() {
    let mut memory = repeated_granule(3, 8);
    memory.extend_from_slice(&repeated_granule(4, 8));
    assert_eq!(memory, vec![3, 3, 3, 3, 3, 3, 3, 3, 4, 4, 4, 4, 4, 4, 4, 4]);
    assert_eq!(file_backed_granule_byte(&memory, 8, 1), Ok(4));
    assert_eq!(
        file_backed_granule_byte(&memory, 8, 2),
        Err(MixedModelError::GranuleOutOfBounds)
    );
    assert_eq!(
        file_backed_granule_byte(&memory, 16, 0),
        Err(MixedModelError::MixedGranule)
    );
    assert_eq!(
        file_backed_granule_byte(&memory, 0, 0),
        Err(MixedModelError::EmptyGranule)
    );
    assert_eq!(
        file_backed_granule_byte(&memory, usize::MAX, 2),
        Err(MixedModelError::GranuleStartOverflow)
    );
    assert_eq!(
        file_backed_granule_byte(&memory, usize::MAX, 1),
        Err(MixedModelError::GranuleEndOverflow)
    );
}

#[test]
fn recovered_objects_must_hold_one_i32() {
    let case = model_case_from_selection(&[], &[], &[], &[], true);
    let winner = RecoveredObject {
        object_id: 0,
        payload: ObjectPayload::Struct(vec![]),
    };
    assert_eq!(
        observed_mixed_world(&case, 8, &[], &[winner]),
        Err(MixedModelError::RecoveredObject {
            error: PermissionModelError::NoField
        })
    );
}

#[test]
fn recovered_objects_come_in_any_order() {
    let case = model_case_from_selection(
        &[true, true],
        &[(1, 2), (3, 4)],
        &[true, true],
        &[(5, 15), (6, 16)],
        true,
    );
    let mut memory = repeated_granule(2, 8);
    memory.extend_from_slice(&repeated_granule(4, 8));
    let winner = |object_id, value| RecoveredObject {
        object_id,
        payload: ObjectPayload::Struct(vec![ObjectValue::I32(value)]),
    };
    for winners in [
        [winner(0, 15), winner(1, 16)],
        [winner(1, 16), winner(0, 15)],
    ] {
        let actual = observed_mixed_world(&case, 8, &memory, &winners).unwrap();
        assert_eq!(actual.world, case.expected_world());
        assert_eq!(actual.object_winner_count, 2);
    }
}

#[test]
fn granules_that_are_written_twice_hold_the_last_write() {
    let write = |old_byte, new_byte| ModelTMemoryWrite {
        granule: 1,
        old_byte,
        new_byte,
    };
    for committed in [true, false] {
        let case = MixedModelCase {
            tmemory_writes: vec![write(1, 2), write(3, 4)],
            object_writes: vec![],
            committed,
        };
        let actual = recover(&case).unwrap();
        assert_eq!(actual.world, case.expected_world());
        assert_eq!(
            actual.world.tmemory_granules.get(&1),
            Some(if committed { &4 } else { &3 })
        );
    }
}
