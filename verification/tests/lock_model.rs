use proptest::prelude::{Strategy, TestCaseError};
use proptest::strategy::Union;
use proptest::test_runner::{Config, RngSeed, TestRunner};
use std::collections::{BTreeMap, BTreeSet};
use transaction::lock_check::{
    decode_model_granule, model_granule, snapshot_lock_state, LockModelMismatch, LockSnapshot,
    OwnedGranule, ReadGranule,
};
use transaction::lock_model::{
    LockConflictKind, LockModelErrorKind, LockModelOp, LockModelState, LockModelStep,
};
use transaction::lock_run::{
    check_lock_step, exhaustive_lock_model_alphabet, run_exhaustive_lock_model_schedules,
    run_lock_model_schedule, LockObservation, LockRunStep,
};
use transaction::lock_schedule::assert_lock_step;
use transaction::values::GranuleId;

const MODEL_LOCK_BASED_DEFAULT_MAX_EXHAUSTIVE_LEN: usize = 3;
const MODEL_LOCK_BASED_DEFAULT_EXHAUSTIVE_SCHEDULES: usize = 8_421;

/// Locks that keep plain lists.
#[derive(Clone, Default)]
struct ListedLocks {
    owners: Vec<(u8, u64)>,
    reads: Vec<(u64, u8, u64)>,
}

impl ListedLocks {
    fn owner(&self, granule: u8) -> Option<u64> {
        self.owners
            .iter()
            .find(|(owned, _)| *owned == granule)
            .map(|(_, owner)| *owner)
    }

    fn read(&self, tx: u64, granule: u8) -> Option<u64> {
        self.reads
            .iter()
            .find(|(reader, read, _)| *reader == tx && *read == granule)
            .map(|(_, _, version)| *version)
    }

    fn release(&mut self, tx: u64) {
        self.owners.retain(|(_, owner)| *owner != tx);
        self.reads.retain(|(reader, _, _)| *reader != tx);
    }

    fn pass(&mut self, tx: u64, granule: u8) -> bool {
        match self.owner(granule) {
            Some(owner) if owner < tx => false,
            Some(owner) if owner > tx => {
                self.release(owner);
                true
            }
            _ => true,
        }
    }

    fn apply(&mut self, op: LockModelOp) -> Option<LockConflictKind> {
        match op {
            LockModelOp::Read {
                tx,
                granule,
                version,
            } => {
                if !self.pass(tx, granule) {
                    return Some(LockConflictKind::ReadOwnedByOther);
                }
                match self.read(tx, granule) {
                    Some(seen) if seen != version => Some(LockConflictKind::ReadVersionMismatch),
                    Some(_) => None,
                    None => {
                        self.reads.push((tx, granule, version));
                        None
                    }
                }
            }
            LockModelOp::Write {
                tx,
                granule,
                version,
            } => {
                if !self.pass(tx, granule) {
                    return Some(LockConflictKind::WriteOwnedByOther);
                }
                if self.read(tx, granule).is_some_and(|seen| seen != version) {
                    return Some(LockConflictKind::WriteVersionMismatch);
                }
                if self.owner(granule).is_none() {
                    self.owners.push((granule, tx));
                }
                None
            }
            LockModelOp::Abort { tx } | LockModelOp::Release { tx } => {
                self.release(tx);
                None
            }
        }
    }

    fn snapshot(&self) -> LockSnapshot {
        LockSnapshot {
            owners: self
                .owners
                .iter()
                .map(|(granule, owner)| OwnedGranule {
                    granule: model_granule(*granule),
                    owner: *owner,
                })
                .collect(),
            read_versions: self
                .reads
                .iter()
                .map(|(reader, granule, version)| ReadGranule {
                    reader: *reader,
                    granule: model_granule(*granule),
                    version: *version,
                })
                .collect(),
        }
    }

    fn observe(&mut self, op: LockModelOp) -> LockObservation {
        let error = self.apply(op);
        LockObservation {
            error,
            snapshot: self.snapshot(),
        }
    }
}

fn observed_run(schedule: &[LockModelOp]) -> (LockSnapshot, Vec<LockRunStep>) {
    let mut locks = ListedLocks::default();
    let initial = locks.snapshot();
    let steps = schedule
        .iter()
        .map(|op| LockRunStep {
            op: *op,
            observation: locks.observe(*op),
        })
        .collect();
    (initial, steps)
}

fn run(schedule: &[LockModelOp]) -> Result<LockModelState, LockModelMismatch> {
    let (initial, steps) = observed_run(schedule);
    run_lock_model_schedule(&initial, &steps)
}

fn observe_all(
    locks: &ListedLocks,
    alphabet: &[LockModelOp],
    remaining: usize,
    observations: &mut Vec<LockObservation>,
) {
    if remaining == 0 {
        return;
    }
    for op in alphabet {
        let mut next = locks.clone();
        observations.push(next.observe(*op));
        observe_all(&next, alphabet, remaining - 1, observations);
    }
}

fn read(tx: u64, granule: u8, version: u64) -> LockModelOp {
    LockModelOp::Read {
        tx,
        granule,
        version,
    }
}

fn write(tx: u64, granule: u8, version: u64) -> LockModelOp {
    LockModelOp::Write {
        tx,
        granule,
        version,
    }
}

fn done(released_owner: Option<u64>) -> LockModelStep {
    LockModelStep {
        error_kind: None,
        released_owner,
    }
}

fn refused(error_kind: LockModelErrorKind) -> LockModelStep {
    LockModelStep {
        error_kind: Some(error_kind),
        released_owner: None,
    }
}

#[test]
fn model_lock_based_deterministic_schedule_matches_reference_world() {
    let schedule = vec![
        LockModelOp::Write {
            tx: 2,
            granule: 0,
            version: 0,
        },
        LockModelOp::Read {
            tx: 1,
            granule: 0,
            version: 0,
        },
        LockModelOp::Write {
            tx: 1,
            granule: 0,
            version: 0,
        },
        LockModelOp::Write {
            tx: 1,
            granule: 1,
            version: 1,
        },
        LockModelOp::Release { tx: 1 },
    ];

    let outcome = run(&schedule).unwrap();

    assert!(outcome.owners.is_empty());
    assert!(outcome.owner_sets.is_empty());
    assert!(outcome.read_versions.is_empty());
}

#[test]
fn model_lock_based_exhaustive_small_schedules_match_reference_world() {
    let mut observations = Vec::new();
    observe_all(
        &ListedLocks::default(),
        &exhaustive_lock_model_alphabet(),
        MODEL_LOCK_BASED_DEFAULT_MAX_EXHAUSTIVE_LEN,
        &mut observations,
    );

    let schedule_count = run_exhaustive_lock_model_schedules(
        MODEL_LOCK_BASED_DEFAULT_MAX_EXHAUSTIVE_LEN,
        &observations,
    )
    .unwrap();

    assert_eq!(
        schedule_count,
        MODEL_LOCK_BASED_DEFAULT_EXHAUSTIVE_SCHEDULES
    );
}

#[test]
fn model_lock_based_generated_schedules_match_reference_world() {
    let access = || (1u64..=2, 0u8..=1, 0u64..=1);
    let op = Union::new(vec![
        access()
            .prop_map(|(tx, granule, version)| read(tx, granule, version))
            .boxed(),
        access()
            .prop_map(|(tx, granule, version)| write(tx, granule, version))
            .boxed(),
        (1u64..=2)
            .prop_map(|tx| LockModelOp::Abort { tx })
            .boxed(),
        (1u64..=2)
            .prop_map(|tx| LockModelOp::Release { tx })
            .boxed(),
    ]);
    for (cases, seed, len_range) in [
        (64, 0x5eed_0005, 4..=12usize),
        (32, 0x5eed_0505, 24..=48usize),
    ] {
        let mut runner = TestRunner::new(Config {
            cases,
            failure_persistence: None,
            max_shrink_iters: 256,
            rng_seed: RngSeed::Fixed(seed),
            ..Config::default()
        });

        runner
            .run(
                &proptest::collection::vec(op.clone(), len_range),
                |schedule| {
                    run(&schedule)
                        .map_err(|error| TestCaseError::fail(format!("{error:?}")))?;
                    Ok(())
                },
            )
            .unwrap();
    }
}

#[test]
fn alphabet_has_every_operation_once() {
    let alphabet = exhaustive_lock_model_alphabet();
    assert_eq!(alphabet.len(), 20);
    assert_eq!(alphabet[0], read(1, 0, 0));
    assert_eq!(alphabet[3], write(1, 0, 1));
    assert_eq!(alphabet[9], LockModelOp::Release { tx: 1 });
    assert_eq!(alphabet[18], LockModelOp::Abort { tx: 2 });
    for (index, op) in alphabet.iter().enumerate() {
        assert!(!alphabet[..index].contains(op));
    }
}

#[test]
fn smaller_transaction_wins_and_larger_is_refused() {
    let mut state = LockModelState::default();
    assert_eq!(state.apply(write(2, 0, 5)), done(None));
    assert_eq!(state.apply(write(2, 1, 5)), done(None));
    assert_eq!(
        state.apply(write(3, 0, 5)),
        refused(LockModelErrorKind::WriteOwnedByOther)
    );
    assert_eq!(
        state.apply(read(3, 0, 5)),
        refused(LockModelErrorKind::ReadOwnedByOther)
    );
    assert_eq!(state.apply(read(1, 0, 5)), done(Some(2)));
    assert!(state.owners.is_empty());
    assert!(state.owner_sets.is_empty());
    assert_eq!(state.read_version(1, 0), Some(5));
    assert_eq!(state.read_version(1, 1), None);
    assert_eq!(state.apply(write(1, 0, 5)), done(None));
    assert_eq!(state.owners, BTreeMap::from([(0, 1)]));
    assert_eq!(
        state.owner_sets,
        BTreeMap::from([(1, BTreeSet::from([0]))])
    );
    assert_eq!(state.apply(LockModelOp::Abort { tx: 1 }), done(None));
    assert!(state.same_state(&LockModelState::default()));
}

#[test]
fn operations_work_on_states_that_do_not_hang_together() {
    let unbacked = LockModelState {
        owners: BTreeMap::from([(0, 4)]),
        ..LockModelState::default()
    };
    let mut state = unbacked.clone();
    assert_eq!(state.record_read(2, 0, 7), done(Some(4)));
    assert_eq!(state.owners, BTreeMap::from([(0, 4)]));
    assert_eq!(state.read_version(2, 0), Some(7));
    let mut state = unbacked.clone();
    assert_eq!(state.resolve_writer_conflict(2, 0, true), Ok(Some(4)));
    assert_eq!(state.resolve_writer_conflict(4, 0, true), Ok(None));
    assert_eq!(
        state.resolve_writer_conflict(5, 0, true),
        Err(LockModelErrorKind::WriteOwnedByOther)
    );
    assert_eq!(
        state.resolve_writer_conflict(5, 0, false),
        Err(LockModelErrorKind::ReadOwnedByOther)
    );
    let mut state = unbacked.clone();
    assert_eq!(
        state.acquire_write(5, 0, 1),
        refused(LockModelErrorKind::WriteOwnedByOther)
    );
    assert_eq!(state.acquire_write(4, 0, 1), done(None));
}

#[test]
fn versions_must_match_the_first_read() {
    let mut state = LockModelState::default();
    assert_eq!(state.apply(read(1, 0, 3)), done(None));
    assert_eq!(state.apply(read(1, 0, 3)), done(None));
    assert_eq!(
        state.apply(read(1, 0, 4)),
        refused(LockModelErrorKind::ReadVersionMismatch)
    );
    assert_eq!(
        state.apply(write(1, 0, 4)),
        refused(LockModelErrorKind::WriteVersionMismatch)
    );
    assert!(state.owners.is_empty());
    assert_eq!(state.read_version(1, 0), Some(3));
    for (model, actual) in [
        (
            LockModelErrorKind::ReadOwnedByOther,
            LockConflictKind::ReadOwnedByOther,
        ),
        (
            LockModelErrorKind::ReadVersionMismatch,
            LockConflictKind::ReadVersionMismatch,
        ),
        (
            LockModelErrorKind::WriteOwnedByOther,
            LockConflictKind::WriteOwnedByOther,
        ),
        (
            LockModelErrorKind::WriteVersionMismatch,
            LockConflictKind::WriteVersionMismatch,
        ),
    ] {
        assert_eq!(model.as_actual(), actual);
    }
}

#[test]
fn inconsistent_states_are_named() {
    let state = |owners: &[(u8, u64)], sets: &[(u64, &[u8])]| LockModelState {
        owners: owners.iter().copied().collect(),
        owner_sets: sets
            .iter()
            .map(|(tx, granules)| (*tx, granules.iter().copied().collect()))
            .collect(),
        read_versions: BTreeMap::new(),
    };
    assert_eq!(
        state(&[(0, 1), (1, 2)], &[(1, &[0]), (2, &[1])]).assert_internal_invariants(),
        Ok(())
    );
    assert_eq!(
        state(&[(0, 1)], &[]).assert_internal_invariants(),
        Err(LockModelMismatch::OwnerCount {
            owner_count: 0,
            owners: 1
        })
    );
    assert_eq!(
        state(&[(0, 1), (1, 1)], &[(1, &[0, 2])]).assert_internal_invariants(),
        Err(LockModelMismatch::OwnerSetDisagrees { tx: 1, granule: 1 })
    );
    assert_eq!(
        state(&[(0, 1)], &[(1, &[0]), (2, &[])]).assert_internal_invariants(),
        Err(LockModelMismatch::EmptyOwnerSet { tx: 2 })
    );
}

#[test]
fn granules_outside_the_model_are_named() {
    assert_eq!(decode_model_granule(model_granule(1)), Ok(1));
    assert_eq!(
        decode_model_granule(model_granule(2)),
        Err(LockModelMismatch::GranuleOutsideDomain { granule: 2 })
    );
    let far = GranuleId::TMemory {
        instance: Some(1),
        memory_index: 0,
        granule_index: 256,
    };
    assert_eq!(
        decode_model_granule(far),
        Err(LockModelMismatch::GranuleIndexTooLarge { granule_index: 256 })
    );
    for other in [
        GranuleId::TMemory {
            instance: None,
            memory_index: 0,
            granule_index: 0,
        },
        GranuleId::TMemory {
            instance: Some(1),
            memory_index: 1,
            granule_index: 0,
        },
        GranuleId::TTableSize {
            instance: Some(1),
            table_index: 0,
        },
    ] {
        assert_eq!(
            decode_model_granule(other),
            Err(LockModelMismatch::UnexpectedGranule { id: other })
        );
    }
}

#[test]
fn snapshots_show_states() {
    let owned = |granule, owner| OwnedGranule {
        granule: model_granule(granule),
        owner,
    };
    let snapshot = LockSnapshot {
        owners: vec![owned(0, 4), owned(1, 4)],
        read_versions: vec![ReadGranule {
            reader: 7,
            granule: model_granule(1),
            version: 9,
        }],
    };
    let state = snapshot_lock_state(&snapshot).unwrap();
    assert_eq!(state.owners, BTreeMap::from([(0, 4), (1, 4)]));
    assert_eq!(
        state.owner_sets,
        BTreeMap::from([(4, BTreeSet::from([0, 1]))])
    );
    assert_eq!(state.read_version(7, 1), Some(9));
    let twice = LockSnapshot {
        owners: vec![owned(0, 4), owned(0, 5)],
        read_versions: vec![],
    };
    assert_eq!(
        snapshot_lock_state(&twice).unwrap_err(),
        LockModelMismatch::OwnerCount {
            owner_count: 2,
            owners: 1
        }
    );
    let outside = LockSnapshot {
        owners: vec![],
        read_versions: vec![ReadGranule {
            reader: 7,
            granule: model_granule(3),
            version: 9,
        }],
    };
    assert_eq!(
        snapshot_lock_state(&outside).unwrap_err(),
        LockModelMismatch::GranuleOutsideDomain { granule: 3 }
    );
}

#[test]
fn steps_of_wrong_locks_are_named() {
    let before = LockModelState::default();
    let mut after = LockModelState::default();
    let step = after.apply(write(2, 0, 0));
    assert_eq!(
        assert_lock_step(write(2, 0, 0), &before, &after, step, None),
        Ok(())
    );
    assert_eq!(
        assert_lock_step(
            write(2, 0, 0),
            &before,
            &after,
            step,
            Some(LockConflictKind::WriteOwnedByOther)
        ),
        Err(LockModelMismatch::UnexpectedError {
            actual: LockConflictKind::WriteOwnedByOther
        })
    );
    let stolen = refused(LockModelErrorKind::WriteOwnedByOther);
    assert_eq!(
        assert_lock_step(write(3, 0, 0), &after, &after, stolen, None),
        Err(LockModelMismatch::UnexpectedSuccess {
            expected: LockConflictKind::WriteOwnedByOther
        })
    );
    assert_eq!(
        assert_lock_step(
            write(3, 0, 0),
            &after,
            &after,
            stolen,
            Some(LockConflictKind::ReadOwnedByOther)
        ),
        Err(LockModelMismatch::WrongError {
            expected: LockConflictKind::WriteOwnedByOther,
            actual: LockConflictKind::ReadOwnedByOther
        })
    );
    assert_eq!(
        assert_lock_step(
            write(3, 0, 0),
            &before,
            &after,
            stolen,
            Some(LockConflictKind::WriteOwnedByOther)
        ),
        Err(LockModelMismatch::FailedWriteChangedOwner { granule: 0 })
    );
    assert_eq!(
        assert_lock_step(
            read(3, 0, 0),
            &before,
            &after,
            refused(LockModelErrorKind::ReadOwnedByOther),
            Some(LockConflictKind::ReadOwnedByOther)
        ),
        Err(LockModelMismatch::FailedReadChangedOwner { granule: 0 })
    );
    let mut reread = LockModelState::default();
    reread.apply(read(3, 0, 0));
    assert_eq!(
        assert_lock_step(
            read(3, 0, 1),
            &before,
            &reread,
            refused(LockModelErrorKind::ReadVersionMismatch),
            Some(LockConflictKind::ReadVersionMismatch)
        ),
        Err(LockModelMismatch::FailedReadChangedVersion { tx: 3, granule: 0 })
    );
}

#[test]
fn transactions_that_keep_something_are_named() {
    let empty = LockModelState::default();
    let mut holding = LockModelState::default();
    holding.apply(write(2, 0, 0));
    let mut reading = LockModelState::default();
    reading.apply(read(2, 0, 0));
    let mut unlisted = LockModelState::default();
    unlisted.owners.insert(0, 2);
    for op in [LockModelOp::Abort { tx: 2 }, LockModelOp::Release { tx: 2 }] {
        let checked = |after: &LockModelState| assert_lock_step(op, &empty, after, done(None), None);
        assert_eq!(checked(&empty), Ok(()));
        assert_eq!(
            checked(&holding),
            Err(LockModelMismatch::ClearedOwnerSet { tx: 2 })
        );
        assert_eq!(
            checked(&unlisted),
            Err(LockModelMismatch::ClearedOwnerMap { tx: 2 })
        );
        assert_eq!(
            checked(&reading),
            Err(LockModelMismatch::ClearedReadVersions { tx: 2 })
        );
    }
    let checked =
        |after: &LockModelState| assert_lock_step(read(1, 0, 0), &empty, after, done(Some(2)), None);
    assert_eq!(checked(&empty), Ok(()));
    assert_eq!(
        checked(&holding),
        Err(LockModelMismatch::ReleasedOwnerSet { tx: 2 })
    );
    assert_eq!(
        checked(&unlisted),
        Err(LockModelMismatch::ReleasedOwnerMap { tx: 2 })
    );
    assert_eq!(
        checked(&reading),
        Err(LockModelMismatch::ReleasedReadSet { tx: 2 })
    );
}

#[test]
fn runs_that_depart_from_the_model_are_refused() {
    let (initial, steps) = observed_run(&[write(2, 0, 0), write(1, 0, 0)]);
    let mut late = steps.clone();
    late[1].observation = late[0].observation.clone();
    assert_eq!(
        run_lock_model_schedule(&initial, &late).unwrap_err(),
        LockModelMismatch::Diverged
    );
    assert_eq!(
        run_lock_model_schedule(&steps[0].observation.snapshot, &steps).unwrap_err(),
        LockModelMismatch::InitialState
    );
    let mut model = LockModelState::default();
    assert_eq!(
        check_lock_step(&mut model, steps[0].op, &steps[0].observation),
        Ok(())
    );
    assert_eq!(model.owners, BTreeMap::from([(0, 2)]));
}

#[test]
fn exhaustive_runs_want_every_observation() {
    let mut observations = Vec::new();
    observe_all(
        &ListedLocks::default(),
        &exhaustive_lock_model_alphabet(),
        2,
        &mut observations,
    );
    assert_eq!(observations.len(), 420);
    assert_eq!(
        run_exhaustive_lock_model_schedules(2, &observations),
        Ok(421)
    );
    assert_eq!(run_exhaustive_lock_model_schedules(0, &[]), Ok(1));
    assert_eq!(
        run_exhaustive_lock_model_schedules(2, &observations[..419]),
        Err(LockModelMismatch::MissingObservation)
    );
    observations[100].error = Some(LockConflictKind::ReadOwnedByOther);
    assert!(run_exhaustive_lock_model_schedules(2, &observations).is_err());
}

#[test]
fn bystanders_keep_what_they_hold() {
    let mut state = LockModelState::default();
    state.apply(write(3, 0, 0));
    state.apply(read(3, 1, 4));
    state.apply(write(2, 1, 0));
    assert_eq!(state.apply(write(1, 1, 0)), done(Some(2)));
    assert_eq!(state.owners, BTreeMap::from([(0, 3), (1, 1)]));
    assert_eq!(
        state.owner_sets,
        BTreeMap::from([(1, BTreeSet::from([1])), (3, BTreeSet::from([0]))])
    );
    assert_eq!(state.read_version(3, 1), Some(4));
    assert_eq!(state.apply(LockModelOp::Release { tx: 2 }), done(None));
    assert_eq!(state.owners.len(), 2);
    assert!(state.copy().same_state(&state));
}
