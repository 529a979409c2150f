use proptest::prelude::{Just, Strategy, TestCaseError};
use proptest::strategy::Union;
use proptest::test_runner::{Config, RngSeed, TestRunner};
use transaction::granule_holdings::{
    DowngradeError, GranuleHoldings, GranulePermissionModelState,
};
use transaction::lock_check::OwnedGranule;
use transaction::permission_model::{
    apply_permission_runtime_op, check_permission_step, payload_i32, permission_runtime_snapshot,
    PermissionModelError, PermissionModelOp, PermissionModelState, PermissionObservation,
    PermissionReply, PermissionRunStep, PermissionRuntimeSnapshot, PermissionStepOutcome,
    PermissionTraceStep,
};
use transaction::values::{GranuleId, ObjectPayload, ObjectValue};

/// A runtime with one object of one field.
struct OneObject {
    active: bool,
    committed: i32,
    staged: Option<i32>,
    granted: Vec<&'static str>,
}

impl OneObject {
    fn new() -> OneObject {
        OneObject {
            active: true,
            committed: 7,
            staged: None,
            granted: vec![],
        }
    }

    fn has(&self, permission: &str) -> bool {
        self.granted.iter().any(|granted| *granted == permission)
    }

    fn grant(&mut self, permission: &'static str) -> bool {
        let new = !self.has(permission);
        if new {
            self.granted.push(permission);
        }
        new
    }

    fn end(&mut self) {
        self.active = false;
        self.staged = None;
        self.granted.clear();
    }

    fn reply(&mut self, op: PermissionModelOp) -> PermissionReply {
        if matches!(op, PermissionModelOp::Begin) == self.active {
            return PermissionReply::Failed;
        }
        match op {
            PermissionModelOp::Begin => {
                self.active = true;
                PermissionReply::Done
            }
            PermissionModelOp::GrantRead => PermissionReply::Flag(self.grant("read")),
            PermissionModelOp::GrantWrite => {
                self.grant("read");
                PermissionReply::Flag(self.grant("write"))
            }
            PermissionModelOp::Read if self.has("read") => {
                PermissionReply::Field(ObjectValue::I32(self.staged.unwrap_or(self.committed)))
            }
            PermissionModelOp::Write(value) if self.has("write") => {
                self.staged = Some(value);
                PermissionReply::Done
            }
            PermissionModelOp::Read | PermissionModelOp::Write(_) => PermissionReply::Failed,
            PermissionModelOp::Downgrade => {
                let held = self.has("write");
                self.granted.retain(|granted| *granted != "write");
                PermissionReply::Flag(held)
            }
            PermissionModelOp::Abort => {
                self.end();
                PermissionReply::Done
            }
            PermissionModelOp::CommitRelease => {
                self.committed = self.staged.unwrap_or(self.committed);
                self.end();
                PermissionReply::Done
            }
        }
    }

    fn observation(&self) -> PermissionObservation {
        let object = |value| ObjectPayload::Struct(vec![ObjectValue::I32(value)]);
        PermissionObservation {
            active: self.active,
            committed: object(self.committed),
            staged: self.staged.map(object),
            read: self.has("read"),
            write: self.has("write"),
        }
    }
}

fn observed_run(schedule: &[PermissionModelOp]) -> (PermissionObservation, Vec<PermissionRunStep>) {
    let mut runtime = OneObject::new();
    let initial = runtime.observation();
    let steps = schedule
        .iter()
        .map(|op| {
            let reply = runtime.reply(*op);
            PermissionRunStep {
                op: *op,
                reply,
                observation: runtime.observation(),
            }
        })
        .collect();
    (initial, steps)
}

fn run_permission_semantic_schedule(
    schedule: &[PermissionModelOp],
) -> Result<Vec<PermissionTraceStep>, PermissionModelError> {
    let (initial, steps) = observed_run(schedule);
    transaction::permission_model::run_permission_semantic_schedule(&initial, &steps)
}

#[test]
fn model_permissions_write_without_permission_fails_without_mutating_state() {
    let trace = run_permission_semantic_schedule(&[PermissionModelOp::Write(9)]).unwrap();

    assert_eq!(trace.len(), 1);
    assert_eq!(trace[0].snapshot, PermissionModelState::default().snapshot);
    assert_eq!(trace[0].outcome, PermissionStepOutcome::Write { ok: false });
}

#[test]
fn model_permissions_read_permission_allows_read_without_write() {
    let trace = run_permission_semantic_schedule(&[
        PermissionModelOp::GrantRead,
        PermissionModelOp::Read,
        PermissionModelOp::Write(9),
    ])
    .unwrap();

    assert_eq!(trace[2].outcome, PermissionStepOutcome::Write { ok: false });
    assert_eq!(
        trace[0].outcome,
        PermissionStepOutcome::Bool {
            ok: true,
            value: Some(true),
        }
    );
    assert_eq!(
        trace[1].outcome,
        PermissionStepOutcome::Read {
            ok: true,
            value: Some(7),
        }
    );
    assert_eq!(
        trace[2].snapshot,
        PermissionRuntimeSnapshot {
            active: true,
            committed_value: 7,
            staged_value: None,
            read: true,
            write: false,
        }
    );
}

#[test]
fn model_permissions_write_permission_grants_staged_mutation_and_reads_staged_value() {
    let trace = run_permission_semantic_schedule(&[
        PermissionModelOp::GrantWrite,
        PermissionModelOp::Write(9),
        PermissionModelOp::Read,
    ])
    .unwrap();

    assert_eq!(
        trace[0].outcome,
        PermissionStepOutcome::Bool {
            ok: true,
            value: Some(true),
        }
    );
    assert_eq!(trace[1].outcome, PermissionStepOutcome::Write { ok: true });
    assert_eq!(
        trace[2].outcome,
        PermissionStepOutcome::Read {
            ok: true,
            value: Some(9),
        }
    );
    assert_eq!(
        trace[2].snapshot,
        PermissionRuntimeSnapshot {
            active: true,
            committed_value: 7,
            staged_value: Some(9),
            read: true,
            write: true,
        }
    );
}

#[test]
fn model_permissions_downgrade_rejects_future_writes_until_reacquired() {
    let trace = run_permission_semantic_schedule(&[
        PermissionModelOp::GrantWrite,
        PermissionModelOp::Write(9),
        PermissionModelOp::Downgrade,
        PermissionModelOp::Read,
        PermissionModelOp::Write(10),
        PermissionModelOp::GrantWrite,
        PermissionModelOp::Write(10),
        PermissionModelOp::Read,
    ])
    .unwrap();

    assert_eq!(trace[4].outcome, PermissionStepOutcome::Write { ok: false });
    assert_eq!(
        trace[2].outcome,
        PermissionStepOutcome::Bool {
            ok: true,
            value: Some(true),
        }
    );
    assert_eq!(
        trace[3].outcome,
        PermissionStepOutcome::Read {
            ok: true,
            value: Some(9),
        }
    );
    assert_eq!(
        trace[5].outcome,
        PermissionStepOutcome::Bool {
            ok: true,
            value: Some(true),
        }
    );
    assert_eq!(
        trace[7].outcome,
        PermissionStepOutcome::Read {
            ok: true,
            value: Some(10),
        }
    );
}

#[test]
fn model_permissions_abort_discards_state() {
    let trace = run_permission_semantic_schedule(&[
        PermissionModelOp::GrantWrite,
        PermissionModelOp::Write(9),
        PermissionModelOp::Abort,
        PermissionModelOp::Read,
        PermissionModelOp::Begin,
        PermissionModelOp::GrantRead,
        PermissionModelOp::Read,
        PermissionModelOp::GrantWrite,
        PermissionModelOp::Write(10),
        PermissionModelOp::Read,
    ])
    .unwrap();

    assert_eq!(
        trace[3].outcome,
        PermissionStepOutcome::Read {
            ok: false,
            value: None,
        }
    );
    assert_eq!(trace[2].outcome, PermissionStepOutcome::Unit { ok: true });
    assert_eq!(trace[4].outcome, PermissionStepOutcome::Unit { ok: true });
    assert_eq!(
        trace[5].outcome,
        PermissionStepOutcome::Bool {
            ok: true,
            value: Some(true),
        }
    );
    assert_eq!(
        trace[6].outcome,
        PermissionStepOutcome::Read {
            ok: true,
            value: Some(7),
        }
    );
    assert_eq!(
        trace[7].outcome,
        PermissionStepOutcome::Bool {
            ok: true,
            value: Some(true),
        }
    );
    assert_eq!(
        trace[9].outcome,
        PermissionStepOutcome::Read {
            ok: true,
            value: Some(10),
        }
    );
    assert_eq!(
        trace[3].snapshot,
        PermissionRuntimeSnapshot {
            active: false,
            committed_value: 7,
            staged_value: None,
            read: false,
            write: false,
        }
    );
}

#[test]
fn model_permissions_commit_release_clears_permissions_and_commits_value() {
    let trace = run_permission_semantic_schedule(&[
        PermissionModelOp::GrantWrite,
        PermissionModelOp::Write(9),
        PermissionModelOp::CommitRelease,
        PermissionModelOp::Read,
        PermissionModelOp::Begin,
        PermissionModelOp::GrantRead,
        PermissionModelOp::Read,
        PermissionModelOp::GrantWrite,
        PermissionModelOp::Write(10),
        PermissionModelOp::Read,
    ])
    .unwrap();

    assert_eq!(
        trace[3].outcome,
        PermissionStepOutcome::Read {
            ok: false,
            value: None,
        }
    );
    assert_eq!(trace[2].outcome, PermissionStepOutcome::Unit { ok: true });
    assert_eq!(trace[4].outcome, PermissionStepOutcome::Unit { ok: true });
    assert_eq!(
        trace[5].outcome,
        PermissionStepOutcome::Bool {
            ok: true,
            value: Some(true),
        }
    );
    assert_eq!(
        trace[6].outcome,
        PermissionStepOutcome::Read {
            ok: true,
            value: Some(9),
        }
    );
    assert_eq!(
        trace[7].outcome,
        PermissionStepOutcome::Bool {
            ok: true,
            value: Some(true),
        }
    );
    assert_eq!(
        trace[9].outcome,
        PermissionStepOutcome::Read {
            ok: true,
            value: Some(10),
        }
    );
    assert_eq!(
        trace[3].snapshot,
        PermissionRuntimeSnapshot {
            active: false,
            committed_value: 9,
            staged_value: None,
            read: false,
            write: false,
        }
    );
}

#[test]
fn model_permissions_generated_short_sequences_match_reference_world() {
    let op = Union::new(vec![
        Just(PermissionModelOp::Begin).boxed(),
        Just(PermissionModelOp::GrantRead).boxed(),
        Just(PermissionModelOp::GrantWrite).boxed(),
        Just(PermissionModelOp::Read).boxed(),
        (0i32..=15).prop_map(PermissionModelOp::Write).boxed(),
        Just(PermissionModelOp::Downgrade).boxed(),
        Just(PermissionModelOp::Abort).boxed(),
        Just(PermissionModelOp::CommitRelease).boxed(),
    ]);
    let mut runner = TestRunner::new(Config {
        cases: 64,
        failure_persistence: None,
        max_shrink_iters: 256,
        rng_seed: RngSeed::Fixed(0x5eed_0006),
        ..Config::default()
    });

    runner
        .run(&proptest::collection::vec(op, 1..=10usize), |schedule| {
            run_permission_semantic_schedule(&schedule)
                .map_err(|error| TestCaseError::fail(format!("{error:?}")))?;
            Ok(())
        })
        .unwrap();
}

#[test]
fn refused_operations_change_nothing() {
    let mut model = PermissionModelState::default();
    let before = model.snapshot;
    assert_eq!(
        model.apply(PermissionModelOp::Begin),
        PermissionStepOutcome::Unit { ok: false }
    );
    assert_eq!(
        model.apply(PermissionModelOp::Read),
        PermissionStepOutcome::Read {
            ok: false,
            value: None
        }
    );
    assert_eq!(model.snapshot, before);
    assert_eq!(
        model.apply(PermissionModelOp::Abort),
        PermissionStepOutcome::Unit { ok: true }
    );
    let ended = model.snapshot;
    for op in [
        PermissionModelOp::GrantRead,
        PermissionModelOp::GrantWrite,
        PermissionModelOp::Downgrade,
    ] {
        assert_eq!(
            model.apply(op),
            PermissionStepOutcome::Bool {
                ok: false,
                value: None
            }
        );
    }
    for op in [PermissionModelOp::Abort, PermissionModelOp::CommitRelease] {
        assert_eq!(model.apply(op), PermissionStepOutcome::Unit { ok: false });
    }
    assert_eq!(model.snapshot, ended);
}

#[test]
fn granting_twice_changes_nothing_the_second_time() {
    let mut model = PermissionModelState::default();
    let granted = |value| PermissionStepOutcome::Bool {
        ok: true,
        value: Some(value),
    };
    assert_eq!(model.apply(PermissionModelOp::GrantWrite), granted(true));
    assert_eq!(model.apply(PermissionModelOp::GrantWrite), granted(false));
    assert_eq!(model.apply(PermissionModelOp::GrantRead), granted(false));
    assert_eq!(model.apply(PermissionModelOp::Downgrade), granted(true));
    assert_eq!(model.apply(PermissionModelOp::Downgrade), granted(false));
    assert_eq!(
        model.apply(PermissionModelOp::Read),
        PermissionStepOutcome::Read {
            ok: true,
            value: Some(7)
        }
    );
    assert_eq!(
        model.apply(PermissionModelOp::CommitRelease),
        PermissionStepOutcome::Unit { ok: true }
    );
    assert_eq!(model.snapshot.committed_value, 7);
}

#[test]
fn replies_must_go_with_operations() {
    assert_eq!(
        apply_permission_runtime_op(PermissionModelOp::Read, PermissionReply::Done),
        Err(PermissionModelError::UnexpectedReply)
    );
    assert_eq!(
        apply_permission_runtime_op(PermissionModelOp::GrantRead, PermissionReply::Done),
        Err(PermissionModelError::UnexpectedReply)
    );
    assert_eq!(
        apply_permission_runtime_op(PermissionModelOp::Write(1), PermissionReply::Flag(true)),
        Err(PermissionModelError::UnexpectedReply)
    );
    assert_eq!(
        apply_permission_runtime_op(PermissionModelOp::Abort, PermissionReply::Flag(true)),
        Err(PermissionModelError::UnexpectedReply)
    );
    let other = ObjectValue::I64(7);
    assert_eq!(
        apply_permission_runtime_op(PermissionModelOp::Read, PermissionReply::Field(other)),
        Err(PermissionModelError::ReadOther { value: other })
    );
    assert_eq!(
        apply_permission_runtime_op(PermissionModelOp::Write(1), PermissionReply::Failed),
        Ok(PermissionStepOutcome::Write { ok: false })
    );
}

#[test]
fn objects_must_hold_one_i32() {
    assert_eq!(
        payload_i32(&ObjectPayload::Struct(vec![
            ObjectValue::I32(-4),
            ObjectValue::I64(1)
        ])),
        Ok(-4)
    );
    assert_eq!(
        payload_i32(&ObjectPayload::Array(vec![ObjectValue::I32(4)])),
        Err(PermissionModelError::NotAStruct)
    );
    assert_eq!(
        payload_i32(&ObjectPayload::Struct(vec![])),
        Err(PermissionModelError::NoField)
    );
    assert_eq!(
        payload_i32(&ObjectPayload::Struct(vec![ObjectValue::F32(1)])),
        Err(PermissionModelError::NotAnI32)
    );
    let mut observation = OneObject::new().observation();
    observation.staged = Some(ObjectPayload::Struct(vec![]));
    assert_eq!(
        permission_runtime_snapshot(&observation),
        Err(PermissionModelError::NoField)
    );
}

#[test]
fn runtimes_that_depart_from_the_model_are_refused() {
    let (initial, steps) = observed_run(&[PermissionModelOp::GrantWrite, PermissionModelOp::Write(9)]);
    let run = transaction::permission_model::run_permission_semantic_schedule;
    let mut wrong = initial.clone();
    wrong.read = true;
    assert!(matches!(
        run(&wrong, &steps),
        Err(PermissionModelError::InitialSnapshot { .. })
    ));
    let mut wrong = steps.clone();
    wrong[1].reply = PermissionReply::Failed;
    assert_eq!(
        run(&initial, &wrong),
        Err(PermissionModelError::WrongOutcome {
            expected: PermissionStepOutcome::Write { ok: true },
            actual: PermissionStepOutcome::Write { ok: false },
        })
    );
    let mut wrong = steps.clone();
    wrong[1].observation.staged = None;
    assert!(matches!(
        run(&initial, &wrong),
        Err(PermissionModelError::WrongSnapshot { .. })
    ));
    let mut model = PermissionModelState::default();
    let traced = check_permission_step(&mut model, &steps[0]).unwrap();
    assert_eq!(traced.snapshot, model.snapshot);
    assert!(model.snapshot.write);
}

#[test]
fn downgrade_gives_the_granule_up() {
    let granule = |global_index| GranuleId::TGlobal {
        instance: Some(4),
        global_index,
    };
    let mut holdings = GranuleHoldings {
        active: Some(9),
        read_granules: vec![granule(1), granule(2)],
        write_granules: vec![granule(2), granule(1)],
        owners: vec![
            OwnedGranule {
                granule: granule(2),
                owner: 9,
            },
            OwnedGranule {
                granule: granule(1),
                owner: 9,
            },
        ],
    };
    assert_eq!(holdings.downgrade_granule_write(granule(1)), Ok(true));
    assert_eq!(holdings.downgrade_granule_write(granule(1)), Ok(false));
    assert_eq!(
        holdings.granule_permission_snapshot(granule(1)),
        GranulePermissionModelState {
            active: true,
            read: true,
            write: false,
        }
    );
    assert_eq!(holdings.write_granules, vec![granule(2)]);
    assert_eq!(holdings.owners.len(), 1);
    assert_eq!(
        GranulePermissionModelState::default(),
        holdings.granule_permission_snapshot(granule(3))
    );

    holdings.owners[0].owner = 8;
    assert_eq!(
        holdings.downgrade_granule_write(granule(2)),
        Err(DowngradeError::NotTheOwner {
            transaction: 9,
            granule: granule(2)
        })
    );
    holdings.write_granules = vec![granule(3)];
    assert_eq!(
        holdings.downgrade_granule_write(granule(3)),
        Err(DowngradeError::ReadPermissionLost {
            granule: granule(3)
        })
    );
    holdings.active = None;
    assert_eq!(
        holdings.downgrade_granule_write(granule(3)),
        Err(DowngradeError::NoActiveTransaction)
    );
}
