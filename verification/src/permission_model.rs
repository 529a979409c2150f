//! A model of the permissions that a transaction holds on one object.
//!
//! A transaction must be granted the object before it reads or writes it. What it writes is
//! staged until it commits, and lost if it aborts.

use vstd::prelude::*;

use crate::values::{ObjectPayload, ObjectValue};

verus! {

/// Something that is asked of the transaction.
#[derive(Clone, Copy, Debug, PartialEq, Eq, Structural)]
pub enum PermissionModelOp {
    Begin,
    GrantRead,
    GrantWrite,
    Read,
    Write(i32),
    Downgrade,
    Abort,
    CommitRelease,
}

/// What came of it.
#[derive(Clone, Copy, Debug, PartialEq, Eq, Structural)]
pub enum PermissionStepOutcome {
    /// A permission was asked for or given back, and whether that changed anything.
    Bool { ok: bool, value: Option<bool> },
    /// The object was read.
    Read { ok: bool, value: Option<i32> },
    /// The object was written.
    Write { ok: bool },
    /// The transaction began or ended.
    Unit { ok: bool },
}

/// The state of the transaction and its object.
#[derive(Clone, Copy, Debug, PartialEq, Eq, Structural)]
pub struct PermissionRuntimeSnapshot {
    pub active: bool,
    pub committed_value: i32,
    pub staged_value: Option<i32>,
    pub read: bool,
    pub write: bool,
}

/// What came of an operation, and the state behind it.
#[derive(Clone, Copy, Debug, PartialEq, Eq, Structural)]
pub struct PermissionTraceStep {
    pub outcome: PermissionStepOutcome,
    pub snapshot: PermissionRuntimeSnapshot,
}

/// The model.
#[derive(Clone, Copy, Debug, PartialEq, Eq, Structural)]
pub struct PermissionModelState {
    pub snapshot: PermissionRuntimeSnapshot,
}

impl PermissionRuntimeSnapshot {
    /// The state that the model starts from: a fresh transaction, and an object that holds
    /// seven.
    pub open spec fn initial() -> PermissionRuntimeSnapshot {
        PermissionRuntimeSnapshot {
            active: true,
            committed_value: 7,
            staged_value: None,
            read: false,
            write: false,
        }
    }

    /// What holds in every state: who may write may read, and without a transaction nothing
    /// is permitted or staged.
    pub open spec fn is_sound(self) -> bool {
        &&& self.write ==> self.read
        &&& !self.active ==> !self.read && !self.write && self.staged_value is None
    }

    /// Whether an operation is permitted.
    pub open spec fn permits(self, op: PermissionModelOp) -> bool {
        match op {
            PermissionModelOp::Begin => !self.active,
            PermissionModelOp::Read => self.active && self.read,
            PermissionModelOp::Write(_) => self.active && self.write,
            _ => self.active,
        }
    }

    /// What a read sees.
    pub open spec fn visible_value(self) -> i32 {
        match self.staged_value {
            Some(value) => value,
            None => self.committed_value,
        }
    }

    /// The state without permissions or staged values.
    pub open spec fn cleared(self, active: bool, committed_value: i32) -> PermissionRuntimeSnapshot {
        PermissionRuntimeSnapshot {
            active,
            committed_value,
            staged_value: None,
            read: false,
            write: false,
        }
    }

    /// The state after an operation.
    pub open spec fn next(self, op: PermissionModelOp) -> PermissionRuntimeSnapshot {
        if !self.permits(op) {
            self
        } else {
            match op {
                PermissionModelOp::Begin => self.cleared(true, self.committed_value),
                PermissionModelOp::GrantRead => PermissionRuntimeSnapshot { read: true, ..self },
                PermissionModelOp::GrantWrite => PermissionRuntimeSnapshot {
                    read: true,
                    write: true,
                    ..self
                },
                PermissionModelOp::Read => self,
                PermissionModelOp::Write(value) => PermissionRuntimeSnapshot {
                    staged_value: Some(value),
                    ..self
                },
                PermissionModelOp::Downgrade => PermissionRuntimeSnapshot { write: false, ..self },
                PermissionModelOp::Abort => self.cleared(false, self.committed_value),
                PermissionModelOp::CommitRelease => self.cleared(false, self.visible_value()),
            }
        }
    }

    /// What comes of an operation.
    pub open spec fn outcome(self, op: PermissionModelOp) -> PermissionStepOutcome {
        let ok = self.permits(op);
        match op {
            PermissionModelOp::GrantRead => PermissionStepOutcome::Bool {
                ok,
                value: if ok {
                    Some(!self.read)
                } else {
                    None
                },
            },
            PermissionModelOp::GrantWrite => PermissionStepOutcome::Bool {
                ok,
                value: if ok {
                    Some(!self.write)
                } else {
                    None
                },
            },
            PermissionModelOp::Downgrade => PermissionStepOutcome::Bool {
                ok,
                value: if ok {
                    Some(self.write)
                } else {
                    None
                },
            },
            PermissionModelOp::Read => PermissionStepOutcome::Read {
                ok,
                value: if ok {
                    Some(self.visible_value())
                } else {
                    None
                },
            },
            PermissionModelOp::Write(_) => PermissionStepOutcome::Write { ok },
            PermissionModelOp::Begin | PermissionModelOp::Abort | PermissionModelOp::CommitRelease => PermissionStepOutcome::Unit { ok },
        }
    }

    /// The state after some operations.
    pub open spec fn next_all(self, ops: Seq<PermissionModelOp>) -> PermissionRuntimeSnapshot
        decreases ops.len(),
    {
        if ops.len() == 0 {
            self
        } else {
            self.next_all(ops.drop_last()).next(ops.last())
        }
    }
}

/// A refused operation changes nothing.
pub proof fn law_refused_operation_changes_nothing(
    state: PermissionRuntimeSnapshot,
    op: PermissionModelOp,
)
    requires
        !state.permits(op),
    ensures
        state.next(op) == state,
        state.outcome(op) == (match op {
            PermissionModelOp::Read => PermissionStepOutcome::Read { ok: false, value: None },
            PermissionModelOp::Write(_) => PermissionStepOutcome::Write { ok: false },
            PermissionModelOp::GrantRead | PermissionModelOp::GrantWrite | PermissionModelOp::Downgrade => PermissionStepOutcome::Bool {
                ok: false,
                value: None,
            },
            _ => PermissionStepOutcome::Unit { ok: false },
        }),
{
}

/// Every operation keeps permissions sound.
pub proof fn law_every_state_is_sound(ops: Seq<PermissionModelOp>)
    ensures
        PermissionRuntimeSnapshot::initial().next_all(ops).is_sound(),
    decreases ops.len(),
{
    if ops.len() > 0 {
        law_every_state_is_sound(ops.drop_last());
    }
}

/// A read that may see the object after a permitted write sees what was written.
pub proof fn law_read_sees_own_write(state: PermissionRuntimeSnapshot, value: i32)
    requires
        state.is_sound(),
        state.permits(PermissionModelOp::Write(value)),
    ensures
        state.next(PermissionModelOp::Write(value)).outcome(PermissionModelOp::Read)
            == (PermissionStepOutcome::Read { ok: true, value: Some(value) }),
{
}

/// Only a commit changes the committed value, and then to what a read would have seen.
pub proof fn law_only_commit_changes_the_object(
    state: PermissionRuntimeSnapshot,
    op: PermissionModelOp,
)
    ensures
        state.next(op).committed_value == (if op is CommitRelease && state.active {
            state.visible_value()
        } else {
            state.committed_value
        }),
{
}

/// After an abort, whoever begins and is granted the object reads the committed value, as if
/// nothing had been written.
pub proof fn law_abort_discards(state: PermissionRuntimeSnapshot)
    requires
        state.active,
    ensures
        state.next(PermissionModelOp::Abort).next(PermissionModelOp::Begin).next(
            PermissionModelOp::GrantRead,
        ).outcome(PermissionModelOp::Read) == (PermissionStepOutcome::Read {
            ok: true,
            value: Some(state.committed_value),
        }),
{
}

/// After a commit, whoever begins and is granted the object reads what the committed
/// transaction would have read.
pub proof fn law_commit_publishes(state: PermissionRuntimeSnapshot)
    requires
        state.active,
    ensures
        state.next(PermissionModelOp::CommitRelease).next(PermissionModelOp::Begin).next(
            PermissionModelOp::GrantRead,
        ).outcome(PermissionModelOp::Read) == (PermissionStepOutcome::Read {
            ok: true,
            value: Some(state.visible_value()),
        }),
{
}

/// A downgrade takes the permission to write and leaves the permission to read, until the
/// permission to write is granted anew.
pub proof fn law_downgrade_leaves_read(state: PermissionRuntimeSnapshot, value: i32)
    requires
        state.active,
        state.is_sound(),
    ensures
        !state.next(PermissionModelOp::Downgrade).permits(PermissionModelOp::Write(value)),
        state.next(PermissionModelOp::Downgrade).permits(PermissionModelOp::Read)
            == state.permits(PermissionModelOp::Read),
        state.next(PermissionModelOp::Downgrade).visible_value() == state.visible_value(),
        state.next(PermissionModelOp::Downgrade).next(PermissionModelOp::GrantWrite).permits(
            PermissionModelOp::Write(value),
        ),
{
}

/// When a transaction ends, its permissions end with it, and a transaction that begins then
/// can be granted them anew.
pub proof fn law_permissions_end_with_the_transaction(
    state: PermissionRuntimeSnapshot,
    op: PermissionModelOp,
)
    requires
        state.active,
        op is Abort || op is CommitRelease,
    ensures
        !state.next(op).active && !state.next(op).read && !state.next(op).write,
        state.next(op).next(PermissionModelOp::Begin).outcome(PermissionModelOp::GrantWrite)
            == (PermissionStepOutcome::Bool { ok: true, value: Some(true) }),
        state.next(op).next(PermissionModelOp::Begin).outcome(PermissionModelOp::GrantRead)
            == (PermissionStepOutcome::Bool { ok: true, value: Some(true) }),
{
}

impl Default for PermissionModelState {
    fn default() -> (state: PermissionModelState)
        ensures
            state.snapshot == PermissionRuntimeSnapshot::initial(),
    {
        PermissionModelState {
            snapshot: PermissionRuntimeSnapshot {
                active: true,
                committed_value: 7,
                staged_value: None,
                read: false,
                write: false,
            },
        }
    }
}

impl PermissionModelState {
    /// Does what an operation asks for, and says what came of it.
    pub fn apply(&mut self, op: PermissionModelOp) -> (outcome: PermissionStepOutcome)
        ensures
            final(self).snapshot == old(self).snapshot.next(op),
            outcome == old(self).snapshot.outcome(op),
    {
        match op {
            PermissionModelOp::Begin => {
                if self.snapshot.active {
                    return PermissionStepOutcome::Unit { ok: false };
                }
                self.snapshot.active = true;
                self.snapshot.staged_value = None;
                self.snapshot.read = false;
                self.snapshot.write = false;
                PermissionStepOutcome::Unit { ok: true }
            },
            PermissionModelOp::GrantRead => {
                if !self.snapshot.active {
                    return PermissionStepOutcome::Bool { ok: false, value: None };
                }
                let granted = !self.snapshot.read;
                self.snapshot.read = true;
                PermissionStepOutcome::Bool { ok: true, value: Some(granted) }
            },
            PermissionModelOp::GrantWrite => {
                if !self.snapshot.active {
                    return PermissionStepOutcome::Bool { ok: false, value: None };
                }
                let granted = !self.snapshot.write;
                self.snapshot.read = true;
                self.snapshot.write = true;
                PermissionStepOutcome::Bool { ok: true, value: Some(granted) }
            },
            PermissionModelOp::Read => {
                if !self.snapshot.active || !self.snapshot.read {
                    return PermissionStepOutcome::Read { ok: false, value: None };
                }
                let value: i32 = match self.snapshot.staged_value {
                    Some(value) => value,
                    None => self.snapshot.committed_value,
                };
                PermissionStepOutcome::Read { ok: true, value: Some(value) }
            },
            PermissionModelOp::Write(value) => {
                if !self.snapshot.active || !self.snapshot.write {
                    return PermissionStepOutcome::Write { ok: false };
                }
                self.snapshot.staged_value = Some(value);
                PermissionStepOutcome::Write { ok: true }
            },
            PermissionModelOp::Downgrade => {
                if !self.snapshot.active {
                    return PermissionStepOutcome::Bool { ok: false, value: None };
                }
                let removed = self.snapshot.write;
                self.snapshot.write = false;
                PermissionStepOutcome::Bool { ok: true, value: Some(removed) }
            },
            PermissionModelOp::Abort => {
                if !self.snapshot.active {
                    return PermissionStepOutcome::Unit { ok: false };
                }
                self.snapshot.active = false;
                self.snapshot.staged_value = None;
                self.snapshot.read = false;
                self.snapshot.write = false;
                PermissionStepOutcome::Unit { ok: true }
            },
            PermissionModelOp::CommitRelease => {
                if !self.snapshot.active {
                    return PermissionStepOutcome::Unit { ok: false };
                }
                if let Some(value) = self.snapshot.staged_value {
                    self.snapshot.committed_value = value;
                }
                self.snapshot.active = false;
                self.snapshot.staged_value = None;
                self.snapshot.read = false;
                self.snapshot.write = false;
                PermissionStepOutcome::Unit { ok: true }
            },
        }
    }
}

/// How what a runtime did departs from the model.
#[derive(Clone, Copy, Debug, PartialEq, Eq)]
pub enum PermissionModelError {
    /// The object is no struct.
    NotAStruct,
    /// The object has no field.
    NoField,
    /// The first field holds no 32-bit integer.
    NotAnI32,
    /// The field that was read holds no 32-bit integer.
    ReadOther { value: ObjectValue },
    /// The reply does not go with the operation.
    UnexpectedReply,
    /// The runtime did not start out as the model.
    InitialSnapshot { expected: PermissionRuntimeSnapshot, actual: PermissionRuntimeSnapshot },
    /// Something else came of an operation than in the model.
    WrongOutcome { expected: PermissionStepOutcome, actual: PermissionStepOutcome },
    /// The runtime is in another state than the model.
    WrongSnapshot { expected: PermissionRuntimeSnapshot, actual: PermissionRuntimeSnapshot },
}

/// The integer in the first field of an object.
pub open spec fn first_i32(payload: ObjectPayload) -> Result<i32, PermissionModelError> {
    match payload {
        ObjectPayload::Array(_) => Err(PermissionModelError::NotAStruct),
        ObjectPayload::Struct(fields) => if fields@.len() == 0 {
            Err(PermissionModelError::NoField)
        } else {
            match fields@[0] {
                ObjectValue::I32(value) => Ok(value),
                _ => Err(PermissionModelError::NotAnI32),
            }
        },
    }
}

/// The integer in the first field of an object.
pub fn payload_i32(payload: &ObjectPayload) -> (value: Result<i32, PermissionModelError>)
    ensures
        value == first_i32(*payload),
{
    match payload {
        ObjectPayload::Array(_) => Err(PermissionModelError::NotAStruct),
        ObjectPayload::Struct(fields) => {
            if fields.len() == 0 {
                return Err(PermissionModelError::NoField);
            }
            match fields[0] {
                ObjectValue::I32(value) => Ok(value),
                _ => Err(PermissionModelError::NotAnI32),
            }
        },
    }
}

/// What a runtime answers to an operation.
#[derive(Clone, Copy, Debug, PartialEq, Eq)]
pub enum PermissionReply {
    /// It changed a permission, or did not need to.
    Flag(bool),
    /// It read a field.
    Field(ObjectValue),
    /// It did as it was asked.
    Done,
    /// It refused.
    Failed,
}

/// What came of an operation that a runtime answered to.
pub open spec fn runtime_outcome(op: PermissionModelOp, reply: PermissionReply) -> Result<
    PermissionStepOutcome,
    PermissionModelError,
> {
    match (op, reply) {
        (
            PermissionModelOp::GrantRead | PermissionModelOp::GrantWrite | PermissionModelOp::Downgrade,
            PermissionReply::Flag(value),
        ) => Ok(PermissionStepOutcome::Bool { ok: true, value: Some(value) }),
        (
            PermissionModelOp::GrantRead | PermissionModelOp::GrantWrite | PermissionModelOp::Downgrade,
            PermissionReply::Failed,
        ) => Ok(PermissionStepOutcome::Bool { ok: false, value: None }),
        (
            PermissionModelOp::Begin | PermissionModelOp::Abort | PermissionModelOp::CommitRelease,
            PermissionReply::Done,
        ) => Ok(PermissionStepOutcome::Unit { ok: true }),
        (
            PermissionModelOp::Begin | PermissionModelOp::Abort | PermissionModelOp::CommitRelease,
            PermissionReply::Failed,
        ) => Ok(PermissionStepOutcome::Unit { ok: false }),
        (PermissionModelOp::Read, PermissionReply::Field(ObjectValue::I32(value))) => Ok(
            PermissionStepOutcome::Read { ok: true, value: Some(value) },
        ),
        (PermissionModelOp::Read, PermissionReply::Field(value)) => Err(
            PermissionModelError::ReadOther { value },
        ),
        (PermissionModelOp::Read, PermissionReply::Failed) => Ok(
            PermissionStepOutcome::Read { ok: false, value: None },
        ),
        (PermissionModelOp::Write(_), PermissionReply::Done) => Ok(
            PermissionStepOutcome::Write { ok: true },
        ),
        (PermissionModelOp::Write(_), PermissionReply::Failed) => Ok(
            PermissionStepOutcome::Write { ok: false },
        ),
        _ => Err(PermissionModelError::UnexpectedReply),
    }
}

/// What came of an operation that a runtime answered to with `reply`.
pub fn apply_permission_runtime_op(op: PermissionModelOp, reply: PermissionReply) -> (outcome:
    Result<PermissionStepOutcome, PermissionModelError>)
    ensures
        outcome == runtime_outcome(op, reply),
{
    match op {
        PermissionModelOp::GrantRead | PermissionModelOp::GrantWrite | PermissionModelOp::Downgrade => match reply {
            PermissionReply::Flag(value) => Ok(
                PermissionStepOutcome::Bool { ok: true, value: Some(value) },
            ),
            PermissionReply::Failed => Ok(PermissionStepOutcome::Bool { ok: false, value: None }),
            _ => Err(PermissionModelError::UnexpectedReply),
        },
        PermissionModelOp::Begin | PermissionModelOp::Abort | PermissionModelOp::CommitRelease => match reply {
            PermissionReply::Done => Ok(PermissionStepOutcome::Unit { ok: true }),
            PermissionReply::Failed => Ok(PermissionStepOutcome::Unit { ok: false }),
            _ => Err(PermissionModelError::UnexpectedReply),
        },
        PermissionModelOp::Read => match reply {
            PermissionReply::Field(ObjectValue::I32(value)) => Ok(
                PermissionStepOutcome::Read { ok: true, value: Some(value) },
            ),
            PermissionReply::Field(value) => Err(PermissionModelError::ReadOther { value }),
            PermissionReply::Failed => Ok(PermissionStepOutcome::Read { ok: false, value: None }),
            _ => Err(PermissionModelError::UnexpectedReply),
        },
        PermissionModelOp::Write(_) => match reply {
            PermissionReply::Done => Ok(PermissionStepOutcome::Write { ok: true }),
            PermissionReply::Failed => Ok(PermissionStepOutcome::Write { ok: false }),
            _ => Err(PermissionModelError::UnexpectedReply),
        },
    }
}

/// What a runtime shows of its state.
#[derive(Clone, Debug, PartialEq, Eq)]
pub struct PermissionObservation {
    pub active: bool,
    pub committed: ObjectPayload,
    pub staged: Option<ObjectPayload>,
    pub read: bool,
    pub write: bool,
}

impl PermissionObservation {
    /// The state that the runtime shows.
    pub open spec fn snapshot(self) -> Result<PermissionRuntimeSnapshot, PermissionModelError> {
        match first_i32(self.committed) {
            Err(error) => Err(error),
            Ok(committed_value) => match self.staged {
                None => Ok(
                    PermissionRuntimeSnapshot {
                        active: self.active,
                        committed_value,
                        staged_value: None,
                        read: self.read,
                        write: self.write,
                    },
                ),
                Some(staged) => match first_i32(staged) {
                    Err(error) => Err(error),
                    Ok(value) => Ok(
                        PermissionRuntimeSnapshot {
                            active: self.active,
                            committed_value,
                            staged_value: Some(value),
                            read: self.read,
                            write: self.write,
                        },
                    ),
                },
            },
        }
    }
}

/// The state that a runtime shows.
pub fn permission_runtime_snapshot(observation: &PermissionObservation) -> (snapshot: Result<
    PermissionRuntimeSnapshot,
    PermissionModelError,
>)
    ensures
        snapshot == observation.snapshot(),
{
    let committed_value: i32 = match payload_i32(&observation.committed) {
        Ok(value) => value,
        Err(error) => return Err(error),
    };
    let staged_value: Option<i32> = match &observation.staged {
        Some(staged) => match payload_i32(staged) {
            Ok(value) => Some(value),
            Err(error) => return Err(error),
        },
        None => None,
    };
    Ok(
        PermissionRuntimeSnapshot {
            active: observation.active,
            committed_value,
            staged_value,
            read: observation.read,
            write: observation.write,
        },
    )
}

/// An operation, what a runtime answered to it, and what the runtime shows of its state then.
#[derive(Clone, Debug, PartialEq, Eq)]
pub struct PermissionRunStep {
    pub op: PermissionModelOp,
    pub reply: PermissionReply,
    pub observation: PermissionObservation,
}

/// The operations of a run.
pub open spec fn run_ops(steps: Seq<PermissionRunStep>) -> Seq<PermissionModelOp> {
    steps.map_values(|step: PermissionRunStep| step.op)
}

/// What the model makes of a step of a runtime, or how the step departs from the model, which
/// was in state `before`.
pub open spec fn checked_step(before: PermissionRuntimeSnapshot, step: PermissionRunStep) -> Result<
    PermissionTraceStep,
    PermissionModelError,
> {
    match runtime_outcome(step.op, step.reply) {
        Err(error) => Err(error),
        Ok(actual) => if actual != before.outcome(step.op) {
            Err(
                PermissionModelError::WrongOutcome { expected: before.outcome(step.op), actual },
            )
        } else {
            match step.observation.snapshot() {
                Err(error) => Err(error),
                Ok(snapshot) => if snapshot != before.next(step.op) {
                    Err(
                        PermissionModelError::WrongSnapshot {
                            expected: before.next(step.op),
                            actual: snapshot,
                        },
                    )
                } else {
                    Ok(PermissionTraceStep { outcome: actual, snapshot })
                },
            }
        },
    }
}

/// What the model makes of a run, or how the first step that departs from it does so.
pub open spec fn checked_run(steps: Seq<PermissionRunStep>) -> Result<
    Seq<PermissionTraceStep>,
    PermissionModelError,
>
    decreases steps.len(),
{
    if steps.len() == 0 {
        Ok(Seq::empty())
    } else {
        match checked_run(steps.drop_last()) {
            Err(error) => Err(error),
            Ok(trace) => match checked_step(
                PermissionRuntimeSnapshot::initial().next_all(run_ops(steps.drop_last())),
                steps.last(),
            ) {
                Err(error) => Err(error),
                Ok(step) => Ok(trace.push(step)),
            },
        }
    }
}

/// How the runtime that a run starts from departs from the model.
pub open spec fn initial_error(initial: PermissionObservation) -> Option<PermissionModelError> {
    match initial.snapshot() {
        Err(error) => Some(error),
        Ok(actual) => if actual != PermissionRuntimeSnapshot::initial() {
            Some(
                PermissionModelError::InitialSnapshot {
                    expected: PermissionRuntimeSnapshot::initial(),
                    actual,
                },
            )
        } else {
            None
        },
    }
}

/// A run departs from the model where its first steps do.
proof fn lemma_checked_run_fails(steps: Seq<PermissionRunStep>, count: int)
    requires
        0 <= count <= steps.len(),
        checked_run(steps.take(count)) is Err,
    ensures
        checked_run(steps) == checked_run(steps.take(count)),
    decreases steps.len(),
{
    if count == steps.len() {
        assert(steps.take(count) =~= steps);
    } else {
        assert(steps.drop_last().take(count) =~= steps.take(count));
        lemma_checked_run_fails(steps.drop_last(), count);
    }
}

/// Takes the model one step further, and holds a step of a runtime against it.
pub fn check_permission_step(model: &mut PermissionModelState, step: &PermissionRunStep) -> (traced:
    Result<PermissionTraceStep, PermissionModelError>)
    ensures
        final(model).snapshot == old(model).snapshot.next(step.op),
        traced == checked_step(old(model).snapshot, *step),
{
    let expected_outcome = model.apply(step.op);
    let actual_outcome = match apply_permission_runtime_op(step.op, step.reply) {
        Ok(outcome) => outcome,
        Err(error) => return Err(error),
    };
    if actual_outcome != expected_outcome {
        return Err(
            PermissionModelError::WrongOutcome {
                expected: expected_outcome,
                actual: actual_outcome,
            },
        );
    }
    let actual_snapshot = match permission_runtime_snapshot(&step.observation) {
        Ok(snapshot) => snapshot,
        Err(error) => return Err(error),
    };
    if actual_snapshot != model.snapshot {
        return Err(
            PermissionModelError::WrongSnapshot {
                expected: model.snapshot,
                actual: actual_snapshot,
            },
        );
    }
    Ok(PermissionTraceStep { outcome: actual_outcome, snapshot: actual_snapshot })
}

/// Holds a run of a runtime against the model, and gives what came of each step.
pub fn run_permission_semantic_schedule(
    initial: &PermissionObservation,
    steps: &[PermissionRunStep],
) -> (outcome: Result<Vec<PermissionTraceStep>, PermissionModelError>)
    ensures
        match outcome {
            Ok(trace) => initial_error(*initial) is None && checked_run(steps@) == Ok::<
                Seq<PermissionTraceStep>,
                PermissionModelError,
            >(trace@),
            Err(error) => if initial_error(*initial) is Some {
                initial_error(*initial) == Some(error)
            } else {
                checked_run(steps@) == Err::<Seq<PermissionTraceStep>, PermissionModelError>(error)
            },
        },
{
    let mut model = PermissionModelState::default();
    let actual = match permission_runtime_snapshot(initial) {
        Ok(snapshot) => snapshot,
        Err(error) => return Err(error),
    };
    if actual != model.snapshot {
        return Err(
            PermissionModelError::InitialSnapshot { expected: model.snapshot, actual },
        );
    }
    let mut trace: Vec<PermissionTraceStep> = Vec::new();
    let mut index: usize = 0;
    assert(steps@.take(0) =~= Seq::empty());
    assert(run_ops(steps@.take(0)) =~= Seq::empty());
    while index < steps.len()
        invariant
            index <= steps@.len(),
            initial_error(*initial) is None,
            model.snapshot == PermissionRuntimeSnapshot::initial().next_all(
                run_ops(steps@.take(index as int)),
            ),
            checked_run(steps@.take(index as int)) == Ok::<
                Seq<PermissionTraceStep>,
                PermissionModelError,
            >(trace@),
        decreases steps@.len() - index,
    {
        let traced = check_permission_step(&mut model, &steps[index]);
        index += 1;
        proof {
            let taken = steps@.take(index as int);
            assert(taken.drop_last() =~= steps@.take(index - 1));
            assert(run_ops(taken).drop_last() =~= run_ops(taken.drop_last()));
            if traced is Err {
                lemma_checked_run_fails(steps@, index as int);
            }
        }
        match traced {
            Ok(step) => {
                trace.push(step);
            },
            Err(error) => return Err(error),
        }
    }
    assert(steps@.take(index as int) =~= steps@);
    Ok(trace)
}

/// A run that passes shows, step by step, what comes of its operations in the model.
pub proof fn law_passing_run_shows_the_model(
    steps: Seq<PermissionRunStep>,
    trace: Seq<PermissionTraceStep>,
    index: int,
)
    requires
        checked_run(steps) == Ok::<Seq<PermissionTraceStep>, PermissionModelError>(trace),
        0 <= index < steps.len(),
    ensures
        trace.len() == steps.len(),
        trace[index].outcome == PermissionRuntimeSnapshot::initial().next_all(
            run_ops(steps).take(index),
        ).outcome(steps[index].op),
        trace[index].snapshot == PermissionRuntimeSnapshot::initial().next_all(
            run_ops(steps).take(index + 1),
        ),
    decreases steps.len(),
{
    let front = steps.drop_last();
    let ops = run_ops(steps);
    assert(ops.drop_last() =~= run_ops(front));
    lemma_trace_length(steps, trace);
    if index == steps.len() - 1 {
        assert(ops.take(index) =~= run_ops(front));
        assert(ops.take(index + 1) =~= ops);
    } else {
        law_passing_run_shows_the_model(front, trace.drop_last(), index);
        assert(ops.take(index) =~= run_ops(front).take(index));
        assert(ops.take(index + 1) =~= run_ops(front).take(index + 1));
        assert(front[index] == steps[index]);
    }
}

proof fn lemma_trace_length(steps: Seq<PermissionRunStep>, trace: Seq<PermissionTraceStep>)
    requires
        checked_run(steps) == Ok::<Seq<PermissionTraceStep>, PermissionModelError>(trace),
    ensures
        trace.len() == steps.len(),
        steps.len() > 0 ==> checked_run(steps.drop_last()) == Ok::<
            Seq<PermissionTraceStep>,
            PermissionModelError,
        >(trace.drop_last()),
    decreases steps.len(),
{
    if steps.len() > 0 {
        let front = checked_run(steps.drop_last())->Ok_0;
        lemma_trace_length(steps.drop_last(), front);
        assert(trace.drop_last() =~= front);
    }
}

/// The model starts with a transaction that holds no permission, and an object that holds
/// seven.
pub proof fn law_initial_state()
    ensures
        PermissionRuntimeSnapshot::initial().active,
        PermissionRuntimeSnapshot::initial().committed_value == 7,
        PermissionRuntimeSnapshot::initial().staged_value is None,
        !PermissionRuntimeSnapshot::initial().read,
        !PermissionRuntimeSnapshot::initial().write,
{
}

/// A transaction begins exactly if there is none. It holds no permission and has staged
/// nothing, and the object is as before.
pub proof fn law_begin(state: PermissionRuntimeSnapshot)
    ensures
        ({
            let after = state.next(PermissionModelOp::Begin);
            &&& state.outcome(PermissionModelOp::Begin) == (PermissionStepOutcome::Unit {
                ok: !state.active,
            })
            &&& after.active
            &&& after.committed_value == state.committed_value
            &&& state.active ==> after == state
            &&& !state.active ==> after.staged_value is None && !after.read && !after.write
        }),
{
}

/// Within a transaction permissions are granted, the one to write with the one to read; and it
/// is said whether the one that was asked for is new. Nothing else changes.
pub proof fn law_grants(state: PermissionRuntimeSnapshot)
    ensures
        ({
            let reading = state.next(PermissionModelOp::GrantRead);
            let writing = state.next(PermissionModelOp::GrantWrite);
            &&& state.active ==> {
                &&& state.outcome(PermissionModelOp::GrantRead) == (PermissionStepOutcome::Bool {
                    ok: true,
                    value: Some(!state.read),
                })
                &&& state.outcome(PermissionModelOp::GrantWrite) == (PermissionStepOutcome::Bool {
                    ok: true,
                    value: Some(!state.write),
                })
                &&& reading.read && reading.write == state.write
                &&& writing.read && writing.write
            }
            &&& !state.active ==> {
                &&& reading == state && writing == state
                &&& state.outcome(PermissionModelOp::GrantRead) == (PermissionStepOutcome::Bool {
                    ok: false,
                    value: None,
                })
                &&& state.outcome(PermissionModelOp::GrantWrite) == (PermissionStepOutcome::Bool {
                    ok: false,
                    value: None,
                })
            }
            &&& reading.active == state.active && writing.active == state.active
            &&& reading.committed_value == state.committed_value
            &&& writing.committed_value == state.committed_value
            &&& reading.staged_value == state.staged_value
            &&& writing.staged_value == state.staged_value
        }),
{
}

/// The object is read exactly within a transaction that may read it. What was staged is seen,
/// or else what was committed; and nothing changes.
pub proof fn law_read(state: PermissionRuntimeSnapshot)
    ensures
        state.next(PermissionModelOp::Read) == state,
        state.outcome(PermissionModelOp::Read) == (if state.active && state.read {
            PermissionStepOutcome::Read {
                ok: true,
                value: Some(
                    match state.staged_value {
                        Some(staged) => staged,
                        None => state.committed_value,
                    },
                ),
            }
        } else {
            PermissionStepOutcome::Read { ok: false, value: None }
        }),
{
}

/// The object is written exactly within a transaction that may write it. What is written is
/// staged, and nothing else changes.
pub proof fn law_write(state: PermissionRuntimeSnapshot, value: i32)
    ensures
        ({
            let after = state.next(PermissionModelOp::Write(value));
            let is_permitted = state.active && state.write;
            &&& state.outcome(PermissionModelOp::Write(value)) == (PermissionStepOutcome::Write {
                ok: is_permitted,
            })
            &&& after.staged_value == (if is_permitted {
                Some(value)
            } else {
                state.staged_value
            })
            &&& after.active == state.active
            &&& after.committed_value == state.committed_value
            &&& after.read == state.read
            &&& after.write == state.write
        }),
{
}

/// Within a transaction the permission to write can be given back, and it is said whether it
/// was held. Nothing else changes.
pub proof fn law_downgrade(state: PermissionRuntimeSnapshot)
    ensures
        ({
            let after = state.next(PermissionModelOp::Downgrade);
            &&& state.outcome(PermissionModelOp::Downgrade) == (PermissionStepOutcome::Bool {
                ok: state.active,
                value: if state.active {
                    Some(state.write)
                } else {
                    None
                },
            })
            &&& after.write == (!state.active && state.write)
            &&& after.active == state.active
            &&& after.committed_value == state.committed_value
            &&& after.staged_value == state.staged_value
            &&& after.read == state.read
        }),
{
}

/// A transaction ends exactly if there is one. Its permissions and what it staged are gone; a
/// commit leaves what it staged in the object, if anything, and an abort leaves the object.
pub proof fn law_ends(state: PermissionRuntimeSnapshot)
    ensures
        ({
            let aborted = state.next(PermissionModelOp::Abort);
            let committed = state.next(PermissionModelOp::CommitRelease);
            &&& state.outcome(PermissionModelOp::Abort) == (PermissionStepOutcome::Unit {
                ok: state.active,
            })
            &&& state.outcome(PermissionModelOp::CommitRelease) == (PermissionStepOutcome::Unit {
                ok: state.active,
            })
            &&& !state.active ==> aborted == state && committed == state
            &&& state.active ==> {
                &&& !aborted.active && !committed.active
                &&& aborted.staged_value is None && committed.staged_value is None
                &&& !aborted.read && !aborted.write && !committed.read && !committed.write
                &&& aborted.committed_value == state.committed_value
                &&& committed.committed_value == (match state.staged_value {
                    Some(staged) => staged,
                    None => state.committed_value,
                })
            }
        }),
{
}

/// Operations are done one after the other, from the first to the last.
pub proof fn law_permissions_change_in_order(
    state: PermissionRuntimeSnapshot,
    first: Seq<PermissionModelOp>,
    second: Seq<PermissionModelOp>,
    op: PermissionModelOp,
)
    ensures
        state.next_all(Seq::empty()) == state,
        state.next_all(seq![op]) == state.next(op),
        state.next_all(first + second) == state.next_all(first).next_all(second),
    decreases second.len(),
{
    assert(seq![op].drop_last() =~= Seq::empty());
    assert(state.next_all(seq![op].drop_last()) == state);
    if second.len() == 0 {
        assert(first + second =~= first);
    } else {
        law_permissions_change_in_order(state, first, second.drop_last(), op);
        assert((first + second).drop_last() =~= first + second.drop_last());
    }
}

/// An object gives an integer exactly if it is a struct whose first field holds one.
pub proof fn law_first_field(payload: ObjectPayload, value: i32)
    ensures
        first_i32(payload) == Ok::<i32, PermissionModelError>(value) <==> (payload matches
            ObjectPayload::Struct(fields) && fields@.len() > 0 && fields@[0] == ObjectValue::I32(
            value,
        )),
        payload is Array ==> first_i32(payload) == Err::<i32, PermissionModelError>(
            PermissionModelError::NotAStruct,
        ),
        payload matches ObjectPayload::Struct(fields) ==> {
            &&& fields@.len() == 0 ==> first_i32(payload) == Err::<i32, PermissionModelError>(
                PermissionModelError::NoField,
            )
            &&& fields@.len() > 0 && !(fields@[0] is I32) ==> first_i32(payload) == Err::<
                i32,
                PermissionModelError,
            >(PermissionModelError::NotAnI32)
        },
{
}

/// What a runtime shows of its state: its own word on transaction and permissions, and the
/// integers of the object and of what was staged, if anything was. An object without an
/// integer goes before what was staged.
pub proof fn law_snapshots_of_runtimes(observation: PermissionObservation)
    ensures
        match (first_i32(observation.committed), observation.staged) {
            (Err(error), _) => observation.snapshot() == Err::<
                PermissionRuntimeSnapshot,
                PermissionModelError,
            >(error),
            (Ok(committed), None) => observation.snapshot() matches Ok(snapshot) && {
                &&& snapshot.active == observation.active
                &&& snapshot.committed_value == committed
                &&& snapshot.staged_value is None
                &&& snapshot.read == observation.read
                &&& snapshot.write == observation.write
            },
            (Ok(committed), Some(staged)) => match first_i32(staged) {
                Err(error) => observation.snapshot() == Err::<
                    PermissionRuntimeSnapshot,
                    PermissionModelError,
                >(error),
                Ok(value) => observation.snapshot() matches Ok(snapshot) && {
                    &&& snapshot.active == observation.active
                    &&& snapshot.committed_value == committed
                    &&& snapshot.staged_value == Some(value)
                    &&& snapshot.read == observation.read
                    &&& snapshot.write == observation.write
                },
            },
        },
{
}

/// What came of an operation that a runtime refused, or did: permissions are answered with a
/// flag, a read with a field that holds an integer, and everything else with being done.
pub proof fn law_replies_of_runtimes(op: PermissionModelOp, flag: bool, field: ObjectValue)
    ensures
        match op {
            PermissionModelOp::GrantRead | PermissionModelOp::GrantWrite | PermissionModelOp::Downgrade => {
                &&& runtime_outcome(op, PermissionReply::Flag(flag)) == Ok::<
                    PermissionStepOutcome,
                    PermissionModelError,
                >(PermissionStepOutcome::Bool { ok: true, value: Some(flag) })
                &&& runtime_outcome(op, PermissionReply::Failed) == Ok::<
                    PermissionStepOutcome,
                    PermissionModelError,
                >(PermissionStepOutcome::Bool { ok: false, value: None })
                &&& runtime_outcome(op, PermissionReply::Done) is Err
                &&& runtime_outcome(op, PermissionReply::Field(field)) is Err
            },
            PermissionModelOp::Begin | PermissionModelOp::Abort | PermissionModelOp::CommitRelease => {
                &&& runtime_outcome(op, PermissionReply::Done) == Ok::<
                    PermissionStepOutcome,
                    PermissionModelError,
                >(PermissionStepOutcome::Unit { ok: true })
                &&& runtime_outcome(op, PermissionReply::Failed) == Ok::<
                    PermissionStepOutcome,
                    PermissionModelError,
                >(PermissionStepOutcome::Unit { ok: false })
                &&& runtime_outcome(op, PermissionReply::Flag(flag)) is Err
                &&& runtime_outcome(op, PermissionReply::Field(field)) is Err
            },
            PermissionModelOp::Read => {
                &&& match field {
                    ObjectValue::I32(value) => runtime_outcome(op, PermissionReply::Field(field))
                        == Ok::<PermissionStepOutcome, PermissionModelError>(
                        PermissionStepOutcome::Read { ok: true, value: Some(value) },
                    ),
                    _ => runtime_outcome(op, PermissionReply::Field(field)) == Err::<
                        PermissionStepOutcome,
                        PermissionModelError,
                    >(PermissionModelError::ReadOther { value: field }),
                }
                &&& runtime_outcome(op, PermissionReply::Failed) == Ok::<
                    PermissionStepOutcome,
                    PermissionModelError,
                >(PermissionStepOutcome::Read { ok: false, value: None })
                &&& runtime_outcome(op, PermissionReply::Done) is Err
                &&& runtime_outcome(op, PermissionReply::Flag(flag)) is Err
            },
            PermissionModelOp::Write(_) => {
                &&& runtime_outcome(op, PermissionReply::Done) == Ok::<
                    PermissionStepOutcome,
                    PermissionModelError,
                >(PermissionStepOutcome::Write { ok: true })
                &&& runtime_outcome(op, PermissionReply::Failed) == Ok::<
                    PermissionStepOutcome,
                    PermissionModelError,
                >(PermissionStepOutcome::Write { ok: false })
                &&& runtime_outcome(op, PermissionReply::Flag(flag)) is Err
                &&& runtime_outcome(op, PermissionReply::Field(field)) is Err
            },
        },
        forall|reply: PermissionReply|
            (#[trigger] runtime_outcome(op, reply)) matches Err(error) ==> error
                == PermissionModelError::UnexpectedReply || op is Read && reply is Field,
{
}

/// A step passes exactly if the runtime answered what comes of the operation in the model, and
/// shows the state that the model is in then. What was answered goes before what is shown.
pub proof fn law_permission_steps_pass_exactly(
    before: PermissionRuntimeSnapshot,
    step: PermissionRunStep,
)
    ensures
        checked_step(before, step) is Ok <==> {
            &&& runtime_outcome(step.op, step.reply) == Ok::<
                PermissionStepOutcome,
                PermissionModelError,
            >(before.outcome(step.op))
            &&& step.observation.snapshot() == Ok::<
                PermissionRuntimeSnapshot,
                PermissionModelError,
            >(before.next(step.op))
        },
        checked_step(before, step) matches Ok(traced) ==> traced == (PermissionTraceStep {
            outcome: before.outcome(step.op),
            snapshot: before.next(step.op),
        }),
        match runtime_outcome(step.op, step.reply) {
            Err(error) => checked_step(before, step) == Err::<
                PermissionTraceStep,
                PermissionModelError,
            >(error),
            Ok(actual) => {
                &&& actual != before.outcome(step.op) ==> checked_step(before, step) == Err::<
                    PermissionTraceStep,
                    PermissionModelError,
                >(
                    PermissionModelError::WrongOutcome {
                        expected: before.outcome(step.op),
                        actual,
                    },
                )
                &&& actual == before.outcome(step.op) ==> match step.observation.snapshot() {
                    Err(error) => checked_step(before, step) == Err::<
                        PermissionTraceStep,
                        PermissionModelError,
                    >(error),
                    Ok(shown) => shown != before.next(step.op) ==> checked_step(before, step)
                        == Err::<PermissionTraceStep, PermissionModelError>(
                        PermissionModelError::WrongSnapshot {
                            expected: before.next(step.op),
                            actual: shown,
                        },
                    ),
                }
            },
        },
{
}

/// A run passes exactly if each of its steps does, and otherwise fails as its first failing
/// step does.
pub proof fn law_permission_runs_pass_exactly(steps: Seq<PermissionRunStep>, index: int)
    ensures
        checked_run(steps) is Ok <==> forall|i: int|
            0 <= i < steps.len() ==> checked_step(
                PermissionRuntimeSnapshot::initial().next_all(run_ops(steps.take(i))),
                #[trigger] steps[i],
            ) is Ok,
        0 <= index < steps.len() && checked_run(steps.take(index)) is Ok && checked_step(
            PermissionRuntimeSnapshot::initial().next_all(run_ops(steps.take(index))),
            steps[index],
        ) is Err ==> checked_run(steps) == Err::<Seq<PermissionTraceStep>, PermissionModelError>(
            checked_step(
                PermissionRuntimeSnapshot::initial().next_all(run_ops(steps.take(index))),
                steps[index],
            )->Err_0,
        ),
    decreases steps.len(),
{
    if steps.len() > 0 {
        let front = steps.drop_last();
        let last = steps.len() - 1;
        law_permission_runs_pass_exactly(front, 0);
        assert(steps.take(last) =~= front);
        assert(steps.last() == steps[last]);
        assert forall|i: int| 0 <= i < front.len() implies #[trigger] front[i] == steps[i]
            && front.take(i) == steps.take(i) by {
            assert(front.take(i) =~= steps.take(i));
        }
        if checked_run(steps) is Ok {
            assert forall|i: int| 0 <= i < steps.len() implies checked_step(
                PermissionRuntimeSnapshot::initial().next_all(run_ops(steps.take(i))),
                #[trigger] steps[i],
            ) is Ok by {
                if i < last {
                    assert(front[i] == steps[i]);
                }
            }
        }
        if forall|i: int|
            0 <= i < steps.len() ==> checked_step(
                PermissionRuntimeSnapshot::initial().next_all(run_ops(steps.take(i))),
                #[trigger] steps[i],
            ) is Ok {
            assert forall|i: int| 0 <= i < front.len() implies checked_step(
                PermissionRuntimeSnapshot::initial().next_all(run_ops(front.take(i))),
                #[trigger] front[i],
            ) is Ok by {
                assert(front[i] == steps[i]);
            }
        }
        if 0 <= index < steps.len() && checked_run(steps.take(index)) is Ok && checked_step(
            PermissionRuntimeSnapshot::initial().next_all(run_ops(steps.take(index))),
            steps[index],
        ) is Err {
            let taken = steps.take(index + 1);
            assert(taken.drop_last() =~= steps.take(index));
            assert(taken.last() == steps[index]);
            lemma_checked_run_fails(steps, index + 1);
        }
    }
}

/// A run starts right exactly if the runtime shows a transaction without permissions and an
/// object that holds seven; and otherwise it is said what it shows.
pub proof fn law_runs_start_with_seven(initial: PermissionObservation)
    ensures
        initial_error(initial) is None <==> (initial.snapshot() matches Ok(shown) && shown.active
            && shown.committed_value == 7 && shown.staged_value is None && !shown.read
            && !shown.write),
        match initial.snapshot() {
            Err(error) => initial_error(initial) == Some(error),
            Ok(actual) => initial_error(initial) matches Some(error) ==> error == (
            PermissionModelError::InitialSnapshot {
                expected: PermissionRuntimeSnapshot::initial(),
                actual,
            }),
        },
{
}

} // verus!
