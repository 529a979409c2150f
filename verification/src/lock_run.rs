//! Runs of real locks, step by step and over all short schedules.

use vstd::prelude::*;

use crate::lock_check::{snapshot_lock_state, LockModelMismatch, LockSnapshot};
use crate::lock_model;
use crate::lock_model::{LockConflictKind, LockModelOp, LockModelState, LockView};
use crate::lock_schedule;
use crate::lock_schedule::assert_lock_step;

verus! {

/// What real locks answered to an operation, and their state behind it.
#[derive(Clone, Debug, PartialEq, Eq)]
pub struct LockObservation {
    pub error: Option<LockConflictKind>,
    pub snapshot: LockSnapshot,
}

/// An operation and what was observed of it.
#[derive(Clone, Debug, PartialEq, Eq)]
pub struct LockRunStep {
    pub op: LockModelOp,
    pub observation: LockObservation,
}

/// How what was observed of an operation departs from the model, which was in state `before`.
pub open spec fn observation_defect(
    before: LockView,
    op: LockModelOp,
    observation: LockObservation,
) -> Option<LockModelMismatch> {
    match observation.snapshot.state() {
        Err(mismatch) => Some(mismatch),
        Ok(actual) => if actual != before.apply(op).0 {
            Some(LockModelMismatch::Diverged)
        } else {
            lock_schedule::step_defect(
                op,
                before,
                before.apply(op).0,
                before.apply(op).1,
                observation.error,
            )
        },
    }
}

/// Takes the model one step further, and holds what was observed against it.
pub fn check_lock_step(
    model: &mut LockModelState,
    op: LockModelOp,
    observation: &LockObservation,
) -> (checked: Result<(), LockModelMismatch>)
    requires
        old(model)@.is_consistent(),
    ensures
        final(model)@ == old(model)@.apply(op).0,
        final(model)@.is_consistent(),
        checked == (match observation_defect(old(model)@, op, *observation) {
            Some(mismatch) => Err::<(), LockModelMismatch>(mismatch),
            None => Ok(()),
        }),
{
    let before = model.copy();
    let step = model.apply(op);
    match snapshot_lock_state(&observation.snapshot) {
        Ok(actual) => {
            if !actual.same_state(model) {
                return Err(LockModelMismatch::Diverged);
            }
        },
        Err(mismatch) => return Err(mismatch),
    }
    assert_lock_step(op, &before, model, step, observation.error)
}

/// The operations of a run.
pub open spec fn run_ops(steps: Seq<LockRunStep>) -> Seq<LockModelOp> {
    steps.map_values(|step: LockRunStep| step.op)
}

/// How the first step of a run that departs from the model does so.
pub open spec fn run_defect(steps: Seq<LockRunStep>) -> Option<LockModelMismatch>
    decreases steps.len(),
{
    if steps.len() == 0 {
        None
    } else {
        match run_defect(steps.drop_last()) {
            Some(mismatch) => Some(mismatch),
            None => observation_defect(
                LockView::empty().apply_all(run_ops(steps.drop_last())),
                steps.last().op,
                steps.last().observation,
            ),
        }
    }
}

/// How the locks a run starts from depart from the model.
pub open spec fn initial_defect(initial: LockSnapshot) -> Option<LockModelMismatch> {
    match initial.state() {
        Err(mismatch) => Some(mismatch),
        Ok(actual) => if actual != LockView::empty() {
            Some(LockModelMismatch::InitialState)
        } else {
            None
        },
    }
}

/// A run departs from the model where its first steps do.
proof fn lemma_run_defect_is_kept(steps: Seq<LockRunStep>, count: int)
    requires
        0 <= count <= steps.len(),
        run_defect(steps.take(count)) is Some,
    ensures
        run_defect(steps) == run_defect(steps.take(count)),
    decreases steps.len(),
{
    if count == steps.len() {
        assert(steps.take(count) =~= steps);
    } else {
        assert(steps.drop_last().take(count) =~= steps.take(count));
        lemma_run_defect_is_kept(steps.drop_last(), count);
    }
}

/// Holds a run of real locks against the model, and gives the state that the model ends in.
pub fn run_lock_model_schedule(initial: &LockSnapshot, steps: &[LockRunStep]) -> (outcome: Result<
    LockModelState,
    LockModelMismatch,
>)
    ensures
        match outcome {
            Ok(model) => {
                &&& initial_defect(*initial) is None
                &&& run_defect(steps@) is None
                &&& model@ == LockView::empty().apply_all(run_ops(steps@))
            },
            Err(mismatch) => Some(mismatch) == (if initial_defect(*initial) is Some {
                initial_defect(*initial)
            } else {
                run_defect(steps@)
            }),
        },
{
    let mut model = LockModelState::default();
    match snapshot_lock_state(initial) {
        Ok(actual) => {
            if !actual.same_state(&model) {
                return Err(LockModelMismatch::InitialState);
            }
        },
        Err(mismatch) => return Err(mismatch),
    }
    let mut index: usize = 0;
    assert(steps@.take(0) =~= Seq::empty());
    assert(run_ops(steps@.take(0)) =~= Seq::empty());
    while index < steps.len()
        invariant
            index <= steps@.len(),
            initial_defect(*initial) is None,
            model@.is_consistent(),
            model@ == LockView::empty().apply_all(run_ops(steps@.take(index as int))),
            run_defect(steps@.take(index as int)) is None,
        decreases steps@.len() - index,
    {
        let step = &steps[index];
        let checked = check_lock_step(&mut model, step.op, &step.observation);
        index += 1;
        proof {
            let taken = steps@.take(index as int);
            assert(taken.drop_last() =~= steps@.take(index - 1));
            assert(taken.last() == steps@[index - 1]);
            assert(run_ops(taken).drop_last() =~= run_ops(taken.drop_last()));
            assert(run_ops(taken).last() == step.op);
            if checked is Err {
                lemma_run_defect_is_kept(steps@, index as int);
            }
        }
        if let Err(mismatch) = checked {
            return Err(mismatch);
        }
    }
    assert(steps@.take(index as int) =~= steps@);
    Ok(model)
}

/// Whether locks answered an operation as the model does, and ended in the model's state.
pub open spec fn is_faithful(
    before: LockView,
    op: LockModelOp,
    observation: LockObservation,
) -> bool {
    &&& observation.snapshot.state() == Ok::<LockView, LockModelMismatch>(before.apply(op).0)
    &&& observation.error == (match before.apply(op).1.error_kind {
        Some(kind) => Some(kind.actual()),
        None => None,
    })
}

/// An operation passes exactly if the locks did what the model does.
pub proof fn law_faithful_steps_pass(
    before: LockView,
    op: LockModelOp,
    observation: LockObservation,
)
    requires
        before.is_consistent(),
    ensures
        observation_defect(before, op, observation) is None <==> is_faithful(
            before,
            op,
            observation,
        ),
{
    lock_schedule::law_model_steps_pass(before, op);
}

/// Whether locks did what the model does in step `index` of a run.
pub open spec fn is_faithful_at(steps: Seq<LockRunStep>, index: int) -> bool {
    is_faithful(
        LockView::empty().apply_all(run_ops(steps.take(index))),
        steps[index].op,
        steps[index].observation,
    )
}

/// A run passes exactly if the locks did what the model does in every step.
pub proof fn law_faithful_runs_pass(steps: Seq<LockRunStep>)
    ensures
        run_defect(steps) is None <==> forall|i: int|
            0 <= i < steps.len() ==> #[trigger] is_faithful_at(steps, i),
    decreases steps.len(),
{
    if steps.len() > 0 {
        let front = steps.drop_last();
        let last = steps.len() - 1;
        law_faithful_runs_pass(front);
        assert forall|i: int| 0 <= i < last implies #[trigger] is_faithful_at(front, i)
            == is_faithful_at(steps, i) by {
            assert(front.take(i) =~= steps.take(i));
        }
        assert(run_defect(front) is None && is_faithful_at(steps, last) <==> run_defect(steps)
            is None) by {
            assert(steps.take(last) =~= front);
            lock_model::law_every_state_is_consistent(run_ops(front));
            law_faithful_steps_pass(
                LockView::empty().apply_all(run_ops(front)),
                steps.last().op,
                steps.last().observation,
            );
        }
        if forall|i: int| 0 <= i < steps.len() ==> #[trigger] is_faithful_at(steps, i) {
            assert forall|i: int| 0 <= i < front.len() implies #[trigger] is_faithful_at(
                front,
                i,
            ) by {
                assert(is_faithful_at(steps, i));
            }
            assert(is_faithful_at(steps, last));
        }
        if run_defect(steps) is None {
            assert forall|i: int| 0 <= i < steps.len() implies #[trigger] is_faithful_at(
                steps,
                i,
            ) by {
                if i < last {
                    assert(is_faithful_at(front, i));
                }
            }
        }
    }
}

/// The operations that transaction `tx` can ask for in the model's domain: versions and
/// granules zero and one.
pub open spec fn transaction_ops(tx: u64) -> Seq<LockModelOp> {
    seq![
        LockModelOp::Read { tx, granule: 0, version: 0 },
        LockModelOp::Write { tx, granule: 0, version: 0 },
        LockModelOp::Read { tx, granule: 0, version: 1 },
        LockModelOp::Write { tx, granule: 0, version: 1 },
        LockModelOp::Read { tx, granule: 1, version: 0 },
        LockModelOp::Write { tx, granule: 1, version: 0 },
        LockModelOp::Read { tx, granule: 1, version: 1 },
        LockModelOp::Write { tx, granule: 1, version: 1 },
        LockModelOp::Abort { tx },
        LockModelOp::Release { tx },
    ]
}

/// The operations of the model's domain, which has the transactions one and two.
pub open spec fn alphabet() -> Seq<LockModelOp> {
    transaction_ops(1) + transaction_ops(2)
}

fn push_transaction_ops(ops: &mut Vec<LockModelOp>, tx: u64)
    ensures
        final(ops)@ == old(ops)@ + transaction_ops(tx),
{
    let ghost before = ops@;
    ops.push(LockModelOp::Read { tx, granule: 0, version: 0 });
    ops.push(LockModelOp::Write { tx, granule: 0, version: 0 });
    ops.push(LockModelOp::Read { tx, granule: 0, version: 1 });
    ops.push(LockModelOp::Write { tx, granule: 0, version: 1 });
    ops.push(LockModelOp::Read { tx, granule: 1, version: 0 });
    ops.push(LockModelOp::Write { tx, granule: 1, version: 0 });
    ops.push(LockModelOp::Read { tx, granule: 1, version: 1 });
    ops.push(LockModelOp::Write { tx, granule: 1, version: 1 });
    ops.push(LockModelOp::Abort { tx });
    ops.push(LockModelOp::Release { tx });
    assert(ops@ =~= before + transaction_ops(tx));
}

/// The operations of the model's domain.
pub fn exhaustive_lock_model_alphabet() -> (ops: Vec<LockModelOp>)
    ensures
        ops@ == alphabet(),
{
    let mut ops: Vec<LockModelOp> = Vec::new();
    push_transaction_ops(&mut ops, 1);
    push_transaction_ops(&mut ops, 2);
    assert(ops@ =~= alphabet());
    ops
}

/// The schedules that go on from `prefix` with up to `remaining` operations, the first of
/// them one of the first `count` letters: each letter, then everything that goes on from it.
pub open spec fn visited_by(
    letters: Seq<LockModelOp>,
    prefix: Seq<LockModelOp>,
    remaining: nat,
    count: nat,
) -> Seq<Seq<LockModelOp>>
    decreases remaining, count,
{
    if remaining == 0 || count == 0 {
        Seq::empty()
    } else {
        let next = prefix.push(letters[count - 1]);
        visited_by(letters, prefix, remaining, (count - 1) as nat).push(next) + visited_by(
            letters,
            next,
            (remaining - 1) as nat,
            letters.len(),
        )
    }
}

/// The schedules that go on from `prefix` with up to `remaining` operations, in the order of
/// their visit.
pub open spec fn visited(letters: Seq<LockModelOp>, prefix: Seq<LockModelOp>, remaining: nat) -> Seq<
    Seq<LockModelOp>,
> {
    visited_by(letters, prefix, remaining, letters.len())
}

/// How what was observed of the last operation of a schedule departs from the model.
pub open spec fn schedule_defect(
    schedule: Seq<LockModelOp>,
    observation: LockObservation,
) -> Option<LockModelMismatch> {
    observation_defect(
        LockView::empty().apply_all(schedule.drop_last()),
        schedule.last(),
        observation,
    )
}

/// How the first schedule that departs from the model does so.
pub open spec fn first_defect(
    schedules: Seq<Seq<LockModelOp>>,
    observations: Seq<LockObservation>,
) -> Option<LockModelMismatch>
    decreases schedules.len(),
{
    if schedules.len() == 0 {
        None
    } else if first_defect(schedules.drop_last(), observations) is Some {
        first_defect(schedules.drop_last(), observations)
    } else if observations.len() < schedules.len() {
        Some(LockModelMismatch::MissingObservation)
    } else {
        schedule_defect(schedules.last(), observations[schedules.len() - 1])
    }
}

/// Schedules in two parts depart from the model where the first part does, or else where
/// the second part does.
proof fn lemma_first_defect_of_parts(
    first: Seq<Seq<LockModelOp>>,
    second: Seq<Seq<LockModelOp>>,
    observations: Seq<LockObservation>,
)
    requires
        first.len() <= observations.len() || first_defect(first, observations) is Some,
    ensures
        first_defect(first + second, observations) == (if first_defect(first, observations) is Some {
            first_defect(first, observations)
        } else {
            first_defect(second, observations.skip(first.len() as int))
        }),
    decreases second.len(),
{
    if second.len() == 0 {
        assert(first + second =~= first);
    } else {
        lemma_first_defect_of_parts(first, second.drop_last(), observations);
        assert((first + second).drop_last() =~= first + second.drop_last());
        if first_defect(first, observations) is None && observations.len() >= first.len()
            + second.len() {
            assert(observations.skip(first.len() as int)[second.len() - 1] == observations[first.len()
                + second.len() - 1]);
        }
    }
}

/// Visits every schedule that goes on from `prefix`, and gives the number of observations
/// that are used up then.
fn visit(
    model: &LockModelState,
    letters: &[LockModelOp],
    remaining: usize,
    observations: &[LockObservation],
    cursor: usize,
    Ghost(prefix): Ghost<Seq<LockModelOp>>,
) -> (next: Result<usize, LockModelMismatch>)
    requires
        model@ == LockView::empty().apply_all(prefix),
        cursor <= observations@.len(),
    ensures
        match first_defect(
            visited(letters@, prefix, remaining as nat),
            observations@.skip(cursor as int),
        ) {
            Some(mismatch) => next == Err::<usize, LockModelMismatch>(mismatch),
            None => {
                &&& next matches Ok(next)
                &&& next == cursor + visited(letters@, prefix, remaining as nat).len()
                &&& next <= observations@.len()
            },
        },
    decreases remaining,
{
    if remaining == 0 {
        return Ok(cursor);
    }
    let ghost rest = observations@.skip(cursor as int);
    let ghost all = visited(letters@, prefix, remaining as nat);
    let mut at: usize = cursor;
    let mut count: usize = 0;
    while count < letters.len()
        invariant
            count <= letters@.len(),
            remaining > 0,
            model@ == LockView::empty().apply_all(prefix),
            cursor <= at <= observations@.len(),
            rest == observations@.skip(cursor as int),
            all == visited(letters@, prefix, remaining as nat),
            first_defect(visited_by(letters@, prefix, remaining as nat, count as nat), rest)
                is None,
            at == cursor + visited_by(letters@, prefix, remaining as nat, count as nat).len(),
        decreases letters@.len() - count,
    {
        let op = letters[count];
        let ghost done = visited_by(letters@, prefix, remaining as nat, count as nat);
        let ghost extended = prefix.push(op);
        let ghost below = visited(letters@, extended, (remaining - 1) as nat);
        let ghost more = visited_by(letters@, prefix, remaining as nat, (count + 1) as nat);
        proof {
            assert(more == done.push(extended) + below);
            assert(extended.drop_last() =~= prefix);
            assert(done.push(extended).drop_last() =~= done);
            lock_model::law_every_state_is_consistent(prefix);
            lemma_visited_by_extends(letters@, prefix, remaining as nat, (count + 1) as nat);
            if first_defect(more, rest) is Some {
                lemma_first_defect_of_prefix(more, all, rest);
            }
            if first_defect(done.push(extended), rest) is Some {
                lemma_first_defect_of_prefix(done.push(extended), more, rest);
            } else {
                lemma_first_defect_of_parts(done.push(extended), below, rest);
            }
        }
        if at >= observations.len() {
            return Err(LockModelMismatch::MissingObservation);
        }
        let mut next_model = model.copy();
        assert(rest[done.len() as int] == observations@[at as int]);
        match check_lock_step(&mut next_model, op, &observations[at]) {
            Ok(()) => {},
            Err(mismatch) => return Err(mismatch),
        }
        assert(first_defect(done.push(extended), rest) is None);
        assert(rest.skip((done.len() + 1) as int) =~= observations@.skip(at + 1));
        match visit(
            &next_model,
            letters,
            remaining - 1,
            observations,
            at + 1,
            Ghost(extended),
        ) {
            Ok(next) => {
                at = next;
            },
            Err(mismatch) => return Err(mismatch),
        }
        count += 1;
    }
    Ok(at)
}

/// What departs in a part that goes first departs in the whole.
proof fn lemma_first_defect_of_prefix(
    part: Seq<Seq<LockModelOp>>,
    whole: Seq<Seq<LockModelOp>>,
    observations: Seq<LockObservation>,
)
    requires
        part.is_prefix_of(whole),
        first_defect(part, observations) is Some,
    ensures
        first_defect(whole, observations) == first_defect(part, observations),
{
    let second = whole.skip(part.len() as int);
    assert(part + second =~= whole);
    lemma_first_defect_of_parts(part, second, observations);
}

/// More letters only add schedules behind.
proof fn lemma_visited_by_extends(
    letters: Seq<LockModelOp>,
    prefix: Seq<LockModelOp>,
    remaining: nat,
    count: nat,
)
    requires
        count <= letters.len(),
    ensures
        visited_by(letters, prefix, remaining, count).is_prefix_of(
            visited(letters, prefix, remaining),
        ),
    decreases letters.len() - count,
{
    if count < letters.len() {
        lemma_visited_by_extends(letters, prefix, remaining, count + 1);
    }
}

/// Holds all schedules of up to `max_len` operations against the model, given what was
/// observed of them in the order of their visit, and counts them, the empty one included.
pub fn run_exhaustive_lock_model_schedules(
    max_len: usize,
    observations: &[LockObservation],
) -> (counted: Result<usize, LockModelMismatch>)
    requires
        observations@.len() < usize::MAX,
    ensures
        match first_defect(visited(alphabet(), Seq::empty(), max_len as nat), observations@) {
            Some(mismatch) => counted == Err::<usize, LockModelMismatch>(mismatch),
            None => counted matches Ok(count) && count == 1 + visited(
                alphabet(),
                Seq::empty(),
                max_len as nat,
            ).len(),
        },
{
    let letters: Vec<LockModelOp> = exhaustive_lock_model_alphabet();
    let model = LockModelState::default();
    assert(observations@.skip(0) =~= observations@);
    match visit(&model, letters.as_slice(), max_len, observations, 0, Ghost(Seq::empty())) {
        Ok(used) => Ok(used + 1),
        Err(mismatch) => Err(mismatch),
    }
}

/// The number of schedules of up to `len` operations over `letters` letters.
pub open spec fn schedule_count(letters: nat, len: nat) -> nat
    decreases len,
{
    if len == 0 {
        1
    } else {
        1 + letters * schedule_count(letters, (len - 1) as nat)
    }
}

proof fn lemma_visited_by_count(
    letters: Seq<LockModelOp>,
    prefix: Seq<LockModelOp>,
    remaining: nat,
    count: nat,
)
    requires
        count <= letters.len(),
        remaining > 0,
    ensures
        visited_by(letters, prefix, remaining, count).len() == count * schedule_count(
            letters.len(),
            (remaining - 1) as nat,
        ),
    decreases remaining, count,
{
    let below = schedule_count(letters.len(), (remaining - 1) as nat);
    if count > 0 {
        let fewer = (count - 1) as nat;
        lemma_visited_by_count(letters, prefix, remaining, fewer);
        let next = prefix.push(letters[count - 1]);
        if remaining > 1 {
            lemma_visited_by_count(letters, next, (remaining - 1) as nat, letters.len());
        }
        assert(1 + visited(letters, next, (remaining - 1) as nat).len() == below);
        assert(visited_by(letters, prefix, remaining, count).len() == fewer * below + below);
        assert(count * below == fewer * below + below) by (nonlinear_arith)
            requires
                count == fewer + 1,
        ;
    } else {
        assert(0 * below == 0) by (nonlinear_arith);
    }
}

/// The number of schedules visited, the empty one included.
pub proof fn law_visited_count(
    letters: Seq<LockModelOp>,
    prefix: Seq<LockModelOp>,
    remaining: nat,
)
    ensures
        1 + visited(letters, prefix, remaining).len() == schedule_count(letters.len(), remaining),
{
    if remaining > 0 {
        lemma_visited_by_count(letters, prefix, remaining, letters.len());
    }
}

/// No schedule of the domain is left out.
pub proof fn law_every_schedule_is_visited(
    letters: Seq<LockModelOp>,
    prefix: Seq<LockModelOp>,
    remaining: nat,
    schedule: Seq<LockModelOp>,
)
    requires
        0 < schedule.len() <= remaining,
        forall|i: int| 0 <= i < schedule.len() ==> letters.contains(#[trigger] schedule[i]),
    ensures
        visited(letters, prefix, remaining).contains(prefix + schedule),
    decreases schedule.len(),
{
    assert(letters.contains(schedule[0]));
    let at = choose|at: int| 0 <= at < letters.len() && letters[at] == schedule[0];
    let next = prefix.push(schedule[0]);
    let done = visited_by(letters, prefix, remaining, at as nat);
    let below = visited(letters, next, (remaining - 1) as nat);
    let upto = visited_by(letters, prefix, remaining, (at + 1) as nat);
    let all = visited(letters, prefix, remaining);
    assert(upto == done.push(next) + below);
    lemma_visited_by_extends(letters, prefix, remaining, (at + 1) as nat);
    if schedule.len() == 1 {
        assert(prefix + schedule =~= next);
        assert(upto[done.len() as int] == next);
        assert(all[done.len() as int] == next);
    } else {
        let tail = schedule.skip(1);
        assert forall|i: int| 0 <= i < tail.len() implies letters.contains(#[trigger] tail[i]) by {
            assert(tail[i] == schedule[i + 1]);
        }
        law_every_schedule_is_visited(letters, next, (remaining - 1) as nat, tail);
        assert(next + tail =~= prefix + schedule);
        let found = choose|found: int| 0 <= found < below.len() && below[found] == next + tail;
        assert(upto[done.len() + 1 + found] == below[found]);
        assert(all[done.len() + 1 + found] == below[found]);
    }
}

proof fn lemma_no_first_defect(
    schedules: Seq<Seq<LockModelOp>>,
    observations: Seq<LockObservation>,
    index: int,
)
    requires
        first_defect(schedules, observations) is None,
        0 <= index < schedules.len(),
    ensures
        schedules.len() <= observations.len(),
        schedule_defect(schedules[index], observations[index]) is None,
    decreases schedules.len(),
{
    if index < schedules.len() - 1 {
        lemma_no_first_defect(schedules.drop_last(), observations, index);
    }
}

/// Where all short schedules pass, the locks did what the model does in each of them: of every
/// schedule of the domain something was observed, and it is what the model does.
pub proof fn law_exhaustive_pass_is_faithful(
    max_len: nat,
    observations: Seq<LockObservation>,
    schedule: Seq<LockModelOp>,
)
    requires
        first_defect(visited(alphabet(), Seq::empty(), max_len), observations) is None,
        0 < schedule.len() <= max_len,
        forall|i: int| 0 <= i < schedule.len() ==> alphabet().contains(#[trigger] schedule[i]),
    ensures
        exists|at: int|
            0 <= at < observations.len() && is_faithful(
                LockView::empty().apply_all(schedule.drop_last()),
                schedule.last(),
                #[trigger] observations[at],
            ),
{
    let all = visited(alphabet(), Seq::empty(), max_len);
    law_every_schedule_is_visited(alphabet(), Seq::empty(), max_len, schedule);
    assert(Seq::empty() + schedule =~= schedule);
    let at = choose|at: int| 0 <= at < all.len() && all[at] == schedule;
    lemma_no_first_defect(all, observations, at);
    lock_model::law_every_state_is_consistent(schedule.drop_last());
    law_faithful_steps_pass(
        LockView::empty().apply_all(schedule.drop_last()),
        schedule.last(),
        observations[at],
    );
}

/// What goes first of several things wrong with an observation: what is wrong with the snapshot
/// itself, then that its state is not the model's, and last the answer.
pub proof fn law_diverging_locks_are_named(
    before: LockView,
    op: LockModelOp,
    observation: LockObservation,
)
    ensures
        match observation.snapshot.state() {
            Err(mismatch) => observation_defect(before, op, observation) == Some(mismatch),
            Ok(actual) => actual != before.apply(op).0 <==> observation_defect(
                before,
                op,
                observation,
            ) == Some(LockModelMismatch::Diverged),
        },
{
}

/// A run starts right exactly if the locks show that nobody holds anything.
pub proof fn law_runs_start_empty(initial: LockSnapshot)
    ensures
        initial_defect(initial) is None <==> (initial.state() matches Ok(state) && {
            &&& forall|granule: u8| !#[trigger] state.owners.contains_key(granule)
            &&& forall|tx: u64| !#[trigger] state.owner_sets.contains_key(tx)
            &&& forall|read: (u64, u8)| !#[trigger] state.read_versions.contains_key(read)
        }),
        match initial.state() {
            Err(mismatch) => initial_defect(initial) == Some(mismatch),
            Ok(_) => initial_defect(initial) is Some ==> initial_defect(initial) == Some(
                LockModelMismatch::InitialState,
            ),
        },
{
    if let Ok(state) = initial.state() {
        if {
            &&& forall|granule: u8| !#[trigger] state.owners.contains_key(granule)
            &&& forall|tx: u64| !#[trigger] state.owner_sets.contains_key(tx)
            &&& forall|read: (u64, u8)| !#[trigger] state.read_versions.contains_key(read)
        } {
            assert(state =~= LockView::empty());
        }
    }
}

/// A run departs from the model as its first step that departs from it does.
pub proof fn law_first_departure_is_named(steps: Seq<LockRunStep>, index: int)
    requires
        0 <= index < steps.len(),
        run_defect(steps.take(index)) is None,
        observation_defect(
            LockView::empty().apply_all(run_ops(steps.take(index))),
            steps[index].op,
            steps[index].observation,
        ) is Some,
    ensures
        run_defect(steps) == observation_defect(
            LockView::empty().apply_all(run_ops(steps.take(index))),
            steps[index].op,
            steps[index].observation,
        ),
{
    let taken = steps.take(index + 1);
    assert(taken.drop_last() =~= steps.take(index));
    assert(taken.last() == steps[index]);
    lemma_run_defect_is_kept(steps, index + 1);
}

/// The operations of a run are those of its steps.
pub proof fn law_operations_of_a_run(steps: Seq<LockRunStep>, index: int)
    ensures
        run_ops(steps).len() == steps.len(),
        0 <= index < steps.len() ==> run_ops(steps)[index] == steps[index].op,
{
}

/// The domain has 20 operations: transactions one and two read and write the granules zero and
/// one at the versions zero and one, abort, and release.
pub proof fn law_alphabet(op: LockModelOp)
    ensures
        alphabet().len() == 20,
        alphabet().no_duplicates(),
        alphabet().contains(op) <==> match op {
            LockModelOp::Read { tx, granule, version } => 1 <= tx <= 2 && granule <= 1 && version
                <= 1,
            LockModelOp::Write { tx, granule, version } => 1 <= tx <= 2 && granule <= 1 && version
                <= 1,
            LockModelOp::Abort { tx } => 1 <= tx <= 2,
            LockModelOp::Release { tx } => 1 <= tx <= 2,
        },
{
    let letters = alphabet();
    match op {
        LockModelOp::Read { tx, granule, version } => {
            if 1 <= tx <= 2 && granule <= 1 && version <= 1 {
                let at = (tx - 1) * 10 + granule * 4 + version * 2;
                assert(letters[at] == op);
            }
        },
        LockModelOp::Write { tx, granule, version } => {
            if 1 <= tx <= 2 && granule <= 1 && version <= 1 {
                let at = (tx - 1) * 10 + granule * 4 + version * 2 + 1;
                assert(letters[at] == op);
            }
        },
        LockModelOp::Abort { tx } => {
            if 1 <= tx <= 2 {
                assert(letters[(tx - 1) * 10 + 8] == op);
            }
        },
        LockModelOp::Release { tx } => {
            if 1 <= tx <= 2 {
                assert(letters[(tx - 1) * 10 + 9] == op);
            }
        },
    }
}

/// Every schedule that is visited goes on from the prefix, with at least one letter and not
/// with too many.
pub proof fn law_visited_schedules_are_short(
    letters: Seq<LockModelOp>,
    prefix: Seq<LockModelOp>,
    remaining: nat,
    index: int,
)
    requires
        0 <= index < visited(letters, prefix, remaining).len(),
    ensures
        ({
            let schedule = visited(letters, prefix, remaining)[index];
            &&& prefix.len() < schedule.len() <= prefix.len() + remaining
            &&& prefix.is_prefix_of(schedule)
            &&& forall|i: int|
                prefix.len() <= i < schedule.len() ==> letters.contains(#[trigger] schedule[i])
        }),
{
    lemma_visited_by_is_short(letters, prefix, remaining, letters.len(), index);
}

proof fn lemma_visited_by_is_short(
    letters: Seq<LockModelOp>,
    prefix: Seq<LockModelOp>,
    remaining: nat,
    count: nat,
    index: int,
)
    requires
        count <= letters.len(),
        0 <= index < visited_by(letters, prefix, remaining, count).len(),
    ensures
        ({
            let schedule = visited_by(letters, prefix, remaining, count)[index];
            &&& prefix.len() < schedule.len() <= prefix.len() + remaining
            &&& prefix.is_prefix_of(schedule)
            &&& forall|i: int|
                prefix.len() <= i < schedule.len() ==> letters.contains(#[trigger] schedule[i])
        }),
    decreases remaining, count,
{
    let fewer = (count - 1) as nat;
    let letter = letters[count - 1];
    let next = prefix.push(letter);
    let done = visited_by(letters, prefix, remaining, fewer);
    let below = visited_by(letters, next, (remaining - 1) as nat, letters.len());
    let schedule = visited_by(letters, prefix, remaining, count)[index];
    assert(letters.contains(letter));
    if index < done.len() {
        lemma_visited_by_is_short(letters, prefix, remaining, fewer, index);
    } else if index == done.len() {
        assert(schedule == next);
    } else {
        let at = index - done.len() - 1;
        lemma_visited_by_is_short(letters, next, (remaining - 1) as nat, letters.len(), at);
        assert(schedule == below[at]);
        assert forall|i: int| 0 <= i < prefix.len() implies schedule[i] == prefix[i] by {
            assert(schedule[i] == next[i]);
        }
        assert forall|i: int| prefix.len() <= i < schedule.len() implies letters.contains(
            #[trigger] schedule[i],
        ) by {
            if i == prefix.len() {
                assert(schedule[i] == next[i]);
            }
        }
    }
}

/// Where of every schedule something was observed and it is what the model does, all short
/// schedules pass.
pub proof fn law_faithful_schedules_pass(
    schedules: Seq<Seq<LockModelOp>>,
    observations: Seq<LockObservation>,
)
    requires
        schedules.len() <= observations.len(),
        forall|i: int|
            0 <= i < schedules.len() ==> is_faithful(
                LockView::empty().apply_all((#[trigger] schedules[i]).drop_last()),
                schedules[i].last(),
                observations[i],
            ),
    ensures
        first_defect(schedules, observations) is None,
    decreases schedules.len(),
{
    if schedules.len() > 0 {
        let front = schedules.drop_last();
        let last = schedules.len() - 1;
        assert forall|i: int| 0 <= i < front.len() implies is_faithful(
            LockView::empty().apply_all((#[trigger] front[i]).drop_last()),
            front[i].last(),
            observations[i],
        ) by {
            assert(front[i] == schedules[i]);
        }
        law_faithful_schedules_pass(front, observations);
        let schedule = schedules[last];
        assert(schedules.last() == schedule);
        lock_model::law_every_state_is_consistent(schedule.drop_last());
        law_faithful_steps_pass(
            LockView::empty().apply_all(schedule.drop_last()),
            schedule.last(),
            observations[last],
        );
    }
}

/// All schedules of which nothing was observed are missed, but for what departs before.
pub proof fn law_missing_observations_are_named(
    schedules: Seq<Seq<LockModelOp>>,
    observations: Seq<LockObservation>,
)
    requires
        observations.len() < schedules.len(),
    ensures
        first_defect(schedules.take(observations.len() as int), observations) is None
            ==> first_defect(schedules, observations) == Some(
            LockModelMismatch::MissingObservation,
        ),
        first_defect(schedules.take(observations.len() as int), observations) is Some
            ==> first_defect(schedules, observations) == first_defect(
            schedules.take(observations.len() as int),
            observations,
        ),
{
    let count = observations.len() as int;
    let seen = schedules.take(count);
    if first_defect(seen, observations) is Some {
        lemma_first_defect_of_prefix(seen, schedules, observations);
    } else {
        let more = schedules.take(count + 1);
        assert(more.drop_last() =~= seen);
        assert(first_defect(more, observations) == Some(LockModelMismatch::MissingObservation));
        lemma_first_defect_of_prefix(more, schedules, observations);
    }
}

/// There are 8421 schedules of up to three operations over 20 letters, and in general one and
/// 20 times as many as of one operation less.
pub proof fn law_number_of_schedules(letters: nat, len: nat)
    ensures
        schedule_count(letters, 0) == 1,
        schedule_count(letters, len + 1) == 1 + letters * schedule_count(letters, len),
        schedule_count(20, 3) == 8421,
{
    assert(schedule_count(20, 0) == 1);
    assert(schedule_count(20, 1) == 21);
    assert(schedule_count(20, 2) == 421);
}

/// Locks in the model's state are judged by their answer alone.
pub proof fn law_answers_are_judged_last(
    before: LockView,
    op: LockModelOp,
    observation: LockObservation,
)
    requires
        before.is_consistent(),
        observation.snapshot.state() == Ok::<LockView, LockModelMismatch>(before.apply(op).0),
    ensures
        observation_defect(before, op, observation) == (match (
            before.apply(op).1.error_kind,
            observation.error,
        ) {
            (Some(expected), None) => Some(
                LockModelMismatch::UnexpectedSuccess { expected: expected.actual() },
            ),
            (None, Some(actual)) => Some(LockModelMismatch::UnexpectedError { actual }),
            (Some(expected), Some(actual)) => if actual == expected.actual() {
                None
            } else {
                Some(LockModelMismatch::WrongError { expected: expected.actual(), actual })
            },
            (None, None) => None,
        }),
{
    lock_schedule::law_model_steps_pass(before, op);
}

/// The first schedule that departs from the model says how.
pub proof fn law_first_bad_schedule_is_named(
    schedules: Seq<Seq<LockModelOp>>,
    observations: Seq<LockObservation>,
    index: int,
)
    requires
        0 <= index < schedules.len(),
        index < observations.len(),
        first_defect(schedules.take(index), observations) is None,
    ensures
        ({
            let schedule = schedules[index];
            let defect = observation_defect(
                LockView::empty().apply_all(schedule.drop_last()),
                schedule.last(),
                observations[index],
            );
            defect is Some ==> first_defect(schedules, observations) == defect
        }),
{
    let more = schedules.take(index + 1);
    assert(more.drop_last() =~= schedules.take(index));
    assert(more.last() == schedules[index]);
    if first_defect(more, observations) is Some {
        lemma_first_defect_of_prefix(more, schedules, observations);
    }
}

} // verus!
