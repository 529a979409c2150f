//! Runs schedules of lock operations against the lock model.

use std::collections::{BTreeMap, BTreeSet};

use vstd::prelude::*;

use crate::lock_check::LockModelMismatch;
use crate::lock_model::{
    LockConflictKind, LockModelErrorKind, LockModelOp, LockModelState, LockModelStep, LockView,
};
use crate::ordered::{u64_keys, u8_keys, u8_members};

verus! {

fn same_owners(left: &BTreeMap<u8, u64>, right: &BTreeMap<u8, u64>) -> (same: bool)
    ensures
        same == (left@ == right@),
{
    let same = owners_within(left, right) && owners_within(right, left);
    proof {
        if same {
            assert forall|key: u8| left@.dom().contains(key) == right@.dom().contains(key) by {}
            assert(left@ =~= right@);
        }
    }
    same
}

fn owners_within(left: &BTreeMap<u8, u64>, right: &BTreeMap<u8, u64>) -> (within: bool)
    ensures
        within == left@.submap_of(right@),
{
    let keys: Vec<u8> = u8_keys(left);
    let mut index: usize = 0;
    while index < keys.len()
        invariant
            index <= keys@.len(),
            forall|key: u8| #[trigger] keys@.contains(key) <==> left@.contains_key(key),
            forall|i: int|
                0 <= i < index ==> {
                    &&& right@.contains_key(#[trigger] keys@[i])
                    &&& right@[keys@[i]] == left@[keys@[i]]
                },
        decreases keys@.len() - index,
    {
        let key: u8 = keys[index];
        assert(keys@.contains(key));
        let value: u64 = *left.get(&key).unwrap();
        let same = match right.get(&key) {
            Some(other) => *other == value,
            None => false,
        };
        if !same {
            assert(left@.contains_key(key));
            return false;
        }
        index += 1;
    }
    assert forall|key: u8| #[trigger] left@.contains_key(key) implies right@.contains_key(key)
        && right@[key] == left@[key] by {
        assert(keys@.contains(key));
    }
    true
}

fn same_granules(left: &BTreeSet<u8>, right: &BTreeSet<u8>) -> (same: bool)
    ensures
        same == (left@ == right@),
{
    let same = granules_within(left, right) && granules_within(right, left);
    proof {
        if same {
            assert(left@ =~= right@);
        }
    }
    same
}

fn granules_within(left: &BTreeSet<u8>, right: &BTreeSet<u8>) -> (within: bool)
    ensures
        within == left@.subset_of(right@),
{
    let members: Vec<u8> = u8_members(left);
    let mut index: usize = 0;
    while index < members.len()
        invariant
            index <= members@.len(),
            forall|member: u8| #[trigger] members@.contains(member) <==> left@.contains(member),
            forall|i: int| 0 <= i < index ==> right@.contains(#[trigger] members@[i]),
        decreases members@.len() - index,
    {
        let member: u8 = members[index];
        assert(members@.contains(member));
        if !right.contains(&member) {
            assert(left@.contains(member));
            return false;
        }
        index += 1;
    }
    assert forall|member: u8| #[trigger] left@.contains(member) implies right@.contains(member) by {
        assert(members@.contains(member));
    }
    true
}

/// The members of the sets of a map.
spec fn set_views(sets: BTreeMap<u64, BTreeSet<u8>>) -> Map<u64, Set<u8>> {
    sets@.map_values(|granules: BTreeSet<u8>| granules@)
}

fn sets_within(left: &BTreeMap<u64, BTreeSet<u8>>, right: &BTreeMap<u64, BTreeSet<u8>>) -> (within:
    bool)
    ensures
        within == set_views(*left).submap_of(set_views(*right)),
{
    let keys: Vec<u64> = u64_keys(left);
    let mut index: usize = 0;
    while index < keys.len()
        invariant
            index <= keys@.len(),
            forall|key: u64| #[trigger] keys@.contains(key) <==> left@.contains_key(key),
            forall|i: int|
                0 <= i < index ==> {
                    &&& right@.contains_key(#[trigger] keys@[i])
                    &&& right@[keys@[i]]@ == left@[keys@[i]]@
                },
        decreases keys@.len() - index,
    {
        let key: u64 = keys[index];
        assert(keys@.contains(key));
        let granules = left.get(&key).unwrap();
        let same = match right.get(&key) {
            Some(other) => same_granules(granules, other),
            None => false,
        };
        if !same {
            proof {
                assert(set_views(*left).contains_key(key));
                assert(set_views(*left)[key] == granules@);
                if set_views(*right).contains_key(key) {
                    assert(set_views(*right)[key] == right@[key]@);
                }
            }
            return false;
        }
        index += 1;
    }
    assert forall|key: u64| #[trigger]
        set_views(*left).contains_key(key) implies set_views(*right).contains_key(key) && set_views(
        *right,
    )[key] == set_views(*left)[key] by {
        assert(keys@.contains(key));
    }
    true
}

impl LockModelState {
    /// Whether every read version of this state is one of `other` too.
    fn reads_within(&self, other: &LockModelState) -> (within: bool)
        ensures
            within == self@.read_versions.submap_of(other@.read_versions),
    {
        let txs: Vec<u64> = u64_keys(&self.read_versions);
        let mut index: usize = 0;
        while index < txs.len()
            invariant
                index <= txs@.len(),
                forall|tx: u64| #[trigger]
                    txs@.contains(tx) <==> self.read_versions@.contains_key(tx),
                forall|i: int, granule: u8|
                    #![trigger txs@[i], self.read_versions@[txs@[i]]@.contains_key(granule)]
                    0 <= i < index && self.read_versions@[txs@[i]]@.contains_key(granule) ==> {
                        &&& other@.read_versions.contains_key((txs@[i], granule))
                        &&& other@.read_versions[(txs@[i], granule)]
                            == self.read_versions@[txs@[i]]@[granule]
                    },
            decreases txs@.len() - index,
        {
            let tx: u64 = txs[index];
            assert(txs@.contains(tx));
            let versions = self.read_versions.get(&tx).unwrap();
            let granules: Vec<u8> = u8_keys(versions);
            let mut position: usize = 0;
            while position < granules.len()
                invariant
                    position <= granules@.len(),
                    self.read_versions@.contains_key(tx),
                    *versions == self.read_versions@[tx],
                    forall|granule: u8| #[trigger]
                        granules@.contains(granule) <==> versions@.contains_key(granule),
                    forall|i: int|
                        0 <= i < position ==> {
                            &&& other@.read_versions.contains_key((tx, #[trigger] granules@[i]))
                            &&& other@.read_versions[(tx, granules@[i])] == versions@[granules@[i]]
                        },
                decreases granules@.len() - position,
            {
                let granule: u8 = granules[position];
                assert(granules@.contains(granule));
                let version: u64 = *versions.get(&granule).unwrap();
                let same = match other.read_version(tx, granule) {
                    Some(current) => current == version,
                    None => false,
                };
                if !same {
                    assert(self@.read_versions.contains_key((tx, granule)));
                    return false;
                }
                position += 1;
            }
            assert forall|granule: u8| #[trigger]
                self.read_versions@[tx]@.contains_key(granule) implies {
                &&& other@.read_versions.contains_key((tx, granule))
                &&& other@.read_versions[(tx, granule)] == self.read_versions@[tx]@[granule]
            } by {
                assert(granules@.contains(granule));
            }
            index += 1;
        }
        assert forall|read: (u64, u8)| #[trigger]
            self@.read_versions.contains_key(read) implies other@.read_versions.contains_key(read)
            && other@.read_versions[read] == self@.read_versions[read] by {
            assert(txs@.contains(read.0));
            let at = choose|at: int| 0 <= at < txs@.len() && txs@[at] == read.0;
            assert(self.read_versions@[txs@[at]]@.contains_key(read.1));
        }
        true
    }

    /// Whether two states are the same.
    pub fn same_state(&self, other: &LockModelState) -> (same: bool)
        ensures
            same == (self@ == other@),
    {
        let same = same_owners(&self.owners, &other.owners) && sets_within(
            &self.owner_sets,
            &other.owner_sets,
        ) && sets_within(&other.owner_sets, &self.owner_sets) && self.reads_within(other)
            && other.reads_within(self);
        proof {
            assert(set_views(self.owner_sets) =~= self@.owner_sets);
            assert(set_views(other.owner_sets) =~= other@.owner_sets);
            if same {
                assert(self@.owner_sets =~= other@.owner_sets);
                assert(self@.read_versions =~= other@.read_versions);
            }
        }
        same
    }
}

impl LockView {
    /// Whether `tx` owns a granule.
    pub open spec fn owns_any(self, tx: u64) -> bool {
        exists|granule: u8| #[trigger] self.owns(tx, granule)
    }

    /// Whether `tx` has read a granule.
    pub open spec fn has_read_any(self, tx: u64) -> bool {
        exists|granule: u8| #[trigger] self.read_versions.contains_key((tx, granule))
    }
}

impl LockModelState {
    fn owns_any(&self, tx: u64) -> (owns: bool)
        ensures
            owns == self@.owns_any(tx),
    {
        let owned: Vec<u8> = u8_keys(&self.owners);
        let mut index: usize = 0;
        while index < owned.len()
            invariant
                index <= owned@.len(),
                forall|granule: u8| #[trigger]
                    owned@.contains(granule) <==> self.owners@.contains_key(granule),
                forall|i: int| 0 <= i < index ==> self.owners@[#[trigger] owned@[i]] != tx,
            decreases owned@.len() - index,
        {
            let granule: u8 = owned[index];
            assert(owned@.contains(granule));
            if *self.owners.get(&granule).unwrap() == tx {
                assert(self@.owns(tx, granule));
                return true;
            }
            index += 1;
        }
        assert forall|granule: u8| !#[trigger] self@.owns(tx, granule) by {
            if self@.owners.contains_key(granule) {
                assert(owned@.contains(granule));
            }
        }
        false
    }

    fn has_read_any(&self, tx: u64) -> (has_read: bool)
        ensures
            has_read == self@.has_read_any(tx),
    {
        match self.read_versions.get(&tx) {
            Some(versions) => {
                let granules: Vec<u8> = u8_keys(versions);
                proof {
                    if granules@.len() == 0 {
                        assert forall|granule: u8| !#[trigger]
                            self@.read_versions.contains_key((tx, granule)) by {
                            assert(!granules@.contains(granule));
                        }
                    } else {
                        assert(granules@.contains(granules@[0]));
                        assert(self@.read_versions.contains_key((tx, granules@[0])));
                    }
                }
                granules.len() > 0
            },
            None => false,
        }
    }
}

/// How an operation's refusal departs from the model.
pub open spec fn error_defect(
    expected: Option<LockModelErrorKind>,
    actual: Option<LockConflictKind>,
) -> Option<LockModelMismatch> {
    match (expected, actual) {
        (Some(expected), None) => Some(
            LockModelMismatch::UnexpectedSuccess { expected: expected.actual() },
        ),
        (Some(expected), Some(actual)) => if actual != expected.actual() {
            Some(LockModelMismatch::WrongError { expected: expected.actual(), actual })
        } else {
            None
        },
        (None, Some(actual)) => Some(LockModelMismatch::UnexpectedError { actual }),
        (None, None) => None,
    }
}

/// What a transaction that gave way still holds.
pub open spec fn released_defect(after: LockView, released: Option<u64>) -> Option<
    LockModelMismatch,
> {
    match released {
        Some(tx) => if after.owner_sets.contains_key(tx) {
            Some(LockModelMismatch::ReleasedOwnerSet { tx })
        } else if after.owns_any(tx) {
            Some(LockModelMismatch::ReleasedOwnerMap { tx })
        } else if after.has_read_any(tx) {
            Some(LockModelMismatch::ReleasedReadSet { tx })
        } else {
            None
        },
        None => None,
    }
}

/// What an operation did to the state that it should not have done.
pub open spec fn effect_defect(
    op: LockModelOp,
    before: LockView,
    after: LockView,
    error_kind: Option<LockModelErrorKind>,
) -> Option<LockModelMismatch> {
    match op {
        LockModelOp::Abort { tx } | LockModelOp::Release { tx } => if after.owner_sets.contains_key(
            tx,
        ) {
            Some(LockModelMismatch::ClearedOwnerSet { tx })
        } else if after.owns_any(tx) {
            Some(LockModelMismatch::ClearedOwnerMap { tx })
        } else if after.has_read_any(tx) {
            Some(LockModelMismatch::ClearedReadVersions { tx })
        } else {
            None
        },
        LockModelOp::Read { tx, granule, .. } => if error_kind == Some(
            LockModelErrorKind::ReadOwnedByOther,
        ) && before.owners.get(granule) != after.owners.get(granule) {
            Some(LockModelMismatch::FailedReadChangedOwner { granule })
        } else if error_kind == Some(LockModelErrorKind::ReadVersionMismatch)
            && before.read_versions.get((tx, granule)) != after.read_versions.get((tx, granule)) {
            Some(LockModelMismatch::FailedReadChangedVersion { tx, granule })
        } else {
            None
        },
        LockModelOp::Write { granule, .. } => if error_kind == Some(
            LockModelErrorKind::WriteOwnedByOther,
        ) && before.owners.get(granule) != after.owners.get(granule) {
            Some(LockModelMismatch::FailedWriteChangedOwner { granule })
        } else {
            None
        },
    }
}

/// The first thing wrong with a step: the refusal goes first, then what was released, then
/// the effect of the operation.
pub open spec fn step_defect(
    op: LockModelOp,
    before: LockView,
    after: LockView,
    step: LockModelStep,
    actual_error: Option<LockConflictKind>,
) -> Option<LockModelMismatch> {
    if error_defect(step.error_kind, actual_error) is Some {
        error_defect(step.error_kind, actual_error)
    } else if released_defect(after, step.released_owner) is Some {
        released_defect(after, step.released_owner)
    } else {
        effect_defect(op, before, after, step.error_kind)
    }
}

fn same_number(left: Option<u64>, right: Option<u64>) -> (same: bool)
    ensures
        same == (left == right),
{
    match (left, right) {
        (Some(left), Some(right)) => left == right,
        (None, None) => true,
        _ => false,
    }
}

impl LockModelState {
    fn owner(&self, granule: u8) -> (owner: Option<u64>)
        ensures
            owner == self@.owners.get(granule),
    {
        match self.owners.get(&granule) {
            Some(owner) => Some(*owner),
            None => None,
        }
    }
}

/// Holds one step of real locks against the model: `step` is what came of `op` in the model,
/// which was in state `before` and is in state `after`.
pub fn assert_lock_step(
    op: LockModelOp,
    before: &LockModelState,
    after: &LockModelState,
    step: LockModelStep,
    actual_error: Option<LockConflictKind>,
) -> (checked: Result<(), LockModelMismatch>)
    ensures
        checked == (match step_defect(op, before@, after@, step, actual_error) {
            Some(mismatch) => Err::<(), LockModelMismatch>(mismatch),
            None => Ok(()),
        }),
{
    match step.error_kind {
        Some(error_kind) => {
            let expected = error_kind.as_actual();
            match actual_error {
                Some(actual) => {
                    if actual != expected {
                        return Err(LockModelMismatch::WrongError { expected, actual });
                    }
                },
                None => return Err(LockModelMismatch::UnexpectedSuccess { expected }),
            }
        },
        None => {
            if let Some(actual) = actual_error {
                return Err(LockModelMismatch::UnexpectedError { actual });
            }
        },
    }
    if let Some(released) = step.released_owner {
        if after.owner_sets.contains_key(&released) {
            return Err(LockModelMismatch::ReleasedOwnerSet { tx: released });
        }
        if after.owns_any(released) {
            return Err(LockModelMismatch::ReleasedOwnerMap { tx: released });
        }
        if after.has_read_any(released) {
            return Err(LockModelMismatch::ReleasedReadSet { tx: released });
        }
    }
    match op {
        LockModelOp::Abort { tx } | LockModelOp::Release { tx } => {
            if after.owner_sets.contains_key(&tx) {
                return Err(LockModelMismatch::ClearedOwnerSet { tx });
            }
            if after.owns_any(tx) {
                return Err(LockModelMismatch::ClearedOwnerMap { tx });
            }
            if after.has_read_any(tx) {
                return Err(LockModelMismatch::ClearedReadVersions { tx });
            }
        },
        LockModelOp::Read { tx, granule, .. } => {
            match step.error_kind {
                Some(LockModelErrorKind::ReadOwnedByOther) => {
                    if !same_number(after.owner(granule), before.owner(granule)) {
                        return Err(LockModelMismatch::FailedReadChangedOwner { granule });
                    }
                },
                Some(LockModelErrorKind::ReadVersionMismatch) => {
                    if !same_number(
                        before.read_version(tx, granule),
                        after.read_version(tx, granule),
                    ) {
                        return Err(LockModelMismatch::FailedReadChangedVersion { tx, granule });
                    }
                },
                _ => {},
            }
        },
        LockModelOp::Write { granule, .. } => {
            if let Some(LockModelErrorKind::WriteOwnedByOther) = step.error_kind {
                if !same_number(after.owner(granule), before.owner(granule)) {
                    return Err(LockModelMismatch::FailedWriteChangedOwner { granule });
                }
            }
        },
    }
    Ok(())
}

/// Locks that refuse what the model refuses, for the same reason, pass every check of a step:
/// who gave way or ended holds nothing, and a refusal changes neither owner nor version.
pub proof fn law_model_steps_pass(before: LockView, op: LockModelOp)
    requires
        before.is_consistent(),
    ensures
        step_defect(
            op,
            before,
            before.apply(op).0,
            before.apply(op).1,
            match before.apply(op).1.error_kind {
                Some(kind) => Some(kind.actual()),
                None => None,
            },
        ) is None,
{
    let (after, step) = before.apply(op);
    if let Some(released) = step.released_owner {
        crate::lock_model::law_release_clears(before, released);
        assert forall|granule: u8| !#[trigger] after.owns(released, granule) by {}
    }
    match op {
        LockModelOp::Abort { tx } | LockModelOp::Release { tx } => {
            crate::lock_model::law_release_clears(before, tx);
            assert forall|granule: u8| !#[trigger] after.owns(tx, granule) by {}
        },
        _ => {},
    }
}

/// Whether a transaction neither has an owner set nor owns a granule nor has read one.
pub open spec fn holds_nothing(state: LockView, tx: u64) -> bool {
    &&& !state.owner_sets.contains_key(tx)
    &&& forall|granule: u8| #[trigger]
        state.owners.contains_key(granule) ==> state.owners[granule] != tx
    &&& forall|granule: u8| !#[trigger] state.read_versions.contains_key((tx, granule))
}

proof fn lemma_holds_nothing(state: LockView, tx: u64)
    ensures
        holds_nothing(state, tx) <==> !state.owner_sets.contains_key(tx) && !state.owns_any(tx)
            && !state.has_read_any(tx),
{
    if !state.owns_any(tx) {
        assert forall|granule: u8| #[trigger] state.owners.contains_key(granule) implies
            state.owners[granule] != tx by {
            assert(!state.owns(tx, granule));
        }
    }
}

/// A step passes exactly if the locks refused it for the reason that the model gives, or did
/// not refuse it as the model did not; if who gave way holds nothing; if who ended holds
/// nothing; if a read or a write that was refused for an owner left the owner; and if a read
/// that was refused for its version left the version.
pub proof fn law_steps_pass_exactly(
    op: LockModelOp,
    before: LockView,
    after: LockView,
    step: LockModelStep,
    actual_error: Option<LockConflictKind>,
)
    ensures
        step_defect(op, before, after, step, actual_error) is None <==> {
            &&& match (step.error_kind, actual_error) {
                (Some(LockModelErrorKind::ReadOwnedByOther), Some(actual)) => actual
                    is ReadOwnedByOther,
                (Some(LockModelErrorKind::ReadVersionMismatch), Some(actual)) => actual
                    is ReadVersionMismatch,
                (Some(LockModelErrorKind::WriteOwnedByOther), Some(actual)) => actual
                    is WriteOwnedByOther,
                (Some(LockModelErrorKind::WriteVersionMismatch), Some(actual)) => actual
                    is WriteVersionMismatch,
                (None, None) => true,
                _ => false,
            }
            &&& step.released_owner matches Some(released) ==> holds_nothing(after, released)
            &&& match op {
                LockModelOp::Abort { tx } => holds_nothing(after, tx),
                LockModelOp::Release { tx } => holds_nothing(after, tx),
                LockModelOp::Read { tx, granule, .. } => {
                    &&& step.error_kind == Some(LockModelErrorKind::ReadOwnedByOther)
                        ==> before.owners.contains_key(granule) == after.owners.contains_key(
                        granule,
                    ) && (before.owners.contains_key(granule) ==> before.owners[granule]
                        == after.owners[granule])
                    &&& step.error_kind == Some(LockModelErrorKind::ReadVersionMismatch)
                        ==> before.read_versions.contains_key((tx, granule))
                        == after.read_versions.contains_key((tx, granule)) && (
                    before.read_versions.contains_key((tx, granule)) ==> before.read_versions[(
                        tx,
                        granule,
                    )] == after.read_versions[(tx, granule)])
                },
                LockModelOp::Write { granule, .. } => step.error_kind == Some(
                    LockModelErrorKind::WriteOwnedByOther,
                ) ==> before.owners.contains_key(granule) == after.owners.contains_key(granule) && (
                before.owners.contains_key(granule) ==> before.owners[granule]
                    == after.owners[granule]),
            }
        },
{
    if let Some(released) = step.released_owner {
        lemma_holds_nothing(after, released);
    }
    match op {
        LockModelOp::Abort { tx } => lemma_holds_nothing(after, tx),
        LockModelOp::Release { tx } => lemma_holds_nothing(after, tx),
        _ => {},
    }
}

/// What is wrong with an answer: it is said which reason the model gives and which the locks
/// gave. That goes before everything else.
pub proof fn law_wrong_answers_are_named(
    op: LockModelOp,
    before: LockView,
    after: LockView,
    step: LockModelStep,
    actual_error: Option<LockConflictKind>,
)
    ensures
        match (step.error_kind, actual_error) {
            (Some(expected), None) => step_defect(op, before, after, step, actual_error) == Some(
                LockModelMismatch::UnexpectedSuccess { expected: expected.actual() },
            ),
            (None, Some(actual)) => step_defect(op, before, after, step, actual_error) == Some(
                LockModelMismatch::UnexpectedError { actual },
            ),
            (Some(expected), Some(actual)) => actual != expected.actual() ==> step_defect(
                op,
                before,
                after,
                step,
                actual_error,
            ) == Some(LockModelMismatch::WrongError { expected: expected.actual(), actual }),
            (None, None) => true,
        },
{
}

/// What is wrong with a step that was answered as it should be: what the transaction that gave
/// way still holds goes first, its owner set before its granules and these before its reads;
/// then what the one that ended still holds, in the same order; or what a refusal changed.
pub proof fn law_wrong_effects_are_named(
    op: LockModelOp,
    before: LockView,
    after: LockView,
    step: LockModelStep,
)
    ensures
        ({
            let defect = step_defect(
                op,
                before,
                after,
                step,
                match step.error_kind {
                    Some(kind) => Some(kind.actual()),
                    None => None,
                },
            );
            let is_released_clear = step.released_owner matches Some(tx) ==> holds_nothing(
                after,
                tx,
            );
            &&& step.released_owner matches Some(tx) ==> {
                &&& after.owner_sets.contains_key(tx) ==> defect == Some(
                    LockModelMismatch::ReleasedOwnerSet { tx },
                )
                &&& !after.owner_sets.contains_key(tx) && after.owns_any(tx) ==> defect == Some(
                    LockModelMismatch::ReleasedOwnerMap { tx },
                )
                &&& !after.owner_sets.contains_key(tx) && !after.owns_any(tx)
                    && after.has_read_any(tx) ==> defect == Some(
                    LockModelMismatch::ReleasedReadSet { tx },
                )
            }
            &&& is_released_clear ==> match op {
                LockModelOp::Abort { tx } | LockModelOp::Release { tx } => {
                    &&& after.owner_sets.contains_key(tx) ==> defect == Some(
                        LockModelMismatch::ClearedOwnerSet { tx },
                    )
                    &&& !after.owner_sets.contains_key(tx) && after.owns_any(tx) ==> defect == Some(
                        LockModelMismatch::ClearedOwnerMap { tx },
                    )
                    &&& !after.owner_sets.contains_key(tx) && !after.owns_any(tx)
                        && after.has_read_any(tx) ==> defect == Some(
                        LockModelMismatch::ClearedReadVersions { tx },
                    )
                },
                LockModelOp::Read { tx, granule, .. } => defect is Some ==> defect == (
                if step.error_kind == Some(LockModelErrorKind::ReadOwnedByOther) {
                    Some(LockModelMismatch::FailedReadChangedOwner { granule })
                } else {
                    Some(LockModelMismatch::FailedReadChangedVersion { tx, granule })
                }),
                LockModelOp::Write { granule, .. } => defect is Some ==> defect == Some(
                    LockModelMismatch::FailedWriteChangedOwner { granule },
                ),
            }
        }),
{
    if let Some(released) = step.released_owner {
        lemma_holds_nothing(after, released);
    }
}

/// A transaction owns or has read a granule exactly if there is one that it owns or has read.
pub proof fn law_owning_and_reading_any(state: LockView, tx: u64)
    ensures
        state.owns_any(tx) <==> exists|granule: u8|
            (#[trigger] state.owners.contains_key(granule)) && state.owners[granule] == tx,
        state.has_read_any(tx) <==> exists|granule: u8| #[trigger]
            state.read_versions.contains_key((tx, granule)),
{
    if state.owns_any(tx) {
        let granule = choose|granule: u8| #[trigger] state.owns(tx, granule);
        assert(state.owners.contains_key(granule));
    }
    if exists|granule: u8|
        (#[trigger] state.owners.contains_key(granule)) && state.owners[granule] == tx {
        let granule = choose|granule: u8|
            (#[trigger] state.owners.contains_key(granule)) && state.owners[granule] == tx;
        assert(state.owns(tx, granule));
    }
}

} // verus!
