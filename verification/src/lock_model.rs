//! A model of the granule locks that transactions take.
//!
//! A transaction reads a granule at a version and takes a granule to write it. Where two
//! transactions want one granule, the one with the smaller number wins.

use std::collections::{BTreeMap, BTreeSet};

use vstd::prelude::*;

use crate::ordered::u8_members;

verus! {

/// Something that a transaction asks of the locks.
#[derive(Clone, Copy, Debug, PartialEq, Eq, Structural)]
pub enum LockModelOp {
    Read { tx: u64, granule: u8, version: u64 },
    Write { tx: u64, granule: u8, version: u64 },
    Abort { tx: u64 },
    Release { tx: u64 },
}

/// Why the model refuses an operation.
#[derive(Clone, Copy, Debug, PartialEq, Eq, Structural)]
pub enum LockModelErrorKind {
    ReadOwnedByOther,
    ReadVersionMismatch,
    WriteOwnedByOther,
    WriteVersionMismatch,
}

/// Why the locks refuse an operation.
#[derive(Clone, Copy, Debug, PartialEq, Eq, Structural)]
pub enum LockConflictKind {
    ReadOwnedByOther,
    ReadVersionMismatch,
    WriteOwnedByOther,
    WriteVersionMismatch,
}

impl LockModelErrorKind {
    /// The refusal that the locks answer with.
    pub open spec fn actual(self) -> LockConflictKind {
        match self {
            LockModelErrorKind::ReadOwnedByOther => LockConflictKind::ReadOwnedByOther,
            LockModelErrorKind::ReadVersionMismatch => LockConflictKind::ReadVersionMismatch,
            LockModelErrorKind::WriteOwnedByOther => LockConflictKind::WriteOwnedByOther,
            LockModelErrorKind::WriteVersionMismatch => LockConflictKind::WriteVersionMismatch,
        }
    }

    /// The refusal that the locks answer with.
    pub fn as_actual(self) -> (kind: LockConflictKind)
        ensures
            kind == self.actual(),
    {
        match self {
            LockModelErrorKind::ReadOwnedByOther => LockConflictKind::ReadOwnedByOther,
            LockModelErrorKind::ReadVersionMismatch => LockConflictKind::ReadVersionMismatch,
            LockModelErrorKind::WriteOwnedByOther => LockConflictKind::WriteOwnedByOther,
            LockModelErrorKind::WriteVersionMismatch => LockConflictKind::WriteVersionMismatch,
        }
    }
}

/// What came of an operation: why it was refused, and who had to give way.
#[derive(Clone, Copy, Debug, PartialEq, Eq, Structural)]
pub struct LockModelStep {
    pub error_kind: Option<LockModelErrorKind>,
    pub released_owner: Option<u64>,
}

impl Default for LockModelStep {
    fn default() -> (step: LockModelStep)
        ensures
            step == (LockModelStep { error_kind: None, released_owner: None }),
    {
        LockModelStep { error_kind: None, released_owner: None }
    }
}

/// The state of the locks as a mathematical value.
#[verifier::ext_equal]
pub struct LockView {
    /// Who may write a granule.
    pub owners: Map<u8, u64>,
    /// Which granules a transaction may write.
    pub owner_sets: Map<u64, Set<u8>>,
    /// At which version a transaction has read a granule.
    pub read_versions: Map<(u64, u8), u64>,
}

impl LockView {
    /// The state in which nobody holds anything.
    pub open spec fn empty() -> LockView {
        LockView {
            owners: Map::empty(),
            owner_sets: Map::empty(),
            read_versions: Map::empty(),
        }
    }

    /// Whether the owner set of `granule`'s owner has the granule.
    pub open spec fn is_backed(self, granule: u8) -> bool {
        &&& self.owner_sets.contains_key(self.owners[granule])
        &&& self.owner_sets[self.owners[granule]].contains(granule)
    }

    /// Whether `tx` is the owner of `granule`.
    pub open spec fn owns(self, tx: u64, granule: u8) -> bool {
        self.owners.contains_key(granule) && self.owners[granule] == tx
    }

    /// Whether `tx` has granules, and is the owner of all of them.
    pub open spec fn is_sound_set(self, tx: u64) -> bool {
        &&& exists|granule: u8| self.owner_sets[tx].contains(granule)
        &&& forall|granule: u8| #[trigger]
            self.owner_sets[tx].contains(granule) ==> self.owns(tx, granule)
    }

    /// Whether owners and owner sets agree.
    pub open spec fn is_consistent(self) -> bool {
        &&& forall|granule: u8| #[trigger]
            self.owners.contains_key(granule) ==> self.is_backed(granule)
        &&& forall|tx: u64| #[trigger] self.owner_sets.contains_key(tx) ==> self.is_sound_set(tx)
    }

    /// Whether `tx` can take `granule`, or is told why not: an owner that has to give way for
    /// it has the granule in its owner set.
    pub open spec fn allows_write(self, tx: u64, granule: u8, version: u64) -> bool {
        self.owners.contains_key(granule) && tx < self.owners[granule] && !(
        self.read_versions.contains_key((tx, granule)) && self.read_versions[(tx, granule)]
            != version) ==> self.is_backed(granule)
    }

    /// Whether an operation comes to anything. In a consistent state every operation does.
    pub open spec fn allows(self, op: LockModelOp) -> bool {
        match op {
            LockModelOp::Write { tx, granule, version } => self.allows_write(tx, granule, version),
            _ => true,
        }
    }

    /// The granules that `tx` may write.
    pub open spec fn owned_by(self, tx: u64) -> Set<u8> {
        if self.owner_sets.contains_key(tx) {
            self.owner_sets[tx]
        } else {
            Set::empty()
        }
    }

    /// Whether `tx` holds nothing.
    pub open spec fn is_clear_of(self, tx: u64) -> bool {
        &&& !self.owner_sets.contains_key(tx)
        &&& forall|granule: u8| #[trigger]
            self.owners.contains_key(granule) ==> self.owners[granule] != tx
        &&& forall|granule: u8| !#[trigger] self.read_versions.contains_key((tx, granule))
    }

    /// The state after `tx` let go of everything.
    pub open spec fn release(self, tx: u64) -> LockView {
        LockView {
            owners: self.owners.remove_keys(self.owned_by(tx)),
            owner_sets: self.owner_sets.remove(tx),
            read_versions: self.read_versions.restrict(
                Set::new(|read: (u64, u8)| read.0 != tx),
            ),
        }
    }

    /// The state after `tx` got past the owner of `granule`, and who had to give way; or the
    /// refusal of the owner.
    pub open spec fn resolve(self, tx: u64, granule: u8, is_write: bool) -> Result<
        (LockView, Option<u64>),
        LockModelErrorKind,
    > {
        if !self.owners.contains_key(granule) || self.owners[granule] == tx {
            Ok((self, None))
        } else if tx < self.owners[granule] {
            Ok((self.release(self.owners[granule]), Some(self.owners[granule])))
        } else if is_write {
            Err(LockModelErrorKind::WriteOwnedByOther)
        } else {
            Err(LockModelErrorKind::ReadOwnedByOther)
        }
    }

    /// What comes of `tx` reading `granule` at `version`.
    pub open spec fn read(self, tx: u64, granule: u8, version: u64) -> (LockView, LockModelStep) {
        match self.resolve(tx, granule, false) {
            Err(kind) => (self, LockModelStep { error_kind: Some(kind), released_owner: None }),
            Ok((next, released_owner)) => if !next.read_versions.contains_key((tx, granule)) {
                (
                    LockView {
                        read_versions: next.read_versions.insert((tx, granule), version),
                        ..next
                    },
                    LockModelStep { error_kind: None, released_owner },
                )
            } else if next.read_versions[(tx, granule)] != version {
                (
                    next,
                    LockModelStep {
                        error_kind: Some(LockModelErrorKind::ReadVersionMismatch),
                        released_owner,
                    },
                )
            } else {
                (next, LockModelStep { error_kind: None, released_owner })
            },
        }
    }

    /// What comes of `tx` taking `granule`, which it expects at `version`, to write it.
    pub open spec fn write(self, tx: u64, granule: u8, version: u64) -> (LockView, LockModelStep) {
        match self.resolve(tx, granule, true) {
            Err(kind) => (self, LockModelStep { error_kind: Some(kind), released_owner: None }),
            Ok((next, released_owner)) => if next.read_versions.contains_key((tx, granule))
                && next.read_versions[(tx, granule)] != version {
                (
                    next,
                    LockModelStep {
                        error_kind: Some(LockModelErrorKind::WriteVersionMismatch),
                        released_owner,
                    },
                )
            } else {
                (
                    LockView {
                        owners: next.owners.insert(granule, tx),
                        owner_sets: next.owner_sets.insert(tx, next.owned_by(tx).insert(granule)),
                        ..next
                    },
                    LockModelStep { error_kind: None, released_owner },
                )
            },
        }
    }

    /// What comes of an operation.
    pub open spec fn apply(self, op: LockModelOp) -> (LockView, LockModelStep) {
        match op {
            LockModelOp::Read { tx, granule, version } => self.read(tx, granule, version),
            LockModelOp::Write { tx, granule, version } => self.write(tx, granule, version),
            LockModelOp::Abort { tx } | LockModelOp::Release { tx } => (
                self.release(tx),
                LockModelStep { error_kind: None, released_owner: None },
            ),
        }
    }

    /// The state after some operations.
    pub open spec fn apply_all(self, ops: Seq<LockModelOp>) -> LockView
        decreases ops.len(),
    {
        if ops.len() == 0 {
            self
        } else {
            self.apply_all(ops.drop_last()).apply(ops.last()).0
        }
    }
}

/// A transaction that let go of everything holds nothing, and the rest stays as it was.
pub proof fn law_release_clears(state: LockView, tx: u64)
    requires
        state.is_consistent(),
    ensures
        state.release(tx).is_consistent(),
        state.release(tx).is_clear_of(tx),
        forall|granule: u8|
            state.owners.contains_key(granule) && state.owners[granule] != tx ==> {
                &&& #[trigger] state.release(tx).owners.contains_key(granule)
                &&& state.release(tx).owners[granule] == state.owners[granule]
            },
        forall|other: u64, granule: u8|
            other != tx && state.read_versions.contains_key((other, granule)) ==> {
                &&& #[trigger] state.release(tx).read_versions.contains_key((other, granule))
                &&& state.release(tx).read_versions[(other, granule)] == state.read_versions[(
                    other,
                    granule,
                )]
            },
{
    let next = state.release(tx);
    assert forall|granule: u8| #[trigger] state.owned_by(tx).contains(granule) implies state.owns(
        tx,
        granule,
    ) by {
        assert(state.is_sound_set(tx));
    }
    assert forall|granule: u8| #[trigger] next.owners.contains_key(granule) implies next.is_backed(
        granule,
    ) && next.owners[granule] != tx by {
        assert(state.owners.contains_key(granule));
        assert(state.is_backed(granule));
    }
    assert forall|other: u64| #[trigger] next.owner_sets.contains_key(other) implies
        next.is_sound_set(other) by {
        assert(state.owner_sets.contains_key(other));
        assert(state.is_sound_set(other));
        let member = choose|member: u8| state.owner_sets[other].contains(member);
        assert(next.owner_sets[other].contains(member));
        assert forall|granule: u8| #[trigger]
            next.owner_sets[other].contains(granule) implies next.owns(other, granule) by {
            assert(state.owner_sets[other].contains(granule));
            assert(state.owns(other, granule));
        }
    }
}

/// No operation makes owners and owner sets disagree.
pub proof fn law_apply_keeps_consistent(state: LockView, op: LockModelOp)
    requires
        state.is_consistent(),
    ensures
        state.apply(op).0.is_consistent(),
{
    match op {
        LockModelOp::Read { tx, granule, version } => {
            if state.owners.contains_key(granule) {
                law_release_clears(state, state.owners[granule]);
            }
            if state.resolve(tx, granule, false) is Ok {
                let resolved = (state.resolve(tx, granule, false)->Ok_0).0;
                lemma_reads_do_not_matter(resolved, state.apply(op).0);
            }
        },
        LockModelOp::Write { tx, granule, version } => {
            if state.owners.contains_key(granule) {
                law_release_clears(state, state.owners[granule]);
            }
            if state.apply(op).1.error_kind is None {
                let resolved = (state.resolve(tx, granule, true)->Ok_0).0;
                lemma_take_keeps_consistent(resolved, state.apply(op).0, tx, granule);
            }
        },
        LockModelOp::Abort { tx } | LockModelOp::Release { tx } => {
            law_release_clears(state, tx);
        },
    }
}

proof fn lemma_reads_do_not_matter(state: LockView, next: LockView)
    requires
        state.is_consistent(),
        next.owners == state.owners,
        next.owner_sets == state.owner_sets,
    ensures
        next.is_consistent(),
{
    assert forall|granule: u8| #[trigger] next.owners.contains_key(granule) implies next.is_backed(
        granule,
    ) by {
        assert(state.is_backed(granule));
    }
    assert forall|tx: u64| #[trigger] next.owner_sets.contains_key(tx) implies next.is_sound_set(
        tx,
    ) by {
        assert(state.is_sound_set(tx));
        assert forall|granule: u8| #[trigger]
            next.owner_sets[tx].contains(granule) implies next.owns(tx, granule) by {
            assert(state.owns(tx, granule));
        }
    }
}

proof fn lemma_take_keeps_consistent(state: LockView, next: LockView, tx: u64, granule: u8)
    requires
        state.is_consistent(),
        state.owners.contains_key(granule) ==> state.owners[granule] == tx,
        next.owners == state.owners.insert(granule, tx),
        next.owner_sets == state.owner_sets.insert(tx, state.owned_by(tx).insert(granule)),
    ensures
        next.is_consistent(),
{
    assert(next.owner_sets[tx].contains(granule));
    assert forall|other: u8| #[trigger] next.owners.contains_key(other) implies next.is_backed(
        other,
    ) by {
        if other != granule {
            assert(state.owners.contains_key(other));
            assert(state.is_backed(other));
        }
    }
    assert forall|other: u64| #[trigger] next.owner_sets.contains_key(other) implies
        next.is_sound_set(other) by {
        if state.owner_sets.contains_key(other) {
            assert(state.is_sound_set(other));
            let member = choose|member: u8| state.owner_sets[other].contains(member);
            assert(next.owner_sets[other].contains(member));
        }
        assert forall|member: u8| #[trigger]
            next.owner_sets[other].contains(member) implies next.owns(other, member) by {
            if other != tx || member != granule {
                assert(state.owner_sets[other].contains(member));
                assert(state.owns(other, member));
            }
        }
    }
}

/// After any operations the owners and owner sets agree.
pub proof fn law_every_state_is_consistent(ops: Seq<LockModelOp>)
    ensures
        LockView::empty().apply_all(ops).is_consistent(),
    decreases ops.len(),
{
    if ops.len() > 0 {
        law_every_state_is_consistent(ops.drop_last());
        law_apply_keeps_consistent(LockView::empty().apply_all(ops.drop_last()), ops.last());
    }
}

/// Where a granule has an owner, a transaction with a smaller number makes it give way, and
/// one with a larger number is refused and changes nothing.
pub proof fn law_smaller_transaction_wins(state: LockView, tx: u64, granule: u8, version: u64)
    requires
        state.is_consistent(),
        state.owners.contains_key(granule),
        state.owners[granule] != tx,
    ensures
        tx < state.owners[granule] ==> {
            &&& state.read(tx, granule, version).1.released_owner == Some(state.owners[granule])
            &&& state.read(tx, granule, version).0.is_clear_of(state.owners[granule])
            &&& state.write(tx, granule, version).1.released_owner == Some(state.owners[granule])
            &&& state.write(tx, granule, version).0.is_clear_of(state.owners[granule])
        },
        tx > state.owners[granule] ==> {
            &&& state.read(tx, granule, version).0 == state
            &&& state.read(tx, granule, version).1.error_kind == Some(
                LockModelErrorKind::ReadOwnedByOther,
            )
            &&& state.write(tx, granule, version).0 == state
            &&& state.write(tx, granule, version).1.error_kind == Some(
                LockModelErrorKind::WriteOwnedByOther,
            )
        },
{
    law_release_clears(state, state.owners[granule]);
}

/// A granule that was taken belongs to the transaction that took it.
pub proof fn law_write_takes(state: LockView, tx: u64, granule: u8, version: u64)
    ensures
        state.write(tx, granule, version).1.error_kind is None ==> state.write(
            tx,
            granule,
            version,
        ).0.owns(tx, granule),
{
}

/// The version of the first read stays, whatever later reads of the transaction claim.
pub proof fn law_first_read_stays(state: LockView, tx: u64, granule: u8, version: u64)
    requires
        state.read_versions.contains_key((tx, granule)),
    ensures
        state.read(tx, granule, version).0.read_versions.contains_key((tx, granule)),
        state.read(tx, granule, version).0.read_versions[(tx, granule)] == state.read_versions[(
            tx,
            granule,
        )],
{
}

/// No granule is in the owner sets of two transactions.
pub proof fn law_owner_sets_are_disjoint(state: LockView, left: u64, right: u64)
    requires
        state.is_consistent(),
        left != right,
    ensures
        state.owned_by(left).disjoint(state.owned_by(right)),
{
    assert forall|granule: u8|
        !(state.owned_by(left).contains(granule) && state.owned_by(right).contains(granule)) by {
        if state.owned_by(left).contains(granule) && state.owned_by(right).contains(granule) {
            assert(state.is_sound_set(left) && state.is_sound_set(right));
            assert(state.owner_sets[left].contains(granule));
            assert(state.owner_sets[right].contains(granule));
            assert(state.owns(left, granule) && state.owns(right, granule));
        }
    }
}

/// Whose operation it is.
pub open spec fn asking(op: LockModelOp) -> u64 {
    match op {
        LockModelOp::Read { tx, .. } => tx,
        LockModelOp::Write { tx, .. } => tx,
        LockModelOp::Abort { tx } => tx,
        LockModelOp::Release { tx } => tx,
    }
}

/// Whoever neither asks nor has to give way keeps what they hold, and gets nothing.
pub proof fn law_bystanders_keep_what_they_hold(state: LockView, op: LockModelOp, other: u64)
    requires
        state.is_consistent(),
        other != asking(op),
        state.apply(op).1.released_owner != Some(other),
    ensures
        state.apply(op).0.owned_by(other) == state.owned_by(other),
        forall|granule: u8|
            #![trigger state.apply(op).0.read_versions.contains_key((other, granule))]
            #![trigger state.read_versions.contains_key((other, granule))]
            {
                &&& state.apply(op).0.read_versions.contains_key((other, granule))
                    == state.read_versions.contains_key((other, granule))
                &&& state.read_versions.contains_key((other, granule)) ==> state.apply(
                    op,
                ).0.read_versions[(other, granule)] == state.read_versions[(other, granule)]
            },
{
}

/// The state of the locks.
#[derive(Clone, Debug, PartialEq, Eq)]
pub struct LockModelState {
    /// Who may write a granule.
    pub owners: BTreeMap<u8, u64>,
    /// Which granules a transaction may write.
    pub owner_sets: BTreeMap<u64, BTreeSet<u8>>,
    /// At which version a transaction has read each granule that it has read.
    pub read_versions: BTreeMap<u64, BTreeMap<u8, u64>>,
}

impl View for LockModelState {
    type V = LockView;

    open spec fn view(&self) -> LockView {
        LockView {
            owners: self.owners@,
            owner_sets: self.owner_sets@.map_values(|granules: BTreeSet<u8>| granules@),
            read_versions: Map::new(
                |read: (u64, u8)|
                    self.read_versions@.contains_key(read.0)
                        && self.read_versions@[read.0]@.contains_key(read.1),
                |read: (u64, u8)| self.read_versions@[read.0]@[read.1],
            ),
        }
    }
}

impl Default for LockModelState {
    fn default() -> (state: LockModelState)
        ensures
            state@ == LockView::empty(),
    {
        let state = LockModelState {
            owners: BTreeMap::new(),
            owner_sets: BTreeMap::new(),
            read_versions: BTreeMap::new(),
        };
        assert(state@ =~= LockView::empty());
        state
    }
}

impl LockModelState {
    /// A state of its own that is the same.
    pub fn copy(&self) -> (state: LockModelState)
        ensures
            state@ == self@,
    {
        let state = LockModelState {
            owners: self.owners.clone(),
            owner_sets: self.owner_sets.clone(),
            read_versions: self.read_versions.clone(),
        };
        assert(state@ =~= self@);
        state
    }

    /// Does what an operation asks for, and says what came of it.
    pub fn apply(&mut self, op: LockModelOp) -> (step: LockModelStep)
        requires
            old(self)@.allows(op),
        ensures
            (final(self)@, step) == old(self)@.apply(op),
            old(self)@.is_consistent() ==> final(self)@.is_consistent(),
    {
        proof {
            if self@.is_consistent() {
                law_apply_keeps_consistent(self@, op);
            }
        }
        match op {
            LockModelOp::Read { tx, granule, version } => self.record_read(tx, granule, version),
            LockModelOp::Write { tx, granule, version } => self.acquire_write(
                tx,
                granule,
                version,
            ),
            LockModelOp::Abort { tx } | LockModelOp::Release { tx } => {
                self.release_transaction(tx);
                LockModelStep::default()
            },
        }
    }

    /// Records that `tx` read `granule` at `version`.
    pub fn record_read(&mut self, tx: u64, granule: u8, version: u64) -> (step: LockModelStep)
        ensures
            (final(self)@, step) == old(self)@.read(tx, granule, version),
    {
        let mut step = LockModelStep::default();
        match self.resolve_writer_conflict(tx, granule, false) {
            Ok(released_owner) => {
                step.released_owner = released_owner;
            },
            Err(error_kind) => {
                step.error_kind = Some(error_kind);
                return step;
            },
        }
        match self.read_version(tx, granule) {
            None => {
                self.set_read_version(tx, granule, version);
            },
            Some(current) => {
                if current != version {
                    step.error_kind = Some(LockModelErrorKind::ReadVersionMismatch);
                }
            },
        }
        step
    }

    /// Takes `granule`, which `tx` expects at `version`, for `tx`.
    pub fn acquire_write(&mut self, tx: u64, granule: u8, version: u64) -> (step: LockModelStep)
        requires
            old(self)@.allows_write(tx, granule, version),
        ensures
            (final(self)@, step) == old(self)@.write(tx, granule, version),
    {
        let mut step = LockModelStep::default();
        match self.resolve_writer_conflict(tx, granule, true) {
            Ok(released_owner) => {
                step.released_owner = released_owner;
            },
            Err(error_kind) => {
                step.error_kind = Some(error_kind);
                return step;
            },
        }
        if let Some(current) = self.read_version(tx, granule) {
            if current != version {
                step.error_kind = Some(LockModelErrorKind::WriteVersionMismatch);
                return step;
            }
        }
        let ghost resolved = self@;
        self.owners.insert(granule, tx);
        let mut granules: BTreeSet<u8> = match self.owner_sets.remove(&tx) {
            Some(granules) => granules,
            None => BTreeSet::new(),
        };
        assert(granules@ =~= resolved.owned_by(tx));
        granules.insert(granule);
        self.owner_sets.insert(tx, granules);
        assert(self@.owners =~= resolved.owners.insert(granule, tx));
        assert(self@.owner_sets =~= resolved.owner_sets.insert(
            tx,
            resolved.owned_by(tx).insert(granule),
        ));
        assert(self@.read_versions =~= resolved.read_versions);
        step
    }

    /// Gets `tx` past the owner of `granule`, and says who had to give way.
    pub fn resolve_writer_conflict(&mut self, tx: u64, granule: u8, is_write: bool) -> (resolved:
        Result<Option<u64>, LockModelErrorKind>)
        ensures
            match old(self)@.resolve(tx, granule, is_write) {
                Ok((next, released_owner)) => final(self)@ == next && resolved == Ok::<
                    Option<u64>,
                    LockModelErrorKind,
                >(released_owner),
                Err(kind) => final(self)@ == old(self)@ && resolved == Err::<
                    Option<u64>,
                    LockModelErrorKind,
                >(kind),
            },
    {
        let owner: u64 = match self.owners.get(&granule) {
            Some(owner) => *owner,
            None => return Ok(None),
        };
        if owner == tx {
            return Ok(None);
        }
        if tx < owner {
            self.release_transaction(owner);
            return Ok(Some(owner));
        }
        if is_write {
            Err(LockModelErrorKind::WriteOwnedByOther)
        } else {
            Err(LockModelErrorKind::ReadOwnedByOther)
        }
    }

    /// Lets go of everything that `tx` holds.
    pub fn release_transaction(&mut self, tx: u64)
        ensures
            final(self)@ == old(self)@.release(tx),
    {
        let ghost before = self@;
        if let Some(granules) = self.owner_sets.remove(&tx) {
            let members: Vec<u8> = u8_members(&granules);
            let mut index: usize = 0;
            let ghost owners = self.owners@;
            let ghost owner_sets = self.owner_sets@;
            let ghost read_versions = self.read_versions@;
            while index < members.len()
                invariant
                    index <= members@.len(),
                    self.owner_sets@ == owner_sets,
                    self.read_versions@ == read_versions,
                    self.owners@ == owners.remove_keys(members@.take(index as int).to_set()),
                decreases members@.len() - index,
            {
                let granule: u8 = members[index];
                self.owners.remove(&granule);
                index += 1;
                proof {
                    let taken = members@.take(index as int);
                    assert(taken =~= members@.take(index - 1).push(granule));
                    let fewer = members@.take(index - 1);
                    assert forall|member: u8|
                        taken.to_set().contains(member) == fewer.to_set().insert(granule).contains(
                            member,
                        ) by {
                        if member == granule {
                            assert(taken[index - 1] == member);
                        } else if fewer.contains(member) {
                            let at = choose|at: int| 0 <= at < fewer.len() && fewer[at] == member;
                            assert(taken[at] == member);
                        }
                    }
                    assert(taken.to_set() =~= fewer.to_set().insert(granule));
                    assert(self.owners@ =~= owners.remove_keys(taken.to_set()));
                }
            }
            proof {
                assert(members@.take(index as int) =~= members@);
                assert(members@.to_set() =~= granules@);
            }
        } else {
            assert(self.owners@ =~= before.owners.remove_keys(Set::empty()));
        }
        assert(self@.owner_sets =~= before.owner_sets.remove(tx));
        self.read_versions.remove(&tx);
        assert(self@ =~= before.release(tx));
    }

    /// The version at which `tx` has read `granule`.
    pub fn read_version(&self, tx: u64, granule: u8) -> (version: Option<u64>)
        ensures
            version == self@.read_versions.get((tx, granule)),
    {
        match self.read_versions.get(&tx) {
            Some(versions) => match versions.get(&granule) {
                Some(version) => Some(*version),
                None => None,
            },
            None => None,
        }
    }

    /// Notes that `tx` has read `granule` at `version`.
    pub fn set_read_version(&mut self, tx: u64, granule: u8, version: u64)
        ensures
            final(self)@ == (LockView {
                read_versions: old(self)@.read_versions.insert((tx, granule), version),
                ..old(self)@
            }),
    {
        let ghost before = self@;
        let mut versions: BTreeMap<u8, u64> = match self.read_versions.remove(&tx) {
            Some(versions) => versions,
            None => BTreeMap::new(),
        };
        versions.insert(granule, version);
        self.read_versions.insert(tx, versions);
        assert(self@.read_versions =~= before.read_versions.insert((tx, granule), version));
        assert(self@.owner_sets =~= before.owner_sets);
    }
}

/// Whether `after` has the owners and owner sets of `before`, but for those of the
/// transaction that is gone, if one is.
pub open spec fn owners_but_for(after: LockView, before: LockView, gone: Option<u64>) -> bool {
    &&& forall|granule: u8|
        #![trigger after.owners.contains_key(granule)]
        #![trigger before.owners.contains_key(granule)]
        {
            &&& after.owners.contains_key(granule) <==> before.owners.contains_key(granule) && gone
                != Some(before.owners[granule])
            &&& after.owners.contains_key(granule) ==> after.owners[granule]
                == before.owners[granule]
        }
    &&& forall|tx: u64|
        #![trigger after.owner_sets.contains_key(tx)]
        #![trigger before.owner_sets.contains_key(tx)]
        {
            &&& after.owner_sets.contains_key(tx) <==> before.owner_sets.contains_key(tx) && gone
                != Some(tx)
            &&& after.owner_sets.contains_key(tx) ==> after.owner_sets[tx]
                == before.owner_sets[tx]
        }
}

/// Whether `after` has the reads of `before`, but for those of the transaction that is gone,
/// if one is.
pub open spec fn reads_but_for(after: LockView, before: LockView, gone: Option<u64>) -> bool {
    forall|tx: u64, granule: u8|
        #![trigger after.read_versions.contains_key((tx, granule))]
        #![trigger before.read_versions.contains_key((tx, granule))]
        {
            &&& after.read_versions.contains_key((tx, granule))
                <==> before.read_versions.contains_key((tx, granule)) && gone != Some(tx)
            &&& after.read_versions.contains_key((tx, granule)) ==> after.read_versions[(
                tx,
                granule,
            )] == before.read_versions[(tx, granule)]
        }
}

proof fn lemma_release_but_for(state: LockView, tx: u64)
    requires
        state.is_consistent(),
    ensures
        owners_but_for(state.release(tx), state, Some(tx)),
        reads_but_for(state.release(tx), state, Some(tx)),
{
    let after = state.release(tx);
    law_release_clears(state, tx);
    assert forall|granule: u8|
        #![trigger after.owners.contains_key(granule)]
        #![trigger state.owners.contains_key(granule)]
        {
            &&& after.owners.contains_key(granule) <==> state.owners.contains_key(granule)
                && state.owners[granule] != tx
            &&& after.owners.contains_key(granule) ==> after.owners[granule]
                == state.owners[granule]
        } by {
        if state.owners.contains_key(granule) && state.owners[granule] == tx {
            assert(state.is_backed(granule));
        }
    }
}

/// A transaction that ends takes its owners, its owner set and its reads with it, and nobody
/// else's; and ending is never refused.
pub proof fn law_ending_takes_everything(state: LockView, tx: u64)
    requires
        state.is_consistent(),
    ensures
        owners_but_for(state.apply(LockModelOp::Abort { tx }).0, state, Some(tx)),
        reads_but_for(state.apply(LockModelOp::Abort { tx }).0, state, Some(tx)),
        state.apply(LockModelOp::Release { tx }) == state.apply(LockModelOp::Abort { tx }),
        state.apply(LockModelOp::Abort { tx }).0 == state.release(tx),
        state.apply(LockModelOp::Abort { tx }).1 == (LockModelStep {
            error_kind: None,
            released_owner: None,
        }),
{
    lemma_release_but_for(state, tx);
}

/// What comes of a read: an owner with a smaller number refuses it and nothing changes. An
/// owner with a larger number loses everything. The version of the first read is noted, and a
/// later read at another version is refused.
pub proof fn law_read_answers(state: LockView, tx: u64, granule: u8, version: u64)
    requires
        state.is_consistent(),
    ensures
        ({
            let (after, step) = state.apply(LockModelOp::Read { tx, granule, version });
            let is_owned = state.owners.contains_key(granule);
            let is_refused = is_owned && state.owners[granule] < tx;
            let released = if is_owned && state.owners[granule] > tx {
                Some(state.owners[granule])
            } else {
                None
            };
            let is_known = state.read_versions.contains_key((tx, granule));
            &&& state.read(tx, granule, version) == (after, step)
            &&& step.released_owner == released
            &&& step.error_kind == (if is_refused {
                Some(LockModelErrorKind::ReadOwnedByOther)
            } else if is_known && state.read_versions[(tx, granule)] != version {
                Some(LockModelErrorKind::ReadVersionMismatch)
            } else {
                None
            })
            &&& owners_but_for(after, state, released)
            &&& is_refused ==> after == state
            &&& !is_refused ==> {
                &&& after.read_versions.contains_key((tx, granule))
                &&& after.read_versions[(tx, granule)] == (if is_known {
                    state.read_versions[(tx, granule)]
                } else {
                    version
                })
                &&& forall|other: u64, at: u8|
                    #![trigger after.read_versions.contains_key((other, at))]
                    #![trigger state.read_versions.contains_key((other, at))]
                    (other, at) != (tx, granule) ==> {
                        &&& after.read_versions.contains_key((other, at))
                            <==> state.read_versions.contains_key((other, at)) && released != Some(
                            other,
                        )
                        &&& after.read_versions.contains_key((other, at)) ==> after.read_versions[(
                            other,
                            at,
                        )] == state.read_versions[(other, at)]
                    }
            }
        }),
{
    if state.owners.contains_key(granule) && state.owners[granule] > tx {
        lemma_release_but_for(state, state.owners[granule]);
    }
}

/// What comes of taking a granule: an owner with a smaller number refuses it and nothing
/// changes. An owner with a larger number loses everything. If the granule was read at another
/// version, that is all that changes and the transaction is refused; otherwise it owns the
/// granule too.
pub proof fn law_write_answers(state: LockView, tx: u64, granule: u8, version: u64)
    requires
        state.is_consistent(),
    ensures
        ({
            let (after, step) = state.apply(LockModelOp::Write { tx, granule, version });
            let is_owned = state.owners.contains_key(granule);
            let is_refused = is_owned && state.owners[granule] < tx;
            let is_stale = state.read_versions.contains_key((tx, granule))
                && state.read_versions[(tx, granule)] != version;
            let released = if is_owned && state.owners[granule] > tx {
                Some(state.owners[granule])
            } else {
                None
            };
            &&& state.write(tx, granule, version) == (after, step)
            &&& step.released_owner == released
            &&& step.error_kind == (if is_refused {
                Some(LockModelErrorKind::WriteOwnedByOther)
            } else if is_stale {
                Some(LockModelErrorKind::WriteVersionMismatch)
            } else {
                None
            })
            &&& reads_but_for(after, state, released)
            &&& is_refused ==> after == state
            &&& is_stale ==> owners_but_for(after, state, released)
            &&& !is_refused && !is_stale ==> {
                &&& after.owners.contains_key(granule)
                &&& after.owners[granule] == tx
                &&& forall|other: u8|
                    #![trigger after.owners.contains_key(other)]
                    #![trigger state.owners.contains_key(other)]
                    other != granule ==> {
                        &&& after.owners.contains_key(other) <==> state.owners.contains_key(other)
                            && released != Some(state.owners[other])
                        &&& after.owners.contains_key(other) ==> after.owners[other]
                            == state.owners[other]
                    }
                &&& after.owner_sets.contains_key(tx)
                &&& after.owner_sets[tx].contains(granule)
                &&& forall|other: u8| #[trigger]
                    after.owner_sets[tx].contains(other) <==> other == granule
                        || state.owner_sets.contains_key(tx) && state.owner_sets[tx].contains(other)
                &&& forall|other: u64|
                    #![trigger after.owner_sets.contains_key(other)]
                    #![trigger state.owner_sets.contains_key(other)]
                    other != tx ==> {
                        &&& after.owner_sets.contains_key(other) <==> state.owner_sets.contains_key(
                            other,
                        ) && released != Some(other)
                        &&& after.owner_sets.contains_key(other) ==> after.owner_sets[other]
                            == state.owner_sets[other]
                    }
            }
        }),
{
    if state.owners.contains_key(granule) && state.owners[granule] > tx {
        lemma_release_but_for(state, state.owners[granule]);
    }
}

/// A granule that nobody else owns can be taken exactly at the version at which the
/// transaction has read it; and at every version, if the transaction has not read it. A stale
/// version is refused, and leaves the owners as they were.
pub proof fn law_stale_writes_are_refused(state: LockView, tx: u64, granule: u8, version: u64)
    requires
        state.owners.contains_key(granule) ==> state.owners[granule] == tx,
    ensures
        ({
            let (after, step) = state.apply(LockModelOp::Write { tx, granule, version });
            let is_read = state.read_versions.contains_key((tx, granule));
            &&& is_read && state.read_versions[(tx, granule)] != version ==> {
                &&& step.error_kind == Some(LockModelErrorKind::WriteVersionMismatch)
                &&& after.owners == state.owners
                &&& after.owner_sets == state.owner_sets
            }
            &&& is_read && state.read_versions[(tx, granule)] == version || !is_read ==> {
                &&& step.error_kind is None
                &&& after.owners.contains_key(granule)
                &&& after.owners[granule] == tx
            }
            &&& after.read_versions == state.read_versions
        }),
{
}

/// A transaction that read a granule at a version can read it again at that version and no
/// other, until it ends.
pub proof fn law_reads_repeat(state: LockView, tx: u64, granule: u8, first: u64, second: u64)
    requires
        state.is_consistent(),
        state.apply(LockModelOp::Read { tx, granule, version: first }).1.error_kind is None,
    ensures
        ({
            let after = state.apply(LockModelOp::Read { tx, granule, version: first }).0;
            &&& after.apply(LockModelOp::Read { tx, granule, version: second }).1.error_kind
                is None <==> second == first
            &&& after.apply(LockModelOp::Write { tx, granule, version: second }).1.error_kind
                is None <==> second == first
        }),
{
    law_read_answers(state, tx, granule, first);
    let after = state.apply(LockModelOp::Read { tx, granule, version: first }).0;
    law_apply_keeps_consistent(state, LockModelOp::Read { tx, granule, version: first });
    law_read_answers(after, tx, granule, second);
    law_write_answers(after, tx, granule, second);
    assert(after.owners.contains_key(granule) ==> state.owners.contains_key(granule));
}

/// Owners and owner sets agree exactly if the granules of each set are those that its
/// transaction owns, and no set is empty.
pub proof fn law_consistency_means(state: LockView)
    ensures
        state.is_consistent() <==> {
            &&& forall|tx: u64, granule: u8|
                #![trigger state.owner_sets[tx].contains(granule)]
                state.owner_sets.contains_key(tx) && state.owner_sets[tx].contains(granule)
                    ==> state.owners.contains_key(granule) && state.owners[granule] == tx
            &&& forall|granule: u8| #[trigger]
                state.owners.contains_key(granule) ==> state.owner_sets.contains_key(
                    state.owners[granule],
                ) && state.owner_sets[state.owners[granule]].contains(granule)
            &&& forall|tx: u64| #[trigger]
                state.owner_sets.contains_key(tx) ==> exists|granule: u8|
                    state.owner_sets[tx].contains(granule)
        },
{
    if state.is_consistent() {
        assert forall|tx: u64, granule: u8|
            #![trigger state.owner_sets[tx].contains(granule)]
            state.owner_sets.contains_key(tx) && state.owner_sets[tx].contains(
                granule,
            ) implies state.owners.contains_key(granule) && state.owners[granule] == tx by {
            assert(state.is_sound_set(tx));
            assert(state.owns(tx, granule));
        }
        assert forall|granule: u8| #[trigger] state.owners.contains_key(granule) implies
            state.owner_sets.contains_key(state.owners[granule])
            && state.owner_sets[state.owners[granule]].contains(granule) by {
            assert(state.is_backed(granule));
        }
        assert forall|tx: u64| #[trigger] state.owner_sets.contains_key(tx) implies exists|
            granule: u8,
        | state.owner_sets[tx].contains(granule) by {
            assert(state.is_sound_set(tx));
        }
    }
    if {
        &&& forall|tx: u64, granule: u8|
            #![trigger state.owner_sets[tx].contains(granule)]
            state.owner_sets.contains_key(tx) && state.owner_sets[tx].contains(granule)
                ==> state.owners.contains_key(granule) && state.owners[granule] == tx
        &&& forall|granule: u8| #[trigger]
            state.owners.contains_key(granule) ==> state.owner_sets.contains_key(
                state.owners[granule],
            ) && state.owner_sets[state.owners[granule]].contains(granule)
        &&& forall|tx: u64| #[trigger]
            state.owner_sets.contains_key(tx) ==> exists|granule: u8|
                state.owner_sets[tx].contains(granule)
    } {
        assert forall|tx: u64| #[trigger] state.owner_sets.contains_key(tx) implies
            state.is_sound_set(tx) by {
            assert forall|granule: u8| #[trigger]
                state.owner_sets[tx].contains(granule) implies state.owns(tx, granule) by {}
        }
    }
}

/// The locks give the reasons that the model gives.
pub proof fn law_reasons_keep_their_names(kind: LockModelErrorKind)
    ensures
        kind.actual() is ReadOwnedByOther <==> kind is ReadOwnedByOther,
        kind.actual() is ReadVersionMismatch <==> kind is ReadVersionMismatch,
        kind.actual() is WriteOwnedByOther <==> kind is WriteOwnedByOther,
        kind.actual() is WriteVersionMismatch <==> kind is WriteVersionMismatch,
{
}

/// A state in which nobody holds anything: it is what every run starts from.
pub proof fn law_empty_state_holds_nothing(tx: u64, granule: u8)
    ensures
        !LockView::empty().owners.contains_key(granule),
        !LockView::empty().owner_sets.contains_key(tx),
        !LockView::empty().read_versions.contains_key((tx, granule)),
{
}

/// Operations are done one after the other, from the first to the last.
pub proof fn law_operations_are_done_in_order(
    state: LockView,
    first: Seq<LockModelOp>,
    second: Seq<LockModelOp>,
    op: LockModelOp,
)
    ensures
        state.apply_all(Seq::empty()) == state,
        state.apply_all(seq![op]) == state.apply(op).0,
        state.apply_all(first + second) == state.apply_all(first).apply_all(second),
    decreases second.len(),
{
    assert(seq![op].drop_last() =~= Seq::empty());
    assert(state.apply_all(seq![op].drop_last()) == state);
    if second.len() == 0 {
        assert(first + second =~= first);
    } else {
        law_operations_are_done_in_order(state, first, second.drop_last(), op);
        assert((first + second).drop_last() =~= first + second.drop_last());
    }
}

/// Letting go in any state: a granule in the transaction's owner set has no owner any more, the
/// set is gone, and so are the transaction's reads. Everything else stays.
pub proof fn law_release_in_any_state(state: LockView, tx: u64, granule: u8, other: u64)
    ensures
        ({
            let after = state.release(tx);
            let is_claimed = state.owner_sets.contains_key(tx) && state.owner_sets[tx].contains(
                granule,
            );
            &&& after.owners.contains_key(granule) <==> state.owners.contains_key(granule)
                && !is_claimed
            &&& after.owners.contains_key(granule) ==> after.owners[granule]
                == state.owners[granule]
            &&& after.owner_sets.contains_key(other) <==> state.owner_sets.contains_key(other)
                && other != tx
            &&& after.owner_sets.contains_key(other) ==> after.owner_sets[other]
                == state.owner_sets[other]
            &&& after.read_versions.contains_key((other, granule))
                <==> state.read_versions.contains_key((other, granule)) && other != tx
            &&& after.read_versions.contains_key((other, granule)) ==> after.read_versions[(
                other,
                granule,
            )] == state.read_versions[(other, granule)]
        }),
{
}

/// Who wants a granule that nobody else owns gets past; an owner with a larger number lets go
/// of everything, and one with a smaller number refuses.
pub proof fn law_conflicts_in_any_state(state: LockView, tx: u64, granule: u8, is_write: bool)
    ensures
        ({
            let resolved = state.resolve(tx, granule, is_write);
            if !state.owners.contains_key(granule) || state.owners[granule] == tx {
                resolved == Ok::<(LockView, Option<u64>), LockModelErrorKind>((state, None))
            } else if state.owners[granule] > tx {
                resolved == Ok::<(LockView, Option<u64>), LockModelErrorKind>(
                    (state.release(state.owners[granule]), Some(state.owners[granule])),
                )
            } else if is_write {
                resolved == Err::<(LockView, Option<u64>), LockModelErrorKind>(
                    LockModelErrorKind::WriteOwnedByOther,
                )
            } else {
                resolved == Err::<(LockView, Option<u64>), LockModelErrorKind>(
                    LockModelErrorKind::ReadOwnedByOther,
                )
            }
        }),
{
}

/// A read in any state: whoever gets past the owner has the granule noted at the version, if it
/// was not noted before, and is refused if it was noted at another one.
pub proof fn law_read_in_any_state(state: LockView, tx: u64, granule: u8, version: u64)
    ensures
        ({
            let (after, step) = state.read(tx, granule, version);
            match state.resolve(tx, granule, false) {
                Err(kind) => after == state && step.error_kind == Some(kind) && step.released_owner
                    is None,
                Ok((next, released)) => {
                    let is_known = next.read_versions.contains_key((tx, granule));
                    &&& step.released_owner == released
                    &&& step.error_kind == (if is_known && next.read_versions[(tx, granule)]
                        != version {
                        Some(LockModelErrorKind::ReadVersionMismatch)
                    } else {
                        None
                    })
                    &&& after.owners == next.owners
                    &&& after.owner_sets == next.owner_sets
                    &&& is_known ==> after.read_versions == next.read_versions
                    &&& !is_known ==> after.read_versions == next.read_versions.insert(
                        (tx, granule),
                        version,
                    )
                },
            }
        }),
{
}

/// A write in any state: whoever gets past the owner and has not read the granule at another
/// version owns it, and has it in its owner set.
pub proof fn law_write_in_any_state(state: LockView, tx: u64, granule: u8, version: u64)
    ensures
        ({
            let (after, step) = state.write(tx, granule, version);
            match state.resolve(tx, granule, true) {
                Err(kind) => after == state && step.error_kind == Some(kind) && step.released_owner
                    is None,
                Ok((next, released)) => {
                    let is_stale = next.read_versions.contains_key((tx, granule))
                        && next.read_versions[(tx, granule)] != version;
                    &&& step.released_owner == released
                    &&& step.error_kind == (if is_stale {
                        Some(LockModelErrorKind::WriteVersionMismatch)
                    } else {
                        None
                    })
                    &&& after.read_versions == next.read_versions
                    &&& is_stale ==> after == next
                    &&& !is_stale ==> {
                        &&& after.owners == next.owners.insert(granule, tx)
                        &&& after.owner_sets.remove(tx) == next.owner_sets.remove(tx)
                        &&& after.owner_sets.contains_key(tx)
                        &&& forall|other: u8| #[trigger]
                            after.owner_sets[tx].contains(other) <==> other == granule
                                || next.owner_sets.contains_key(tx) && next.owner_sets[tx].contains(
                                other,
                            )
                    }
                },
            }
        }),
{
    let (after, step) = state.write(tx, granule, version);
    if step.error_kind is None {
        let next = (state.resolve(tx, granule, true)->Ok_0).0;
        assert(after.owner_sets.remove(tx) =~= next.owner_sets.remove(tx));
    }
}

/// A state and its mathematical value say the same.
pub proof fn law_view_of_states(state: LockModelState, tx: u64, granule: u8)
    ensures
        state@.owners == state.owners@,
        state@.owner_sets.contains_key(tx) <==> state.owner_sets@.contains_key(tx),
        state@.owner_sets.contains_key(tx) ==> state@.owner_sets[tx] == state.owner_sets@[tx]@,
        state@.read_versions.contains_key((tx, granule)) <==> state.read_versions@.contains_key(tx)
            && state.read_versions@[tx]@.contains_key(granule),
        state@.read_versions.contains_key((tx, granule)) ==> state@.read_versions[(tx, granule)]
            == state.read_versions@[tx]@[granule],
{
}

} // verus!
