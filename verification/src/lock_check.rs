//! Holds what real locks did against the lock model.

use std::collections::BTreeSet;

use vstd::prelude::*;

use crate::lock_model::{LockConflictKind, LockModelState, LockView};
use crate::ordered::{u64_keys, u8_keys, u8_members};
use crate::values::GranuleId;

verus! {

/// How a state of the locks, or what they did, departs from the model.
#[derive(Clone, Copy, Debug, PartialEq, Eq, Structural)]
pub enum LockModelMismatch {
    /// The locks did not start out empty.
    InitialState,
    /// A granule that the model knows nothing of.
    UnexpectedGranule { id: GranuleId },
    /// The index of a granule does not fit the model.
    GranuleIndexTooLarge { granule_index: u64 },
    /// A granule outside the model's domain.
    GranuleOutsideDomain { granule: u8 },
    /// The owner sets have more or fewer granules than there are owned ones.
    OwnerCount { owner_count: u128, owners: usize },
    /// A granule has an owner whose owner set lacks the granule.
    OwnerSetDisagrees { tx: u64, granule: u8 },
    /// A transaction has an owner set with nothing in it.
    EmptyOwnerSet { tx: u64 },
    /// An owner set has a granule that is not its transaction's.
    OwnerMapDisagrees { tx: u64, granule: u8 },
    /// The locks are in another state than the model.
    Diverged,
    /// The locks did what the model refuses.
    UnexpectedSuccess { expected: LockConflictKind },
    /// The locks refused for another reason than the model.
    WrongError { expected: LockConflictKind, actual: LockConflictKind },
    /// The locks refused what the model does.
    UnexpectedError { actual: LockConflictKind },
    /// A transaction that gave way still has an owner set.
    ReleasedOwnerSet { tx: u64 },
    /// A transaction that gave way still owns a granule.
    ReleasedOwnerMap { tx: u64 },
    /// A transaction that gave way still has a read version.
    ReleasedReadSet { tx: u64 },
    /// A transaction that ended still has an owner set.
    ClearedOwnerSet { tx: u64 },
    /// A transaction that ended still owns a granule.
    ClearedOwnerMap { tx: u64 },
    /// A transaction that ended still has a read version.
    ClearedReadVersions { tx: u64 },
    /// A refused read changed the owner of the granule.
    FailedReadChangedOwner { granule: u8 },
    /// A refused read changed the version of the first read.
    FailedReadChangedVersion { tx: u64, granule: u8 },
    /// A refused write changed the owner of the granule.
    FailedWriteChangedOwner { granule: u8 },
    /// Nothing was observed of a schedule.
    MissingObservation,
}

impl LockView {
    /// The granules that owner sets have, each with the transaction whose set it is.
    pub open spec fn claims(self) -> Set<(u64, u8)> {
        Set::new(
            |claim: (u64, u8)|
                self.owner_sets.contains_key(claim.0) && self.owner_sets[claim.0].contains(claim.1),
        )
    }

    /// Whether all granules that have an owner are in its owner set.
    pub open spec fn is_all_backed(self) -> bool {
        forall|granule: u8| #[trigger] self.owners.contains_key(granule) ==> self.is_backed(granule)
    }

    /// Whether `mismatch` is the first thing wrong with the state: the number of owned
    /// granules goes first, then the owners by granule, then the owner sets by transaction.
    pub open spec fn is_first_inconsistency(self, mismatch: LockModelMismatch) -> bool {
        match mismatch {
            LockModelMismatch::OwnerCount { owner_count, owners } => {
                &&& owner_count == self.claims().len()
                &&& owners == self.owners.len()
                &&& owner_count != owners
            },
            LockModelMismatch::OwnerSetDisagrees { tx, granule } => {
                &&& self.claims().len() == self.owners.len()
                &&& self.owns(tx, granule)
                &&& !self.is_backed(granule)
                &&& forall|other: u8| #[trigger]
                    self.owners.contains_key(other) && other < granule ==> self.is_backed(other)
            },
            LockModelMismatch::EmptyOwnerSet { tx } => {
                &&& self.claims().len() == self.owners.len()
                &&& self.is_all_backed()
                &&& self.owner_sets.contains_key(tx)
                &&& self.owner_sets[tx] == Set::<u8>::empty()
                &&& forall|other: u64| #[trigger]
                    self.owner_sets.contains_key(other) && other < tx ==> self.is_sound_set(other)
            },
            LockModelMismatch::OwnerMapDisagrees { tx, granule } => {
                &&& self.claims().len() == self.owners.len()
                &&& self.is_all_backed()
                &&& self.owner_sets.contains_key(tx)
                &&& self.owner_sets[tx].contains(granule)
                &&& !self.owns(tx, granule)
                &&& forall|other: u8| #[trigger]
                    self.owner_sets[tx].contains(other) && other < granule ==> self.owns(tx, other)
                &&& forall|other: u64| #[trigger]
                    self.owner_sets.contains_key(other) && other < tx ==> self.is_sound_set(other)
            },
            _ => false,
        }
    }

    /// The first thing wrong with the state, if anything is.
    pub open spec fn first_inconsistency(self) -> Option<LockModelMismatch> {
        if self.is_consistent() {
            None
        } else {
            Some(choose|mismatch: LockModelMismatch| self.is_first_inconsistency(mismatch))
        }
    }
}

/// Only one thing goes first.
proof fn lemma_first_inconsistency(state: LockView, mismatch: LockModelMismatch)
    requires
        state.is_first_inconsistency(mismatch),
        !state.is_consistent(),
    ensures
        state.first_inconsistency() == Some(mismatch),
{
    let chosen = choose|mismatch: LockModelMismatch| state.is_first_inconsistency(mismatch);
    assert(state.is_first_inconsistency(chosen));
    match (chosen, mismatch) {
        (
            LockModelMismatch::OwnerSetDisagrees { tx: left_tx, granule: left },
            LockModelMismatch::OwnerSetDisagrees { tx: right_tx, granule: right },
        ) => {
            assert(state.owners.contains_key(left) && state.owners.contains_key(right));
        },
        (
            LockModelMismatch::OwnerMapDisagrees { tx: left_tx, granule: left },
            LockModelMismatch::OwnerMapDisagrees { tx: right_tx, granule: right },
        ) => {
            assert(left_tx == right_tx);
            assert(left == right);
        },
        _ => {},
    }
    assert(chosen == mismatch);
}

/// There are only so many granules.
proof fn lemma_granules_are_finite(granules: Set<u8>)
    ensures
        granules.finite(),
{
    let all = Seq::new(256, |i: int| i as u8);
    assert forall|granule: u8| all.contains(granule) by {
        assert(all[granule as int] == granule);
    }
    vstd::seq_lib::seq_to_set_is_finite(all);
    assert(granules =~= all.to_set().intersect(granules));
}

/// In a consistent state the owner sets have as many granules as are owned.
proof fn lemma_consistent_claims(state: LockView)
    requires
        state.is_consistent(),
    ensures
        state.claims().finite(),
        state.claims().len() == state.owners.len(),
{
    lemma_granules_are_finite(state.owners.dom());
    let claim = |granule: u8| (state.owners[granule], granule);
    let image = state.owners.dom().map(claim);
    assert forall|member: (u64, u8)| image.contains(member) == state.claims().contains(member) by {
        if state.claims().contains(member) {
            assert(state.is_sound_set(member.0));
            assert(state.owns(member.0, member.1));
            assert(member == claim(member.1));
        }
        if image.contains(member) {
            let granule = choose|granule: u8|
                state.owners.contains_key(granule) && member == claim(granule);
            assert(state.owners.contains_key(granule));
            assert(state.is_backed(granule));
        }
    }
    assert(image =~= state.claims());
    vstd::set_lib::lemma_map_size(state.owners.dom(), image, claim);
}

/// The granules that the owner sets of some transactions have.
spec fn claims_of(state: LockView, txs: Seq<u64>) -> Set<(u64, u8)> {
    Set::new(|claim: (u64, u8)| txs.contains(claim.0) && state.claims().contains(claim))
}

/// One more transaction adds as many claims as it has granules.
proof fn lemma_claims_of_one_more(state: LockView, txs: Seq<u64>, count: int)
    requires
        0 <= count < txs.len(),
        txs.no_duplicates(),
        state.owner_sets.contains_key(txs[count]),
        claims_of(state, txs.take(count)).finite(),
    ensures
        claims_of(state, txs.take(count + 1)).finite(),
        claims_of(state, txs.take(count + 1)).len() == claims_of(state, txs.take(count)).len()
            + state.owner_sets[txs[count]].len(),
{
    let tx = txs[count];
    let granules = state.owner_sets[tx];
    let claim = |granule: u8| (tx, granule);
    let own = granules.map(claim);
    lemma_granules_are_finite(granules);
    vstd::set_lib::lemma_map_size(granules, own, claim);
    let front = txs.take(count);
    let longer = txs.take(count + 1);
    let fewer = claims_of(state, front);
    let more = claims_of(state, longer);
    assert forall|member: (u64, u8)| more.contains(member) == (fewer + own).contains(member) by {
        if more.contains(member) {
            let at = choose|at: int| 0 <= at < longer.len() && longer[at] == member.0;
            if at < count {
                assert(front[at] == member.0);
            } else {
                assert(member == claim(member.1));
            }
        }
        if fewer.contains(member) {
            let at = choose|at: int| 0 <= at < front.len() && front[at] == member.0;
            assert(longer[at] == member.0);
        }
        if own.contains(member) {
            assert(longer[count] == tx);
        }
    }
    assert(more =~= fewer + own);
    assert(fewer.disjoint(own)) by {
        if exists|member: (u64, u8)| fewer.contains(member) && own.contains(member) {
            let member = choose|member: (u64, u8)| fewer.contains(member) && own.contains(member);
            let at = choose|at: int| 0 <= at < front.len() && front[at] == member.0;
            assert(txs[at] == txs[count]);
        }
    }
    vstd::set_lib::lemma_set_disjoint_lens(fewer, own);
}

impl LockModelState {
    /// How many granules the owner sets have.
    fn owner_count(&self) -> (owner_count: u128)
        ensures
            owner_count == self@.claims().len(),
    {
        let txs: Vec<u64> = u64_keys(&self.owner_sets);
        let mut owner_count: u128 = 0;
        let mut index: usize = 0;
        assert(claims_of(self@, txs@.take(0)) =~= Set::empty());
        while index < txs.len()
            invariant
                index <= txs@.len(),
                txs@.no_duplicates(),
                forall|tx: u64| #[trigger]
                    txs@.contains(tx) <==> self.owner_sets@.contains_key(tx),
                claims_of(self@, txs@.take(index as int)).finite(),
                owner_count == claims_of(self@, txs@.take(index as int)).len(),
                owner_count <= index * usize::MAX,
            decreases txs@.len() - index,
        {
            let tx: u64 = txs[index];
            assert(txs@.contains(tx));
            let granules = self.owner_sets.get(&tx).unwrap();
            assert(self@.owner_sets[tx] == granules@);
            proof {
                lemma_claims_of_one_more(self@, txs@, index as int);
                assert(index * usize::MAX + usize::MAX <= 0xffff_ffff_ffff_ffff
                    * 0xffff_ffff_ffff_ffff && index * usize::MAX + usize::MAX == (index + 1)
                    * usize::MAX) by (nonlinear_arith)
                    requires
                        index < 0xffff_ffff_ffff_ffff,
                        usize::MAX <= 0xffff_ffff_ffff_ffff,
                ;
            }
            owner_count += granules.len() as u128;
            index += 1;
        }
        assert(txs@.take(index as int) =~= txs@);
        assert(claims_of(self@, txs@) =~= self@.claims());
        owner_count
    }

    /// Fails if owners and owner sets disagree.
    pub fn assert_internal_invariants(&self) -> (checked: Result<(), LockModelMismatch>)
        ensures
            checked == (match self@.first_inconsistency() {
                Some(mismatch) => Err::<(), LockModelMismatch>(mismatch),
                None => Ok(()),
            }),
            checked matches Err(mismatch) ==> self@.is_first_inconsistency(mismatch),
    {
        proof {
            if self@.is_consistent() {
                lemma_consistent_claims(self@);
            }
        }
        let owner_count: u128 = self.owner_count();
        if owner_count != self.owners.len() as u128 {
            let mismatch = LockModelMismatch::OwnerCount {
                owner_count,
                owners: self.owners.len(),
            };
            proof {
                lemma_first_inconsistency(self@, mismatch);
            }
            return Err(mismatch);
        }
        let owned: Vec<u8> = u8_keys(&self.owners);
        let mut index: usize = 0;
        while index < owned.len()
            invariant
                index <= owned@.len(),
                forall|i: int, j: int| 0 <= i < j < owned@.len() ==> owned@[i] < owned@[j],
                forall|granule: u8| #[trigger]
                    owned@.contains(granule) <==> self.owners@.contains_key(granule),
                self@.claims().len() == self@.owners.len(),
                forall|i: int| 0 <= i < index ==> self@.is_backed(#[trigger] owned@[i]),
            decreases owned@.len() - index,
        {
            let granule: u8 = owned[index];
            assert(owned@.contains(granule));
            let tx: u64 = *self.owners.get(&granule).unwrap();
            let backed = match self.owner_sets.get(&tx) {
                Some(granules) => granules.contains(&granule),
                None => false,
            };
            assert(backed == self@.is_backed(granule));
            if !backed {
                let mismatch = LockModelMismatch::OwnerSetDisagrees { tx, granule };
                proof {
                    assert forall|other: u8| #[trigger]
                        self@.owners.contains_key(other) && other < granule implies
                        self@.is_backed(other) by {
                        assert(owned@.contains(other));
                        let at = choose|at: int| 0 <= at < owned@.len() && owned@[at] == other;
                        assert(at < index);
                    }
                    lemma_first_inconsistency(self@, mismatch);
                }
                return Err(mismatch);
            }
            index += 1;
        }
        assert forall|granule: u8| #[trigger] self@.owners.contains_key(granule) implies
            self@.is_backed(granule) by {
            assert(owned@.contains(granule));
        }
        let txs: Vec<u64> = u64_keys(&self.owner_sets);
        let mut index: usize = 0;
        while index < txs.len()
            invariant
                index <= txs@.len(),
                forall|i: int, j: int| 0 <= i < j < txs@.len() ==> txs@[i] < txs@[j],
                forall|tx: u64| #[trigger]
                    txs@.contains(tx) <==> self.owner_sets@.contains_key(tx),
                self@.claims().len() == self@.owners.len(),
                self@.is_all_backed(),
                forall|i: int| 0 <= i < index ==> self@.is_sound_set(#[trigger] txs@[i]),
            decreases txs@.len() - index,
        {
            let tx: u64 = txs[index];
            assert(txs@.contains(tx));
            assert forall|other: u64| #[trigger]
                self@.owner_sets.contains_key(other) && other < tx implies self@.is_sound_set(
                other,
            ) by {
                assert(txs@.contains(other));
                let at = choose|at: int| 0 <= at < txs@.len() && txs@[at] == other;
                assert(at < index);
            }
            let granules = self.owner_sets.get(&tx).unwrap();
            assert(self@.owner_sets[tx] == granules@);
            if granules.is_empty() {
                let mismatch = LockModelMismatch::EmptyOwnerSet { tx };
                proof {
                    assert(granules@ =~= Set::empty());
                    assert(!self@.is_sound_set(tx));
                    lemma_first_inconsistency(self@, mismatch);
                }
                return Err(mismatch);
            }
            let members: Vec<u8> = u8_members(granules);
            proof {
                let granule = choose|granule: u8| granules@.contains(granule);
                assert(granules@.contains(granule));
                assert(members@.contains(granule));
                assert(members@.contains(members@[0]));
            }
            let mut position: usize = 0;
            while position < members.len()
                invariant
                    position <= members@.len(),
                    forall|i: int, j: int| 0 <= i < j < members@.len() ==> members@[i] < members@[j],
                    forall|member: u8| #[trigger]
                        members@.contains(member) <==> self@.owner_sets[tx].contains(member),
                    self@.claims().len() == self@.owners.len(),
                    self@.is_all_backed(),
                    self@.owner_sets.contains_key(tx),
                    forall|other: u64| #[trigger]
                        self@.owner_sets.contains_key(other) && other < tx ==> self@.is_sound_set(
                            other,
                        ),
                    forall|i: int| 0 <= i < position ==> self@.owns(tx, #[trigger] members@[i]),
                decreases members@.len() - position,
            {
                let granule: u8 = members[position];
                assert(members@.contains(granule));
                let owned = match self.owners.get(&granule) {
                    Some(owner) => *owner == tx,
                    None => false,
                };
                if !owned {
                    let mismatch = LockModelMismatch::OwnerMapDisagrees { tx, granule };
                    proof {
                        assert forall|other: u8| #[trigger]
                            self@.owner_sets[tx].contains(other) && other < granule implies
                            self@.owns(tx, other) by {
                            assert(members@.contains(other));
                            let at = choose|at: int|
                                0 <= at < members@.len() && members@[at] == other;
                            assert(at < position);
                        }
                        assert(!self@.is_sound_set(tx));
                        lemma_first_inconsistency(self@, mismatch);
                    }
                    return Err(mismatch);
                }
                position += 1;
            }
            proof {
                assert forall|granule: u8| #[trigger]
                    self@.owner_sets[tx].contains(granule) implies self@.owns(tx, granule) by {
                    assert(members@.contains(granule));
                }
                assert(granules@.contains(members@[0]));
                assert(self@.is_sound_set(tx));
            }
            index += 1;
        }
        proof {
            assert forall|tx: u64| #[trigger] self@.owner_sets.contains_key(tx) implies
                self@.is_sound_set(tx) by {
                assert(txs@.contains(tx));
            }
            assert(self@.is_consistent());
        }
        Ok(())
    }
}

/// The granule of the model with number `granule`.
pub fn model_granule(granule: u8) -> (id: GranuleId)
    ensures
        id == (GranuleId::TMemory {
            instance: Some(1),
            memory_index: 0,
            granule_index: granule as u64,
        }),
{
    GranuleId::TMemory { instance: Some(1), memory_index: 0, granule_index: granule as u64 }
}

/// The number of a granule in the model: the model has the granules zero and one of memory
/// zero of instance one.
pub open spec fn granule_number(granule: GranuleId) -> Result<u8, LockModelMismatch> {
    match granule {
        GranuleId::TMemory { instance, memory_index, granule_index } => if instance != Some(1u32)
            || memory_index != 0 {
            Err(LockModelMismatch::UnexpectedGranule { id: granule })
        } else if granule_index > u8::MAX {
            Err(LockModelMismatch::GranuleIndexTooLarge { granule_index })
        } else if granule_index > 1 {
            Err(LockModelMismatch::GranuleOutsideDomain { granule: granule_index as u8 })
        } else {
            Ok(granule_index as u8)
        },
        _ => Err(LockModelMismatch::UnexpectedGranule { id: granule }),
    }
}

/// The number of a granule in the model.
pub fn decode_model_granule(granule: GranuleId) -> (number: Result<u8, LockModelMismatch>)
    ensures
        number == granule_number(granule),
{
    match granule {
        GranuleId::TMemory { instance: Some(1), memory_index: 0, granule_index } => {
            if granule_index > 0xff {
                return Err(LockModelMismatch::GranuleIndexTooLarge { granule_index });
            }
            let number: u8 = granule_index as u8;
            if number > 1 {
                return Err(LockModelMismatch::GranuleOutsideDomain { granule: number });
            }
            Ok(number)
        },
        _ => Err(LockModelMismatch::UnexpectedGranule { id: granule }),
    }
}

/// Every granule of the model's domain has its number.
pub proof fn law_granule_numbers(granule: u8)
    requires
        granule <= 1,
    ensures
        granule_number(
            (GranuleId::TMemory {
                instance: Some(1),
                memory_index: 0,
                granule_index: granule as u64,
            }),
        ) == Ok::<u8, LockModelMismatch>(granule),
{
}

/// A granule that somebody owns.
#[derive(Clone, Copy, Debug, PartialEq, Eq, Structural)]
pub struct OwnedGranule {
    pub granule: GranuleId,
    pub owner: u64,
}

/// A granule that somebody has read.
#[derive(Clone, Copy, Debug, PartialEq, Eq, Structural)]
pub struct ReadGranule {
    pub reader: u64,
    pub granule: GranuleId,
    pub version: u64,
}

/// What real locks say of their state.
#[derive(Clone, Debug, PartialEq, Eq)]
pub struct LockSnapshot {
    pub owners: Vec<OwnedGranule>,
    pub read_versions: Vec<ReadGranule>,
}

impl LockView {
    /// The state with a granule owned by `owner` besides.
    pub open spec fn with_owner(self, granule: u8, owner: u64) -> LockView {
        LockView {
            owners: self.owners.insert(granule, owner),
            owner_sets: self.owner_sets.insert(owner, self.owned_by(owner).insert(granule)),
            ..self
        }
    }

    /// The state with a granule read by `reader` besides.
    pub open spec fn with_read(self, reader: u64, granule: u8, version: u64) -> LockView {
        LockView {
            read_versions: self.read_versions.insert((reader, granule), version),
            ..self
        }
    }
}

/// The state in which granules are owned as listed.
pub open spec fn owned_state(owners: Seq<OwnedGranule>) -> Result<LockView, LockModelMismatch>
    decreases owners.len(),
{
    if owners.len() == 0 {
        Ok(LockView::empty())
    } else {
        match (owned_state(owners.drop_last()), granule_number(owners.last().granule)) {
            (Err(mismatch), _) => Err(mismatch),
            (_, Err(mismatch)) => Err(mismatch),
            (Ok(state), Ok(granule)) => Ok(state.with_owner(granule, owners.last().owner)),
        }
    }
}

/// The state `state` with granules read as listed.
pub open spec fn read_state(
    state: Result<LockView, LockModelMismatch>,
    reads: Seq<ReadGranule>,
) -> Result<LockView, LockModelMismatch>
    decreases reads.len(),
{
    if reads.len() == 0 {
        state
    } else {
        match (read_state(state, reads.drop_last()), granule_number(reads.last().granule)) {
            (Err(mismatch), _) => Err(mismatch),
            (_, Err(mismatch)) => Err(mismatch),
            (Ok(state), Ok(granule)) => Ok(
                state.with_read(reads.last().reader, granule, reads.last().version),
            ),
        }
    }
}

impl LockSnapshot {
    /// The state that the snapshot lists.
    pub open spec fn listed(self) -> Result<LockView, LockModelMismatch> {
        read_state(owned_state(self.owners@), self.read_versions@)
    }

    /// The state that the snapshot shows, or what is wrong with it.
    pub open spec fn state(self) -> Result<LockView, LockModelMismatch> {
        match self.listed() {
            Err(mismatch) => Err(mismatch),
            Ok(state) => match state.first_inconsistency() {
                Some(mismatch) => Err(mismatch),
                None => Ok(state),
            },
        }
    }
}

/// What is wrong with the first entries is wrong with all of them.
proof fn lemma_owned_state_fails(owners: Seq<OwnedGranule>, count: int)
    requires
        0 <= count <= owners.len(),
        owned_state(owners.take(count)) is Err,
    ensures
        owned_state(owners) == owned_state(owners.take(count)),
    decreases owners.len(),
{
    if count == owners.len() {
        assert(owners.take(count) =~= owners);
    } else {
        assert(owners.drop_last().take(count) =~= owners.take(count));
        lemma_owned_state_fails(owners.drop_last(), count);
    }
}

/// What is wrong with the first entries is wrong with all of them.
proof fn lemma_read_state_fails(
    state: Result<LockView, LockModelMismatch>,
    reads: Seq<ReadGranule>,
    count: int,
)
    requires
        0 <= count <= reads.len(),
        read_state(state, reads.take(count)) is Err,
    ensures
        read_state(state, reads) == read_state(state, reads.take(count)),
    decreases reads.len(),
{
    if count == reads.len() {
        assert(reads.take(count) =~= reads);
    } else {
        assert(reads.drop_last().take(count) =~= reads.take(count));
        lemma_read_state_fails(state, reads.drop_last(), count);
    }
}

impl LockModelState {
    /// Notes that `owner` owns `granule`.
    fn add_owner(&mut self, granule: u8, owner: u64)
        ensures
            final(self)@ == old(self)@.with_owner(granule, owner),
    {
        let ghost before = self@;
        self.owners.insert(granule, owner);
        let mut granules: BTreeSet<u8> = match self.owner_sets.remove(&owner) {
            Some(granules) => granules,
            None => BTreeSet::new(),
        };
        assert(granules@ =~= before.owned_by(owner));
        granules.insert(granule);
        self.owner_sets.insert(owner, granules);
        assert(self@ =~= before.with_owner(granule, owner));
    }
}

/// The state that a snapshot shows.
pub fn snapshot_lock_state(snapshot: &LockSnapshot) -> (state: Result<
    LockModelState,
    LockModelMismatch,
>)
    ensures
        match state {
            Ok(state) => snapshot.state() == Ok::<LockView, LockModelMismatch>(state@),
            Err(mismatch) => snapshot.state() == Err::<LockView, LockModelMismatch>(mismatch),
        },
{
    let mut state = LockModelState::default();
    let mut index: usize = 0;
    assert(snapshot.owners@.take(0) =~= Seq::empty());
    while index < snapshot.owners.len()
        invariant
            index <= snapshot.owners@.len(),
            owned_state(snapshot.owners@.take(index as int)) == Ok::<LockView, LockModelMismatch>(
                state@,
            ),
        decreases snapshot.owners@.len() - index,
    {
        let entry = snapshot.owners[index];
        proof {
            assert(snapshot.owners@.take(index + 1).drop_last() =~= snapshot.owners@.take(
                index as int,
            ));
        }
        match decode_model_granule(entry.granule) {
            Ok(granule) => {
                state.add_owner(granule, entry.owner);
            },
            Err(mismatch) => {
                proof {
                    lemma_owned_state_fails(snapshot.owners@, index + 1);
                    lemma_read_state_fails(owned_state(snapshot.owners@), snapshot.read_versions@, 0);
                    assert(snapshot.read_versions@.take(0) =~= Seq::empty());
                }
                return Err(mismatch);
            },
        }
        index += 1;
    }
    assert(snapshot.owners@.take(index as int) =~= snapshot.owners@);
    let ghost owned = owned_state(snapshot.owners@);
    let mut index: usize = 0;
    assert(snapshot.read_versions@.take(0) =~= Seq::empty());
    while index < snapshot.read_versions.len()
        invariant
            index <= snapshot.read_versions@.len(),
            owned == owned_state(snapshot.owners@),
            read_state(owned, snapshot.read_versions@.take(index as int)) == Ok::<
                LockView,
                LockModelMismatch,
            >(state@),
        decreases snapshot.read_versions@.len() - index,
    {
        let entry = snapshot.read_versions[index];
        proof {
            assert(snapshot.read_versions@.take(index + 1).drop_last()
                =~= snapshot.read_versions@.take(index as int));
        }
        match decode_model_granule(entry.granule) {
            Ok(granule) => {
                state.set_read_version(entry.reader, granule, entry.version);
            },
            Err(mismatch) => {
                proof {
                    lemma_read_state_fails(owned, snapshot.read_versions@, index + 1);
                }
                return Err(mismatch);
            },
        }
        index += 1;
    }
    assert(snapshot.read_versions@.take(index as int) =~= snapshot.read_versions@);
    match state.assert_internal_invariants() {
        Ok(()) => Ok(state),
        Err(mismatch) => Err(mismatch),
    }
}

/// Granule `number` of the model: one of memory zero of instance one.
pub open spec fn granule_with_number(number: u8) -> GranuleId {
    GranuleId::TMemory { instance: Some(1), memory_index: 0, granule_index: number as u64 }
}

/// The model has the granules zero and one. Others of its memory are outside its domain, or
/// even too large for a number, and all other granules are unexpected.
pub proof fn law_granules_of_the_model(granule: GranuleId, number: u8)
    ensures
        granule_number(granule) == Ok::<u8, LockModelMismatch>(number) <==> granule
            == granule_with_number(number) && number <= 1,
        granule == granule_with_number(number) && number > 1 ==> granule_number(granule) == Err::<
            u8,
            LockModelMismatch,
        >(LockModelMismatch::GranuleOutsideDomain { granule: number }),
        match granule {
            GranuleId::TMemory {
                instance: Some(instance),
                memory_index,
                granule_index,
            } => if instance == 1 && memory_index == 0 {
                granule_index > 255 ==> granule_number(granule) == Err::<u8, LockModelMismatch>(
                    LockModelMismatch::GranuleIndexTooLarge { granule_index },
                )
            } else {
                granule_number(granule) == Err::<u8, LockModelMismatch>(
                    LockModelMismatch::UnexpectedGranule { id: granule },
                )
            },
            _ => granule_number(granule) == Err::<u8, LockModelMismatch>(
                LockModelMismatch::UnexpectedGranule { id: granule },
            ),
        },
{
}

/// Listed owners make a state exactly if all their granules are the model's. In it a granule
/// belongs to whom the last entry about it says, and the owner set of a transaction has the
/// granules of all its entries.
pub proof fn law_listed_owners(owners: Seq<OwnedGranule>, tx: u64, number: u8)
    ensures
        owned_state(owners) is Ok <==> forall|i: int|
            0 <= i < owners.len() ==> granule_number((#[trigger] owners[i]).granule) is Ok,
        owned_state(owners) matches Ok(state) ==> {
            &&& state.owners.contains_key(number) <==> exists|i: int|
                0 <= i < owners.len() && (#[trigger] owners[i]).granule == granule_with_number(
                    number,
                )
            &&& forall|i: int|
                {
                    &&& 0 <= i < owners.len()
                    &&& (#[trigger] owners[i]).granule == granule_with_number(number)
                    &&& forall|j: int|
                        i < j < owners.len() ==> (#[trigger] owners[j]).granule
                            != granule_with_number(number)
                } ==> state.owners[number] == owners[i].owner
            &&& state.owner_sets.contains_key(tx) <==> exists|i: int|
                0 <= i < owners.len() && (#[trigger] owners[i]).owner == tx
            &&& state.owner_sets.contains_key(tx) ==> (state.owner_sets[tx].contains(number)
                <==> exists|i: int|
                0 <= i < owners.len() && (#[trigger] owners[i]).owner == tx && owners[i].granule
                    == granule_with_number(number))
            &&& state.read_versions == Map::<(u64, u8), u64>::empty()
        },
    decreases owners.len(),
{
    if owners.len() > 0 {
        let front = owners.drop_last();
        let last = owners.len() - 1;
        let entry = owners.last();
        law_listed_owners(front, tx, number);
        assert(entry == owners[last]);
        assert forall|i: int| 0 <= i < front.len() implies #[trigger] front[i] == owners[i] by {}
        law_granules_of_the_model(entry.granule, number);
        if owned_state(owners) is Ok {
            assert forall|i: int| 0 <= i < owners.len() implies granule_number(
                (#[trigger] owners[i]).granule,
            ) is Ok by {
                if i < last {
                    assert(front[i] == owners[i]);
                }
            }
            let state = owned_state(owners)->Ok_0;
            let before = owned_state(front)->Ok_0;
            let granule = granule_number(entry.granule)->Ok_0;
            law_granules_of_the_model(entry.granule, granule);
            assert((entry.granule == granule_with_number(number)) == (granule == number));
            lemma_exists_in_front(owners, tx, number);
            assert forall|i: int|
                {
                    &&& 0 <= i < owners.len()
                    &&& (#[trigger] owners[i]).granule == granule_with_number(number)
                    &&& forall|j: int|
                        i < j < owners.len() ==> (#[trigger] owners[j]).granule
                            != granule_with_number(number)
                } implies state.owners[number] == owners[i].owner by {
                if i < last {
                    assert(owners[last].granule != granule_with_number(number));
                    assert(front[i].granule == granule_with_number(number));
                    assert forall|j: int| i < j < front.len() implies (
                    #[trigger] front[j]).granule != granule_with_number(number) by {
                        assert(owners[j].granule != granule_with_number(number));
                    }
                }
            }
        }
    }
}

/// What is said of an entry of a list is said of its last entry or of one before.
proof fn lemma_exists_in_front(owners: Seq<OwnedGranule>, tx: u64, number: u8)
    requires
        owners.len() > 0,
    ensures
        ({
            let front = owners.drop_last();
            let granule = granule_with_number(number);
            &&& (exists|i: int|
                0 <= i < owners.len() && (#[trigger] owners[i]).granule == granule) == (
            owners.last().granule == granule || exists|i: int|
                0 <= i < front.len() && (#[trigger] front[i]).granule == granule)
            &&& (exists|i: int| 0 <= i < owners.len() && (#[trigger] owners[i]).owner == tx) == (
            owners.last().owner == tx || exists|i: int|
                0 <= i < front.len() && (#[trigger] front[i]).owner == tx)
            &&& (exists|i: int|
                0 <= i < owners.len() && (#[trigger] owners[i]).owner == tx && owners[i].granule
                    == granule) == (owners.last().owner == tx && owners.last().granule == granule
                || exists|i: int|
                0 <= i < front.len() && (#[trigger] front[i]).owner == tx && front[i].granule
                    == granule)
        }),
{
    let front = owners.drop_last();
    let granule = granule_with_number(number);
    let last = owners.len() - 1;
    assert(owners.last() == owners[last]);
    assert forall|i: int| 0 <= i < front.len() implies #[trigger] front[i] == owners[i] by {}
    if exists|i: int| 0 <= i < owners.len() && (#[trigger] owners[i]).granule == granule {
        let i = choose|i: int|
            0 <= i < owners.len() && (#[trigger] owners[i]).granule == granule;
        if i < last {
            assert(front[i].granule == granule);
        }
    }
    if exists|i: int| 0 <= i < front.len() && (#[trigger] front[i]).granule == granule {
        let i = choose|i: int| 0 <= i < front.len() && (#[trigger] front[i]).granule == granule;
        assert(owners[i].granule == granule);
    }
    if exists|i: int| 0 <= i < owners.len() && (#[trigger] owners[i]).owner == tx {
        let i = choose|i: int| 0 <= i < owners.len() && (#[trigger] owners[i]).owner == tx;
        if i < last {
            assert(front[i].owner == tx);
        }
    }
    if exists|i: int| 0 <= i < front.len() && (#[trigger] front[i]).owner == tx {
        let i = choose|i: int| 0 <= i < front.len() && (#[trigger] front[i]).owner == tx;
        assert(owners[i].owner == tx);
    }
    if exists|i: int|
        0 <= i < owners.len() && (#[trigger] owners[i]).owner == tx && owners[i].granule
            == granule {
        let i = choose|i: int|
            0 <= i < owners.len() && (#[trigger] owners[i]).owner == tx && owners[i].granule
                == granule;
        if i < last {
            assert(front[i].owner == tx);
        }
    }
    if exists|i: int|
        0 <= i < front.len() && (#[trigger] front[i]).owner == tx && front[i].granule == granule {
        let i = choose|i: int|
            0 <= i < front.len() && (#[trigger] front[i]).owner == tx && front[i].granule
                == granule;
        assert(owners[i].owner == tx);
    }
}

/// Listed reads can be added to a state exactly if all their granules are the model's. Then
/// a transaction has read a granule at the version that the last entry about them says, and
/// where there is none, as before. Owners do not change.
pub proof fn law_listed_reads(
    before: LockView,
    reads: Seq<ReadGranule>,
    tx: u64,
    number: u8,
)
    ensures
        read_state(Ok(before), reads) is Ok <==> forall|i: int|
            0 <= i < reads.len() ==> granule_number((#[trigger] reads[i]).granule) is Ok,
        read_state(Ok(before), reads) matches Ok(state) ==> {
            &&& state.owners == before.owners
            &&& state.owner_sets == before.owner_sets
            &&& forall|i: int|
                {
                    &&& 0 <= i < reads.len()
                    &&& (#[trigger] reads[i]).reader == tx
                    &&& reads[i].granule == granule_with_number(number)
                    &&& forall|j: int|
                        i < j < reads.len() ==> !((#[trigger] reads[j]).reader == tx
                            && reads[j].granule == granule_with_number(number))
                } ==> state.read_versions.contains_key((tx, number)) && state.read_versions[(
                    tx,
                    number,
                )] == reads[i].version
            &&& (forall|i: int|
                0 <= i < reads.len() ==> !((#[trigger] reads[i]).reader == tx && reads[i].granule
                    == granule_with_number(number))) ==> {
                &&& state.read_versions.contains_key((tx, number))
                    == before.read_versions.contains_key((tx, number))
                &&& state.read_versions[(tx, number)] == before.read_versions[(tx, number)]
            }
        },
    decreases reads.len(),
{
    if reads.len() > 0 {
        let front = reads.drop_last();
        let last = reads.len() - 1;
        let entry = reads.last();
        law_listed_reads(before, front, tx, number);
        assert(entry == reads[last]);
        assert forall|i: int| 0 <= i < front.len() implies #[trigger] front[i] == reads[i] by {}
        if read_state(Ok(before), reads) is Ok {
            let state = read_state(Ok(before), reads)->Ok_0;
            let granule = granule_number(entry.granule)->Ok_0;
            law_granules_of_the_model(entry.granule, granule);
            law_granules_of_the_model(entry.granule, number);
            assert forall|i: int| 0 <= i < reads.len() implies granule_number(
                (#[trigger] reads[i]).granule,
            ) is Ok by {
                if i < last {
                    assert(front[i] == reads[i]);
                }
            }
            assert forall|i: int|
                {
                    &&& 0 <= i < reads.len()
                    &&& (#[trigger] reads[i]).reader == tx
                    &&& reads[i].granule == granule_with_number(number)
                    &&& forall|j: int|
                        i < j < reads.len() ==> !((#[trigger] reads[j]).reader == tx
                            && reads[j].granule == granule_with_number(number))
                } implies state.read_versions.contains_key((tx, number)) && state.read_versions[(
                tx,
                number,
            )] == reads[i].version by {
                if i < last {
                    assert(!(reads[last].reader == tx && reads[last].granule
                        == granule_with_number(number)));
                    assert(front[i] == reads[i]);
                    assert forall|j: int| i < j < front.len() implies !((
                    #[trigger] front[j]).reader == tx && front[j].granule == granule_with_number(
                        number,
                    )) by {
                        assert(front[j] == reads[j]);
                    }
                }
            }
            if forall|i: int|
                0 <= i < reads.len() ==> !((#[trigger] reads[i]).reader == tx && reads[i].granule
                    == granule_with_number(number)) {
                assert forall|i: int| 0 <= i < front.len() implies !((
                #[trigger] front[i]).reader == tx && front[i].granule == granule_with_number(
                    number,
                )) by {
                    assert(front[i] == reads[i]);
                }
                assert(!(reads[last].reader == tx && reads[last].granule == granule_with_number(
                    number,
                )));
            }
        }
    }
}

/// A snapshot shows the state that it lists, if the owners and owner sets of that state agree.
pub proof fn law_snapshots_show_what_they_list(snapshot: LockSnapshot, state: LockView)
    ensures
        snapshot.state() == Ok::<LockView, LockModelMismatch>(state) <==> read_state(
            owned_state(snapshot.owners@),
            snapshot.read_versions@,
        ) == Ok::<LockView, LockModelMismatch>(state) && state.is_consistent(),
        snapshot.listed() is Err ==> snapshot.state() == snapshot.listed(),
        state.first_inconsistency() is None <==> state.is_consistent(),
{
}

/// The first granule that is not the model's is named: owners go before reads.
pub proof fn law_first_foreign_granule_is_named(
    snapshot: LockSnapshot,
    index: int,
)
    ensures
        ({
            let owners = snapshot.owners@;
            let reads = snapshot.read_versions@;
            &&& {
                &&& 0 <= index < owners.len()
                &&& granule_number(owners[index].granule) is Err
                &&& forall|i: int|
                    0 <= i < index ==> granule_number((#[trigger] owners[i]).granule) is Ok
            } ==> snapshot.state() == Err::<LockView, LockModelMismatch>(
                granule_number(owners[index].granule)->Err_0,
            )
            &&& {
                &&& 0 <= index < reads.len()
                &&& granule_number(reads[index].granule) is Err
                &&& forall|i: int|
                    0 <= i < owners.len() ==> granule_number((#[trigger] owners[i]).granule) is Ok
                &&& forall|i: int|
                    0 <= i < index ==> granule_number((#[trigger] reads[i]).granule) is Ok
            } ==> snapshot.state() == Err::<LockView, LockModelMismatch>(
                granule_number(reads[index].granule)->Err_0,
            )
        }),
{
    let owners = snapshot.owners@;
    let reads = snapshot.read_versions@;
    if 0 <= index < owners.len() && granule_number(owners[index].granule) is Err && forall|i: int|
        0 <= i < index ==> granule_number((#[trigger] owners[i]).granule) is Ok {
        let front = owners.take(index);
        assert forall|i: int| 0 <= i < front.len() implies granule_number(
            (#[trigger] front[i]).granule,
        ) is Ok by {
            assert(front[i] == owners[i]);
        }
        law_listed_owners(front, 0, 0);
        assert(owners.take(index + 1).drop_last() =~= front);
        assert(owners.take(index + 1).last() == owners[index]);
        lemma_owned_state_fails(owners, index + 1);
        assert(reads.take(0) =~= Seq::empty());
        lemma_read_state_fails(owned_state(owners), reads, 0);
    }
    if 0 <= index < reads.len() && granule_number(reads[index].granule) is Err && (forall|i: int|
        0 <= i < owners.len() ==> granule_number((#[trigger] owners[i]).granule) is Ok)
        && forall|i: int|
        0 <= i < index ==> granule_number((#[trigger] reads[i]).granule) is Ok {
        let front = reads.take(index);
        law_listed_owners(owners, 0, 0);
        assert forall|i: int| 0 <= i < front.len() implies granule_number(
            (#[trigger] front[i]).granule,
        ) is Ok by {
            assert(front[i] == reads[i]);
        }
        law_listed_reads(owned_state(owners)->Ok_0, front, 0, 0);
        assert(reads.take(index + 1).drop_last() =~= front);
        assert(reads.take(index + 1).last() == reads[index]);
        lemma_read_state_fails(owned_state(owners), reads, index + 1);
    }
}

/// Whether the granules that are owned are in the sets of their owners, and the sets of all
/// transactions below `tx` have granules, and only such as their transactions own.
pub open spec fn are_smaller_sets_in_order(state: LockView, tx: u64) -> bool {
    &&& forall|granule: u8| #[trigger]
        state.owners.contains_key(granule) ==> state.owner_sets.contains_key(state.owners[granule])
            && state.owner_sets[state.owners[granule]].contains(granule)
    &&& forall|other: u64| #[trigger]
        state.owner_sets.contains_key(other) && other < tx ==> exists|granule: u8|
            state.owner_sets[other].contains(granule)
    &&& forall|other: u64, granule: u8|
        #![trigger state.owner_sets[other].contains(granule)]
        state.owner_sets.contains_key(other) && other < tx && state.owner_sets[other].contains(
            granule,
        ) ==> state.owners.contains_key(granule) && state.owners[granule] == other
}

proof fn lemma_smaller_sets_in_order(state: LockView, tx: u64)
    requires
        state.is_all_backed(),
        forall|other: u64| #[trigger]
            state.owner_sets.contains_key(other) && other < tx ==> state.is_sound_set(other),
    ensures
        are_smaller_sets_in_order(state, tx),
{
    assert forall|granule: u8| #[trigger] state.owners.contains_key(granule) implies
        state.owner_sets.contains_key(state.owners[granule])
        && state.owner_sets[state.owners[granule]].contains(granule) by {
        assert(state.is_backed(granule));
    }
    assert forall|other: u64, granule: u8|
        #![trigger state.owner_sets[other].contains(granule)]
        state.owner_sets.contains_key(other) && other < tx && state.owner_sets[other].contains(
            granule,
        ) implies state.owners.contains_key(granule) && state.owners[granule] == other by {
        assert(state.is_sound_set(other));
        assert(state.owns(other, granule));
    }
}

/// What is wrong first with a state is wrong with it: the owner sets have another number of
/// granules than are owned; or a granule is not in the set of its owner, and all smaller ones
/// are in theirs; or a set is empty, or has a granule that is not its transaction's, and all
/// smaller transactions' sets are in order.
pub proof fn law_first_inconsistency_is_true(state: LockView, mismatch: LockModelMismatch)
    requires
        state.is_first_inconsistency(mismatch),
    ensures
        !(mismatch is OwnerCount) ==> state.owners.dom().len() == Set::new(
            |claim: (u64, u8)|
                state.owner_sets.contains_key(claim.0) && state.owner_sets[claim.0].contains(
                    claim.1,
                ),
        ).len(),
        match mismatch {
            LockModelMismatch::OwnerCount { owner_count, owners } => {
                &&& owner_count != owners
                &&& owners == state.owners.dom().len()
                &&& owner_count == Set::new(
                    |claim: (u64, u8)|
                        state.owner_sets.contains_key(claim.0)
                            && state.owner_sets[claim.0].contains(claim.1),
                ).len()
            },
            LockModelMismatch::OwnerSetDisagrees { tx, granule } => {
                &&& state.owners.contains_key(granule)
                &&& state.owners[granule] == tx
                &&& !(state.owner_sets.contains_key(tx) && state.owner_sets[tx].contains(granule))
                &&& forall|other: u8| #[trigger]
                    state.owners.contains_key(other) && other < granule
                        ==> state.owner_sets.contains_key(state.owners[other])
                        && state.owner_sets[state.owners[other]].contains(other)
            },
            LockModelMismatch::EmptyOwnerSet { tx } => {
                &&& state.owner_sets.contains_key(tx)
                &&& forall|granule: u8| !#[trigger] state.owner_sets[tx].contains(granule)
                &&& are_smaller_sets_in_order(state, tx)
            },
            LockModelMismatch::OwnerMapDisagrees { tx, granule } => {
                &&& state.owner_sets.contains_key(tx)
                &&& state.owner_sets[tx].contains(granule)
                &&& !(state.owners.contains_key(granule) && state.owners[granule] == tx)
                &&& forall|other: u8| #[trigger]
                    state.owner_sets[tx].contains(other) && other < granule
                        ==> state.owners.contains_key(other) && state.owners[other] == tx
                &&& are_smaller_sets_in_order(state, tx)
            },
            _ => false,
        },
        !state.is_consistent(),
{
    match mismatch {
        LockModelMismatch::OwnerCount { .. } => {
            if state.is_consistent() {
                lemma_consistent_claims(state);
            }
        },
        LockModelMismatch::OwnerSetDisagrees { tx, granule } => {
            assert forall|other: u8| #[trigger]
                state.owners.contains_key(other) && other < granule implies
                state.owner_sets.contains_key(state.owners[other])
                && state.owner_sets[state.owners[other]].contains(other) by {
                assert(state.is_backed(other));
            }
        },
        LockModelMismatch::EmptyOwnerSet { tx } => {
            lemma_smaller_sets_in_order(state, tx);
            if state.is_consistent() {
                assert(state.is_sound_set(tx));
            }
        },
        LockModelMismatch::OwnerMapDisagrees { tx, granule } => {
            lemma_smaller_sets_in_order(state, tx);
            assert forall|other: u8| #[trigger]
                state.owner_sets[tx].contains(other) && other < granule implies
                state.owners.contains_key(other) && state.owners[other] == tx by {
                assert(state.owns(tx, other));
            }
            if state.is_consistent() {
                assert(state.is_sound_set(tx));
                assert(state.owns(tx, granule));
            }
        },
        _ => {},
    }
}

} // verus!
