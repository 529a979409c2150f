//! The granules that the transaction of a thread holds.

use vstd::prelude::*;

use crate::lock_check::OwnedGranule;
use crate::values::GranuleId;

verus! {

/// The permissions on one granule.
#[derive(Clone, Copy, Debug, PartialEq, Eq, Structural)]
pub struct GranulePermissionModelState {
    pub active: bool,
    pub read: bool,
    pub write: bool,
}

impl Default for GranulePermissionModelState {
    fn default() -> (state: GranulePermissionModelState)
        ensures
            state == (GranulePermissionModelState { active: true, read: false, write: false }),
    {
        GranulePermissionModelState { active: true, read: false, write: false }
    }
}

/// Why a permission could not be given back.
#[derive(Clone, Copy, Debug, PartialEq, Eq, Structural)]
pub enum DowngradeError {
    /// There is no transaction.
    NoActiveTransaction,
    /// The granule was held for writing but not for reading.
    ReadPermissionLost { granule: GranuleId },
    /// The granule was held for writing by a transaction that did not own it.
    NotTheOwner { transaction: u64, granule: GranuleId },
}

/// What a transaction holds, as a mathematical value.
#[verifier::ext_equal]
pub struct HoldingsView {
    pub active: Option<u64>,
    pub read_granules: Set<GranuleId>,
    pub write_granules: Set<GranuleId>,
    pub owners: Map<GranuleId, u64>,
}

impl HoldingsView {
    /// Whether the granules held for writing are held for reading too, and owned by the
    /// transaction.
    pub open spec fn is_sound(self) -> bool {
        forall|granule: GranuleId| #[trigger]
            self.write_granules.contains(granule) ==> {
                &&& self.read_granules.contains(granule)
                &&& self.active is Some
                &&& self.owners.contains_key(granule)
                &&& Some(self.owners[granule]) == self.active
            }
    }

    /// What is held, and what is answered, after `granule` is no longer held for writing.
    pub open spec fn downgrade(self, granule: GranuleId) -> (
        HoldingsView,
        Result<bool, DowngradeError>,
    ) {
        match self.active {
            None => (self, Err(DowngradeError::NoActiveTransaction)),
            Some(transaction) => if !self.write_granules.contains(granule) {
                (self, Ok(false))
            } else {
                let dropped = HoldingsView {
                    write_granules: self.write_granules.remove(granule),
                    ..self
                };
                if !self.read_granules.contains(granule) {
                    (dropped, Err(DowngradeError::ReadPermissionLost { granule }))
                } else {
                    (
                        HoldingsView { owners: self.owners.remove(granule), ..dropped },
                        if self.owners.contains_key(granule) && self.owners[granule]
                            == transaction {
                            Ok(true)
                        } else {
                            Err(DowngradeError::NotTheOwner { transaction, granule })
                        },
                    )
                }
            },
        }
    }
}

/// A granule that is no longer held for writing is still held for reading, nobody owns it, and
/// the rest is held as before.
pub proof fn law_downgrade_keeps_holdings_sound(holdings: HoldingsView, granule: GranuleId)
    requires
        holdings.is_sound(),
        holdings.active is Some,
    ensures
        holdings.downgrade(granule).0.is_sound(),
        holdings.downgrade(granule).1 == Ok::<bool, DowngradeError>(
            holdings.write_granules.contains(granule),
        ),
        holdings.downgrade(granule).0.read_granules == holdings.read_granules,
        !holdings.downgrade(granule).0.write_granules.contains(granule),
        forall|other: GranuleId|
            other != granule ==> (#[trigger] holdings.downgrade(granule).0.write_granules.contains(
                other,
            ) == holdings.write_granules.contains(other)),
{
    let next = holdings.downgrade(granule).0;
    assert forall|other: GranuleId| #[trigger] next.write_granules.contains(other) implies {
        &&& next.read_granules.contains(other)
        &&& next.owners.contains_key(other)
        &&& Some(next.owners[other]) == next.active
    } by {
        assert(holdings.write_granules.contains(other));
    }
}

/// What a transaction holds.
#[derive(Clone, Debug, PartialEq, Eq)]
pub struct GranuleHoldings {
    pub active: Option<u64>,
    pub read_granules: Vec<GranuleId>,
    pub write_granules: Vec<GranuleId>,
    pub owners: Vec<OwnedGranule>,
}

/// The granules that `owners` says are owned, each with its owner. Where a granule is listed
/// twice, the first entry counts.
pub open spec fn owner_map(owners: Seq<OwnedGranule>) -> Map<GranuleId, u64>
    decreases owners.len(),
{
    if owners.len() == 0 {
        Map::empty()
    } else {
        owner_map(owners.drop_first()).insert(owners[0].granule, owners[0].owner)
    }
}

/// Whether no granule is listed twice.
pub open spec fn is_keyed(owners: Seq<OwnedGranule>) -> bool {
    forall|i: int, j: int|
        0 <= i < j < owners.len() ==> (#[trigger] owners[i]).granule != (#[trigger] owners[j]).granule
}

impl View for GranuleHoldings {
    type V = HoldingsView;

    open spec fn view(&self) -> HoldingsView {
        HoldingsView {
            active: self.active,
            read_granules: self.read_granules@.to_set(),
            write_granules: self.write_granules@.to_set(),
            owners: owner_map(self.owners@),
        }
    }
}

impl GranuleHoldings {
    /// Whether nothing is listed twice.
    pub open spec fn is_listed_once(self) -> bool {
        &&& self.read_granules@.no_duplicates()
        &&& self.write_granules@.no_duplicates()
        &&& is_keyed(self.owners@)
    }
}

fn holds(granules: &Vec<GranuleId>, granule: GranuleId) -> (found: bool)
    ensures
        found == granules@.contains(granule),
{
    let mut index: usize = 0;
    while index < granules.len()
        invariant
            index <= granules@.len(),
            forall|i: int| 0 <= i < index ==> granules@[i] != granule,
        decreases granules@.len() - index,
    {
        if granules[index] == granule {
            assert(granules@[index as int] == granule);
            return true;
        }
        index += 1;
    }
    false
}

/// Takes `granule` off a list that does not have it twice.
fn remove_granule(granules: &mut Vec<GranuleId>, granule: GranuleId) -> (removed: bool)
    requires
        old(granules)@.no_duplicates(),
    ensures
        final(granules)@.no_duplicates(),
        final(granules)@.to_set() == old(granules)@.to_set().remove(granule),
        removed == old(granules)@.contains(granule),
{
    let ghost before = granules@;
    let mut index: usize = 0;
    while index < granules.len()
        invariant
            index <= granules@.len(),
            granules@ == before,
            before == old(granules)@,
            before.no_duplicates(),
            forall|i: int| 0 <= i < index ==> before[i] != granule,
        decreases granules@.len() - index,
    {
        if granules[index] == granule {
            granules.remove(index);
            proof {
                let after = granules@;
                assert(after =~= before.remove(index as int));
                assert forall|other: GranuleId|
                    after.to_set().contains(other) == before.to_set().remove(granule).contains(
                        other,
                    ) by {
                    if after.contains(other) {
                        let at = choose|at: int| 0 <= at < after.len() && after[at] == other;
                        if at < index {
                            assert(before[at] == other);
                        } else {
                            assert(before[at + 1] == other);
                        }
                    }
                    if before.contains(other) && other != granule {
                        let at = choose|at: int| 0 <= at < before.len() && before[at] == other;
                        if at < index {
                            assert(after[at] == other);
                        } else {
                            assert(after[at - 1] == other);
                        }
                    }
                }
                assert(after.to_set() =~= before.to_set().remove(granule));
                assert(before[index as int] == granule);
            }
            return true;
        }
        index += 1;
    }
    assert(!before.contains(granule));
    assert(before.to_set() =~= before.to_set().remove(granule));
    false
}

/// The owner of a granule that is listed at `index`, and nowhere before.
proof fn lemma_owner_map_at(owners: Seq<OwnedGranule>, index: int)
    requires
        0 <= index < owners.len(),
        forall|i: int| 0 <= i < index ==> (#[trigger] owners[i]).granule != owners[index].granule,
    ensures
        owner_map(owners).contains_key(owners[index].granule),
        owner_map(owners)[owners[index].granule] == owners[index].owner,
    decreases owners.len(),
{
    if index > 0 {
        let rest = owners.drop_first();
        assert(rest[index - 1] == owners[index]);
        assert forall|i: int| 0 <= i < index - 1 implies (#[trigger] rest[i]).granule
            != rest[index - 1].granule by {
            assert(rest[i] == owners[i + 1]);
        }
        lemma_owner_map_at(rest, index - 1);
        assert(owners[0].granule != owners[index].granule);
    }
}

/// A granule that is not listed has no owner.
proof fn lemma_owner_map_without(owners: Seq<OwnedGranule>, granule: GranuleId)
    requires
        forall|i: int| 0 <= i < owners.len() ==> (#[trigger] owners[i]).granule != granule,
    ensures
        !owner_map(owners).contains_key(granule),
    decreases owners.len(),
{
    if owners.len() > 0 {
        let rest = owners.drop_first();
        assert forall|i: int| 0 <= i < rest.len() implies (#[trigger] rest[i]).granule
            != granule by {
            assert(rest[i] == owners[i + 1]);
        }
        lemma_owner_map_without(rest, granule);
        assert(owners[0].granule != granule);
    }
}

/// Taking an entry off the list takes its granule off the map.
proof fn lemma_owner_map_remove(owners: Seq<OwnedGranule>, index: int)
    requires
        0 <= index < owners.len(),
        is_keyed(owners),
    ensures
        is_keyed(owners.remove(index)),
        owner_map(owners.remove(index)) == owner_map(owners).remove(owners[index].granule),
    decreases owners.len(),
{
    let rest = owners.drop_first();
    assert(is_keyed(rest)) by {
        assert forall|i: int, j: int| 0 <= i < j < rest.len() implies (#[trigger] rest[i]).granule
            != (#[trigger] rest[j]).granule by {
            assert(rest[i] == owners[i + 1] && rest[j] == owners[j + 1]);
        }
    }
    let removed = owners.remove(index);
    assert forall|i: int, j: int| 0 <= i < j < removed.len() implies (#[trigger] removed[i]).granule
        != (#[trigger] removed[j]).granule by {
        let left = if i < index {
            i
        } else {
            i + 1
        };
        let right = if j < index {
            j
        } else {
            j + 1
        };
        assert(removed[i] == owners[left] && removed[j] == owners[right]);
    }
    if index == 0 {
        assert(removed =~= rest);
        assert forall|i: int| 0 <= i < rest.len() implies (#[trigger] rest[i]).granule
            != owners[0].granule by {
            assert(rest[i] == owners[i + 1]);
        }
        lemma_owner_map_without(rest, owners[0].granule);
        assert(owner_map(rest) =~= owner_map(owners).remove(owners[0].granule));
    } else {
        lemma_owner_map_remove(rest, index - 1);
        assert(removed.drop_first() =~= rest.remove(index - 1));
        assert(rest[index - 1] == owners[index]);
        assert(owners[0].granule != owners[index].granule);
        assert(owner_map(removed) =~= owner_map(owners).remove(owners[index].granule));
    }
}

/// Takes the owner of `granule` off a list that does not have it twice.
fn remove_owner(owners: &mut Vec<OwnedGranule>, granule: GranuleId) -> (removed: Option<u64>)
    requires
        is_keyed(old(owners)@),
    ensures
        is_keyed(final(owners)@),
        owner_map(final(owners)@) == owner_map(old(owners)@).remove(granule),
        removed == owner_map(old(owners)@).get(granule),
{
    let ghost before = owners@;
    let mut index: usize = 0;
    while index < owners.len()
        invariant
            index <= owners@.len(),
            owners@ == before,
            before == old(owners)@,
            is_keyed(before),
            forall|i: int| 0 <= i < index ==> (#[trigger] before[i]).granule != granule,
        decreases owners@.len() - index,
    {
        let entry = owners[index];
        if entry.granule == granule {
            proof {
                lemma_owner_map_at(before, index as int);
                lemma_owner_map_remove(before, index as int);
            }
            owners.remove(index);
            return Some(entry.owner);
        }
        index += 1;
    }
    proof {
        lemma_owner_map_without(before, granule);
        assert(owner_map(before) =~= owner_map(before).remove(granule));
    }
    None
}

impl GranuleHoldings {
    /// Gives the permission to write `granule` back, and says whether it was held.
    pub fn downgrade_granule_write(&mut self, granule: GranuleId) -> (removed: Result<
        bool,
        DowngradeError,
    >)
        requires
            old(self).is_listed_once(),
        ensures
            final(self).is_listed_once(),
            (final(self)@, removed) == old(self)@.downgrade(granule),
    {
        let transaction: u64 = match self.active {
            Some(transaction) => transaction,
            None => return Err(DowngradeError::NoActiveTransaction),
        };
        let ghost before = self@;
        let removed = remove_granule(&mut self.write_granules, granule);
        if removed {
            if !holds(&self.read_granules, granule) {
                return Err(DowngradeError::ReadPermissionLost { granule });
            }
            let owned = match remove_owner(&mut self.owners, granule) {
                Some(owner) => owner == transaction,
                None => false,
            };
            if !owned {
                return Err(DowngradeError::NotTheOwner { transaction, granule });
            }
        } else {
            assert(before.write_granules.remove(granule) =~= before.write_granules);
        }
        Ok(removed)
    }

    /// The permissions on `granule`.
    pub fn granule_permission_snapshot(&self, granule: GranuleId) -> (snapshot:
        GranulePermissionModelState)
        ensures
            snapshot == (GranulePermissionModelState {
                active: self@.active is Some,
                read: self@.read_granules.contains(granule),
                write: self@.write_granules.contains(granule),
            }),
    {
        GranulePermissionModelState {
            active: match self.active {
                Some(_) => true,
                None => false,
            },
            read: holds(&self.read_granules, granule),
            write: holds(&self.write_granules, granule),
        }
    }
}

/// What is answered when a granule is to be no longer held for writing, and what is held then.
/// Without a transaction, or if the granule was not held for writing, nothing changes.
/// Otherwise it is no longer held for writing. If it was not held for reading either, that is
/// all, and an error; otherwise nobody owns it any more, and it is an error if it was not the
/// transaction that did.
pub proof fn law_downgrade_answers(holdings: HoldingsView, granule: GranuleId, other: GranuleId)
    ensures
        ({
            let (after, answer) = holdings.downgrade(granule);
            let is_held = holdings.write_granules.contains(granule);
            let is_read = holdings.read_granules.contains(granule);
            &&& match holdings.active {
                None => answer == Err::<bool, DowngradeError>(DowngradeError::NoActiveTransaction),
                Some(transaction) => if !is_held {
                    answer == Ok::<bool, DowngradeError>(false)
                } else if !is_read {
                    answer == Err::<bool, DowngradeError>(
                        DowngradeError::ReadPermissionLost { granule },
                    )
                } else if holdings.owners.contains_key(granule) && holdings.owners[granule]
                    == transaction {
                    answer == Ok::<bool, DowngradeError>(true)
                } else {
                    answer == Err::<bool, DowngradeError>(
                        DowngradeError::NotTheOwner { transaction, granule },
                    )
                },
            }
            &&& holdings.active is None || !is_held ==> after == holdings
            &&& after.active == holdings.active
            &&& after.read_granules == holdings.read_granules
            &&& after.write_granules.contains(other) <==> holdings.write_granules.contains(other)
                && !(holdings.active is Some && other == granule)
            &&& after.owners.contains_key(other) <==> holdings.owners.contains_key(other) && !(
            holdings.active is Some && is_held && is_read && other == granule)
            &&& after.owners.contains_key(other) ==> after.owners[other] == holdings.owners[other]
        }),
{
}

/// Listed owners own what the list says. Where a granule is listed twice, the first entry
/// counts.
pub proof fn law_owner_map(owners: Seq<OwnedGranule>, granule: GranuleId, index: int)
    ensures
        owner_map(owners).contains_key(granule) <==> exists|i: int|
            0 <= i < owners.len() && (#[trigger] owners[i]).granule == granule,
        0 <= index < owners.len() && owners[index].granule == granule && (forall|i: int|
            0 <= i < index ==> (#[trigger] owners[i]).granule != granule) ==> owner_map(owners)[granule] == owners[index].owner,
    decreases owners.len(),
{
    if owners.len() > 0 {
        let rest = owners.drop_first();
        law_owner_map(rest, granule, index - 1);
        assert forall|i: int| 0 <= i < rest.len() implies #[trigger] rest[i] == owners[i + 1] by {}
        if exists|i: int| 0 <= i < owners.len() && (#[trigger] owners[i]).granule == granule {
            let i = choose|i: int|
                0 <= i < owners.len() && (#[trigger] owners[i]).granule == granule;
            if i > 0 {
                assert(rest[i - 1].granule == granule);
            }
        }
        if exists|i: int| 0 <= i < rest.len() && (#[trigger] rest[i]).granule == granule {
            let i = choose|i: int| 0 <= i < rest.len() && (#[trigger] rest[i]).granule == granule;
            assert(owners[i + 1].granule == granule);
        }
        if owners[0].granule == granule {
            assert(owners[0].granule == granule);
        }
        if 0 < index < owners.len() && owners[index].granule == granule && forall|i: int|
            0 <= i < index ==> (#[trigger] owners[i]).granule != granule {
            assert(owners[0].granule != granule);
            assert(rest[index - 1] == owners[index]);
            assert forall|i: int| 0 <= i < index - 1 implies (#[trigger] rest[i]).granule
                != granule by {
                assert(owners[i + 1].granule != granule);
            }
        }
    }
}

} // verus!
