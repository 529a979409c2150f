//! The layouts of a region, by id and by fingerprint.

use std::collections::BTreeMap;

use vstd::prelude::*;

use crate::layout_error::TypeLayoutError;
use crate::type_layout::{LayoutView, PersistentTypeLayout, TypeLayoutId};

verus! {

/// The numbers of some ids.
pub open spec fn id_numbers(ids: Seq<TypeLayoutId>) -> Seq<u32> {
    ids.map_values(|id: TypeLayoutId| id@)
}

/// A registry as a mathematical value: the layout of each id, and the ids of each
/// fingerprint in the order of their registration.
#[verifier::ext_equal]
pub struct RegistryView {
    pub layouts: Map<u32, LayoutView>,
    pub fingerprints: Map<u64, Seq<u32>>,
}

impl RegistryView {
    /// The registry that holds nothing.
    pub open spec fn empty() -> RegistryView {
        RegistryView { layouts: Map::empty(), fingerprints: Map::empty() }
    }

    /// Whether every layout is registered under its own id, and under its fingerprint once.
    pub open spec fn is_indexed(self) -> bool {
        &&& forall|id: u32| #[trigger]
            self.layouts.contains_key(id) ==> {
                &&& self.layouts[id].id() == id
                &&& id != 0
                &&& self.fingerprints.contains_key(self.layouts[id].fingerprint())
                &&& self.fingerprints[self.layouts[id].fingerprint()].contains(id)
            }
        &&& forall|fingerprint: u64| #[trigger]
            self.fingerprints.contains_key(fingerprint) ==> {
                &&& self.fingerprints[fingerprint].len() > 0
                &&& self.fingerprints[fingerprint].no_duplicates()
            }
        &&& forall|fingerprint: u64, i: int|
            #![trigger self.fingerprints[fingerprint][i]]
            self.fingerprints.contains_key(fingerprint) && 0 <= i
                < self.fingerprints[fingerprint].len() ==> {
                &&& self.layouts.contains_key(self.fingerprints[fingerprint][i])
                &&& self.layouts[self.fingerprints[fingerprint][i]].fingerprint() == fingerprint
            }
    }

    /// Whether no two layouts of different shapes share a fingerprint.
    pub open spec fn is_unambiguous(self) -> bool {
        forall|left: u32, right: u32|
            #![trigger self.layouts[left], self.layouts[right]]
            self.layouts.contains_key(left) && self.layouts.contains_key(right)
                && self.layouts[left].fingerprint() == self.layouts[right].fingerprint()
                ==> self.layouts[left].same_shape(self.layouts[right])
    }

    /// What holds of every registry.
    pub open spec fn is_consistent(self) -> bool {
        &&& self.layouts.dom().finite()
        &&& self.is_indexed()
        &&& self.is_unambiguous()
    }

    /// The ids registered for a fingerprint, in the order of their registration.
    pub open spec fn ids_for(self, fingerprint: u64) -> Seq<u32> {
        if self.fingerprints.contains_key(fingerprint) {
            self.fingerprints[fingerprint]
        } else {
            Seq::empty()
        }
    }

    /// The registry with `layout` registered too, or why it cannot be.
    pub open spec fn insert(self, layout: LayoutView) -> Result<RegistryView, TypeLayoutError> {
        let id = layout.id();
        let fingerprint = layout.fingerprint();
        let ids = self.ids_for(fingerprint);
        if id == 0 {
            Err(TypeLayoutError::ZeroId)
        } else if self.layouts.contains_key(id) {
            if self.layouts[id] == layout {
                Ok(self)
            } else {
                Err(TypeLayoutError::ConflictingLayout { id })
            }
        } else if ids.len() > 0 && !self.layouts[ids[0]].same_shape(layout) {
            Err(TypeLayoutError::IncompatibleFingerprint { fingerprint, id: ids[0] })
        } else {
            Ok(
                RegistryView {
                    layouts: self.layouts.insert(id, layout),
                    fingerprints: self.fingerprints.insert(fingerprint, ids.push(id)),
                },
            )
        }
    }
}

/// The members of `ids` below `bound`, in ascending order.
pub open spec fn ascending_below(ids: Set<u32>, bound: nat) -> Seq<u32>
    decreases bound,
{
    if bound == 0 {
        Seq::empty()
    } else {
        let last = (bound - 1) as u32;
        let below = ascending_below(ids, (bound - 1) as nat);
        if ids.contains(last) {
            below.push(last)
        } else {
            below
        }
    }
}

/// Whether every number is larger than the one before it.
pub open spec fn is_ascending(ids: Seq<u32>) -> bool {
    forall|i: int, j: int| 0 <= i < j < ids.len() ==> ids[i] < ids[j]
}

impl RegistryView {
    /// The ids of the registry in ascending order.
    pub open spec fn ids(self) -> Seq<u32> {
        ascending_below(self.layouts.dom(), 0x1_0000_0000)
    }

    /// The layouts of the registry in ascending order of their ids.
    pub open spec fn in_order(self) -> Seq<LayoutView> {
        self.ids().map_values(|id: u32| self.layouts[id])
    }
}

proof fn lemma_ascending_below(ids: Set<u32>, bound: nat)
    requires
        bound <= 0x1_0000_0000,
    ensures
        is_ascending(ascending_below(ids, bound)),
        forall|id: u32| #[trigger]
            ascending_below(ids, bound).contains(id) <==> ids.contains(id) && id < bound,
    decreases bound,
{
    if bound > 0 {
        let last = (bound - 1) as u32;
        let below = ascending_below(ids, (bound - 1) as nat);
        lemma_ascending_below(ids, (bound - 1) as nat);
        assert forall|i: int| 0 <= i < below.len() implies below[i] < last by {
            assert(below.contains(below[i]));
        }
        assert forall|id: u32| #[trigger]
            ascending_below(ids, bound).contains(id) <==> ids.contains(id) && id < bound by {
            if ids.contains(last) {
                assert(below.push(last)[below.len() as int] == last);
                if below.contains(id) {
                    let at = choose|at: int| 0 <= at < below.len() && below[at] == id;
                    assert(below.push(last)[at] == id);
                }
            }
        }
    }
}

proof fn lemma_increasing_is_ascending(ids: Seq<u32>)
    requires
        vstd::std_specs::btree::increasing_seq(ids),
    ensures
        is_ascending(ids),
{
    broadcast use vstd::std_specs::btree::group_btree_axioms;
    broadcast use vstd::laws_cmp::group_laws_cmp;

    assert(vstd::laws_cmp::obeys_cmp::<u32>());
    assert forall|i: int, j: int| 0 <= i < j < ids.len() implies ids[i] < ids[j] by {
        assert(vstd::std_specs::cmp::OrdSpec::cmp_spec(&ids[i], &ids[j]) is Less);
    }
}

/// Two ascending sequences with the same members are the same.
pub proof fn lemma_ascending_unique(left: Seq<u32>, right: Seq<u32>)
    requires
        is_ascending(left),
        is_ascending(right),
        forall|id: u32| #[trigger] left.contains(id) <==> right.contains(id),
    ensures
        left == right,
    decreases left.len(),
{
    if left.len() == 0 {
        if right.len() > 0 {
            assert(left.contains(right[0]));
        }
        assert(left =~= right);
    } else {
        assert(left.contains(left.last()));
        assert(right.contains(left.last()));
        assert(right.contains(right.last()));
        assert(left.contains(right.last()));
        assert(left.last() == right.last());
        let a = left.drop_last();
        let b = right.drop_last();
        assert forall|id: u32| #[trigger] a.contains(id) <==> b.contains(id) by {
            if a.contains(id) {
                let at = choose|at: int| 0 <= at < a.len() && a[at] == id;
                assert(left[at] == id);
                assert(left.contains(id));
                assert(right.contains(id));
                let to = choose|to: int| 0 <= to < right.len() && right[to] == id;
                assert(b[to] == id);
            }
            if b.contains(id) {
                let at = choose|at: int| 0 <= at < b.len() && b[at] == id;
                assert(right[at] == id);
                assert(left.contains(id));
                let to = choose|to: int| 0 <= to < left.len() && left[to] == id;
                assert(a[to] == id);
            }
        }
        lemma_ascending_unique(a, b);
        assert(left =~= a.push(left.last()));
        assert(right =~= b.push(right.last()));
    }
}

/// The ids of a registry are listed in ascending order, each once, and no other.
pub proof fn law_ids_in_order(registry: RegistryView)
    ensures
        is_ascending(registry.ids()),
        forall|id: u32| #[trigger]
            registry.ids().contains(id) <==> registry.layouts.contains_key(id),
{
    lemma_ascending_below(registry.layouts.dom(), 0x1_0000_0000);
}

/// Registering a layout keeps a registry consistent.
pub proof fn lemma_insert_consistent(registry: RegistryView, layout: LayoutView)
    requires
        registry.is_consistent(),
    ensures
        registry.insert(layout) matches Ok(next) ==> next.is_consistent(),
{
    if let Ok(next) = registry.insert(layout) {
        if !registry.layouts.contains_key(layout.id()) {
            let id = layout.id();
            let fingerprint = layout.fingerprint();
            let ids = registry.ids_for(fingerprint);
            assert forall|i: int| 0 <= i < ids.len() implies ids[i] != id by {
                assert(registry.layouts.contains_key(registry.fingerprints[fingerprint][i]));
            }
            assert(ids.push(id)[ids.len() as int] == id);
            assert forall|other: u32| #[trigger] next.layouts.contains_key(other) implies {
                &&& next.layouts[other].id() == other
                &&& other != 0
                &&& next.fingerprints.contains_key(next.layouts[other].fingerprint())
                &&& next.fingerprints[next.layouts[other].fingerprint()].contains(other)
            } by {
                if other != id {
                    assert(registry.layouts.contains_key(other));
                    if registry.layouts[other].fingerprint() == fingerprint {
                        let at = choose|at: int| 0 <= at < ids.len() && ids[at] == other;
                        assert(ids.push(id)[at] == other);
                    }
                }
            }
            assert forall|left: u32, right: u32|
                #![trigger next.layouts[left], next.layouts[right]]
                next.layouts.contains_key(left) && next.layouts.contains_key(right)
                    && next.layouts[left].fingerprint()
                    == next.layouts[right].fingerprint() implies next.layouts[left].same_shape(
                next.layouts[right],
            ) by {
                lemma_same_fingerprint_as_new(registry, layout, left);
                lemma_same_fingerprint_as_new(registry, layout, right);
            }
        }
    }
}

proof fn lemma_same_fingerprint_as_new(registry: RegistryView, layout: LayoutView, other: u32)
    requires
        registry.is_consistent(),
        registry.insert(layout) is Ok,
        !registry.layouts.contains_key(layout.id()),
    ensures
        registry.layouts.contains_key(other) && registry.layouts[other].fingerprint()
            == layout.fingerprint() ==> registry.layouts[other].same_shape(layout),
{
    if registry.layouts.contains_key(other) && registry.layouts[other].fingerprint()
        == layout.fingerprint() {
        let first = registry.fingerprints[layout.fingerprint()][0];
        assert(registry.layouts[other].same_shape(registry.layouts[first]));
    }
}

/// Registering a layout a second time succeeds and changes nothing.
pub proof fn law_insert_is_idempotent(registry: RegistryView, layout: LayoutView)
    ensures
        registry.insert(layout) matches Ok(next) ==> next.insert(layout) == Ok::<
            RegistryView,
            TypeLayoutError,
        >(next),
{
}

/// A registered layout is found under its id and its fingerprint, behind the ids that were
/// there, and nothing else changes.
pub proof fn law_insert_registers(registry: RegistryView, layout: LayoutView, id: u32, fingerprint: u64)
    requires
        registry.is_consistent(),
    ensures
        registry.insert(layout) matches Ok(next) ==> {
            &&& next.layouts.contains_key(layout.id())
            &&& next.layouts[layout.id()] == layout
            &&& next.ids_for(layout.fingerprint()).contains(layout.id())
            &&& registry.layouts.contains_key(layout.id()) ==> next == registry
            &&& !registry.layouts.contains_key(layout.id()) ==> next.ids_for(layout.fingerprint())
                == registry.ids_for(layout.fingerprint()).push(layout.id())
            &&& id != layout.id() ==> next.layouts.contains_key(id)
                == registry.layouts.contains_key(id) && next.layouts[id] == registry.layouts[id]
            &&& fingerprint != layout.fingerprint() ==> next.ids_for(fingerprint)
                == registry.ids_for(fingerprint)
        },
{
    if let Ok(next) = registry.insert(layout) {
        let ids = registry.ids_for(layout.fingerprint());
        if !registry.layouts.contains_key(layout.id()) {
            assert(ids.push(layout.id())[ids.len() as int] == layout.id());
        }
    }
}

/// A layout that has the shape of a registered one can be registered under every free id.
pub proof fn law_same_shape_registers(registry: RegistryView, layout: LayoutView, registered: u32)
    requires
        registry.is_consistent(),
        registry.layouts.contains_key(registered),
        registry.layouts[registered].same_shape(layout),
        layout.id() != 0,
        !registry.layouts.contains_key(layout.id()),
    ensures
        registry.insert(layout) is Ok,
{
    let ids = registry.ids_for(layout.fingerprint());
    assert(ids.contains(registered));
    let first = registry.layouts[ids[0]];
    assert(first.same_shape(registry.layouts[registered]));
    assert(first.same_shape(layout));
}

/// A layout is refused exactly if its id is zero, or names another layout, or, the id being
/// new, its fingerprint belongs to a layout of another shape.
pub proof fn law_insert_refuses(registry: RegistryView, layout: LayoutView)
    requires
        registry.is_consistent(),
    ensures
        registry.insert(layout) is Err <==> {
            ||| layout.id() == 0
            ||| registry.layouts.contains_key(layout.id()) && registry.layouts[layout.id()]
                != layout
            ||| !registry.layouts.contains_key(layout.id()) && exists|other: u32|
                {
                    &&& #[trigger] registry.layouts.contains_key(other)
                    &&& registry.layouts[other].fingerprint() == layout.fingerprint()
                    &&& !registry.layouts[other].same_shape(layout)
                }
        },
{
    let fingerprint = layout.fingerprint();
    let ids = registry.ids_for(fingerprint);
    if layout.id() != 0 && !registry.layouts.contains_key(layout.id()) {
        if registry.insert(layout) is Err {
            assert(registry.layouts.contains_key(registry.fingerprints[fingerprint][0]));
        } else {
            assert forall|other: u32| #[trigger]
                registry.layouts.contains_key(other) && registry.layouts[other].fingerprint()
                    == fingerprint implies registry.layouts[other].same_shape(layout) by {
                lemma_same_fingerprint_as_new(registry, layout, other);
            }
        }
    }
}

/// The layouts of a region.
#[derive(Debug)]
pub struct TypeLayoutRegistry {
    layouts: BTreeMap<u32, PersistentTypeLayout>,
    fingerprints: BTreeMap<u64, Vec<TypeLayoutId>>,
}

impl View for TypeLayoutRegistry {
    type V = RegistryView;

    closed spec fn view(&self) -> RegistryView {
        RegistryView {
            layouts: self.layouts@.map_values(|layout: PersistentTypeLayout| layout@),
            fingerprints: self.fingerprints@.map_values(|ids: Vec<TypeLayoutId>| id_numbers(ids@)),
        }
    }
}

impl Clone for TypeLayoutRegistry {
    fn clone(&self) -> (registry: TypeLayoutRegistry)
        ensures
            registry@ == self@,
    {
        proof {
            use_type_invariant(self);
        }
        TypeLayoutRegistry {
            layouts: self.layouts.clone(),
            fingerprints: self.fingerprints.clone(),
        }
    }
}

impl Default for TypeLayoutRegistry {
    fn default() -> (registry: TypeLayoutRegistry)
        ensures
            registry@ == RegistryView::empty(),
            registry@.is_consistent(),
    {
        let layouts: BTreeMap<u32, PersistentTypeLayout> = BTreeMap::new();
        let fingerprints: BTreeMap<u64, Vec<TypeLayoutId>> = BTreeMap::new();
        proof {
            assert(layouts@.map_values(|layout: PersistentTypeLayout| layout@) =~= Map::empty());
            assert(fingerprints@.map_values(|ids: Vec<TypeLayoutId>| id_numbers(ids@))
                =~= Map::empty());
        }
        TypeLayoutRegistry { layouts, fingerprints }
    }
}

impl TypeLayoutRegistry {
    #[verifier::type_invariant]
    spec fn inv(self) -> bool {
        self@.is_consistent()
    }

    /// Registers `layout`. Registering it again changes nothing.
    pub fn insert(&mut self, layout: PersistentTypeLayout) -> (inserted: Result<
        (),
        TypeLayoutError,
    >)
        ensures
            final(self)@.is_consistent(),
            match old(self)@.insert(layout@) {
                Ok(next) => inserted is Ok && final(self)@ == next,
                Err(error) => inserted == Err::<(), TypeLayoutError>(error) && final(self)@ == old(
                    self,
                )@,
            },
    {
        proof {
            use_type_invariant(&*self);
            lemma_insert_consistent(self@, layout@);
        }
        let ghost before = self@;
        let id = layout.id();
        let raw: u32 = id.get();
        if let Some(existing) = self.layouts.get(&raw) {
            assert(before.layouts[raw] == existing@);
            if !existing.same_layout(&layout) {
                return Err(TypeLayoutError::ConflictingLayout { id: raw });
            }
            return Ok(());
        }
        assert(!before.layouts.contains_key(raw));
        let fingerprint: u64 = layout.fingerprint();
        if let Some(ids) = self.fingerprints.get(&fingerprint) {
            assert(before.fingerprints[fingerprint] == id_numbers(ids@));
            let mut index: usize = 0;
            while index < ids.len()
                invariant
                    index <= ids@.len(),
                    before == self@,
                    before == old(self)@,
                    before.is_consistent(),
                    layout@.id() == raw,
                    raw != 0,
                    !before.layouts.contains_key(raw),
                    layout@.fingerprint() == fingerprint,
                    before.fingerprints.contains_key(fingerprint),
                    before.fingerprints[fingerprint] == id_numbers(ids@),
                    index > 0 ==> before.layouts[id_numbers(ids@)[0]].same_shape(layout@),
                decreases ids@.len() - index,
            {
                let other: u32 = ids[index].get();
                assert(other == before.fingerprints[fingerprint][index as int]);
                assert(before.layouts.contains_key(before.fingerprints[fingerprint][0]));
                assert(self.layouts@.contains_key(other));
                let existing = self.layouts.get(&other).unwrap();
                assert(before.layouts[other] == existing@);
                if !existing.shape_eq_ignoring_id(&layout) {
                    proof {
                        let first = before.fingerprints[fingerprint][0];
                        assert(before.layouts[other].same_shape(before.layouts[first]));
                        assert(index == 0);
                    }
                    return Err(
                        TypeLayoutError::IncompatibleFingerprint { fingerprint, id: other },
                    );
                }
                index += 1;
            }
        }
        let mut current = TypeLayoutRegistry::default();
        std::mem::swap(self, &mut current);
        let TypeLayoutRegistry { mut layouts, mut fingerprints } = current;
        let mut ids: Vec<TypeLayoutId> = match fingerprints.remove(&fingerprint) {
            Some(ids) => ids,
            None => Vec::new(),
        };
        assert(id_numbers(ids@) =~= before.ids_for(fingerprint));
        ids.push(id);
        assert(id_numbers(ids@) =~= before.ids_for(fingerprint).push(raw));
        fingerprints.insert(fingerprint, ids);
        layouts.insert(raw, layout);
        proof {
            let next = before.insert(layout@)->Ok_0;
            assert(layouts@.map_values(|layout: PersistentTypeLayout| layout@) =~= next.layouts);
            assert(fingerprints@.map_values(|ids: Vec<TypeLayoutId>| id_numbers(ids@))
                =~= next.fingerprints);
        }
        *self = TypeLayoutRegistry { layouts, fingerprints };
        Ok(())
    }

    /// The layout with id `id`.
    pub fn get(&self, id: TypeLayoutId) -> (layout: Option<&PersistentTypeLayout>)
        ensures
            match layout {
                Some(layout) => self@.layouts.contains_key(id@) && layout@ == self@.layouts[id@],
                None => !self@.layouts.contains_key(id@),
            },
    {
        self.layouts.get(&id.get())
    }

    /// Whether a layout has id `id`.
    pub fn contains(&self, id: TypeLayoutId) -> (found: bool)
        ensures
            found == self@.layouts.contains_key(id@),
    {
        self.layouts.contains_key(&id.get())
    }

    /// The ids registered for a fingerprint, in the order of their registration.
    pub fn ids_for_fingerprint(&self, fingerprint: u64) -> (ids: Vec<TypeLayoutId>)
        ensures
            id_numbers(ids@) == self@.ids_for(fingerprint),
    {
        match self.fingerprints.get(&fingerprint) {
            Some(registered) => {
                let mut ids: Vec<TypeLayoutId> = Vec::with_capacity(registered.len());
                let mut index: usize = 0;
                while index < registered.len()
                    invariant
                        index <= registered@.len(),
                        ids@ == registered@.take(index as int),
                    decreases registered@.len() - index,
                {
                    ids.push(registered[index]);
                    index += 1;
                    assert(ids@ =~= registered@.take(index as int));
                }
                assert(ids@ =~= registered@);
                ids
            },
            None => {
                let ids: Vec<TypeLayoutId> = Vec::new();
                assert(id_numbers(ids@) =~= Seq::empty());
                ids
            },
        }
    }

    /// The layouts in ascending order of their ids.
    pub fn iter(&self) -> (layouts: Vec<&PersistentTypeLayout>)
        ensures
            layouts@.map_values(|layout: &PersistentTypeLayout| layout@) == self@.in_order(),
            self@.is_consistent(),
    {
        proof {
            use_type_invariant(self);
        }
        let mut layouts: Vec<&PersistentTypeLayout> = Vec::new();
        let values = self.layouts.values();
        let ghost keys = choose|keys: Seq<u32>|
            {
                &&& vstd::std_specs::btree::increasing_seq(keys)
                &&& keys.to_set() == self.layouts@.dom()
                &&& keys.no_duplicates()
                &&& vstd::std_specs::iter::IteratorSpec::remaining(&values) == keys.map(
                    |i: int, key: u32| &self.layouts@[key],
                )
            };
        for layout in iterator: values
            invariant
                iterator.seq() == keys.map(|i: int, key: u32| &self.layouts@[key]),
                layouts@ =~= iterator.seq().take(iterator.index() as int),
        {
            layouts.push(layout);
        }
        proof {
            lemma_increasing_is_ascending(keys);
            law_ids_in_order(self@);
            lemma_ascending_unique(keys, self@.ids());
            assert(layouts@.map_values(|layout: &PersistentTypeLayout| layout@)
                =~= self@.in_order());
        }
        layouts
    }
}

/// What is answered to a registration: a layout without an id is refused, then one whose id
/// names another layout, then one whose fingerprint belongs to a layout of another shape, which
/// is named by the first id that was registered for the fingerprint.
pub proof fn law_insert_gives_the_first_reason(
    registry: RegistryView,
    layout: LayoutView,
    error: TypeLayoutError,
)
    requires
        registry.is_consistent(),
        registry.insert(layout) == Err::<RegistryView, TypeLayoutError>(error),
    ensures
        if layout.id() == 0 {
            error == TypeLayoutError::ZeroId
        } else if registry.layouts.contains_key(layout.id()) {
            error == (TypeLayoutError::ConflictingLayout { id: layout.id() })
        } else {
            error matches TypeLayoutError::IncompatibleFingerprint { fingerprint, id } && {
                &&& fingerprint == layout.fingerprint()
                &&& registry.fingerprints.contains_key(fingerprint)
                &&& id == registry.fingerprints[fingerprint][0]
                &&& registry.layouts.contains_key(id)
                &&& registry.layouts[id].fingerprint() == fingerprint
                &&& registry.layouts[id].with_id(layout.id()) != layout
            }
        },
{
    let ids = registry.ids_for(layout.fingerprint());
    if layout.id() != 0 && !registry.layouts.contains_key(layout.id()) {
        assert(registry.layouts.contains_key(registry.fingerprints[layout.fingerprint()][0]));
    }
}

/// A layout with an id that is free, and with a fingerprint that no layout has, can always be
/// registered.
pub proof fn law_new_layouts_register(registry: RegistryView, layout: LayoutView)
    requires
        registry.is_consistent(),
        layout.id() != 0,
        !registry.layouts.contains_key(layout.id()),
        forall|id: u32| #[trigger]
            registry.layouts.contains_key(id) ==> registry.layouts[id].fingerprint()
                != layout.fingerprint(),
    ensures
        registry.insert(layout) matches Ok(next) && {
            &&& next.layouts == registry.layouts.insert(layout.id(), layout)
            &&& next.ids_for(layout.fingerprint()) == seq![layout.id()]
        },
{
    let fingerprint = layout.fingerprint();
    if registry.fingerprints.contains_key(fingerprint) {
        assert(registry.layouts.contains_key(registry.fingerprints[fingerprint][0]));
    }
    assert(registry.ids_for(fingerprint) =~= Seq::empty());
    assert(Seq::<u32>::empty().push(layout.id()) =~= seq![layout.id()]);
}

/// What holds of every registry: a layout has the id that it is registered under, which is not
/// zero. The ids of a fingerprint are those of the layouts that have it, each once. Layouts
/// that share a fingerprint differ in their ids at most.
pub proof fn law_registries_are_indexed(
    registry: RegistryView,
    id: u32,
    other: u32,
    fingerprint: u64,
)
    requires
        registry.is_consistent(),
    ensures
        registry.layouts.contains_key(id) ==> registry.layouts[id].id() == id && id != 0,
        registry.ids_for(fingerprint).contains(id) <==> registry.layouts.contains_key(id)
            && registry.layouts[id].fingerprint() == fingerprint,
        registry.ids_for(fingerprint).no_duplicates(),
        registry.layouts.contains_key(id) && registry.layouts.contains_key(other)
            && registry.layouts[id].fingerprint() == registry.layouts[other].fingerprint()
            ==> registry.layouts[id].with_id(other) == registry.layouts[other],
{
    if registry.ids_for(fingerprint).contains(id) {
        let i = choose|i: int|
            0 <= i < registry.ids_for(fingerprint).len() && registry.ids_for(fingerprint)[i] == id;
        assert(registry.fingerprints[fingerprint][i] == id);
    }
    if registry.layouts.contains_key(id) && registry.layouts.contains_key(other)
        && registry.layouts[id].fingerprint() == registry.layouts[other].fingerprint() {
        assert(registry.layouts[id].same_shape(registry.layouts[other]));
    }
}

/// The layouts are listed in the order of their ids, each under its own.
pub proof fn law_layouts_in_order(registry: RegistryView, i: int, j: int)
    requires
        registry.is_consistent(),
        0 <= i < j < registry.in_order().len(),
    ensures
        registry.in_order()[i].id() < registry.in_order()[j].id(),
        registry.layouts.contains_key(registry.in_order()[i].id()),
        registry.layouts[registry.in_order()[i].id()] == registry.in_order()[i],
{
    law_ids_in_order(registry);
    assert(registry.ids().contains(registry.ids()[i]));
    assert(registry.ids().contains(registry.ids()[j]));
}

/// Every layout is listed, and no other.
pub proof fn law_every_layout_is_listed(registry: RegistryView, layout: LayoutView)
    requires
        registry.is_consistent(),
    ensures
        registry.in_order().contains(layout) <==> registry.layouts.contains_key(layout.id())
            && registry.layouts[layout.id()] == layout,
{
    law_ids_in_order(registry);
    let ids = registry.ids();
    if registry.in_order().contains(layout) {
        let i = choose|i: int|
            0 <= i < registry.in_order().len() && registry.in_order()[i] == layout;
        assert(ids.contains(ids[i]));
        assert(registry.layouts[ids[i]] == layout);
    }
    if registry.layouts.contains_key(layout.id()) && registry.layouts[layout.id()] == layout {
        assert(ids.contains(layout.id()));
        let i = choose|i: int| 0 <= i < ids.len() && ids[i] == layout.id();
        assert(registry.in_order()[i] == layout);
    }
}

/// The numbers of ids stand in the order of the ids.
pub proof fn law_numbers_of_ids(ids: Seq<TypeLayoutId>, index: int)
    ensures
        id_numbers(ids).len() == ids.len(),
        0 <= index < ids.len() ==> id_numbers(ids)[index] == ids[index]@,
{
}

/// An empty registry has neither ids nor fingerprints.
pub proof fn law_empty_registry(id: u32, fingerprint: u64)
    ensures
        !RegistryView::empty().layouts.contains_key(id),
        !RegistryView::empty().fingerprints.contains_key(fingerprint),
        RegistryView::empty().ids_for(fingerprint).len() == 0,
{
}

} // verus!
