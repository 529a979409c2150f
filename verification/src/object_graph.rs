//! Linked lists and binary trees of persistent objects.

use vstd::prelude::*;

use crate::values::{ObjectId, ObjectPayload, ObjectValue, PayloadView};

verus! {

/// Some persistent objects, each with the heap reference that it was made for. The objects
/// are numbered in the order of their making.
#[derive(Clone, Debug, PartialEq, Eq)]
pub struct PersistentObjects {
    pub payloads: Vec<ObjectPayload>,
    pub gc_refs: Vec<u32>,
}

impl View for PersistentObjects {
    type V = Seq<PayloadView>;

    open spec fn view(&self) -> Seq<PayloadView> {
        self.payloads@.map_values(|payload: ObjectPayload| payload@)
    }
}

/// `count` heap references, beginning with `base`.
pub open spec fn gc_refs_from(base: u32, count: nat) -> Seq<u32> {
    Seq::new(count, |i: int| (base + i) as u32)
}

impl PersistentObjects {
    /// No objects.
    pub fn new() -> (objects: PersistentObjects)
        ensures
            objects@ == Seq::<PayloadView>::empty(),
            objects.gc_refs@ == Seq::<u32>::empty(),
    {
        let objects = PersistentObjects { payloads: Vec::new(), gc_refs: Vec::new() };
        assert(objects@ =~= Seq::empty());
        objects
    }

    /// Makes a struct for a heap reference.
    pub fn allocate_persistent_struct_for_gc_ref(
        &mut self,
        gc_ref: u32,
        fields: Vec<ObjectValue>,
    ) -> (object: ObjectId)
        ensures
            final(self)@ == old(self)@.push(PayloadView::Struct(fields@)),
            final(self).gc_refs@ == old(self).gc_refs@.push(gc_ref),
            object.object_index == old(self)@.len(),
    {
        let ghost before = self@;
        let object = ObjectId { object_index: self.payloads.len() as u64 };
        let ghost values = fields@;
        self.payloads.push(ObjectPayload::Struct(fields));
        self.gc_refs.push(gc_ref);
        assert(self@ =~= before.push(PayloadView::Struct(values)));
        object
    }
}

/// The successor and the value of a list node.
pub open spec fn list_node(objects: Seq<PayloadView>, node: ObjectId) -> Option<
    (Option<ObjectId>, i32),
> {
    if node.object_index >= objects.len() {
        None
    } else {
        match objects[node.object_index as int] {
            PayloadView::Struct(fields) => if fields.len() != 2 {
                None
            } else {
                match (fields[0], fields[1]) {
                    (ObjectValue::Ref(next), ObjectValue::I32(value)) => Some((next, value)),
                    _ => None,
                }
            },
            PayloadView::Array(_) => None,
        }
    }
}

/// Whether a list of `len` nodes begins at `head`.
pub open spec fn is_list(objects: Seq<PayloadView>, head: Option<ObjectId>, len: nat) -> bool
    decreases len,
{
    match head {
        None => len == 0,
        Some(node) => len > 0 && match list_node(objects, node) {
            Some((next, _)) => is_list(objects, next, (len - 1) as nat),
            None => false,
        },
    }
}

/// The sum of the values of a list.
pub open spec fn list_sum(objects: Seq<PayloadView>, head: Option<ObjectId>, len: nat) -> int
    decreases len,
{
    if len == 0 {
        0
    } else {
        match list_node(objects, head->0) {
            Some((next, value)) => value + list_sum(objects, next, (len - 1) as nat),
            None => 0,
        }
    }
}

/// Whether a sum over a list that has come to `sum` stays within bounds to the end.
pub open spec fn list_sum_fits(
    objects: Seq<PayloadView>,
    head: Option<ObjectId>,
    len: nat,
    sum: int,
) -> bool
    decreases len,
{
    &&& i32::MIN <= sum <= i32::MAX
    &&& len == 0 || match list_node(objects, head->0) {
        Some((next, value)) => list_sum_fits(objects, next, (len - 1) as nat, sum + value),
        None => true,
    }
}

/// A list has one length.
proof fn lemma_list_length(
    objects: Seq<PayloadView>,
    head: Option<ObjectId>,
    left: nat,
    right: nat,
)
    requires
        is_list(objects, head, left),
        is_list(objects, head, right),
    ensures
        left == right,
    decreases left,
{
    if left > 0 && right > 0 {
        let (next, _) = list_node(objects, head->0)->0;
        lemma_list_length(objects, next, (left - 1) as nat, (right - 1) as nat);
    }
}

/// Whether a list begins at `head` whose values can be summed.
pub open spec fn is_summable_list(objects: Seq<PayloadView>, head: ObjectId) -> bool {
    exists|len: nat| #[trigger]
        is_list(objects, Some(head), len) && list_sum_fits(objects, Some(head), len, 0)
}

/// Node `index` of a list whose first node is object `start`.
pub open spec fn list_node_at(start: nat, index: int) -> PayloadView {
    PayloadView::Struct(
        seq![
            ObjectValue::Ref(
                if index == 0 {
                    None
                } else {
                    Some(ObjectId { object_index: (start + index - 1) as u64 })
                },
            ),
            ObjectValue::I32(index as i32),
        ],
    )
}

/// The nodes of a list of the numbers below `len`, the largest of which is its head.
pub open spec fn list_nodes(start: nat, len: nat) -> Seq<PayloadView> {
    Seq::new(len, |index: int| list_node_at(start, index))
}

impl PersistentObjects {
    /// Makes a list of the numbers below `len`, the largest of which is its head.
    pub fn allocate_persistent_linked_list(&mut self, len: usize, gc_ref_base: u32) -> (head:
        ObjectId)
        requires
            1 <= len <= 0x8000_0000,
            gc_ref_base + len - 1 <= u32::MAX,
        ensures
            final(self)@ == old(self)@ + list_nodes(old(self)@.len(), len as nat),
            final(self).gc_refs@ == old(self).gc_refs@ + gc_refs_from(gc_ref_base, len as nat),
            head.object_index == old(self)@.len() + len - 1,
    {
        let ghost start = self@.len();
        let ghost before = self@;
        let ghost refs = self.gc_refs@;
        let mut head: ObjectId = ObjectId { object_index: 0 };
        let mut index: usize = 0;
        assert(self@ =~= before + list_nodes(start, 0));
        assert(self.gc_refs@ =~= refs + gc_refs_from(gc_ref_base, 0));
        while index < len
            invariant
                index <= len <= 0x8000_0000,
                gc_ref_base + len - 1 <= u32::MAX,
                start == before.len(),
                self@ == before + list_nodes(start, index as nat),
                self.gc_refs@ == refs + gc_refs_from(gc_ref_base, index as nat),
                index > 0 ==> head.object_index == start + index - 1,
            decreases len - index,
        {
            let next: Option<ObjectId> = if index == 0 {
                None
            } else {
                Some(head)
            };
            let mut fields: Vec<ObjectValue> = Vec::new();
            fields.push(ObjectValue::Ref(next));
            fields.push(ObjectValue::I32(index as i32));
            let gc_ref: u32 = gc_ref_base + index as u32;
            let ghost node = PayloadView::Struct(fields@);
            proof {
                assert(fields@ =~= list_node_at(start, index as int)->Struct_0);
            }
            head = self.allocate_persistent_struct_for_gc_ref(gc_ref, fields);
            proof {
                assert(list_nodes(start, (index + 1) as nat) =~= list_nodes(
                    start,
                    index as nat,
                ).push(list_node_at(start, index as int)));
                assert(self@ =~= before + list_nodes(start, (index + 1) as nat));
                assert(gc_refs_from(gc_ref_base, (index + 1) as nat) =~= gc_refs_from(
                    gc_ref_base,
                    index as nat,
                ).push(gc_ref));
                assert(self.gc_refs@ =~= refs + gc_refs_from(gc_ref_base, (index + 1) as nat));
            }
            index += 1;
        }
        head
    }

    /// The successor and the value of a list node.
    fn read_list_node(&self, node: ObjectId) -> (read: (Option<ObjectId>, i32))
        requires
            list_node(self@, node) is Some,
        ensures
            list_node(self@, node) == Some(read),
    {
        assert(self.payloads.len() == self@.len());
        let payload = &self.payloads[node.object_index as usize];
        assert(self@[node.object_index as int] == payload@);
        match payload {
            ObjectPayload::Struct(fields) => match (fields[0], fields[1]) {
                (ObjectValue::Ref(next), ObjectValue::I32(value)) => (next, value),
                _ => (None, 0),
            },
            ObjectPayload::Array(_) => (None, 0),
        }
    }

    /// The sum of the values of the list that begins at `head`.
    pub fn persistent_linked_list_sum(&self, head: ObjectId) -> (sum: i32)
        requires
            is_summable_list(self@, head),
        ensures
            forall|len: nat| #[trigger]
                is_list(self@, Some(head), len) ==> sum == list_sum(self@, Some(head), len),
    {
        let ghost total = choose|len: nat| #[trigger]
            is_list(self@, Some(head), len) && list_sum_fits(self@, Some(head), len, 0);
        let ghost mut rest: nat = total;
        let mut sum: i32 = 0;
        let mut current: Option<ObjectId> = Some(head);
        while current.is_some()
            invariant
                is_list(self@, current, rest),
                list_sum_fits(self@, current, rest, sum as int),
                sum + list_sum(self@, current, rest) == list_sum(self@, Some(head), total),
            decreases rest,
        {
            let node = current.unwrap();
            let (next, value) = self.read_list_node(node);
            assert(list_sum_fits(self@, next, (rest - 1) as nat, sum + value));
            sum = sum + value;
            current = next;
            proof {
                rest = (rest - 1) as nat;
            }
        }
        proof {
            assert(is_list(self@, Some(head), total));
            assert forall|len: nat| #[trigger] is_list(self@, Some(head), len) implies sum
                == list_sum(self@, Some(head), len) by {
                lemma_list_length(self@, Some(head), len, total);
            }
        }
        sum
    }
}

/// The first `len` nodes of a list that was made make a list of the numbers below `len`.
pub proof fn law_made_list_sums_up(objects: Seq<PayloadView>, start: nat, len: nat, made: nat)
    requires
        0 < len <= made <= 0x8000_0000,
        start + made <= objects.len() <= u64::MAX,
        objects.subrange(start as int, (start + made) as int) == list_nodes(start, made),
    ensures
        is_list(
            objects,
            Some(ObjectId { object_index: (start + len - 1) as u64 }),
            len,
        ),
        2 * list_sum(
            objects,
            Some(ObjectId { object_index: (start + len - 1) as u64 }),
            len,
        ) == len * (len - 1),
    decreases len,
{
    let head = ObjectId { object_index: (start + len - 1) as u64 };
    let index = len - 1;
    assert(objects.subrange(start as int, (start + made) as int)[index] == list_node_at(
        start,
        index,
    ));
    assert(objects[start + index] == list_node_at(start, index));
    if len > 1 {
        let fewer = (len - 1) as nat;
        law_made_list_sums_up(objects, start, fewer, made);
        let next = ObjectId { object_index: (start + fewer - 1) as u64 };
        assert(list_node(objects, head) == Some((Some(next), index as i32)));
        assert(list_sum(objects, Some(head), len) == index + list_sum(objects, Some(next), fewer));
        assert(len * (len - 1) == fewer * (fewer - 1) + 2 * fewer) by (nonlinear_arith)
            requires
                len == fewer + 1,
        ;
    } else {
        assert(list_node(objects, head) == Some((None::<ObjectId>, 0i32)));
        assert(is_list(objects, None, 0));
        assert(list_sum(objects, None, 0) == 0);
        assert(len * (len - 1) == 0) by (nonlinear_arith)
            requires
                len == 1,
        ;
    }
}

/// A list that was made can be summed while the sum fits.
pub proof fn law_made_list_is_summable(objects: Seq<PayloadView>, start: nat, len: nat)
    requires
        0 < len,
        len * (len - 1) <= 2 * i32::MAX,
        start + len <= objects.len() <= u64::MAX,
        objects.subrange(start as int, (start + len) as int) == list_nodes(start, len),
    ensures
        is_summable_list(objects, ObjectId { object_index: (start + len - 1) as u64 }),
{
    assert(len <= 0x8000_0000) by (nonlinear_arith)
        requires
            0 < len,
            len * (len - 1) <= 2 * 0x7fff_ffff,
    ;
    law_made_list_sums_up(objects, start, len, len);
    lemma_made_list_sum_fits(objects, start, len, len, 0);
    assert(is_list(objects, Some(ObjectId { object_index: (start + len - 1) as u64 }), len));
}

proof fn lemma_made_list_sum_fits(
    objects: Seq<PayloadView>,
    start: nat,
    len: nat,
    made: nat,
    sum: int,
)
    requires
        0 < len <= made <= 0x8000_0000,
        start + made <= objects.len() <= u64::MAX,
        objects.subrange(start as int, (start + made) as int) == list_nodes(start, made),
        0 <= sum,
        2 * sum + len * (len - 1) <= 2 * i32::MAX,
    ensures
        list_sum_fits(
            objects,
            Some(ObjectId { object_index: (start + len - 1) as u64 }),
            len,
            sum,
        ),
    decreases len,
{
    let index = len - 1;
    assert(objects.subrange(start as int, (start + made) as int)[index] == list_node_at(
        start,
        index,
    ));
    assert(objects[start + index] == list_node_at(start, index));
    assert(len * (len - 1) == (len - 1) * (len - 2) + 2 * (len - 1)) by (nonlinear_arith);
    assert(len * (len - 1) >= 0) by (nonlinear_arith)
        requires
            len > 0,
    ;
    if len > 1 {
        lemma_made_list_sum_fits(objects, start, (len - 1) as nat, made, sum + index);
    } else {
        assert(list_sum_fits(objects, None, 0, sum));
    }
}

/// The children and the value of a tree node.
pub open spec fn tree_node(objects: Seq<PayloadView>, node: ObjectId) -> Option<
    (Option<ObjectId>, Option<ObjectId>, i32),
> {
    if node.object_index >= objects.len() {
        None
    } else {
        match objects[node.object_index as int] {
            PayloadView::Struct(fields) => if fields.len() != 3 {
                None
            } else {
                match (fields[0], fields[1], fields[2]) {
                    (ObjectValue::Ref(left), ObjectValue::Ref(right), ObjectValue::I32(value)) => Some(
                        (left, right, value),
                    ),
                    _ => None,
                }
            },
            PayloadView::Array(_) => None,
        }
    }
}

/// Whether a tree of at most `height` levels hangs from `root`.
pub open spec fn is_tree(objects: Seq<PayloadView>, root: Option<ObjectId>, height: nat) -> bool
    decreases height,
{
    match root {
        None => true,
        Some(node) => height > 0 && match tree_node(objects, node) {
            Some((left, right, _)) => is_tree(objects, left, (height - 1) as nat) && is_tree(
                objects,
                right,
                (height - 1) as nat,
            ),
            None => false,
        },
    }
}

/// The sum of the values of a tree.
pub open spec fn tree_sum(objects: Seq<PayloadView>, root: Option<ObjectId>, height: nat) -> int
    decreases height,
{
    match root {
        None => 0,
        Some(node) => if height == 0 {
            0
        } else {
            match tree_node(objects, node) {
                Some((left, right, value)) => value + tree_sum(
                    objects,
                    left,
                    (height - 1) as nat,
                ) + tree_sum(objects, right, (height - 1) as nat),
                None => 0,
            }
        },
    }
}

/// Whether the sums over a tree and all its parts stay within bounds: a node's value is added
/// to the sum of the left part, and then to that of the right part.
pub open spec fn tree_sum_fits(
    objects: Seq<PayloadView>,
    root: Option<ObjectId>,
    height: nat,
) -> bool
    decreases height,
{
    match root {
        None => true,
        Some(node) => height > 0 ==> match tree_node(objects, node) {
            Some((left, right, value)) => {
                let below = (height - 1) as nat;
                let first = value + tree_sum(objects, left, below);
                &&& tree_sum_fits(objects, left, below)
                &&& tree_sum_fits(objects, right, below)
                &&& i32::MIN <= first <= i32::MAX
                &&& i32::MIN <= first + tree_sum(objects, right, below) <= i32::MAX
            },
            None => true,
        },
    }
}

/// Whether a tree hangs from `root` whose values can be summed.
pub open spec fn is_summable_tree(objects: Seq<PayloadView>, root: Option<ObjectId>) -> bool {
    exists|height: nat| #[trigger]
        is_tree(objects, root, height) && tree_sum_fits(objects, root, height)
}

/// The sum of a tree does not depend on how many levels one allows for.
proof fn lemma_tree_sum_is_one(
    objects: Seq<PayloadView>,
    root: Option<ObjectId>,
    left: nat,
    right: nat,
)
    requires
        is_tree(objects, root, left),
        is_tree(objects, root, right),
    ensures
        tree_sum(objects, root, left) == tree_sum(objects, root, right),
    decreases left,
{
    if let Some(node) = root {
        let (first, second, _) = tree_node(objects, node)->0;
        lemma_tree_sum_is_one(objects, first, (left - 1) as nat, (right - 1) as nat);
        lemma_tree_sum_is_one(objects, second, (left - 1) as nat, (right - 1) as nat);
    }
}

/// How many nodes a full tree of `depth` levels has.
pub open spec fn tree_size(depth: nat) -> nat
    decreases depth,
{
    if depth == 0 {
        0
    } else {
        2 * tree_size((depth - 1) as nat) + 1
    }
}

/// The root of a full tree of `depth` levels whose first node is object `start`.
pub open spec fn tree_root(start: nat, depth: nat) -> Option<ObjectId> {
    if depth == 0 {
        None
    } else {
        Some(ObjectId { object_index: (start + tree_size(depth) - 1) as u64 })
    }
}

/// The nodes of a full tree of `depth` levels with `value` at its root, and at the children of
/// a node twice its value and one more: the left part, then the right part, then the root.
pub open spec fn tree_nodes(start: nat, depth: nat, value: int) -> Seq<PayloadView>
    decreases depth,
{
    if depth == 0 {
        Seq::empty()
    } else {
        let below = (depth - 1) as nat;
        let middle = start + tree_size(below);
        (tree_nodes(start, below, 2 * value) + tree_nodes(middle, below, 2 * value + 1)).push(
            PayloadView::Struct(
                seq![
                    ObjectValue::Ref(tree_root(start, below)),
                    ObjectValue::Ref(tree_root(middle, below)),
                    ObjectValue::I32(value as i32),
                ],
            ),
        )
    }
}

/// Whether the values of a full tree, and of the children of its leaves, stay within bounds.
pub open spec fn tree_values_fit(depth: nat, value: int) -> bool
    decreases depth,
{
    depth == 0 || {
        &&& i32::MIN <= 2 * value
        &&& 2 * value + 1 <= i32::MAX
        &&& tree_values_fit((depth - 1) as nat, 2 * value)
        &&& tree_values_fit((depth - 1) as nat, 2 * value + 1)
    }
}

/// The sum of the values of a full tree.
pub open spec fn full_tree_sum(depth: nat, value: int) -> int
    decreases depth,
{
    if depth == 0 {
        0
    } else {
        value + full_tree_sum((depth - 1) as nat, 2 * value) + full_tree_sum(
            (depth - 1) as nat,
            2 * value + 1,
        )
    }
}

proof fn lemma_tree_nodes_len(start: nat, depth: nat, value: int)
    ensures
        tree_nodes(start, depth, value).len() == tree_size(depth),
    decreases depth,
{
    if depth > 0 {
        let below = (depth - 1) as nat;
        lemma_tree_nodes_len(start, below, 2 * value);
        lemma_tree_nodes_len(start + tree_size(below), below, 2 * value + 1);
    }
}

impl PersistentObjects {
    /// Makes a full tree of `depth` levels with `value` at its root.
    pub fn allocate_persistent_binary_tree(
        &mut self,
        depth: u32,
        value: i32,
        next_gc_ref: &mut u32,
    ) -> (root: Option<ObjectId>)
        requires
            tree_values_fit(depth as nat, value as int),
            *old(next_gc_ref) + tree_size(depth as nat) <= u32::MAX,
        ensures
            final(self)@ == old(self)@ + tree_nodes(
                old(self)@.len(),
                depth as nat,
                value as int,
            ),
            final(self).gc_refs@ == old(self).gc_refs@ + gc_refs_from(
                *old(next_gc_ref),
                tree_size(depth as nat),
            ),
            *final(next_gc_ref) == *old(next_gc_ref) + tree_size(depth as nat),
            root == tree_root(old(self)@.len(), depth as nat),
        decreases depth,
    {
        if depth == 0 {
            proof {
                assert(self@ =~= self@ + tree_nodes(self@.len(), 0, value as int));
                assert(self.gc_refs@ =~= self.gc_refs@ + gc_refs_from(*next_gc_ref, 0));
            }
            return None;
        }
        let ghost start = self@.len();
        let ghost below = (depth - 1) as nat;
        let ghost before = self@;
        let ghost refs = self.gc_refs@;
        let ghost first_ref = *next_gc_ref;
        proof {
            lemma_tree_nodes_len(start, below, 2 * value);
            lemma_tree_nodes_len(start + tree_size(below), below, 2 * value + 1);
        }
        let left = self.allocate_persistent_binary_tree(depth - 1, value * 2, next_gc_ref);
        let right = self.allocate_persistent_binary_tree(depth - 1, value * 2 + 1, next_gc_ref);
        let gc_ref: u32 = *next_gc_ref;
        *next_gc_ref = gc_ref + 1;
        let mut fields: Vec<ObjectValue> = Vec::new();
        fields.push(ObjectValue::Ref(left));
        fields.push(ObjectValue::Ref(right));
        fields.push(ObjectValue::I32(value));
        proof {
            assert(fields@ =~= seq![
                ObjectValue::Ref(left),
                ObjectValue::Ref(right),
                ObjectValue::I32(value),
            ]);
        }
        let root = self.allocate_persistent_struct_for_gc_ref(gc_ref, fields);
        proof {
            assert(self@ =~= before + tree_nodes(start, depth as nat, value as int));
            assert(self.gc_refs@ =~= refs + gc_refs_from(first_ref, tree_size(depth as nat)));
        }
        Some(root)
    }

    /// The children and the value of a tree node.
    fn read_tree_node(&self, node: ObjectId) -> (read: (Option<ObjectId>, Option<ObjectId>, i32))
        requires
            tree_node(self@, node) is Some,
        ensures
            tree_node(self@, node) == Some(read),
    {
        assert(self.payloads.len() == self@.len());
        let payload = &self.payloads[node.object_index as usize];
        assert(self@[node.object_index as int] == payload@);
        match payload {
            ObjectPayload::Struct(fields) => match (fields[0], fields[1], fields[2]) {
                (ObjectValue::Ref(left), ObjectValue::Ref(right), ObjectValue::I32(value)) => (
                    left,
                    right,
                    value,
                ),
                _ => (None, None, 0),
            },
            ObjectPayload::Array(_) => (None, None, 0),
        }
    }

    fn tree_sum_within(&self, root: Option<ObjectId>, Ghost(height): Ghost<nat>) -> (sum: i32)
        requires
            is_tree(self@, root, height),
            tree_sum_fits(self@, root, height),
        ensures
            sum == tree_sum(self@, root, height),
        decreases height,
    {
        match root {
            None => 0,
            Some(node) => {
                let (left, right, value) = self.read_tree_node(node);
                let ghost below = (height - 1) as nat;
                value + self.tree_sum_within(left, Ghost(below)) + self.tree_sum_within(
                    right,
                    Ghost(below),
                )
            },
        }
    }

    /// The sum of the values of the tree that hangs from `root`.
    pub fn persistent_binary_tree_sum(&self, root: Option<ObjectId>) -> (sum: i32)
        requires
            is_summable_tree(self@, root),
        ensures
            forall|height: nat| #[trigger]
                is_tree(self@, root, height) ==> sum == tree_sum(self@, root, height),
    {
        let ghost height = choose|height: nat| #[trigger]
            is_tree(self@, root, height) && tree_sum_fits(self@, root, height);
        let sum: i32 = self.tree_sum_within(root, Ghost(height));
        proof {
            assert forall|other: nat| #[trigger] is_tree(self@, root, other) implies sum
                == tree_sum(self@, root, other) by {
                lemma_tree_sum_is_one(self@, root, height, other);
            }
        }
        sum
    }
}

/// A full tree that was made is a tree, and its values sum up as those of a full tree do.
pub proof fn law_made_tree_sums_up(objects: Seq<PayloadView>, start: nat, depth: nat, value: int)
    requires
        tree_values_fit(depth, value),
        start + tree_size(depth) <= objects.len() <= u64::MAX,
        objects.subrange(start as int, (start + tree_size(depth)) as int) == tree_nodes(
            start,
            depth,
            value,
        ),
    ensures
        is_tree(objects, tree_root(start, depth), depth),
        tree_sum(objects, tree_root(start, depth), depth) == full_tree_sum(depth, value),
    decreases depth,
{
    if depth > 0 {
        let below = (depth - 1) as nat;
        lemma_made_tree_parts(objects, start, depth, value);
        law_made_tree_sums_up(objects, start, below, 2 * value);
        law_made_tree_sums_up(objects, start + tree_size(below), below, 2 * value + 1);
    }
}

/// Where the parts of a full tree that was made stand.
proof fn lemma_made_tree_parts(objects: Seq<PayloadView>, start: nat, depth: nat, value: int)
    requires
        depth > 0,
        tree_values_fit(depth, value),
        start + tree_size(depth) <= objects.len() <= u64::MAX,
        objects.subrange(start as int, (start + tree_size(depth)) as int) == tree_nodes(
            start,
            depth,
            value,
        ),
    ensures
        ({
            let below = (depth - 1) as nat;
            let middle = start + tree_size(below);
            &&& middle + tree_size(below) <= objects.len()
            &&& objects.subrange(start as int, middle as int) == tree_nodes(start, below, 2 * value)
            &&& objects.subrange(middle as int, (middle + tree_size(below)) as int) == tree_nodes(
                middle,
                below,
                2 * value + 1,
            )
            &&& tree_node(objects, tree_root(start, depth)->0) == Some(
                (tree_root(start, below), tree_root(middle, below), value as i32),
            )
        }),
{
    let below = (depth - 1) as nat;
    let size = tree_size(below);
    let middle = start + size;
    let all = tree_nodes(start, depth, value);
    lemma_tree_nodes_len(start, below, 2 * value);
    lemma_tree_nodes_len(middle, below, 2 * value + 1);
    let part = objects.subrange(start as int, (start + tree_size(depth)) as int);
    assert(objects.subrange(start as int, middle as int) =~= part.subrange(0, size as int));
    assert(part.subrange(0, size as int) =~= tree_nodes(start, below, 2 * value));
    assert(objects.subrange(middle as int, (middle + size) as int) =~= part.subrange(
        size as int,
        (2 * size) as int,
    ));
    assert(part.subrange(size as int, (2 * size) as int) =~= tree_nodes(
        middle,
        below,
        2 * value + 1,
    ));
    assert(part[2 * size as int] == objects[(start + 2 * size) as int]);
    assert(part[2 * size as int] == all.last());
}

proof fn lemma_full_tree_sum_grows(depth: nat, value: int)
    requires
        0 <= value,
    ensures
        0 <= full_tree_sum(depth, value),
    decreases depth,
{
    if depth > 0 {
        lemma_full_tree_sum_grows((depth - 1) as nat, 2 * value);
        lemma_full_tree_sum_grows((depth - 1) as nat, 2 * value + 1);
    }
}

/// A full tree of numbers that are not negative can be summed while the sum fits.
pub proof fn law_made_tree_is_summable(
    objects: Seq<PayloadView>,
    start: nat,
    depth: nat,
    value: int,
)
    requires
        0 <= value,
        tree_values_fit(depth, value),
        full_tree_sum(depth, value) <= i32::MAX,
        start + tree_size(depth) <= objects.len() <= u64::MAX,
        objects.subrange(start as int, (start + tree_size(depth)) as int) == tree_nodes(
            start,
            depth,
            value,
        ),
    ensures
        is_summable_tree(objects, tree_root(start, depth)),
{
    law_made_tree_sums_up(objects, start, depth, value);
    lemma_made_tree_sum_fits(objects, start, depth, value);
    assert(is_tree(objects, tree_root(start, depth), depth));
}

proof fn lemma_made_tree_sum_fits(
    objects: Seq<PayloadView>,
    start: nat,
    depth: nat,
    value: int,
)
    requires
        0 <= value,
        tree_values_fit(depth, value),
        full_tree_sum(depth, value) <= i32::MAX,
        start + tree_size(depth) <= objects.len() <= u64::MAX,
        objects.subrange(start as int, (start + tree_size(depth)) as int) == tree_nodes(
            start,
            depth,
            value,
        ),
    ensures
        tree_sum_fits(objects, tree_root(start, depth), depth),
    decreases depth,
{
    if depth > 0 {
        let below = (depth - 1) as nat;
        let middle = start + tree_size(below);
        lemma_full_tree_sum_grows(below, 2 * value);
        lemma_full_tree_sum_grows(below, 2 * value + 1);
        lemma_made_tree_parts(objects, start, depth, value);
        lemma_made_tree_sum_fits(objects, start, below, 2 * value);
        lemma_made_tree_sum_fits(objects, middle, below, 2 * value + 1);
        law_made_tree_sums_up(objects, start, below, 2 * value);
        law_made_tree_sums_up(objects, middle, below, 2 * value + 1);
    }
}

/// A list of no nodes begins nowhere and sums up to zero. A struct that refers to the beginning
/// of a list, or to nothing, and holds an integer, begins a list of one node more, whose sum is
/// larger by the integer; and every list that begins somewhere is made in this way.
pub proof fn law_lists(
    objects: Seq<PayloadView>,
    node: ObjectId,
    next: Option<ObjectId>,
    value: i32,
    len: nat,
)
    requires
        node.object_index < objects.len(),
    ensures
        is_list(objects, None, len) <==> len == 0,
        list_sum(objects, None, 0) == 0,
        !is_list(objects, Some(node), 0),
        objects[node.object_index as int] == PayloadView::Struct(
            seq![ObjectValue::Ref(next), ObjectValue::I32(value)],
        ) ==> {
            &&& is_list(objects, Some(node), len + 1) <==> is_list(objects, next, len)
            &&& list_sum(objects, Some(node), len + 1) == value + list_sum(objects, next, len)
        },
        is_list(objects, Some(node), len) ==> (objects[node.object_index as int] matches
            PayloadView::Struct(fields) && fields.len() == 2 && fields[0] is Ref && fields[1]
            is I32),
{
    if objects[node.object_index as int] == PayloadView::Struct(
        seq![ObjectValue::Ref(next), ObjectValue::I32(value)],
    ) {
        assert(list_node(objects, node) == Some((next, value)));
    }
}

/// Node `index` of a list that is made holds its index and refers to the node before it, and
/// the first one to nothing. The nodes are made for one heap reference after the other.
pub proof fn law_made_list_nodes(start: nat, len: nat, base: u32, index: int)
    requires
        0 <= index < len <= 0x8000_0000,
        start + len <= u64::MAX,
        base + len - 1 <= u32::MAX,
    ensures
        list_nodes(start, len).len() == len,
        list_nodes(start, len)[index] matches PayloadView::Struct(fields) && {
            &&& fields.len() == 2
            &&& fields[1] == ObjectValue::I32(index as i32)
            &&& fields[0] matches ObjectValue::Ref(next) && match next {
                None => index == 0,
                Some(before) => index > 0 && before.object_index == start + index - 1,
            }
        },
        gc_refs_from(base, len).len() == len,
        gc_refs_from(base, len)[index] == base + index,
{
}

/// Nothing is a tree, and sums up to zero. A struct that refers to two trees and holds an
/// integer is the root of a tree, whose sum is that of both and the integer; and every tree that
/// is not nothing is made in this way.
pub proof fn law_trees(
    objects: Seq<PayloadView>,
    node: ObjectId,
    left: Option<ObjectId>,
    right: Option<ObjectId>,
    value: i32,
    height: nat,
)
    requires
        node.object_index < objects.len(),
    ensures
        is_tree(objects, None, height),
        tree_sum(objects, None, height) == 0,
        !is_tree(objects, Some(node), 0),
        objects[node.object_index as int] == PayloadView::Struct(
            seq![ObjectValue::Ref(left), ObjectValue::Ref(right), ObjectValue::I32(value)],
        ) ==> {
            &&& is_tree(objects, Some(node), height + 1) <==> is_tree(objects, left, height)
                && is_tree(objects, right, height)
            &&& tree_sum(objects, Some(node), height + 1) == value + tree_sum(
                objects,
                left,
                height,
            ) + tree_sum(objects, right, height)
        },
        is_tree(objects, Some(node), height) ==> (objects[node.object_index as int] matches
            PayloadView::Struct(fields) && fields.len() == 3 && fields[0] is Ref && fields[1] is Ref
            && fields[2] is I32),
{
    if objects[node.object_index as int] == PayloadView::Struct(
        seq![ObjectValue::Ref(left), ObjectValue::Ref(right), ObjectValue::I32(value)],
    ) {
        assert(tree_node(objects, node) == Some((left, right, value)));
    }
}

/// A full tree of no levels is nothing. One of more levels is made of the nodes of the left
/// part, those of the right part and the root, in this order. The root is the last node, holds
/// its value, and refers to the roots of the parts, which hold twice the value, and one more.
pub proof fn law_made_tree_nodes(start: nat, depth: nat, value: int)
    requires
        start + tree_size(depth + 1) <= u64::MAX,
    ensures
        tree_nodes(start, 0, value) == Seq::<PayloadView>::empty(),
        tree_root(start, 0) is None,
        tree_nodes(start, depth + 1, value).len() == 2 * tree_nodes(start, depth, value).len() + 1,
        tree_nodes(start, depth, value).len() == tree_size(depth),
        tree_nodes(start, depth + 1, value).take(tree_size(depth) as int) == tree_nodes(
            start,
            depth,
            2 * value,
        ),
        tree_nodes(start, depth + 1, value).subrange(
            tree_size(depth) as int,
            2 * tree_size(depth) as int,
        ) == tree_nodes(start + tree_size(depth), depth, 2 * value + 1),
        tree_nodes(start, depth + 1, value).last() matches PayloadView::Struct(fields) && {
            &&& fields.len() == 3
            &&& fields[0] == ObjectValue::Ref(tree_root(start, depth))
            &&& fields[1] == ObjectValue::Ref(tree_root(start + tree_size(depth), depth))
            &&& fields[2] == ObjectValue::I32(value as i32)
        },
        tree_root(start, depth + 1) matches Some(root) && root.object_index == start + 2
            * tree_size(depth),
{
    lemma_tree_nodes_len(start, depth, value);
    lemma_tree_nodes_len(start, depth + 1, value);
    lemma_tree_nodes_len(start, depth, 2 * value);
    lemma_tree_nodes_len(start + tree_size(depth), depth, 2 * value + 1);
    let all = tree_nodes(start, depth + 1, value);
    assert(all.take(tree_size(depth) as int) =~= tree_nodes(start, depth, 2 * value));
    assert(all.subrange(tree_size(depth) as int, 2 * tree_size(depth) as int) =~= tree_nodes(
        start + tree_size(depth),
        depth,
        2 * value + 1,
    ));
}

/// The sum of a full tree of `size` nodes with `value` at its root, six times over. With one
/// at its root its nodes hold the numbers from one to `size`.
pub proof fn law_full_tree_sum(depth: nat, value: int)
    ensures
        6 * full_tree_sum(depth, value) == (2 * value + 1) * (tree_size(depth) * (tree_size(depth)
            + 2)) - 3 * tree_size(depth),
        2 * full_tree_sum(depth, 1) == tree_size(depth) * (tree_size(depth) + 1),
        tree_size(depth) + 1 == vstd::arithmetic::power::pow(2, depth),
    decreases depth,
{
    reveal(vstd::arithmetic::power::pow);
    if depth > 0 {
        let below = (depth - 1) as nat;
        let half = tree_size(below) as int;
        let size = tree_size(depth) as int;
        law_full_tree_sum(below, 2 * value);
        law_full_tree_sum(below, 2 * value + 1);
        law_full_tree_sum(below, 2);
        law_full_tree_sum(below, 3);
        assert(size == 2 * half + 1);
        assert(6 * value + ((4 * value + 1) * (half * (half + 2)) - 3 * half) + ((4 * value + 3) * (
        half * (half + 2)) - 3 * half) == (2 * value + 1) * (size * (size + 2)) - 3 * size)
            by (nonlinear_arith)
            requires
                size == 2 * half + 1,
        ;
        assert(3 * (size * (size + 2)) - 3 * size == 3 * (size * (size + 1))) by (nonlinear_arith);
        assert(6 + (5 * (half * (half + 2)) - 3 * half) + (7 * (half * (half + 2)) - 3 * half) == 3
            * (size * (size + 2)) - 3 * size) by (nonlinear_arith)
            requires
                size == 2 * half + 1,
        ;
    } else {
        assert((2 * value + 1) * (0 * (0 + 2)) == 0) by (nonlinear_arith);
    }
}

} // verus!
