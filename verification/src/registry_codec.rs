//! Writing a whole registry and reading it back.

use vstd::prelude::*;

use crate::layout_codec;
use crate::layout_error::TypeLayoutError;
use crate::layout_record;
use crate::registry;
use crate::registry::{RegistryView, TypeLayoutRegistry};
use crate::type_layout::{LayoutView, PersistentTypeLayout};

verus! {

/// The records of `layouts`, one behind the other, unless one has too many fields.
pub open spec fn encode_layouts(layouts: Seq<LayoutView>) -> Result<Seq<u8>, TypeLayoutError>
    decreases layouts.len(),
{
    if layouts.len() == 0 {
        Ok(Seq::empty())
    } else {
        match encode_layouts(layouts.drop_last()) {
            Err(error) => Err(error),
            Ok(bytes) => match layout_record::record_len(layouts.last().fields().len()) {
                Err(error) => Err(error),
                Ok(_) => Ok(bytes + layouts.last().encoding()),
            },
        }
    }
}

/// `registry` with the layouts registered too whose records `bytes` consists of.
pub open spec fn decode_into(registry: RegistryView, bytes: Seq<u8>) -> Result<
    RegistryView,
    TypeLayoutError,
>
    decreases bytes.len(),
{
    if bytes.len() == 0 {
        Ok(registry)
    } else {
        match layout_codec::parse_prefix(bytes) {
            Err(error) => Err(error),
            Ok((layout, consumed)) => match registry.insert(layout) {
                Err(error) => Err(error),
                Ok(next) => {
                    proof {
                        layout_codec::law_decode_prefix_consumes(bytes);
                    }
                    decode_into(next, bytes.skip(consumed as int))
                },
            },
        }
    }
}

/// `registry` with `layouts` registered too, from the first to the last.
pub open spec fn insert_all(registry: RegistryView, layouts: Seq<LayoutView>) -> Result<
    RegistryView,
    TypeLayoutError,
>
    decreases layouts.len(),
{
    if layouts.len() == 0 {
        Ok(registry)
    } else {
        match insert_all(registry, layouts.drop_last()) {
            Err(error) => Err(error),
            Ok(next) => next.insert(layouts.last()),
        }
    }
}

impl TypeLayoutRegistry {
    /// The records of all layouts, in ascending order of their ids.
    pub fn encode_all(&self) -> (encoded: Result<Vec<u8>, TypeLayoutError>)
        ensures
            match encoded {
                Ok(bytes) => encode_layouts(self@.in_order()) == Ok::<Seq<u8>, TypeLayoutError>(
                    bytes@,
                ),
                Err(error) => encode_layouts(self@.in_order()) == Err::<Seq<u8>, TypeLayoutError>(
                    error,
                ),
            },
    {
        let layouts = self.iter();
        let ghost all = self@.in_order();
        let mut bytes: Vec<u8> = Vec::new();
        let mut index: usize = 0;
        assert(all.take(0) =~= Seq::empty());
        while index < layouts.len()
            invariant
                index <= layouts@.len(),
                all == self@.in_order(),
                layouts@.map_values(|layout: &PersistentTypeLayout| layout@) == all,
                encode_layouts(all.take(index as int)) == Ok::<Seq<u8>, TypeLayoutError>(bytes@),
            decreases layouts@.len() - index,
        {
            proof {
                assert(all.take(index + 1).drop_last() =~= all.take(index as int));
                assert(all.take(index + 1).last() == layouts@[index as int]@);
            }
            match layouts[index].encode() {
                Ok(record) => {
                    let ghost before = bytes@;
                    bytes.extend_from_slice(record.as_slice());
                    assert(bytes@ =~= before + record@);
                },
                Err(error) => {
                    proof {
                        lemma_encode_layouts_error(all, index + 1);
                    }
                    return Err(error);
                },
            }
            index += 1;
        }
        assert(all.take(index as int) =~= all);
        Ok(bytes)
    }

    /// The registry of the layouts whose records `bytes` consists of.
    pub fn decode_all(bytes: &[u8]) -> (decoded: Result<TypeLayoutRegistry, TypeLayoutError>)
        ensures
            match decoded {
                Ok(registry) => registry@.is_consistent() && decode_into(
                    RegistryView::empty(),
                    bytes@,
                ) == Ok::<RegistryView, TypeLayoutError>(registry@),
                Err(error) => decode_into(RegistryView::empty(), bytes@) == Err::<
                    RegistryView,
                    TypeLayoutError,
                >(error),
            },
    {
        let mut registry = TypeLayoutRegistry::default();
        let mut offset: usize = 0;
        assert(bytes@.skip(0) =~= bytes@);
        assert(bytes.len() == bytes@.len());
        while offset < bytes.len()
            invariant
                offset <= bytes@.len(),
                bytes.len() == bytes@.len(),
                registry@.is_consistent(),
                decode_into(registry@, bytes@.skip(offset as int)) == decode_into(
                    RegistryView::empty(),
                    bytes@,
                ),
            decreases bytes@.len() - offset,
        {
            let rest = vstd::slice::slice_subrange(bytes, offset, bytes.len());
            assert(rest@ =~= bytes@.skip(offset as int));
            proof {
                layout_codec::law_decode_prefix_consumes(rest@);
            }
            match PersistentTypeLayout::decode_prefix(rest) {
                Err(error) => {
                    return Err(error);
                },
                Ok((layout, consumed)) => {
                    if let Err(error) = registry.insert(layout) {
                        return Err(error);
                    }
                    assert(rest@.skip(consumed as int) =~= bytes@.skip(offset + consumed));
                    offset += consumed;
                },
            }
        }
        assert(bytes@.skip(offset as int) =~= Seq::empty());
        Ok(registry)
    }
}

proof fn lemma_encode_layouts_error(layouts: Seq<LayoutView>, some: int)
    requires
        0 <= some <= layouts.len(),
        encode_layouts(layouts.take(some)) is Err,
    ensures
        encode_layouts(layouts) == encode_layouts(layouts.take(some)),
    decreases layouts.len() - some,
{
    if some < layouts.len() {
        assert(layouts.take(some + 1).drop_last() =~= layouts.take(some));
        lemma_encode_layouts_error(layouts, some + 1);
    } else {
        assert(layouts.take(some) =~= layouts);
    }
}

/// Reading the records of some layouts registers these layouts in order, and goes on behind them.
pub proof fn law_decode_registers_each_record(
    registry: RegistryView,
    layouts: Seq<LayoutView>,
    rest: Seq<u8>,
)
    requires
        forall|i: int| 0 <= i < layouts.len() ==> (#[trigger] layouts[i]).is_storable(),
    ensures
        encode_layouts(layouts) is Ok,
        decode_into(registry, encode_layouts(layouts)->Ok_0 + rest) == (match insert_all(
            registry,
            layouts,
        ) {
            Err(error) => Err(error),
            Ok(next) => decode_into(next, rest),
        }),
    decreases layouts.len(),
{
    if layouts.len() == 0 {
        assert(encode_layouts(layouts)->Ok_0 + rest =~= rest);
    } else {
        let prior = layouts.drop_last();
        let last = layouts.last();
        assert(last.is_storable());
        assert forall|i: int| 0 <= i < prior.len() implies (#[trigger] prior[i]).is_storable() by {
            assert(layouts[i].is_storable());
        }
        law_decode_registers_each_record(registry, prior, last.encoding() + rest);
        lemma_encode_one_more(layouts, rest);
        if let Ok(next) = insert_all(registry, prior) {
            lemma_decode_one_record(next, last, rest);
        }
    }
}

proof fn lemma_append_associates(first: Seq<u8>, second: Seq<u8>, third: Seq<u8>)
    ensures
        first + second + third == first + (second + third),
{
    assert(first + second + third =~= first + (second + third));
}

proof fn lemma_encode_one_more(layouts: Seq<LayoutView>, rest: Seq<u8>)
    requires
        layouts.len() > 0,
        layouts.last().is_storable(),
        encode_layouts(layouts.drop_last()) is Ok,
    ensures
        encode_layouts(layouts) is Ok,
        encode_layouts(layouts)->Ok_0 + rest == encode_layouts(layouts.drop_last())->Ok_0 + (
        layouts.last().encoding() + rest),
{
    lemma_append_associates(
        encode_layouts(layouts.drop_last())->Ok_0,
        layouts.last().encoding(),
        rest,
    );
}

proof fn lemma_decode_one_record(registry: RegistryView, layout: LayoutView, rest: Seq<u8>)
    requires
        layout.is_storable(),
    ensures
        decode_into(registry, layout.encoding() + rest) == (match registry.insert(layout) {
            Err(error) => Err(error),
            Ok(next) => decode_into(next, rest),
        }),
{
    let record = layout.encoding();
    layout_codec::law_decode_prefix_inverts_encode(layout, rest);
    layout_codec::law_record_length(layout);
    assert((record + rest).skip(record.len() as int) =~= rest);
}

/// The layouts of `layouts` under their ids.
pub open spec fn holds_exactly(registry: RegistryView, layouts: Seq<LayoutView>) -> bool {
    &&& forall|i: int|
        #![trigger layouts[i]]
        0 <= i < layouts.len() ==> registry.layouts.contains_key(layouts[i].id())
            && registry.layouts[layouts[i].id()] == layouts[i]
    &&& forall|id: u32| #[trigger]
        registry.layouts.contains_key(id) ==> exists|i: int|
            0 <= i < layouts.len() && (#[trigger] layouts[i]).id() == id
}

proof fn lemma_insert_all_ascending(layouts: Seq<LayoutView>)
    requires
        registry::is_ascending(layouts.map_values(|layout: LayoutView| layout.id())),
        forall|i: int| 0 <= i < layouts.len() ==> (#[trigger] layouts[i]).id() != 0,
        forall|i: int, j: int|
            0 <= i < layouts.len() && 0 <= j < layouts.len() && (
            #[trigger] layouts[i]).fingerprint() == (#[trigger] layouts[j]).fingerprint()
                ==> layouts[i].same_shape(layouts[j]),
    ensures
        insert_all(RegistryView::empty(), layouts) matches Ok(registry) && {
            &&& registry.is_consistent()
            &&& holds_exactly(registry, layouts)
            &&& forall|fingerprint: u64| #[trigger]
                registry.fingerprints.contains_key(fingerprint) ==> registry::is_ascending(
                    registry.fingerprints[fingerprint],
                )
        },
    decreases layouts.len(),
{
    if layouts.len() > 0 {
        let prior = layouts.drop_last();
        let last = layouts.last();
        let ids = layouts.map_values(|layout: LayoutView| layout.id());
        assert(prior.map_values(|layout: LayoutView| layout.id()) =~= ids.drop_last());
        lemma_insert_all_ascending(prior);
        let before = insert_all(RegistryView::empty(), prior)->Ok_0;
        let fingerprint = last.fingerprint();
        assert forall|id: u32| #[trigger] before.layouts.contains_key(id) implies id < last.id() by {
            let i = choose|i: int| 0 <= i < prior.len() && (#[trigger] prior[i]).id() == id;
            assert(ids[i] < ids[layouts.len() - 1]);
        }
        if before.fingerprints.contains_key(fingerprint) {
            let first = before.fingerprints[fingerprint][0];
            assert(before.layouts.contains_key(first));
            let i = choose|i: int| 0 <= i < prior.len() && (#[trigger] prior[i]).id() == first;
            assert(layouts[i] == prior[i]);
            assert(layouts[i].same_shape(layouts[layouts.len() - 1]));
        }
        registry::lemma_insert_consistent(before, last);
        let after = insert_all(RegistryView::empty(), layouts)->Ok_0;
        assert(before.insert(last) is Ok);
        assert forall|i: int|
            #![trigger layouts[i]]
            0 <= i < layouts.len() implies after.layouts.contains_key(layouts[i].id())
            && after.layouts[layouts[i].id()] == layouts[i] by {
            if i < prior.len() {
                assert(prior[i] == layouts[i]);
            }
        }
        assert forall|id: u32| #[trigger] after.layouts.contains_key(id) implies exists|i: int|
            0 <= i < layouts.len() && (#[trigger] layouts[i]).id() == id by {
            if id == last.id() {
                assert(layouts[layouts.len() - 1].id() == id);
            } else {
                let i = choose|i: int| 0 <= i < prior.len() && (#[trigger] prior[i]).id() == id;
                assert(layouts[i].id() == id);
            }
        }
        assert forall|f: u64| #[trigger]
            after.fingerprints.contains_key(f) implies registry::is_ascending(
            after.fingerprints[f],
        ) by {
            if f == fingerprint {
                let old_ids = before.ids_for(f);
                assert forall|i: int| 0 <= i < old_ids.len() implies old_ids[i] < last.id() by {
                    assert(before.layouts.contains_key(before.fingerprints[f][i]));
                }
            } else {
                assert(before.fingerprints.contains_key(f));
            }
        }
    }
}

/// Writing a registry and reading it back gives a registry with the same layouts, in which
/// the ids of each fingerprint stand in ascending order.
pub proof fn law_decode_all_inverts_encode_all(registry: RegistryView)
    requires
        registry.is_consistent(),
        forall|id: u32| #[trigger]
            registry.layouts.contains_key(id) ==> registry.layouts[id].is_storable(),
    ensures
        encode_layouts(registry.in_order()) matches Ok(bytes) && decode_into(
            RegistryView::empty(),
            bytes,
        ) matches Ok(decoded) && {
            &&& decoded.is_consistent()
            &&& decoded.layouts == registry.layouts
            &&& decoded.in_order() == registry.in_order()
            &&& forall|fingerprint: u64|
                #![trigger decoded.ids_for(fingerprint)]
                {
                    &&& registry::is_ascending(decoded.ids_for(fingerprint))
                    &&& decoded.ids_for(fingerprint).to_set() == registry.ids_for(
                        fingerprint,
                    ).to_set()
                }
        },
{
    let layouts = registry.in_order();
    registry::law_ids_in_order(registry);
    assert forall|i: int| 0 <= i < layouts.len() implies (#[trigger] layouts[i]).is_storable()
        && registry.layouts.contains_key(registry.ids()[i]) && layouts[i].id() == registry.ids()[i]
        && layouts[i] == registry.layouts[layouts[i].id()] by {
        assert(registry.ids().contains(registry.ids()[i]));
    }
    assert(layouts.map_values(|layout: LayoutView| layout.id()) =~= registry.ids());
    assert forall|i: int, j: int|
        0 <= i < layouts.len() && 0 <= j < layouts.len() && (#[trigger] layouts[i]).fingerprint()
            == (#[trigger] layouts[j]).fingerprint() implies layouts[i].same_shape(layouts[j]) by {
        assert(layouts[i] == registry.layouts[layouts[i].id()]);
        assert(layouts[j] == registry.layouts[layouts[j].id()]);
    }
    lemma_insert_all_ascending(layouts);
    law_decode_registers_each_record(RegistryView::empty(), layouts, Seq::empty());
    let bytes = encode_layouts(layouts)->Ok_0;
    assert(bytes + Seq::<u8>::empty() =~= bytes);
    let decoded = decode_into(RegistryView::empty(), bytes)->Ok_0;
    assert forall|id: u32|
        decoded.layouts.contains_key(id) == registry.layouts.contains_key(id) && (
        decoded.layouts.contains_key(id) ==> decoded.layouts[id] == registry.layouts[id]) by {
        if decoded.layouts.contains_key(id) {
            let i = choose|i: int| 0 <= i < layouts.len() && (#[trigger] layouts[i]).id() == id;
            assert(layouts[i] == registry.layouts[id]);
        }
        if registry.layouts.contains_key(id) {
            assert(registry.ids().contains(id));
            let i = choose|i: int| 0 <= i < registry.ids().len() && registry.ids()[i] == id;
            assert(layouts[i].id() == id);
        }
    }
    assert(decoded.layouts =~= registry.layouts);
    assert forall|fingerprint: u64|
        #![trigger decoded.ids_for(fingerprint)]
        {
            &&& registry::is_ascending(decoded.ids_for(fingerprint))
            &&& decoded.ids_for(fingerprint).to_set() == registry.ids_for(fingerprint).to_set()
        } by {
        lemma_ids_for_are_the_ids_with(decoded, fingerprint);
        lemma_ids_for_are_the_ids_with(registry, fingerprint);
        assert(decoded.ids_for(fingerprint).to_set() =~= registry.ids_for(fingerprint).to_set());
    }
}

proof fn lemma_ids_for_are_the_ids_with(registry: RegistryView, fingerprint: u64)
    requires
        registry.is_consistent(),
    ensures
        forall|id: u32| #[trigger]
            registry.ids_for(fingerprint).contains(id) <==> registry.layouts.contains_key(id)
                && registry.layouts[id].fingerprint() == fingerprint,
{
    assert forall|id: u32| #[trigger]
        registry.ids_for(fingerprint).contains(id) <==> registry.layouts.contains_key(id)
            && registry.layouts[id].fingerprint() == fingerprint by {
        if registry.ids_for(fingerprint).contains(id) {
            let i = choose|i: int|
                0 <= i < registry.ids_for(fingerprint).len() && registry.ids_for(fingerprint)[i]
                    == id;
            assert(registry.fingerprints[fingerprint][i] == id);
        }
    }
}

/// A registry whose ids were registered in ascending order under every fingerprint is given
/// back as it was.
pub proof fn law_ordered_registry_survives(registry: RegistryView)
    requires
        registry.is_consistent(),
        forall|id: u32| #[trigger]
            registry.layouts.contains_key(id) ==> registry.layouts[id].is_storable(),
        forall|fingerprint: u64| #[trigger]
            registry.fingerprints.contains_key(fingerprint) ==> registry::is_ascending(
                registry.fingerprints[fingerprint],
            ),
    ensures
        encode_layouts(registry.in_order()) matches Ok(bytes) && decode_into(
            RegistryView::empty(),
            bytes,
        ) == Ok::<RegistryView, TypeLayoutError>(registry),
{
    law_decode_all_inverts_encode_all(registry);
    let bytes = encode_layouts(registry.in_order())->Ok_0;
    let decoded = decode_into(RegistryView::empty(), bytes)->Ok_0;
    assert forall|fingerprint: u64|
        #![trigger decoded.fingerprints.contains_key(fingerprint)]
        #![trigger registry.fingerprints.contains_key(fingerprint)]
        decoded.fingerprints.contains_key(fingerprint) == registry.fingerprints.contains_key(
            fingerprint,
        ) && (decoded.fingerprints.contains_key(fingerprint) ==> decoded.fingerprints[fingerprint]
            == registry.fingerprints[fingerprint]) by {
        let ids = decoded.ids_for(fingerprint);
        let others = registry.ids_for(fingerprint);
        assert forall|id: u32| #[trigger] ids.contains(id) <==> others.contains(id) by {
            assert(ids.to_set().contains(id) == others.to_set().contains(id));
        }
        registry::lemma_ascending_unique(ids, others);
    }
    assert(decoded.fingerprints =~= registry.fingerprints);
}

/// Every layout of a registry that was read is storable, so that it can be written again.
pub proof fn law_decoded_layouts_are_storable(bytes: Seq<u8>)
    ensures
        decode_into(RegistryView::empty(), bytes) matches Ok(registry) ==> registry.is_consistent()
            && forall|id: u32| #[trigger]
            registry.layouts.contains_key(id) ==> registry.layouts[id].is_storable(),
{
    lemma_decode_keeps_storable(RegistryView::empty(), bytes);
}

proof fn lemma_decode_keeps_storable(registry: RegistryView, bytes: Seq<u8>)
    requires
        registry.is_consistent(),
        forall|id: u32| #[trigger]
            registry.layouts.contains_key(id) ==> registry.layouts[id].is_storable(),
    ensures
        decode_into(registry, bytes) matches Ok(decoded) ==> decoded.is_consistent()
            && forall|id: u32| #[trigger]
            decoded.layouts.contains_key(id) ==> decoded.layouts[id].is_storable(),
    decreases bytes.len(),
{
    if bytes.len() > 0 && decode_into(registry, bytes) is Ok {
        let (layout, consumed) = layout_codec::parse_prefix(bytes)->Ok_0;
        let next = registry.insert(layout)->Ok_0;
        layout_codec::law_encode_inverts_decode_prefix(bytes);
        layout_codec::law_decode_prefix_consumes(bytes);
        registry::lemma_insert_consistent(registry, layout);
        assert forall|id: u32| #[trigger] next.layouts.contains_key(id) implies next.layouts[id].is_storable() by {
            if id != layout.id() {
                assert(registry.layouts.contains_key(id));
            }
        }
        lemma_decode_keeps_storable(next, bytes.skip(consumed as int));
    }
}

/// Layouts can be written exactly if none has more than 4093 fields; and what is written is
/// their records, from the first to the last.
pub proof fn law_layouts_are_written_one_by_one(first: Seq<LayoutView>, layout: LayoutView)
    ensures
        encode_layouts(Seq::empty()) == Ok::<Seq<u8>, TypeLayoutError>(Seq::empty()),
        encode_layouts(first) is Ok <==> forall|i: int|
            0 <= i < first.len() ==> (#[trigger] first[i]).fields().len() <= 4093,
        encode_layouts(first) matches Ok(bytes) ==> layout.fields().len() <= 4093 ==> encode_layouts(
            first.push(layout),
        ) == Ok::<Seq<u8>, TypeLayoutError>(bytes + layout.encoding()),
        encode_layouts(first) is Ok && 4093 < layout.fields().len() <= 4096 ==> encode_layouts(
            first.push(layout),
        ) == Err::<Seq<u8>, TypeLayoutError>(TypeLayoutError::RecordLengthExceedsMaximum),
        encode_layouts(first) is Ok && layout.fields().len() > 4096 ==> encode_layouts(
            first.push(layout),
        ) == Err::<Seq<u8>, TypeLayoutError>(TypeLayoutError::FieldCountExceedsMaximum),
        encode_layouts(first) is Err ==> encode_layouts(first.push(layout)) == encode_layouts(
            first,
        ),
{
    layout_record::law_record_length_of_field_count(layout.fields().len());
    lemma_encode_layouts_exactly(first);
    assert(first.push(layout).drop_last() =~= first);
    assert(first.push(layout).last() == layout);
}

proof fn lemma_encode_layouts_exactly(layouts: Seq<LayoutView>)
    ensures
        encode_layouts(layouts) is Ok <==> forall|i: int|
            0 <= i < layouts.len() ==> (#[trigger] layouts[i]).fields().len() <= 4093,
    decreases layouts.len(),
{
    if layouts.len() > 0 {
        let front = layouts.drop_last();
        let last = layouts.len() - 1;
        lemma_encode_layouts_exactly(front);
        layout_record::law_record_length_of_field_count(layouts.last().fields().len());
        assert(layouts.last() == layouts[last]);
        assert forall|i: int| 0 <= i < front.len() implies #[trigger] front[i] == layouts[i] by {}
        if encode_layouts(layouts) is Ok {
            assert forall|i: int| 0 <= i < layouts.len() implies (
            #[trigger] layouts[i]).fields().len() <= 4093 by {
                if i < last {
                    assert(front[i] == layouts[i]);
                }
            }
        }
    }
}

/// What is read as a registry is the records of some layouts, which were registered in order.
pub proof fn law_decoded_bytes_are_records(registry: RegistryView, bytes: Seq<u8>)
    ensures
        decode_into(registry, bytes) matches Ok(decoded) ==> exists|layouts: Seq<LayoutView>|
            encode_layouts(layouts) == Ok::<Seq<u8>, TypeLayoutError>(bytes) && insert_all(
                registry,
                layouts,
            ) == Ok::<RegistryView, TypeLayoutError>(decoded),
{
    if decode_into(registry, bytes) is Ok {
        let layouts = lemma_records_of(registry, bytes);
        assert(encode_layouts(layouts) == Ok::<Seq<u8>, TypeLayoutError>(bytes));
    }
}

proof fn lemma_first_record(registry: RegistryView, bytes: Seq<u8>) -> (read: (
    LayoutView,
    Seq<u8>,
))
    requires
        decode_into(registry, bytes) is Ok,
        bytes.len() > 0,
    ensures
        read.0.is_storable(),
        bytes == read.0.encoding() + read.1,
        read.1.len() < bytes.len(),
        registry.insert(read.0) is Ok,
        decode_into(registry.insert(read.0)->Ok_0, read.1) == decode_into(registry, bytes),
{
    let (layout, consumed) = layout_codec::parse_prefix(bytes)->Ok_0;
    layout_codec::law_encode_inverts_decode_prefix(bytes);
    layout_codec::law_decode_prefix_consumes(bytes);
    let rest = bytes.skip(consumed as int);
    assert(bytes.take(consumed as int) + rest =~= bytes);
    (layout, rest)
}

proof fn lemma_records_of(registry: RegistryView, bytes: Seq<u8>) -> (layouts: Seq<LayoutView>)
    requires
        decode_into(registry, bytes) is Ok,
    ensures
        encode_layouts(layouts) == Ok::<Seq<u8>, TypeLayoutError>(bytes),
        insert_all(registry, layouts) == decode_into(registry, bytes),
        forall|i: int| 0 <= i < layouts.len() ==> (#[trigger] layouts[i]).is_storable(),
    decreases bytes.len(),
{
    if bytes.len() == 0 {
        assert(bytes =~= Seq::empty());
        Seq::empty()
    } else {
        let (layout, rest) = lemma_first_record(registry, bytes);
        let behind = lemma_records_of(registry.insert(layout)->Ok_0, rest);
        let layouts = seq![layout] + behind;
        lemma_first_layout(registry, layout, behind);
        assert forall|i: int| 0 <= i < layouts.len() implies (
        #[trigger] layouts[i]).is_storable() by {
            if i > 0 {
                assert(layouts[i] == behind[i - 1]);
            }
        }
        layouts
    }
}

proof fn lemma_first_layout(registry: RegistryView, layout: LayoutView, behind: Seq<LayoutView>)
    requires
        layout.is_storable(),
        encode_layouts(behind) is Ok,
        registry.insert(layout) is Ok,
    ensures
        encode_layouts(seq![layout] + behind) == Ok::<Seq<u8>, TypeLayoutError>(
            layout.encoding() + encode_layouts(behind)->Ok_0,
        ),
        insert_all(registry, seq![layout] + behind) == insert_all(
            registry.insert(layout)->Ok_0,
            behind,
        ),
    decreases behind.len(),
{
    let all = seq![layout] + behind;
    if behind.len() == 0 {
        assert(all.drop_last() =~= Seq::empty());
        assert(encode_layouts(all.drop_last()) == Ok::<Seq<u8>, TypeLayoutError>(Seq::empty()));
        assert(insert_all(registry, all.drop_last()) == Ok::<RegistryView, TypeLayoutError>(
            registry,
        ));
        assert(all.last() == layout);
        assert(Seq::<u8>::empty() + layout.encoding() =~= layout.encoding() + Seq::<u8>::empty());
    } else {
        let front = behind.drop_last();
        lemma_first_layout(registry, layout, front);
        assert(all.drop_last() =~= seq![layout] + front);
        assert(all.last() == behind.last());
        assert(layout.encoding() + encode_layouts(front)->Ok_0 + behind.last().encoding()
            =~= layout.encoding() + (encode_layouts(front)->Ok_0 + behind.last().encoding()));
    }
}

/// Reading stops at the first thing that is no record, or whose layout cannot be registered,
/// and says why.
pub proof fn law_decode_stops_at_the_first_error(
    registry: RegistryView,
    layouts: Seq<LayoutView>,
    rest: Seq<u8>,
)
    requires
        forall|i: int| 0 <= i < layouts.len() ==> (#[trigger] layouts[i]).is_storable(),
        rest.len() > 0,
    ensures
        ({
            let read = decode_into(registry, encode_layouts(layouts)->Ok_0 + rest);
            match insert_all(registry, layouts) {
                Err(error) => read == Err::<RegistryView, TypeLayoutError>(error),
                Ok(next) => match layout_codec::parse_prefix(rest) {
                    Err(error) => read == Err::<RegistryView, TypeLayoutError>(error),
                    Ok((layout, _)) => next.insert(layout) matches Err(error) ==> read == Err::<
                        RegistryView,
                        TypeLayoutError,
                    >(error),
                },
            }
        }),
{
    law_decode_registers_each_record(registry, layouts, rest);
}

} // verus!
