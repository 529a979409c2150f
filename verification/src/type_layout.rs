//! The shapes of persistent objects: what a struct, an array or a scalar
//! reference looks like in storage, and which of its slots hold references.

use vstd::prelude::*;

use crate::layout_error::TypeLayoutError;

verus! {

/// Names a layout in storage. No layout is named zero.
#[derive(Clone, Copy, Debug, PartialEq, Eq, Hash, PartialOrd, Ord, Structural)]
pub struct TypeLayoutId {
    raw: u32,
}

impl View for TypeLayoutId {
    type V = u32;

    closed spec fn view(&self) -> u32 {
        self.raw
    }
}

impl TypeLayoutId {
    #[verifier::type_invariant]
    spec fn inv(self) -> bool {
        self.raw != 0
    }

    /// The layout that stands in for a struct of no known type.
    pub fn default_struct() -> (id: TypeLayoutId)
        ensures
            id@ == 1,
    {
        TypeLayoutId { raw: 1 }
    }

    /// The layout that stands in for an array of no known type.
    pub fn default_array() -> (id: TypeLayoutId)
        ensures
            id@ == 2,
    {
        TypeLayoutId { raw: 2 }
    }

    /// The layout of a small integer reference.
    pub fn builtin_i31() -> (id: TypeLayoutId)
        ensures
            id@ == 3,
    {
        TypeLayoutId { raw: 3 }
    }

    /// The layout of a host reference.
    pub fn builtin_extern() -> (id: TypeLayoutId)
        ensures
            id@ == 4,
    {
        TypeLayoutId { raw: 4 }
    }

    /// The layout of a function reference.
    pub fn builtin_func() -> (id: TypeLayoutId)
        ensures
            id@ == 5,
    {
        TypeLayoutId { raw: 5 }
    }

    /// The id with number `raw`, which must not be zero.
    pub fn new(raw: u32) -> (id: Option<TypeLayoutId>)
        ensures
            id is Some <==> raw != 0,
            id matches Some(id) ==> id@ == raw,
    {
        if raw == 0 {
            None
        } else {
            Some(TypeLayoutId { raw })
        }
    }

    /// The number of the id.
    pub fn get(self) -> (raw: u32)
        ensures
            raw == self@,
            raw != 0,
    {
        proof {
            use_type_invariant(&self);
        }
        self.raw
    }
}

/// What kind of object a layout describes.
#[derive(Clone, Copy, Debug, PartialEq, Eq, Hash, PartialOrd, Ord, Structural)]
pub enum PersistentTypeKind {
    Struct,
    Array,
    I31,
    Extern,
    Func,
}

impl PersistentTypeKind {
    /// The number of the kind in a record.
    pub open spec fn raw(self) -> u16 {
        match self {
            PersistentTypeKind::Struct => 1,
            PersistentTypeKind::Array => 2,
            PersistentTypeKind::I31 => 3,
            PersistentTypeKind::Extern => 4,
            PersistentTypeKind::Func => 5,
        }
    }

    /// The kind with number `raw`, if there is one.
    pub open spec fn with_raw(raw: u16) -> Option<PersistentTypeKind> {
        if raw == 1 {
            Some(PersistentTypeKind::Struct)
        } else if raw == 2 {
            Some(PersistentTypeKind::Array)
        } else if raw == 3 {
            Some(PersistentTypeKind::I31)
        } else if raw == 4 {
            Some(PersistentTypeKind::Extern)
        } else if raw == 5 {
            Some(PersistentTypeKind::Func)
        } else {
            None
        }
    }

    /// Whether objects of the kind have neither fields nor elements.
    pub open spec fn is_scalar(self) -> bool {
        self is I31 || self is Extern || self is Func
    }

    /// The number of the kind in a record.
    pub fn as_raw(self) -> (raw: u16)
        ensures
            raw == self.raw(),
    {
        match self {
            PersistentTypeKind::Struct => 1,
            PersistentTypeKind::Array => 2,
            PersistentTypeKind::I31 => 3,
            PersistentTypeKind::Extern => 4,
            PersistentTypeKind::Func => 5,
        }
    }

    /// The kind with number `raw`.
    pub fn from_raw(raw: u16) -> (kind: Result<PersistentTypeKind, TypeLayoutError>)
        ensures
            kind == (match PersistentTypeKind::with_raw(raw) {
                Some(kind) => Ok::<PersistentTypeKind, TypeLayoutError>(kind),
                None => Err(TypeLayoutError::UnknownTypeKind { kind: raw }),
            }),
    {
        match raw {
            1 => Ok(PersistentTypeKind::Struct),
            2 => Ok(PersistentTypeKind::Array),
            3 => Ok(PersistentTypeKind::I31),
            4 => Ok(PersistentTypeKind::Extern),
            5 => Ok(PersistentTypeKind::Func),
            _ => Err(TypeLayoutError::UnknownTypeKind { kind: raw }),
        }
    }
}

/// What a slot of an object holds, as far as tracing is concerned.
#[derive(Clone, Copy, Debug, PartialEq, Eq, Structural)]
pub enum TraceSlotKind {
    Scalar,
    ObjectRef,
}

impl TraceSlotKind {
    /// The number of the kind in a record.
    pub open spec fn raw(self) -> u8 {
        match self {
            TraceSlotKind::Scalar => 0,
            TraceSlotKind::ObjectRef => 1,
        }
    }

    /// The kind with number `raw`, if there is one.
    pub open spec fn with_raw(raw: u8) -> Option<TraceSlotKind> {
        if raw == 0 {
            Some(TraceSlotKind::Scalar)
        } else if raw == 1 {
            Some(TraceSlotKind::ObjectRef)
        } else {
            None
        }
    }

    /// The number of the kind in a record.
    pub fn as_raw(self) -> (raw: u8)
        ensures
            raw == self.raw(),
    {
        match self {
            TraceSlotKind::Scalar => 0,
            TraceSlotKind::ObjectRef => 1,
        }
    }

    /// The kind with number `raw`.
    pub fn from_raw(raw: u8) -> (kind: Result<TraceSlotKind, TypeLayoutError>)
        ensures
            kind == (match TraceSlotKind::with_raw(raw) {
                Some(kind) => Ok::<TraceSlotKind, TypeLayoutError>(kind),
                None => Err(TypeLayoutError::UnknownTraceSlotKind { raw }),
            }),
    {
        match raw {
            0 => Ok(TraceSlotKind::Scalar),
            1 => Ok(TraceSlotKind::ObjectRef),
            _ => Err(TypeLayoutError::UnknownTraceSlotKind { raw }),
        }
    }
}

/// One field of a struct layout.
#[derive(Clone, Copy, Debug, PartialEq, Eq, Structural)]
pub struct StructTraceField {
    pub field_index: u32,
    pub field_offset: u32,
    pub value_size: u32,
    pub kind: TraceSlotKind,
}

/// The layout of a persistent object type.
#[derive(Clone, Debug, PartialEq, Eq)]
pub enum PersistentTypeLayout {
    Struct { id: TypeLayoutId, fingerprint: u64, body_size: u32, fields: Vec<StructTraceField> },
    Array { id: TypeLayoutId, fingerprint: u64, element_size: u32, element_kind: TraceSlotKind },
    Scalar { id: TypeLayoutId, fingerprint: u64, kind: PersistentTypeKind },
}

/// A layout as a mathematical value.
pub enum LayoutView {
    Struct { id: u32, fingerprint: u64, body_size: u32, fields: Seq<StructTraceField> },
    Array { id: u32, fingerprint: u64, element_size: u32, element_kind: TraceSlotKind },
    Scalar { id: u32, fingerprint: u64, kind: PersistentTypeKind },
}

impl LayoutView {
    /// The id of the layout.
    pub open spec fn id(self) -> u32 {
        match self {
            LayoutView::Struct { id, .. } => id,
            LayoutView::Array { id, .. } => id,
            LayoutView::Scalar { id, .. } => id,
        }
    }

    /// The fingerprint of the layout.
    pub open spec fn fingerprint(self) -> u64 {
        match self {
            LayoutView::Struct { fingerprint, .. } => fingerprint,
            LayoutView::Array { fingerprint, .. } => fingerprint,
            LayoutView::Scalar { fingerprint, .. } => fingerprint,
        }
    }

    /// The kind of object that the layout describes.
    pub open spec fn kind(self) -> PersistentTypeKind {
        match self {
            LayoutView::Struct { .. } => PersistentTypeKind::Struct,
            LayoutView::Array { .. } => PersistentTypeKind::Array,
            LayoutView::Scalar { kind, .. } => kind,
        }
    }

    /// The same layout under another id.
    pub open spec fn with_id(self, id: u32) -> LayoutView {
        match self {
            LayoutView::Struct { id: _, fingerprint, body_size, fields } => LayoutView::Struct {
                id,
                fingerprint,
                body_size,
                fields,
            },
            LayoutView::Array { id: _, fingerprint, element_size, element_kind } => LayoutView::Array {
                id,
                fingerprint,
                element_size,
                element_kind,
            },
            LayoutView::Scalar { id: _, fingerprint, kind } => LayoutView::Scalar {
                id,
                fingerprint,
                kind,
            },
        }
    }

    /// Whether two layouts differ in their ids at most.
    pub open spec fn same_shape(self, other: LayoutView) -> bool {
        self.with_id(other.id()) == other
    }
}

impl View for PersistentTypeLayout {
    type V = LayoutView;

    open spec fn view(&self) -> LayoutView {
        match self {
            PersistentTypeLayout::Struct { id, fingerprint, body_size, fields } => LayoutView::Struct {
                id: id@,
                fingerprint: *fingerprint,
                body_size: *body_size,
                fields: fields@,
            },
            PersistentTypeLayout::Array { id, fingerprint, element_size, element_kind } => LayoutView::Array {
                id: id@,
                fingerprint: *fingerprint,
                element_size: *element_size,
                element_kind: *element_kind,
            },
            PersistentTypeLayout::Scalar { id, fingerprint, kind } => LayoutView::Scalar {
                id: id@,
                fingerprint: *fingerprint,
                kind: *kind,
            },
        }
    }
}

fn same_fields(left: &Vec<StructTraceField>, right: &Vec<StructTraceField>) -> (same: bool)
    ensures
        same == (left@ == right@),
{
    if left.len() != right.len() {
        return false;
    }
    let mut index: usize = 0;
    while index < left.len()
        invariant
            index <= left@.len() == right@.len(),
            left@.take(index as int) == right@.take(index as int),
        decreases left@.len() - index,
    {
        if left[index] != right[index] {
            return false;
        }
        index += 1;
        assert(left@.take(index as int) =~= left@.take(index - 1).push(left@[index - 1]));
        assert(right@.take(index as int) =~= right@.take(index - 1).push(right@[index - 1]));
    }
    assert(left@.take(index as int) =~= left@);
    assert(right@.take(index as int) =~= right@);
    true
}

impl PersistentTypeLayout {
    /// The id of the layout.
    pub fn id(&self) -> (id: TypeLayoutId)
        ensures
            id@ == self@.id(),
    {
        match self {
            PersistentTypeLayout::Struct { id, .. } => *id,
            PersistentTypeLayout::Array { id, .. } => *id,
            PersistentTypeLayout::Scalar { id, .. } => *id,
        }
    }

    /// The kind of object that the layout describes.
    pub fn kind(&self) -> (kind: PersistentTypeKind)
        ensures
            kind == self@.kind(),
    {
        match self {
            PersistentTypeLayout::Struct { .. } => PersistentTypeKind::Struct,
            PersistentTypeLayout::Array { .. } => PersistentTypeKind::Array,
            PersistentTypeLayout::Scalar { kind, .. } => *kind,
        }
    }

    /// The fingerprint of the layout.
    pub fn fingerprint(&self) -> (fingerprint: u64)
        ensures
            fingerprint == self@.fingerprint(),
    {
        match self {
            PersistentTypeLayout::Struct { fingerprint, .. } => *fingerprint,
            PersistentTypeLayout::Array { fingerprint, .. } => *fingerprint,
            PersistentTypeLayout::Scalar { fingerprint, .. } => *fingerprint,
        }
    }

    /// Whether two layouts differ in their ids at most.
    pub fn shape_eq_ignoring_id(&self, other: &PersistentTypeLayout) -> (same: bool)
        ensures
            same == self@.same_shape(other@),
    {
        match (self, other) {
            (
                PersistentTypeLayout::Struct {
                    id: _,
                    fingerprint: left_fingerprint,
                    body_size: left_body_size,
                    fields: left_fields,
                },
                PersistentTypeLayout::Struct {
                    id: _,
                    fingerprint: right_fingerprint,
                    body_size: right_body_size,
                    fields: right_fields,
                },
            ) => *left_fingerprint == *right_fingerprint && *left_body_size == *right_body_size
                && same_fields(left_fields, right_fields),
            (
                PersistentTypeLayout::Array {
                    id: _,
                    fingerprint: left_fingerprint,
                    element_size: left_element_size,
                    element_kind: left_element_kind,
                },
                PersistentTypeLayout::Array {
                    id: _,
                    fingerprint: right_fingerprint,
                    element_size: right_element_size,
                    element_kind: right_element_kind,
                },
            ) => *left_fingerprint == *right_fingerprint && *left_element_size
                == *right_element_size && *left_element_kind == *right_element_kind,
            (
                PersistentTypeLayout::Scalar {
                    id: _,
                    fingerprint: left_fingerprint,
                    kind: left_kind,
                },
                PersistentTypeLayout::Scalar {
                    id: _,
                    fingerprint: right_fingerprint,
                    kind: right_kind,
                },
            ) => *left_fingerprint == *right_fingerprint && *left_kind == *right_kind,
            _ => false,
        }
    }

    /// Whether two layouts are the same, their ids included.
    pub fn same_layout(&self, other: &PersistentTypeLayout) -> (same: bool)
        ensures
            same == (self@ == other@),
    {
        self.id().get() == other.id().get() && self.shape_eq_ignoring_id(other)
    }
}

/// Reading the number of a type kind gives the kind back, and no two kinds share a number.
pub proof fn law_type_kind_numbers(kind: PersistentTypeKind, raw: u16)
    ensures
        PersistentTypeKind::with_raw(kind.raw()) == Some(kind),
        PersistentTypeKind::with_raw(raw) matches Some(read) ==> read.raw() == raw,
{
}

/// Reading the number of a trace slot kind gives the kind back, and no two kinds share a number.
pub proof fn law_trace_slot_kind_numbers(kind: TraceSlotKind, raw: u8)
    ensures
        TraceSlotKind::with_raw(kind.raw()) == Some(kind),
        TraceSlotKind::with_raw(raw) matches Some(read) ==> read.raw() == raw,
{
}

/// Having the same shape does not depend on ids, and is an equivalence.
pub proof fn law_same_shape_is_an_equivalence(a: LayoutView, b: LayoutView, c: LayoutView, id: u32)
    ensures
        a.same_shape(a),
        a.same_shape(a.with_id(id)),
        a.same_shape(b) ==> b.same_shape(a),
        a.same_shape(b) && b.same_shape(c) ==> a.same_shape(c),
        a.same_shape(b) ==> a.fingerprint() == b.fingerprint() && a.kind() == b.kind(),
        a.same_shape(b) && a.id() == b.id() ==> a == b,
{
}

/// The numbers that records name kinds by, and that every other number names nothing.
pub proof fn law_numbers_of_kinds(raw: u16, slot: u8)
    ensures
        PersistentTypeKind::Struct.raw() == 1,
        PersistentTypeKind::Array.raw() == 2,
        PersistentTypeKind::I31.raw() == 3,
        PersistentTypeKind::Extern.raw() == 4,
        PersistentTypeKind::Func.raw() == 5,
        PersistentTypeKind::with_raw(raw) is Some <==> 1 <= raw <= 5,
        TraceSlotKind::Scalar.raw() == 0,
        TraceSlotKind::ObjectRef.raw() == 1,
        TraceSlotKind::with_raw(slot) is Some <==> slot <= 1,
{
}

/// Only the references that are no structs or arrays have neither fields nor elements.
pub proof fn law_scalar_kinds(kind: PersistentTypeKind)
    ensures
        kind.is_scalar() <==> kind != PersistentTypeKind::Struct && kind
            != PersistentTypeKind::Array,
{
}

/// What a layout says of itself.
pub proof fn law_members_of_layouts(
    id: u32,
    fingerprint: u64,
    size: u32,
    fields: Seq<StructTraceField>,
    element_kind: TraceSlotKind,
    kind: PersistentTypeKind,
)
    ensures
        ({
            let layout = LayoutView::Struct { id, fingerprint, body_size: size, fields };
            layout.id() == id && layout.fingerprint() == fingerprint && layout.kind() is Struct
        }),
        ({
            let layout = LayoutView::Array { id, fingerprint, element_size: size, element_kind };
            layout.id() == id && layout.fingerprint() == fingerprint && layout.kind() is Array
        }),
        ({
            let layout = LayoutView::Scalar { id, fingerprint, kind };
            layout.id() == id && layout.fingerprint() == fingerprint && layout.kind() == kind
        }),
{
}

/// Two layouts have the same shape exactly if they are of one form and agree in everything
/// but their ids.
pub proof fn law_same_shape_compares_all_but_the_id(left: LayoutView, right: LayoutView)
    ensures
        left.same_shape(right) <==> match (left, right) {
            (
                LayoutView::Struct { id: _, fingerprint: a, body_size: b, fields: c },
                LayoutView::Struct { id: _, fingerprint: x, body_size: y, fields: z },
            ) => a == x && b == y && c == z,
            (
                LayoutView::Array { id: _, fingerprint: a, element_size: b, element_kind: c },
                LayoutView::Array { id: _, fingerprint: x, element_size: y, element_kind: z },
            ) => a == x && b == y && c == z,
            (
                LayoutView::Scalar { id: _, fingerprint: a, kind: b },
                LayoutView::Scalar { id: _, fingerprint: x, kind: y },
            ) => a == x && b == y,
            _ => false,
        },
{
}

/// A layout under another id has that id, and is otherwise the same.
pub proof fn law_with_id_changes_the_id(layout: LayoutView, id: u32)
    ensures
        layout.with_id(id).id() == id,
        layout.with_id(id).with_id(layout.id()) == layout,
        layout.with_id(id).fingerprint() == layout.fingerprint(),
        layout.with_id(id).kind() == layout.kind(),
{
}

/// A layout and its mathematical value say the same.
pub proof fn law_view_of_layouts(layout: PersistentTypeLayout)
    ensures
        match (layout, layout@) {
            (
                PersistentTypeLayout::Struct { id, fingerprint, body_size, fields },
                LayoutView::Struct {
                    id: named,
                    fingerprint: marked,
                    body_size: size,
                    fields: listed,
                },
            ) => named == id@ && marked == fingerprint && size == body_size && listed == fields@,
            (
                PersistentTypeLayout::Array { id, fingerprint, element_size, element_kind },
                LayoutView::Array {
                    id: named,
                    fingerprint: marked,
                    element_size: size,
                    element_kind: kind,
                },
            ) => named == id@ && marked == fingerprint && size == element_size && kind
                == element_kind,
            (
                PersistentTypeLayout::Scalar { id, fingerprint, kind },
                LayoutView::Scalar { id: named, fingerprint: marked, kind: of_kind },
            ) => named == id@ && marked == fingerprint && of_kind == kind,
            _ => false,
        },
{
}

} // verus!
