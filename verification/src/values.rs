//! The identities and values that transactions read and write.

use vstd::prelude::*;

use crate::type_layout::TypeLayoutId;

verus! {

/// Names a module instance in its store.
#[derive(Clone, Copy, Debug, PartialEq, Eq, Structural)]
pub struct InstanceId {
    index: u32,
}

impl View for InstanceId {
    type V = u32;

    closed spec fn view(&self) -> u32 {
        self.index
    }
}

impl InstanceId {
    /// The instance with number `index`.
    pub fn from_u32(index: u32) -> (instance: InstanceId)
        ensures
            instance@ == index,
    {
        InstanceId { index }
    }

    /// The number of the instance.
    pub fn as_u32(self) -> (index: u32)
        ensures
            index == self@,
    {
        self.index
    }
}

/// Names a transactional object.
#[derive(Clone, Copy, Debug, PartialEq, Eq, PartialOrd, Ord, Structural)]
pub struct ObjectId {
    pub object_index: u64,
}

/// Names a function across restarts.
#[derive(Clone, Copy, Debug, PartialEq, Eq)]
pub struct DurableFuncIdentity {
    pub module_fingerprint: u64,
    pub function_index: u32,
    pub type_layout_id: TypeLayoutId,
}

/// Names a host value across restarts.
#[derive(Clone, Copy, Debug, PartialEq, Eq)]
pub struct DurableExternIdentity {
    pub namespace: u32,
    pub handle: u64,
    pub type_layout_id: TypeLayoutId,
}

/// One slot of an object. Floating-point numbers are held as their bits.
#[derive(Clone, Copy, Debug, PartialEq, Eq)]
pub enum ObjectValue {
    I31(i32),
    I32(i32),
    I64(i64),
    F32(u32),
    F64(u64),
    V128([u8; 16]),
    Ref(Option<ObjectId>),
    FuncRef(DurableFuncIdentity),
    ExternRef(DurableExternIdentity),
}

impl ObjectValue {
    /// Whether the slot can refer to an object.
    pub open spec fn is_object_ref(self) -> bool {
        self is Ref
    }
}

/// What kind of object an object is.
#[derive(Clone, Copy, Debug, PartialEq, Eq, Structural)]
pub enum ObjectKind {
    Struct,
    Array,
    I31,
    Extern,
    Func,
}

/// The kind of an object as a log holds it: a number, which may name no kind.
#[derive(Clone, Copy, Debug, PartialEq, Eq, Structural)]
pub enum RecordedKind {
    /// A number that names a kind.
    Known(ObjectKind),
    /// A number that names nothing.
    Unknown(u16),
}

/// The contents of an object.
#[derive(Clone, Debug, PartialEq, Eq)]
pub enum ObjectPayload {
    Struct(Vec<ObjectValue>),
    Array(Vec<ObjectValue>),
}

/// The contents of an object as a mathematical value.
#[verifier::ext_equal]
pub enum PayloadView {
    Struct(Seq<ObjectValue>),
    Array(Seq<ObjectValue>),
}

impl View for ObjectPayload {
    type V = PayloadView;

    open spec fn view(&self) -> PayloadView {
        match self {
            ObjectPayload::Struct(fields) => PayloadView::Struct(fields@),
            ObjectPayload::Array(elements) => PayloadView::Array(elements@),
        }
    }
}

/// The unit of conflict detection.
#[derive(Clone, Copy, Debug, PartialEq, Eq, PartialOrd, Ord, Structural)]
pub enum GranuleId {
    TMemory { instance: Option<u32>, memory_index: u32, granule_index: u64 },
    TMemorySize { instance: Option<u32>, memory_index: u32 },
    TGlobal { instance: Option<u32>, global_index: u32 },
    TTable { instance: Option<u32>, table_index: u32, granule_index: u64 },
    TTableSize { instance: Option<u32>, table_index: u32 },
    Object { object_id: ObjectId },
}

/// The value of a global.
#[derive(Clone, Copy, Debug, PartialEq, Eq, Structural)]
pub enum GlobalSnapshot {
    I32(i32),
    I64(i64),
    GcRef(u32),
}

/// The value of a table slot.
#[derive(Clone, Copy, Debug, PartialEq, Eq, Structural)]
pub enum TableElementSnapshot {
    FuncRef(u64),
    GcRef(u32),
}

/// The values of the slots of one table granule.
#[derive(Clone, Debug, PartialEq, Eq)]
pub struct TableGranuleSnapshot {
    pub elements: Vec<TableElementSnapshot>,
}

} // verus!
