//! The operations that devices exchange, and what the database is asked about them.
use vstd::prelude::*;

use crate::field_map::FieldMap;

verus! {

/// A time in NTP format: seconds in the upper half, fractions of a second in the lower.
#[derive(Clone, Copy, Debug, PartialEq, Eq, Structural, PartialOrd, Ord, Hash)]
pub struct NTP64(pub u64);

/// The public identifier of a device: a UUID, its bytes read as a big-endian number.
#[derive(Clone, Copy, Debug, PartialEq, Eq, Structural, PartialOrd, Ord, Hash)]
pub struct DevicePubId {
    pub uuid: u128,
}

/// Which model a record belongs to.
pub type ModelId = u16;

/// Which record of a model is meant: any MessagePack value.
pub type RecordId = rmpv::Value;

/// What an operation does to its record.
#[derive(Debug, PartialEq)]
pub enum CRDTOperationData {
    /// The record comes into being with these fields.
    Create(FieldMap<rmpv::Value>),
    /// One field of the record gets a new value.
    Update { field: String, value: rmpv::Value },
    /// The record ceases to be.
    Delete,
}

/// An operation without what it shares with the others of its device and record.
#[derive(Debug, PartialEq)]
pub struct CompressedCRDTOperation {
    pub timestamp: NTP64,
    pub data: CRDTOperationData,
}

/// An operation on one record.
#[derive(Debug, PartialEq)]
pub struct CRDTOperation {
    pub device_pub_id: DevicePubId,
    pub timestamp: NTP64,
    pub model_id: ModelId,
    pub record_id: RecordId,
    pub data: CRDTOperationData,
}

/// The operations of one device, by model and then by record.
#[derive(Debug, PartialEq)]
pub struct CompressedCRDTOperationsPerModel(
    pub Vec<(ModelId, Vec<(RecordId, Vec<CompressedCRDTOperation>)>)>,
);

/// Operations by device, then by model, then by record.
#[derive(Debug, PartialEq)]
pub struct CompressedCRDTOperationsPerModelPerDevice(
    pub Vec<(DevicePubId, CompressedCRDTOperationsPerModel)>,
);

/// The kind of a stored operation; updates of different fields are of different kinds.
#[derive(Debug, PartialEq, Eq)]
pub enum OperationKind {
    Create,
    Update(String),
    Delete,
}

/// Asks the operations table for the newest operation of one kind on one record.
#[derive(Debug, PartialEq, Eq)]
pub struct Query {
    pub model: i32,
    /// The record's identifier in MessagePack.
    pub record_id: Vec<u8>,
    pub kind: OperationKind,
    /// Where given, only operations stored under a greater timestamp count.
    pub newer_than: Option<i64>,
}

/// The mathematical content of [`CRDTOperationData`].
#[verifier::ext_equal]
pub ghost enum DataView {
    Create(Map<Seq<char>, rmpv::Value>),
    Update { field: Seq<char>, value: rmpv::Value },
    Delete,
}

/// The mathematical content of [`CRDTOperation`].
#[verifier::ext_equal]
pub ghost struct OperationView {
    pub device_pub_id: DevicePubId,
    pub timestamp: NTP64,
    pub model_id: ModelId,
    pub record_id: RecordId,
    pub data: DataView,
}

/// The mathematical content of [`OperationKind`].
#[verifier::ext_equal]
pub ghost enum KindView {
    Create,
    Update(Seq<char>),
    Delete,
}

/// The mathematical content of [`Query`].
#[verifier::ext_equal]
pub ghost struct QueryView {
    pub model: int,
    pub record_id: Seq<u8>,
    pub kind: KindView,
    pub newer_than: Option<int>,
}

impl View for CRDTOperationData {
    type V = DataView;

    open spec fn view(&self) -> DataView {
        match *self {
            CRDTOperationData::Create(fields) => DataView::Create(fields@),
            CRDTOperationData::Update { field, value } => DataView::Update { field: field@, value },
            CRDTOperationData::Delete => DataView::Delete,
        }
    }
}

impl View for CRDTOperation {
    type V = OperationView;

    open spec fn view(&self) -> OperationView {
        OperationView {
            device_pub_id: self.device_pub_id,
            timestamp: self.timestamp,
            model_id: self.model_id,
            record_id: self.record_id,
            data: self.data@,
        }
    }
}

impl View for OperationKind {
    type V = KindView;

    open spec fn view(&self) -> KindView {
        match *self {
            OperationKind::Create => KindView::Create,
            OperationKind::Update(field) => KindView::Update(field@),
            OperationKind::Delete => KindView::Delete,
        }
    }
}

impl View for Query {
    type V = QueryView;

    open spec fn view(&self) -> QueryView {
        QueryView {
            model: self.model as int,
            record_id: self.record_id@,
            kind: self.kind@,
            newer_than: match self.newer_than {
                Some(stored) => Some(stored as int),
                None => None,
            },
        }
    }
}

} // verus!
