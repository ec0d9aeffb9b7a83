//! Why operations could not be ingested.
use vstd::prelude::*;

use crate::types::ModelId;

verus! {

/// Why the operations on a record could not be ingested.
#[derive(Debug)]
pub enum IngestError {
    /// The record's identifier could not be encoded.
    Serialization(rmp_serde::encode::Error),
    /// There is no such model.
    InvalidModelId(ModelId),
    /// The clock refused the timestamp, for this reason.
    ClockDrift(String),
}

} // verus!
