//! The error kinds this layer reports.

use vstd::prelude::*;

verus! {

/// Typed error kinds mapped from the engine's numeric statuses.
///
/// `NotFound` and `NoData` are also used as control signals: both end an
/// iteration silently instead of being yielded as errors.
#[derive(Clone, Copy, Debug, PartialEq, Eq, Structural)]
pub enum Error {
    /// The requested key, value or position is absent.
    NotFound,
    /// The cursor holds no current entry (fresh cursor, or a seek failed).
    NoData,
    /// An insertion conflicted with an exclusivity option.
    KeyExist,
    /// Contention with another active transaction.
    Busy,
    /// A map, table-slot, reader-slot or transaction-slot limit was reached.
    ResourceExhausted,
    /// A malformed argument: bad key or value size, an invalid table handle,
    /// or a table name with an embedded null byte.
    InvalidArgument,
    /// Corruption, a version mismatch, or another unrecoverable engine
    /// failure; the transaction and environment should be abandoned.
    EngineFatal,
}

impl Error {
    /// A short description, for callers that want to display the error.
    pub fn describe(&self) -> String {
        match self {
            Error::NotFound => "no matching key/value pair found".to_string(),
            Error::NoData => "cursor has no current position".to_string(),
            Error::KeyExist => "key/value pair already exists".to_string(),
            Error::Busy => "conflict with another transaction".to_string(),
            Error::ResourceExhausted => "an engine resource limit was reached".to_string(),
            Error::InvalidArgument => "invalid argument".to_string(),
            Error::EngineFatal => "unrecoverable engine failure".to_string(),
        }
    }
}

} // verus!
