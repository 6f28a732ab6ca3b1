//! The typed value model and the engine's error taxonomy.

use vstd::prelude::*;

verus! {

/// A typed value stored under a key.
///
/// Each keyed entry holds exactly one such value. `Float` carries the
/// IEEE-754 bit pattern of a 64-bit number, so that the engine itself
/// never computes on it; `Instant` is an epoch-millisecond timestamp;
/// `Json` is opaque text that the engine never parses.
#[derive(Debug, PartialEq, Clone)]
pub enum Value {
    SignedInteger(i64),
    UnsignedInteger(u64),
    Float(u64),
    Instant(i64),
    Boolean(bool),
    Str(String),
    Json(String),
    Blob(Vec<u8>),
}

/// The mathematical model of a [`Value`]: text as character sequences,
/// blobs as byte sequences.
pub enum SpecValue {
    SignedInteger(i64),
    UnsignedInteger(u64),
    Float(u64),
    Instant(i64),
    Boolean(bool),
    Str(Seq<char>),
    Json(Seq<char>),
    Blob(Seq<u8>),
}

impl View for Value {
    type V = SpecValue;

    open spec fn view(&self) -> SpecValue {
        match self {
            Value::SignedInteger(x) => SpecValue::SignedInteger(*x),
            Value::UnsignedInteger(x) => SpecValue::UnsignedInteger(*x),
            Value::Float(x) => SpecValue::Float(*x),
            Value::Instant(x) => SpecValue::Instant(*x),
            Value::Boolean(x) => SpecValue::Boolean(*x),
            Value::Str(s) => SpecValue::Str(s@),
            Value::Json(s) => SpecValue::Json(s@),
            Value::Blob(b) => SpecValue::Blob(b@),
        }
    }
}

/// Where a stored byte string failed to decode: the variant tag that was
/// expected to govern the payload, and the byte offset of the mismatch.
#[derive(Debug, PartialEq, Eq, Structural, Clone, Copy)]
pub struct DecodeError {
    pub expected: u8,
    pub offset: usize,
}

/// Every failure the engine reports.
#[derive(Debug, PartialEq, Eq, Structural, Clone, Copy)]
pub enum StoreError {
    /// The storage location is unusable.
    Location,
    /// The store (or a key, where presence is required) is absent.
    NotFound,
    /// Creation was requested for a colliding, incompatible name.
    AlreadyExists,
    /// Stored bytes are corrupt or of a mismatched type.
    Decode(DecodeError),
    /// A non-blocking write attempt found another writer active.
    WriterBusy,
    /// An operation was attempted on an ended transaction.
    UseAfterEnd,
    /// The durable-persist step of a commit failed.
    CommitFailure,
}

} // verus!
