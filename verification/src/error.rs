//! Typed failures of the store. Every public operation returns one of these
//! as a value; callers branch on the kind.

use vstd::prelude::*;

verus! {

/// The ways an operation can fail.
#[derive(Debug, Clone, Copy, PartialEq, Eq, Structural)]
pub enum StoreError {
    /// The collection has no key field, or the incoming document lacks it.
    MissingKeyField,
    /// The incoming document's key field is present but not a string.
    InvalidKeyType,
    /// Another live document already holds an equal value for a unique field.
    DuplicateUniqueValue,
    /// The target of an update or delete is absent.
    NotFound,
    /// A collection configuration failed its creation-time validation.
    ConfigValidation,
}

} // verus!
