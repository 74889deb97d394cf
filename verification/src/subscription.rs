//! The kinds of storage event a subscriber can register for. Dispatching a
//! registered callback is host-application work and lives outside the store;
//! only the event vocabulary belongs to it.

use vstd::prelude::*;

verus! {

/// A storage event kind. A subscription mechanism does not filter by kind:
/// dispatching the right kind at the right call site is the caller's duty.
#[derive(Debug, Clone, Copy)]
pub enum EventType<'a> {
    Insert,
    Update,
    Delete,
    /// An update of one named column.
    ColumnUpdate(&'a str),
}

} // verus!
