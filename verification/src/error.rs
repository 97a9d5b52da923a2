//! What can go wrong, and how each failure is answered.

use crate::id::Id;
use crate::model::Event;
use vstd::prelude::*;

verus! {

/// The failures of the schedule's operations.
#[derive(Debug, PartialEq, Eq)]
pub enum Error {
    /// No entity is stored under the identifier.
    NotFound,
    /// The text is no identifier.
    InvalidIdFormat,
    /// The upper bound of a filter is no timestamp.
    InvalidBeforeDate,
    /// The lower bound of a filter is no timestamp.
    InvalidAfterDate,
    /// The lower bound of a filter does not lie before its upper bound.
    InvalidRange,
    /// A deletion was refused; the events named here own the occurrences
    /// that stand in its way.
    Dependency(Vec<Id<Event>>),
    /// The store refused a write that would break one of its constraints.
    StorageError,
}

/// The response status that answers failure `error`.
pub open spec fn status_of(error: Error) -> u16 {
    match error {
        Error::NotFound => 404,
        Error::InvalidIdFormat => 400,
        Error::InvalidBeforeDate => 400,
        Error::InvalidAfterDate => 400,
        Error::InvalidRange => 400,
        Error::Dependency(_) => 409,
        Error::StorageError => 500,
    }
}

impl Error {
    /// The response status that answers this failure: not found, bad
    /// request, conflict, or a failure of the store itself.
    pub fn status(&self) -> (status: u16)
        ensures
            status == status_of(*self),
    {
        match self {
            Error::NotFound => 404,
            Error::InvalidIdFormat => 400,
            Error::InvalidBeforeDate => 400,
            Error::InvalidAfterDate => 400,
            Error::InvalidRange => 400,
            Error::Dependency(_) => 409,
            Error::StorageError => 500,
        }
    }
}

} // verus!
