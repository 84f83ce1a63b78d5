//! Core of a wedding-event administration backend: a crowdfunded gift
//! registry with a consistent running funded total, and an invite pairing
//! heuristic for the guest list, together with the validation rules of the
//! admin facade around them.
//!
//! The relational store that the deployed service keeps its rows in is
//! modelled here as in-memory record sets ([`registry::Registry`] and
//! [`guests::GuestBook`]); every operation states exactly what it does to
//! those records and maintains the derived-field invariants.

use vstd::prelude::*;

pub mod campaign;
pub mod email;
pub mod funding;
pub mod guests;
pub mod import;
pub mod pairing;
pub mod registry;
pub mod text;

verus! {

/// The error taxonomy of the core operations. Every fallible operation
/// returns the most specific applicable kind.
#[derive(Clone, Copy, Debug, PartialEq, Eq, Structural)]
pub enum CoreError {
    /// A referenced item, contribution, invite or guest does not exist.
    NotFound,
    /// A guest group's cardinality lies outside 1..=2.
    InvalidArgument,
    /// A contribution targets an item that is already fully funded.
    AlreadyFunded,
}

/// A copy of an optional string, equal to the one given.
pub(crate) fn clone_opt_string(o: &Option<String>) -> (r: Option<String>)
    ensures
        r == *o,
{
    match o {
        Some(s) => Some(s.clone()),
        None => None,
    }
}

} // verus!
