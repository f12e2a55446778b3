//! The resources of the front desk as the pages show them.

use vstd::prelude::*;

verus! {

/// What a resource is to the user who asks.
#[derive(Debug, Clone, Copy, PartialEq, Eq, Structural)]
pub enum Usage {
    Free,
    Yours,
    Occupied,
    Unknown,
}

/// The state in which the front desk reports a resource, as far as the
/// pages tell states apart.
#[derive(Debug, Clone, Copy, PartialEq, Eq, Structural)]
pub enum Occupancy {
    Free,
    InUse,
    Other,
}

/// A resource of the front desk.
#[derive(Debug, Clone, PartialEq, Eq)]
pub struct Machine {
    pub category: String,
    pub description: String,
    pub id: String,
    pub name: String,
    pub urn: String,
    pub usage: Usage,
}

impl Usage {
    /// What a resource in the state `state` is to a user: free, in use by
    /// that user, who then holds the right to give it back, or in use by
    /// someone else.
    pub open spec fn spec_of(state: Occupancy, given_back_by_user: bool) -> Usage {
        match state {
            Occupancy::Free => Usage::Free,
            Occupancy::InUse => if given_back_by_user {
                Usage::Yours
            } else {
                Usage::Occupied
            },
            Occupancy::Other => Usage::Unknown,
        }
    }

    /// Tells what a resource is to a user from its state and from whether
    /// the user holds the right to give it back.
    #[verifier::when_used_as_spec(spec_of)]
    pub fn of(state: Occupancy, given_back_by_user: bool) -> (usage: Usage)
        ensures
            usage == Usage::spec_of(state, given_back_by_user),
    {
        match state {
            Occupancy::Free => Usage::Free,
            Occupancy::InUse => if given_back_by_user {
                Usage::Yours
            } else {
                Usage::Occupied
            },
            Occupancy::Other => Usage::Unknown,
        }
    }
}

/// The urns of a list of resources, in order.
pub open spec fn urns(resources: Seq<Machine>) -> Seq<Seq<char>> {
    Seq::new(resources.len(), |at: int| resources[at].urn@)
}

} // verus!
