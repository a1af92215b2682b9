use vstd::prelude::*;

verus! {

/// The role a node plays in the current term.
#[derive(PartialEq, Eq, Structural, Copy, Clone, Debug)]
pub enum Role {
    Follower,
    Candidate,
    Leader,
}

impl Role {
    pub fn is_follower(self) -> (r: bool)
        ensures
            r == (self == Role::Follower),
    {
        self == Role::Follower
    }

    pub fn is_candidate(self) -> (r: bool)
        ensures
            r == (self == Role::Candidate),
    {
        self == Role::Candidate
    }

    pub fn is_leader(self) -> (r: bool)
        ensures
            r == (self == Role::Leader),
    {
        self == Role::Leader
    }
}

} // verus!
