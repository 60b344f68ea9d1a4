//! The record types of the governance ledger, the argument bundles of its
//! three operations, its error type, and the ghost views the contracts
//! speak of.
//!
//! Identities (DAO addresses and users) are plain `u64` keys; record
//! addressing is the composite key each record carries: a proposal by
//! (DAO, title), a voter record by (DAO, title, user), a reward account
//! by (DAO, user).

use vstd::prelude::*;

verus! {

/// Upper bound, in UTF-8 bytes, on a DAO name.
pub const MAX_NAME_BYTES: usize = 20;

/// Upper bound, in UTF-8 bytes, on a proposal title.
pub const MAX_TITLE_BYTES: usize = 50;

/// Upper bound, in UTF-8 bytes, on a proposal description.
pub const MAX_DESCRIPTION_BYTES: usize = 200;

/// The length of a string, in UTF-8 bytes.
pub open spec fn byte_len(s: Seq<char>) -> nat {
    vstd::utf8::encode_utf8(s).len()
}

/// A governance body; proposals are created under a DAO.
#[derive(Debug)]
pub struct DaoAccount {
    pub name: String,
    pub owner: u64,
}

/// A votable item with yes/no tallies, keyed by (DAO, title).
#[derive(Debug)]
pub struct Proposal {
    pub title: String,
    pub description: String,
    pub votes_yes: u64,
    pub votes_no: u64,
}

/// The per-(proposal, user) flag that prevents double voting.
#[derive(Debug, Clone, Copy)]
pub struct Voter {
    pub has_voted: bool,
}

/// The per-(DAO, user) counter of successful votes, keyed by (DAO, user).
#[derive(Debug)]
pub struct RewardAccount {
    pub user: u64,
    pub reward_points: u64,
}

/// The identities an `initialize` call is resolved against.
#[derive(Debug, Clone, Copy)]
pub struct Initialize {
    pub payer: u64,
    pub dao_account: u64,
}

/// The identities a `create_proposal` call is resolved against.
#[derive(Debug, Clone, Copy)]
pub struct CreateProposal {
    pub payer: u64,
    pub dao_account: u64,
}

/// The identities a `vote` call is resolved against.
#[derive(Debug, Clone, Copy)]
pub struct Vote {
    pub user: u64,
    pub dao_account: u64,
}

/// Why an operation was rejected. A rejected operation changes nothing.
#[derive(Debug, Clone, Copy, PartialEq, Eq, Structural)]
pub enum VotingError {
    /// The user has already voted on this proposal.
    VotedTwice,
    /// A record already exists at the derived key, or an input string
    /// exceeds its byte bound.
    AllocationError,
}

impl VotingError {
    /// The user-facing message of this error.
    pub fn message(&self) -> (r: &'static str)
        ensures
            *self == VotingError::VotedTwice ==> r@ == "The user has already voted"@,
            *self == VotingError::AllocationError ==> r@ == "Allocation failed"@,
    {
        match self {
            VotingError::VotedTwice => "The user has already voted",
            VotingError::AllocationError => "Allocation failed",
        }
    }
}

/// The ghost view of a stored DAO account.
pub ghost struct DaoView {
    pub name: Seq<char>,
    pub owner: u64,
}

/// The ghost view of a stored proposal; its title is the map key it is
/// stored under.
pub ghost struct ProposalView {
    pub description: Seq<char>,
    pub votes_yes: int,
    pub votes_no: int,
}

} // verus!
