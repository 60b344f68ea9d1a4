//! The governance ledger: every record set, the three operations, and the
//! laws that hold of them.

use vstd::prelude::*;

use crate::keyed::{
    lemma_map_of_contains, lemma_map_of_index, lemma_map_of_push, lemma_map_of_update,
    lemma_unique_keys_drop_last, map_of, unique_keys,
};
use crate::records::{
    byte_len, CreateProposal, DaoAccount, DaoView, Initialize, Proposal, ProposalView,
    RewardAccount, Vote, Voter, VotingError, MAX_DESCRIPTION_BYTES, MAX_NAME_BYTES,
    MAX_TITLE_BYTES,
};

verus! {

/// A stored DAO account together with its address.
struct DaoRecord {
    addr: u64,
    account: DaoAccount,
}

/// A stored proposal together with the DAO it belongs to; its key is
/// (DAO, title).
struct ProposalRecord {
    dao: u64,
    proposal: Proposal,
}

/// A stored voter record; its key is (DAO, title, user).
struct VoterRecord {
    dao: u64,
    title: String,
    user: u64,
    voter: Voter,
}

/// A stored reward account; its key is (DAO, user).
struct RewardRecord {
    dao: u64,
    account: RewardAccount,
}

spec fn dao_pairs(s: Seq<DaoRecord>) -> Seq<(u64, DaoView)> {
    s.map(|i: int, r: DaoRecord| (r.addr, DaoView { name: r.account.name@, owner: r.account.owner }))
}

spec fn proposal_pairs(s: Seq<ProposalRecord>) -> Seq<((u64, Seq<char>), ProposalView)> {
    s.map(
        |i: int, r: ProposalRecord|
            (
                (r.dao, r.proposal.title@),
                ProposalView {
                    description: r.proposal.description@,
                    votes_yes: r.proposal.votes_yes as int,
                    votes_no: r.proposal.votes_no as int,
                },
            ),
    )
}

spec fn voter_pairs(s: Seq<VoterRecord>) -> Seq<((u64, Seq<char>, u64), bool)> {
    s.map(|i: int, r: VoterRecord| ((r.dao, r.title@, r.user), r.voter.has_voted))
}

spec fn reward_pairs(s: Seq<RewardRecord>) -> Seq<((u64, u64), int)> {
    s.map(|i: int, r: RewardRecord| ((r.dao, r.account.user), r.account.reward_points as int))
}

/// How many entries of `s` are votes cast on proposal (`dao`, `title`).
spec fn vote_count_on(s: Seq<((u64, Seq<char>, u64), bool)>, dao: u64, title: Seq<char>) -> nat
    decreases s.len(),
{
    if s.len() == 0 {
        0
    } else {
        vote_count_on(s.drop_last(), dao, title) + if s.last().0.0 == dao && s.last().0.1 == title
            && s.last().1 {
            1nat
        } else {
            0nat
        }
    }
}

/// How many entries of `s` are votes cast by `user` under DAO `dao`.
spec fn vote_count_by(s: Seq<((u64, Seq<char>, u64), bool)>, dao: u64, user: u64) -> nat
    decreases s.len(),
{
    if s.len() == 0 {
        0
    } else {
        vote_count_by(s.drop_last(), dao, user) + if s.last().0.0 == dao && s.last().0.2 == user
            && s.last().1 {
            1nat
        } else {
            0nat
        }
    }
}

/// Every stored DAO name respects its byte bound.
spec fn daos_bounded(s: Seq<DaoRecord>) -> bool {
    forall|i: int|
        0 <= i < s.len() ==> byte_len((#[trigger] s[i]).account.name@) <= MAX_NAME_BYTES
}

/// Every voter record is a cast vote with a bounded title.
spec fn voters_valid(s: Seq<VoterRecord>) -> bool {
    forall|i: int|
        0 <= i < s.len() ==> (#[trigger] s[i]).voter.has_voted && byte_len(s[i].title@)
            <= MAX_TITLE_BYTES
}

/// Every proposal's strings are bounded and its tallies sum to the number
/// of votes cast on it.
spec fn tallies_count_votes(ps: Seq<ProposalRecord>, vs: Seq<VoterRecord>) -> bool {
    forall|i: int|
        0 <= i < ps.len() ==> byte_len((#[trigger] ps[i]).proposal.title@) <= MAX_TITLE_BYTES
            && byte_len(ps[i].proposal.description@) <= MAX_DESCRIPTION_BYTES
            && ps[i].proposal.votes_yes as int + ps[i].proposal.votes_no as int == vote_count_on(
            voter_pairs(vs),
            ps[i].dao,
            ps[i].proposal.title@,
        ) as int
}

/// Every reward account's points equal the number of votes its user cast
/// under its DAO.
spec fn rewards_count_votes(rs: Seq<RewardRecord>, vs: Seq<VoterRecord>) -> bool {
    forall|i: int|
        0 <= i < rs.len() ==> (#[trigger] rs[i]).account.reward_points as int == vote_count_by(
            voter_pairs(vs),
            rs[i].dao,
            rs[i].account.user,
        ) as int
}

/// A reward account exists for (`dao`, `user`).
spec fn has_reward_for(rs: Seq<RewardRecord>, dao: u64, user: u64) -> bool {
    exists|j: int| 0 <= j < rs.len() && (#[trigger] rs[j]).dao == dao && rs[j].account.user == user
}

/// Every cast vote has a reward account under its DAO.
spec fn rewards_present(vs: Seq<VoterRecord>, rs: Seq<RewardRecord>) -> bool {
    forall|i: int|
        0 <= i < vs.len() ==> has_reward_for(rs, (#[trigger] vs[i]).dao, vs[i].user)
}

/// A proposal keyed (`dao`, `title`) exists among `ps`.
spec fn references_proposal(ps: Seq<ProposalRecord>, dao: u64, title: Seq<char>) -> bool {
    exists|j: int|
        0 <= j < ps.len() && (#[trigger] ps[j]).dao == dao && ps[j].proposal.title@ == title
}

/// Every voter record names an existing proposal.
spec fn voters_reference_proposals(vs: Seq<VoterRecord>, ps: Seq<ProposalRecord>) -> bool {
    forall|i: int|
        0 <= i < vs.len() ==> references_proposal(ps, (#[trigger] vs[i]).dao, vs[i].title@)
}

/// No entry of `s` is a vote cast on proposal (`dao`, `title`).
proof fn lemma_vote_count_on_no_match(
    s: Seq<((u64, Seq<char>, u64), bool)>,
    dao: u64,
    title: Seq<char>,
)
    requires
        forall|i: int|
            0 <= i < s.len() ==> !((#[trigger] s[i]).0.0 == dao && s[i].0.1 == title && s[i].1),
    ensures
        vote_count_on(s, dao, title) == 0,
    decreases s.len(),
{
    if s.len() > 0 {
        assert forall|i: int|
            0 <= i < s.drop_last().len() implies !((#[trigger] s.drop_last()[i]).0.0 == dao
                && s.drop_last()[i].0.1 == title && s.drop_last()[i].1) by {
            assert(s.drop_last()[i] == s[i]);
        }
        lemma_vote_count_on_no_match(s.drop_last(), dao, title);
        assert(s[s.len() - 1] == s.last());
    }
}

/// No entry of `s` is a vote cast by `user` under DAO `dao`.
proof fn lemma_vote_count_by_no_match(
    s: Seq<((u64, Seq<char>, u64), bool)>,
    dao: u64,
    user: u64,
)
    requires
        forall|i: int|
            0 <= i < s.len() ==> !((#[trigger] s[i]).0.0 == dao && s[i].0.2 == user && s[i].1),
    ensures
        vote_count_by(s, dao, user) == 0,
    decreases s.len(),
{
    if s.len() > 0 {
        assert forall|i: int|
            0 <= i < s.drop_last().len() implies !((#[trigger] s.drop_last()[i]).0.0 == dao
                && s.drop_last()[i].0.2 == user && s.drop_last()[i].1) by {
            assert(s.drop_last()[i] == s[i]);
        }
        lemma_vote_count_by_no_match(s.drop_last(), dao, user);
        assert(s[s.len() - 1] == s.last());
    }
}

/// The users whose entries in `s` are votes cast on proposal
/// (`dao`, `title`).
spec fn users_voted_on(s: Seq<((u64, Seq<char>, u64), bool)>, dao: u64, title: Seq<char>) -> Set<
    u64,
>
    decreases s.len(),
{
    if s.len() == 0 {
        Set::empty()
    } else if s.last().0.0 == dao && s.last().0.1 == title && s.last().1 {
        users_voted_on(s.drop_last(), dao, title).insert(s.last().0.2)
    } else {
        users_voted_on(s.drop_last(), dao, title)
    }
}

/// A user is in the vote set exactly when one entry is their cast vote.
proof fn lemma_users_voted_on_contains(
    s: Seq<((u64, Seq<char>, u64), bool)>,
    dao: u64,
    title: Seq<char>,
    u: u64,
)
    ensures
        users_voted_on(s, dao, title).contains(u) <==> exists|i: int|
            0 <= i < s.len() && (#[trigger] s[i]).0 == (dao, title, u) && s[i].1,
    decreases s.len(),
{
    if s.len() == 0 {
    } else {
        lemma_users_voted_on_contains(s.drop_last(), dao, title, u);
        if s.last().0 == (dao, title, u) && s.last().1 {
            assert((s[s.len() - 1]).0 == (dao, title, u) && s[s.len() - 1].1);
        } else {
            if users_voted_on(s, dao, title).contains(u) {
                let i = choose|i: int|
                    0 <= i < s.drop_last().len() && (#[trigger] s.drop_last()[i]).0 == (
                        dao,
                        title,
                        u,
                    ) && s.drop_last()[i].1;
                assert((s[i]).0 == (dao, title, u) && s[i].1);
            }
            if exists|i: int| 0 <= i < s.len() && (#[trigger] s[i]).0 == (dao, title, u) && s[i].1 {
                let i = choose|i: int|
                    0 <= i < s.len() && (#[trigger] s[i]).0 == (dao, title, u) && s[i].1;
                assert(i != s.len() - 1);
                assert((s.drop_last()[i]).0 == (dao, title, u) && s.drop_last()[i].1);
            }
        }
    }
}

/// Under unique keys the vote set is finite and as large as the tally
/// count: each cast vote is one distinct user.
proof fn lemma_users_voted_on_len(s: Seq<((u64, Seq<char>, u64), bool)>, dao: u64, title: Seq<char>)
    requires
        unique_keys(s),
    ensures
        users_voted_on(s, dao, title).finite(),
        users_voted_on(s, dao, title).len() == vote_count_on(s, dao, title),
    decreases s.len(),
{
    if s.len() == 0 {
        broadcast use vstd::set::axiom_set_empty_len;

    } else {
        lemma_unique_keys_drop_last(s);
        lemma_users_voted_on_len(s.drop_last(), dao, title);
        if s.last().0.0 == dao && s.last().0.1 == title && s.last().1 {
            let u = s.last().0.2;
            lemma_users_voted_on_contains(s.drop_last(), dao, title, u);
            if users_voted_on(s.drop_last(), dao, title).contains(u) {
                let i = choose|i: int|
                    0 <= i < s.drop_last().len() && (#[trigger] s.drop_last()[i]).0 == (
                        dao,
                        title,
                        u,
                    ) && s.drop_last()[i].1;
                assert(s[i] == s.drop_last()[i]);
                assert((s[i]).0 == (s[s.len() - 1]).0);
                assert(false);
            }
            vstd::set::axiom_set_insert_len(users_voted_on(s.drop_last(), dao, title), u);
        }
    }
}

/// The governance ledger: DAO accounts, proposals, voter records and
/// reward accounts, each collection keyed as [`crate::records`] says.
pub struct GovernanceLedger {
    daos: Vec<DaoRecord>,
    proposals: Vec<ProposalRecord>,
    voters: Vec<VoterRecord>,
    rewards: Vec<RewardRecord>,
}

impl GovernanceLedger {
    /// The stored DAO accounts, by address.
    pub closed spec fn daos(self) -> Map<u64, DaoView> {
        map_of(dao_pairs(self.daos@))
    }

    /// The stored proposals, by (DAO, title).
    pub closed spec fn proposals(self) -> Map<(u64, Seq<char>), ProposalView> {
        map_of(proposal_pairs(self.proposals@))
    }

    /// The stored voter flags, by (DAO, title, user).
    pub closed spec fn voted(self) -> Map<(u64, Seq<char>, u64), bool> {
        map_of(voter_pairs(self.voters@))
    }

    /// The stored reward points, by (DAO, user).
    pub closed spec fn rewards(self) -> Map<(u64, u64), int> {
        map_of(reward_pairs(self.rewards@))
    }

    /// A DAO account exists at `addr`.
    pub open spec fn dao_exists(self, addr: u64) -> bool {
        self.daos().contains_key(addr)
    }

    /// A proposal exists under `dao` with this `title`.
    pub open spec fn proposal_exists(self, dao: u64, title: Seq<char>) -> bool {
        self.proposals().contains_key((dao, title))
    }

    /// `user` has successfully voted on proposal (`dao`, `title`).
    pub open spec fn has_voted(self, dao: u64, title: Seq<char>, user: u64) -> bool {
        self.voted().contains_key((dao, title, user)) && self.voted()[(dao, title, user)]
    }

    /// The yes tally of proposal (`dao`, `title`).
    pub open spec fn votes_yes(self, dao: u64, title: Seq<char>) -> int {
        self.proposals()[(dao, title)].votes_yes
    }

    /// The no tally of proposal (`dao`, `title`).
    pub open spec fn votes_no(self, dao: u64, title: Seq<char>) -> int {
        self.proposals()[(dao, title)].votes_no
    }

    /// The reward points of `user` under `dao`; zero while no reward
    /// account exists.
    pub open spec fn reward_points(self, dao: u64, user: u64) -> int {
        if self.rewards().contains_key((dao, user)) {
            self.rewards()[(dao, user)]
        } else {
            0
        }
    }

    /// `initialize` succeeds exactly on these inputs.
    pub open spec fn initialize_allowed(self, addr: u64, name: Seq<char>) -> bool {
        byte_len(name) <= MAX_NAME_BYTES && !self.dao_exists(addr)
    }

    /// `create_proposal` succeeds exactly on these inputs.
    pub open spec fn create_allowed(
        self,
        dao: u64,
        title: Seq<char>,
        description: Seq<char>,
    ) -> bool {
        byte_len(title) <= MAX_TITLE_BYTES && byte_len(description) <= MAX_DESCRIPTION_BYTES
            && !self.proposal_exists(dao, title)
    }

    /// `vote` succeeds exactly when the user has not voted on the
    /// proposal yet.
    pub open spec fn vote_allowed(self, dao: u64, title: Seq<char>, user: u64) -> bool {
        !self.has_voted(dao, title, user)
    }

    /// The set of users who have voted on proposal (`dao`, `title`).
    pub open spec fn voters_of(self, dao: u64, title: Seq<char>) -> Set<u64> {
        Set::new(|u: u64| self.has_voted(dao, title, u))
    }

    /// The ledger's invariant: keys are unique, stored strings respect
    /// their byte bounds, every voter record is a cast vote, tallies
    /// count the votes cast on their proposal, reward points count the
    /// votes cast by their user, and every cast vote has a reward
    /// account.
    pub closed spec fn wf(self) -> bool {
        &&& unique_keys(dao_pairs(self.daos@))
        &&& unique_keys(proposal_pairs(self.proposals@))
        &&& unique_keys(voter_pairs(self.voters@))
        &&& unique_keys(reward_pairs(self.rewards@))
        &&& daos_bounded(self.daos@)
        &&& voters_valid(self.voters@)
        &&& tallies_count_votes(self.proposals@, self.voters@)
        &&& rewards_count_votes(self.rewards@, self.voters@)
        &&& rewards_present(self.voters@, self.rewards@)
        &&& voters_reference_proposals(self.voters@, self.proposals@)
    }

    /// An empty ledger: no DAOs, proposals, votes or rewards.
    pub fn new() -> (r: GovernanceLedger)
        ensures
            r.wf(),
            r.daos() == Map::<u64, DaoView>::empty(),
            r.proposals() == Map::<(u64, Seq<char>), ProposalView>::empty(),
            r.voted() == Map::<(u64, Seq<char>, u64), bool>::empty(),
            r.rewards() == Map::<(u64, u64), int>::empty(),
    {
        let r = GovernanceLedger {
            daos: Vec::new(),
            proposals: Vec::new(),
            voters: Vec::new(),
            rewards: Vec::new(),
        };
        proof {
            assert(dao_pairs(r.daos@) =~= Seq::<(u64, DaoView)>::empty());
            assert(proposal_pairs(r.proposals@) =~= Seq::<((u64, Seq<char>), ProposalView)>::empty());
            assert(voter_pairs(r.voters@) =~= Seq::<((u64, Seq<char>, u64), bool)>::empty());
            assert(reward_pairs(r.rewards@) =~= Seq::<((u64, u64), int)>::empty());
        }
        r
    }

    /// Create the DAO account at `ctx.dao_account`, owned by `ctx.payer`.
    ///
    /// Succeeds exactly once per distinct address: it fails with
    /// `AllocationError` if a DAO already exists there, or if `name`
    /// exceeds its byte bound; a failed call changes nothing.
    pub fn initialize(&mut self, ctx: Initialize, name: String) -> (r: Result<(), VotingError>)
        requires
            old(self).wf(),
        ensures
            final(self).wf(),
            r.is_ok() <==> old(self).initialize_allowed(ctx.dao_account, name@),
            r.is_ok() ==> final(self).daos() == old(self).daos().insert(
                ctx.dao_account,
                DaoView { name: name@, owner: ctx.payer },
            ) && final(self).proposals() == old(self).proposals() && final(self).voted() == old(
                self,
            ).voted() && final(self).rewards() == old(self).rewards(),
            r.is_err() ==> *final(self) == *old(self) && r == Err::<(), VotingError>(
                VotingError::AllocationError,
            ),
    {
        if name.as_str().as_bytes().len() > MAX_NAME_BYTES {
            return Err(VotingError::AllocationError);
        }
        match find_dao(&self.daos, ctx.dao_account) {
            Some(i) => {
                proof {
                    assert(dao_pairs(self.daos@)[i as int].0 == ctx.dao_account);
                    lemma_map_of_contains(dao_pairs(self.daos@), ctx.dao_account);
                }
                Err(VotingError::AllocationError)
            },
            None => {
                proof {
                    assert forall|j: int|
                        0 <= j < dao_pairs(self.daos@).len() implies (#[trigger] dao_pairs(
                        self.daos@,
                    )[j]).0 != ctx.dao_account by {
                        assert(dao_pairs(self.daos@)[j].0 == self.daos@[j].addr);
                    }
                    lemma_map_of_contains(dao_pairs(self.daos@), ctx.dao_account);
                    assert(!self.dao_exists(ctx.dao_account));
                }
                let rec = DaoRecord {
                    addr: ctx.dao_account,
                    account: DaoAccount { name, owner: ctx.payer },
                };
                let ghost pre = *self;
                let ghost grec = rec;
                self.daos.push(rec);
                proof {
                    lemma_wf_after_dao_push(pre, *self, grec);
                }
                Ok(())
            },
        }
    }

    /// Create the proposal keyed (`ctx.dao_account`, `title`), with both
    /// tallies zero.
    ///
    /// Succeeds at most once per (DAO, title): it fails with
    /// `AllocationError` if a proposal already exists under that key, or
    /// if `title` or `description` exceeds its byte bound; a failed call
    /// changes nothing. Any caller may create a proposal under any DAO:
    /// no ownership check is performed.
    pub fn create_proposal(
        &mut self,
        ctx: CreateProposal,
        title: String,
        description: String,
    ) -> (r: Result<(), VotingError>)
        requires
            old(self).wf(),
            old(self).dao_exists(ctx.dao_account),
        ensures
            final(self).wf(),
            r.is_ok() <==> old(self).create_allowed(ctx.dao_account, title@, description@),
            r.is_ok() ==> final(self).proposals() == old(self).proposals().insert(
                (ctx.dao_account, title@),
                ProposalView { description: description@, votes_yes: 0, votes_no: 0 },
            ) && final(self).daos() == old(self).daos() && final(self).voted() == old(
                self,
            ).voted() && final(self).rewards() == old(self).rewards(),
            r.is_err() ==> *final(self) == *old(self) && r == Err::<(), VotingError>(
                VotingError::AllocationError,
            ),
    {
        if title.as_str().as_bytes().len() > MAX_TITLE_BYTES {
            return Err(VotingError::AllocationError);
        }
        if description.as_str().as_bytes().len() > MAX_DESCRIPTION_BYTES {
            return Err(VotingError::AllocationError);
        }
        match find_proposal(&self.proposals, ctx.dao_account, &title) {
            Some(i) => {
                proof {
                    assert(proposal_pairs(self.proposals@)[i as int].0 == (
                        ctx.dao_account,
                        title@,
                    ));
                    lemma_map_of_contains(proposal_pairs(self.proposals@), (ctx.dao_account, title@));
                }
                Err(VotingError::AllocationError)
            },
            None => {
                proof {
                    assert forall|j: int|
                        0 <= j < proposal_pairs(self.proposals@).len() implies (
                    #[trigger] proposal_pairs(self.proposals@)[j]).0 != (ctx.dao_account, title@) by {
                        assert(proposal_pairs(self.proposals@)[j].0 == (
                            self.proposals@[j].dao,
                            self.proposals@[j].proposal.title@,
                        ));
                    }
                    lemma_map_of_contains(proposal_pairs(self.proposals@), (ctx.dao_account, title@));
                    assert(!self.proposal_exists(ctx.dao_account, title@));
                }
                let rec = ProposalRecord {
                    dao: ctx.dao_account,
                    proposal: Proposal { title, description, votes_yes: 0, votes_no: 0 },
                };
                let ghost pre = *self;
                let ghost grec = rec;
                self.proposals.push(rec);
                proof {
                    lemma_wf_after_proposal_push(pre, *self, grec);
                }
                Ok(())
            },
        }
    }

    /// Cast `ctx.user`'s vote on proposal (`ctx.dao_account`, `title`):
    /// bump the chosen tally, record the vote, and credit one reward
    /// point to the user under that DAO, all together.
    ///
    /// Fails with `VotedTwice` if the user has already voted on this
    /// proposal; a failed call changes nothing. The tally and reward
    /// bounds only keep the counters within their machine width.
    pub fn vote(&mut self, ctx: Vote, title: String, choice: bool) -> (r: Result<(), VotingError>)
        requires
            old(self).wf(),
            old(self).dao_exists(ctx.dao_account),
            old(self).proposal_exists(ctx.dao_account, title@),
            old(self).votes_yes(ctx.dao_account, title@) < u64::MAX as int,
            old(self).votes_no(ctx.dao_account, title@) < u64::MAX as int,
            old(self).reward_points(ctx.dao_account, ctx.user) < u64::MAX as int,
        ensures
            final(self).wf(),
            r.is_ok() <==> old(self).vote_allowed(ctx.dao_account, title@, ctx.user),
            r.is_ok() ==> final(self).voted() == old(self).voted().insert(
                (ctx.dao_account, title@, ctx.user),
                true,
            ) && final(self).proposals() == old(self).proposals().insert(
                (ctx.dao_account, title@),
                ProposalView {
                    description: old(self).proposals()[(ctx.dao_account, title@)].description,
                    votes_yes: old(self).votes_yes(ctx.dao_account, title@) + if choice {
                        1int
                    } else {
                        0int
                    },
                    votes_no: old(self).votes_no(ctx.dao_account, title@) + if choice {
                        0int
                    } else {
                        1int
                    },
                },
            ) && final(self).rewards() == old(self).rewards().insert(
                (ctx.dao_account, ctx.user),
                old(self).reward_points(ctx.dao_account, ctx.user) + 1,
            ) && final(self).daos() == old(self).daos(),
            r.is_err() ==> *final(self) == *old(self) && r == Err::<(), VotingError>(
                VotingError::VotedTwice,
            ),
    {
        let dao = ctx.dao_account;
        let user = ctx.user;
        match find_voter(&self.voters, dao, &title, user) {
            Some(i) => {
                proof {
                    assert(voter_pairs(self.voters@)[i as int].0 == (dao, title@, user));
                    lemma_map_of_contains(voter_pairs(self.voters@), (dao, title@, user));
                    lemma_map_of_index(voter_pairs(self.voters@), i as int);
                    assert(voter_pairs(self.voters@)[i as int].1);
                }
                Err(VotingError::VotedTwice)
            },
            None => {
                proof {
                    assert forall|j: int|
                        0 <= j < voter_pairs(self.voters@).len() implies (#[trigger] voter_pairs(
                        self.voters@,
                    )[j]).0 != (dao, title@, user) by {
                        assert(voter_pairs(self.voters@)[j].0 == (
                            self.voters@[j].dao,
                            self.voters@[j].title@,
                            self.voters@[j].user,
                        ));
                    }
                    lemma_map_of_contains(voter_pairs(self.voters@), (dao, title@, user));
                    assert(self.vote_allowed(dao, title@, user));
                }
                let pi_opt = find_proposal(&self.proposals, dao, &title);
                proof {
                    lemma_map_of_contains(proposal_pairs(self.proposals@), (dao, title@));
                    if pi_opt is None {
                        let j = choose|j: int|
                            0 <= j < proposal_pairs(self.proposals@).len() && (
                            #[trigger] proposal_pairs(self.proposals@)[j]).0 == (dao, title@);
                        assert(self.proposals@[j].dao == dao && self.proposals@[j].proposal.title@
                            == title@);
                        assert(false);
                    }
                }
                let pi = pi_opt.unwrap();
                let ghost pre = *self;
                proof {
                    assert(proposal_pairs(pre.proposals@)[pi as int].0 == (dao, title@));
                    lemma_map_of_index(proposal_pairs(pre.proposals@), pi as int);
                }
                let mut prec = self.proposals.remove(pi);
                if choice {
                    prec.proposal.votes_yes = prec.proposal.votes_yes + 1;
                } else {
                    prec.proposal.votes_no = prec.proposal.votes_no + 1;
                }
                self.proposals.insert(pi, prec);
                proof {
                    assert(self.proposals@ =~= pre.proposals@.update(
                        pi as int,
                        self.proposals@[pi as int],
                    ));
                }
                self.voters.push(VoterRecord { dao, title, user, voter: Voter { has_voted: true } });
                let ghost mut rj: Option<int> = None;
                match find_reward(&self.rewards, dao, user) {
                    Some(j) => {
                        proof {
                            rj = Some(j as int);
                            assert(reward_pairs(pre.rewards@)[j as int].0 == (dao, user));
                            lemma_map_of_index(reward_pairs(pre.rewards@), j as int);
                        }
                        let mut rrec = self.rewards.remove(j);
                        rrec.account.reward_points = rrec.account.reward_points + 1;
                        self.rewards.insert(j, rrec);
                        proof {
                            assert(self.rewards@ =~= pre.rewards@.update(
                                j as int,
                                self.rewards@[j as int],
                            ));
                        }
                    },
                    None => {
                        self.rewards.push(
                            RewardRecord { dao, account: RewardAccount { user, reward_points: 1 } },
                        );
                    },
                }
                proof {
                    lemma_wf_after_vote(pre, *self, pi as int, dao, title@, user, choice, rj);
                }
                Ok(())
            },
        }
    }

    /// The DAO account stored at `addr`, if any.
    pub fn get_dao(&self, addr: u64) -> (r: Option<&DaoAccount>)
        requires
            self.wf(),
        ensures
            r.is_some() <==> self.dao_exists(addr),
            match r {
                Some(a) => a.name@ == self.daos()[addr].name && a.owner == self.daos()[addr].owner,
                None => true,
            },
    {
        match find_dao(&self.daos, addr) {
            Some(i) => {
                proof {
                    assert(dao_pairs(self.daos@)[i as int].0 == addr);
                    lemma_map_of_contains(dao_pairs(self.daos@), addr);
                    lemma_map_of_index(dao_pairs(self.daos@), i as int);
                }
                Some(&self.daos[i].account)
            },
            None => {
                proof {
                    assert forall|j: int|
                        0 <= j < dao_pairs(self.daos@).len() implies (#[trigger] dao_pairs(
                        self.daos@,
                    )[j]).0 != addr by {
                        assert(dao_pairs(self.daos@)[j].0 == self.daos@[j].addr);
                    }
                    lemma_map_of_contains(dao_pairs(self.daos@), addr);
                }
                None
            },
        }
    }

    /// The proposal stored under (`dao`, `title`), if any.
    pub fn get_proposal(&self, dao: u64, title: &String) -> (r: Option<&Proposal>)
        requires
            self.wf(),
        ensures
            r.is_some() <==> self.proposal_exists(dao, title@),
            match r {
                Some(p) => p.title@ == title@ && p.description@ == self.proposals()[
                    (dao, title@)
                ].description && p.votes_yes as int == self.votes_yes(dao, title@) && p.votes_no
                    as int == self.votes_no(dao, title@),
                None => true,
            },
    {
        match find_proposal(&self.proposals, dao, title) {
            Some(i) => {
                proof {
                    assert(proposal_pairs(self.proposals@)[i as int].0 == (dao, title@));
                    lemma_map_of_contains(proposal_pairs(self.proposals@), (dao, title@));
                    lemma_map_of_index(proposal_pairs(self.proposals@), i as int);
                }
                Some(&self.proposals[i].proposal)
            },
            None => {
                proof {
                    assert forall|j: int|
                        0 <= j < proposal_pairs(self.proposals@).len() implies (
                    #[trigger] proposal_pairs(self.proposals@)[j]).0 != (dao, title@) by {
                        assert(proposal_pairs(self.proposals@)[j].0 == (
                            self.proposals@[j].dao,
                            self.proposals@[j].proposal.title@,
                        ));
                    }
                    lemma_map_of_contains(proposal_pairs(self.proposals@), (dao, title@));
                }
                None
            },
        }
    }

    /// The voter record stored under (`dao`, `title`, `user`), if any; it
    /// exists exactly when the user has voted on the proposal.
    pub fn get_voter(&self, dao: u64, title: &String, user: u64) -> (r: Option<&Voter>)
        requires
            self.wf(),
        ensures
            r.is_some() <==> self.has_voted(dao, title@, user),
            match r {
                Some(v) => v.has_voted,
                None => true,
            },
    {
        match find_voter(&self.voters, dao, title, user) {
            Some(i) => {
                proof {
                    assert(voter_pairs(self.voters@)[i as int].0 == (dao, title@, user));
                    lemma_map_of_contains(voter_pairs(self.voters@), (dao, title@, user));
                    lemma_map_of_index(voter_pairs(self.voters@), i as int);
                }
                Some(&self.voters[i].voter)
            },
            None => {
                proof {
                    assert forall|j: int|
                        0 <= j < voter_pairs(self.voters@).len() implies (#[trigger] voter_pairs(
                        self.voters@,
                    )[j]).0 != (dao, title@, user) by {
                        assert(voter_pairs(self.voters@)[j].0 == (
                            self.voters@[j].dao,
                            self.voters@[j].title@,
                            self.voters@[j].user,
                        ));
                    }
                    lemma_map_of_contains(voter_pairs(self.voters@), (dao, title@, user));
                }
                None
            },
        }
    }

    /// The reward account stored under (`dao`, `user`), if any; while none
    /// exists the user's points under that DAO are zero.
    pub fn get_reward_account(&self, dao: u64, user: u64) -> (r: Option<&RewardAccount>)
        requires
            self.wf(),
        ensures
            match r {
                Some(a) => a.user == user && a.reward_points as int == self.reward_points(
                    dao,
                    user,
                ),
                None => self.reward_points(dao, user) == 0,
            },
    {
        match find_reward(&self.rewards, dao, user) {
            Some(i) => {
                proof {
                    assert(reward_pairs(self.rewards@)[i as int].0 == (dao, user));
                    lemma_map_of_contains(reward_pairs(self.rewards@), (dao, user));
                    lemma_map_of_index(reward_pairs(self.rewards@), i as int);
                }
                Some(&self.rewards[i].account)
            },
            None => {
                proof {
                    assert forall|j: int|
                        0 <= j < reward_pairs(self.rewards@).len() implies (#[trigger] reward_pairs(
                        self.rewards@,
                    )[j]).0 != (dao, user) by {
                        assert(reward_pairs(self.rewards@)[j].0 == (
                            self.rewards@[j].dao,
                            self.rewards@[j].account.user,
                        ));
                    }
                    lemma_map_of_contains(reward_pairs(self.rewards@), (dao, user));
                }
                None
            },
        }
    }
}

/// Appending a DAO record under a fresh address preserves the ledger
/// invariant and inserts the record into the DAO view; the other views
/// do not move.
proof fn lemma_wf_after_dao_push(pre: GovernanceLedger, post: GovernanceLedger, rec: DaoRecord)
    requires
        pre.wf(),
        byte_len(rec.account.name@) <= MAX_NAME_BYTES,
        forall|j: int| 0 <= j < pre.daos@.len() ==> (#[trigger] pre.daos@[j]).addr != rec.addr,
        post.daos@ == pre.daos@.push(rec),
        post.proposals@ == pre.proposals@,
        post.voters@ == pre.voters@,
        post.rewards@ == pre.rewards@,
    ensures
        post.wf(),
        post.daos() == pre.daos().insert(
            rec.addr,
            DaoView { name: rec.account.name@, owner: rec.account.owner },
        ),
        post.proposals() == pre.proposals(),
        post.voted() == pre.voted(),
        post.rewards() == pre.rewards(),
{
    let v = DaoView { name: rec.account.name@, owner: rec.account.owner };
    assert(dao_pairs(post.daos@) =~= dao_pairs(pre.daos@).push((rec.addr, v)));
    lemma_map_of_push(dao_pairs(pre.daos@), rec.addr, v);
    assert(unique_keys(dao_pairs(post.daos@))) by {
        assert forall|i: int, j: int|
            0 <= i < j < dao_pairs(post.daos@).len() implies (#[trigger] dao_pairs(
            post.daos@,
        )[i]).0 != (#[trigger] dao_pairs(post.daos@)[j]).0 by {
            if j == dao_pairs(post.daos@).len() - 1 {
                assert(dao_pairs(post.daos@)[i].0 == pre.daos@[i].addr);
            }
        }
    }
    assert forall|k: int|
        0 <= k < post.daos@.len() implies byte_len(
        (#[trigger] post.daos@[k]).account.name@,
    ) <= MAX_NAME_BYTES by {
        if k < pre.daos@.len() {
            assert(post.daos@[k] == pre.daos@[k]);
        }
    }
}

/// Appending a proposal record under a fresh (DAO, title) key, with both
/// tallies zero, preserves the ledger invariant and inserts the proposal
/// into the proposal view; the other views do not move.
proof fn lemma_wf_after_proposal_push(
    pre: GovernanceLedger,
    post: GovernanceLedger,
    rec: ProposalRecord,
)
    requires
        pre.wf(),
        byte_len(rec.proposal.title@) <= MAX_TITLE_BYTES,
        byte_len(rec.proposal.description@) <= MAX_DESCRIPTION_BYTES,
        rec.proposal.votes_yes == 0,
        rec.proposal.votes_no == 0,
        forall|j: int|
            0 <= j < pre.proposals@.len() ==> !((#[trigger] pre.proposals@[j]).dao == rec.dao
                && pre.proposals@[j].proposal.title@ == rec.proposal.title@),
        post.proposals@ == pre.proposals@.push(rec),
        post.daos@ == pre.daos@,
        post.voters@ == pre.voters@,
        post.rewards@ == pre.rewards@,
    ensures
        post.wf(),
        post.proposals() == pre.proposals().insert(
            (rec.dao, rec.proposal.title@),
            ProposalView { description: rec.proposal.description@, votes_yes: 0, votes_no: 0 },
        ),
        post.daos() == pre.daos(),
        post.voted() == pre.voted(),
        post.rewards() == pre.rewards(),
{
    let k = (rec.dao, rec.proposal.title@);
    let v = ProposalView { description: rec.proposal.description@, votes_yes: 0, votes_no: 0 };
    assert(proposal_pairs(post.proposals@) =~= proposal_pairs(pre.proposals@).push((k, v)));
    lemma_map_of_push(proposal_pairs(pre.proposals@), k, v);
    assert(unique_keys(proposal_pairs(post.proposals@))) by {
        assert forall|i: int, j: int|
            0 <= i < j < proposal_pairs(post.proposals@).len() implies (#[trigger] proposal_pairs(
            post.proposals@,
        )[i]).0 != (#[trigger] proposal_pairs(post.proposals@)[j]).0 by {
            if j == proposal_pairs(post.proposals@).len() - 1 {
                assert(proposal_pairs(post.proposals@)[i].0 == (
                    pre.proposals@[i].dao,
                    pre.proposals@[i].proposal.title@,
                ));
            }
        }
    }
    // no vote was ever cast on the fresh key, so zero tallies count them
    assert forall|i: int|
        0 <= i < voter_pairs(pre.voters@).len() implies !((#[trigger] voter_pairs(
        pre.voters@,
    )[i]).0.0 == rec.dao && voter_pairs(pre.voters@)[i].0.1 == rec.proposal.title@ && voter_pairs(
        pre.voters@,
    )[i].1) by {
        if pre.voters@[i].dao == rec.dao && pre.voters@[i].title@ == rec.proposal.title@ {
            assert(references_proposal(pre.proposals@, pre.voters@[i].dao, pre.voters@[i].title@));
            assert(false);
        }
    }
    lemma_vote_count_on_no_match(voter_pairs(pre.voters@), rec.dao, rec.proposal.title@);
    assert(tallies_count_votes(post.proposals@, post.voters@)) by {
        assert forall|i: int|
            0 <= i < post.proposals@.len() implies byte_len(
            (#[trigger] post.proposals@[i]).proposal.title@,
        ) <= MAX_TITLE_BYTES && byte_len(post.proposals@[i].proposal.description@)
            <= MAX_DESCRIPTION_BYTES && post.proposals@[i].proposal.votes_yes as int + post.proposals@[
            i
        ].proposal.votes_no as int == vote_count_on(
            voter_pairs(post.voters@),
            post.proposals@[i].dao,
            post.proposals@[i].proposal.title@,
        ) as int by {
            if i < pre.proposals@.len() {
                assert(post.proposals@[i] == pre.proposals@[i]);
            } else {
                assert(post.proposals@[i] == rec);
            }
        }
    }
    assert(voters_reference_proposals(post.voters@, post.proposals@)) by {
        assert forall|i: int|
            0 <= i < post.voters@.len() implies references_proposal(
            post.proposals@,
            (#[trigger] post.voters@[i]).dao,
            post.voters@[i].title@,
        ) by {
            let v2 = pre.voters@[i];
            let j = choose|j: int|
                0 <= j < pre.proposals@.len() && (#[trigger] pre.proposals@[j]).dao == v2.dao
                    && pre.proposals@[j].proposal.title@ == v2.title@;
            assert(post.proposals@[j] == pre.proposals@[j]);
        }
    }
}

/// Pushing one vote entry raises the tally of exactly its proposal.
proof fn lemma_vote_count_on_push(
    s: Seq<((u64, Seq<char>, u64), bool)>,
    x: ((u64, Seq<char>, u64), bool),
    dao: u64,
    title: Seq<char>,
)
    ensures
        vote_count_on(s.push(x), dao, title) == vote_count_on(s, dao, title) + if x.0.0 == dao
            && x.0.1 == title && x.1 {
            1nat
        } else {
            0nat
        },
{
    assert(s.push(x).drop_last() =~= s);
    assert(s.push(x).last() == x);
}

/// Pushing one vote entry raises the count of exactly its (DAO, user).
proof fn lemma_vote_count_by_push(
    s: Seq<((u64, Seq<char>, u64), bool)>,
    x: ((u64, Seq<char>, u64), bool),
    dao: u64,
    user: u64,
)
    ensures
        vote_count_by(s.push(x), dao, user) == vote_count_by(s, dao, user) + if x.0.0 == dao
            && x.0.2 == user && x.1 {
            1nat
        } else {
            0nat
        },
{
    assert(s.push(x).drop_last() =~= s);
    assert(s.push(x).last() == x);
}

/// Casting a vote — bumping one tally of proposal `pi`, appending the
/// voter record, and crediting one reward point — preserves the ledger
/// invariant and moves the views by exactly one insertion each.
proof fn lemma_wf_after_vote(
    pre: GovernanceLedger,
    post: GovernanceLedger,
    pi: int,
    d: u64,
    t: Seq<char>,
    user: u64,
    choice: bool,
    rj: Option<int>,
)
    requires
        pre.wf(),
        0 <= pi < pre.proposals@.len(),
        pre.proposals@[pi].dao == d,
        pre.proposals@[pi].proposal.title@ == t,
        pre.proposals@[pi].proposal.votes_yes < u64::MAX,
        pre.proposals@[pi].proposal.votes_no < u64::MAX,
        // the user has not voted on (d, t)
        forall|i: int|
            0 <= i < pre.voters@.len() ==> !((#[trigger] pre.voters@[i]).dao == d
                && pre.voters@[i].title@ == t && pre.voters@[i].user == user),
        // the proposal record was updated in place, one tally bumped
        post.proposals@.len() == pre.proposals@.len(),
        forall|k: int|
            0 <= k < pre.proposals@.len() && k != pi ==> post.proposals@[k] == #[trigger] pre.proposals@[k],
        post.proposals@[pi].dao == d,
        post.proposals@[pi].proposal.title@ == t,
        post.proposals@[pi].proposal.description@ == pre.proposals@[pi].proposal.description@,
        post.proposals@[pi].proposal.votes_yes as int == pre.proposals@[pi].proposal.votes_yes
            as int + if choice {
            1int
        } else {
            0int
        },
        post.proposals@[pi].proposal.votes_no as int == pre.proposals@[pi].proposal.votes_no
            as int + if choice {
            0int
        } else {
            1int
        },
        // the voter record was appended
        post.voters@.len() == pre.voters@.len() + 1,
        forall|k: int|
            0 <= k < pre.voters@.len() ==> post.voters@[k] == #[trigger] pre.voters@[k],
        post.voters@.last().dao == d,
        post.voters@.last().title@ == t,
        post.voters@.last().user == user,
        post.voters@.last().voter.has_voted,
        // the reward account was credited, or created with one point
        match rj {
            Some(j) => 0 <= j < pre.rewards@.len() && pre.rewards@[j].dao == d
                && pre.rewards@[j].account.user == user
                && pre.rewards@[j].account.reward_points < u64::MAX
                && post.rewards@.len() == pre.rewards@.len()
                && (forall|k: int|
                    0 <= k < pre.rewards@.len() && k != j ==> post.rewards@[k]
                        == #[trigger] pre.rewards@[k])
                && post.rewards@[j].dao == d && post.rewards@[j].account.user == user
                && post.rewards@[j].account.reward_points as int == pre.rewards@[
                j
            ].account.reward_points as int + 1,
            None => (forall|k: int|
                0 <= k < pre.rewards@.len() ==> !((#[trigger] pre.rewards@[k]).dao == d
                    && pre.rewards@[k].account.user == user)) && post.rewards@.len()
                == pre.rewards@.len() + 1 && (forall|k: int|
                0 <= k < pre.rewards@.len() ==> post.rewards@[k] == #[trigger] pre.rewards@[k])
                && post.rewards@.last().dao == d && post.rewards@.last().account.user == user
                && post.rewards@.last().account.reward_points == 1,
        },
        post.daos@ == pre.daos@,
    ensures
        post.wf(),
        post.voted() == pre.voted().insert((d, t, user), true),
        post.proposals() == pre.proposals().insert(
            (d, t),
            ProposalView {
                description: pre.proposals@[pi].proposal.description@,
                votes_yes: pre.proposals@[pi].proposal.votes_yes as int + if choice {
                    1int
                } else {
                    0int
                },
                votes_no: pre.proposals@[pi].proposal.votes_no as int + if choice {
                    0int
                } else {
                    1int
                },
            },
        ),
        post.rewards() == pre.rewards().insert((d, user), pre.reward_points(d, user) + 1),
        post.daos() == pre.daos(),
        pre.proposals()[(d, t)].description == pre.proposals@[pi].proposal.description@,
        pre.votes_yes(d, t) == pre.proposals@[pi].proposal.votes_yes as int,
        pre.votes_no(d, t) == pre.proposals@[pi].proposal.votes_no as int,
{
    let vp_pre = voter_pairs(pre.voters@);
    let vp_post = voter_pairs(post.voters@);
    let vkey = (d, t, user);

    // the voter view gains exactly the new vote
    assert(vp_post =~= vp_pre.push((vkey, true)));
    lemma_map_of_push(vp_pre, vkey, true);
    assert forall|i: int| 0 <= i < vp_pre.len() implies (#[trigger] vp_pre[i]).0 != vkey by {
        assert(vp_pre[i].0 == (pre.voters@[i].dao, pre.voters@[i].title@, pre.voters@[i].user));
    }
    assert(unique_keys(vp_post)) by {
        assert forall|i: int, j: int|
            0 <= i < j < vp_post.len() implies (#[trigger] vp_post[i]).0 != (
        #[trigger] vp_post[j]).0 by {
            if j == vp_post.len() - 1 {
                assert(vp_post[i] == vp_pre[i]);
            }
        }
    }

    // the proposal view gains exactly the bumped tally
    let pview = ProposalView {
        description: pre.proposals@[pi].proposal.description@,
        votes_yes: pre.proposals@[pi].proposal.votes_yes as int + if choice {
            1int
        } else {
            0int
        },
        votes_no: pre.proposals@[pi].proposal.votes_no as int + if choice {
            0int
        } else {
            1int
        },
    };
    let pp_pre = proposal_pairs(pre.proposals@);
    let pp_post = proposal_pairs(post.proposals@);
    assert(pp_pre[pi].0 == (d, t));
    assert(pp_post =~= pp_pre.update(pi, ((d, t), pview)));
    lemma_map_of_update(pp_pre, pi, pview);
    lemma_map_of_index(pp_pre, pi);
    assert(unique_keys(pp_post)) by {
        assert forall|i: int, j: int|
            0 <= i < j < pp_post.len() implies (#[trigger] pp_post[i]).0 != (
        #[trigger] pp_post[j]).0 by {
            assert(pp_post[i].0 == pp_pre[i].0);
            assert(pp_post[j].0 == pp_pre[j].0);
        }
    }

    // the reward view gains exactly one point for (d, user)
    let rp_pre = reward_pairs(pre.rewards@);
    let rp_post = reward_pairs(post.rewards@);
    match rj {
        Some(j) => {
            assert(rp_pre[j].0 == (d, user));
            assert(rp_post =~= rp_pre.update(j, ((d, user), rp_pre[j].1 + 1)));
            lemma_map_of_update(rp_pre, j, rp_pre[j].1 + 1);
            lemma_map_of_index(rp_pre, j);
            assert(pre.reward_points(d, user) == pre.rewards@[j].account.reward_points as int);
            assert(unique_keys(rp_post)) by {
                assert forall|i2: int, j2: int|
                    0 <= i2 < j2 < rp_post.len() implies (#[trigger] rp_post[i2]).0 != (
                #[trigger] rp_post[j2]).0 by {
                    assert(rp_post[i2].0 == rp_pre[i2].0);
                    assert(rp_post[j2].0 == rp_pre[j2].0);
                }
            }
        },
        None => {
            assert(rp_post =~= rp_pre.push(((d, user), 1int)));
            lemma_map_of_push(rp_pre, (d, user), 1int);
            assert forall|i: int| 0 <= i < rp_pre.len() implies (#[trigger] rp_pre[i]).0 != (
                d,
                user,
            ) by {
                assert(rp_pre[i].0 == (pre.rewards@[i].dao, pre.rewards@[i].account.user));
            }
            lemma_map_of_contains(rp_pre, (d, user));
            assert(pre.reward_points(d, user) == 0);
            assert(unique_keys(rp_post)) by {
                assert forall|i2: int, j2: int|
                    0 <= i2 < j2 < rp_post.len() implies (#[trigger] rp_post[i2]).0 != (
                #[trigger] rp_post[j2]).0 by {
                    if j2 == rp_post.len() - 1 {
                        assert(rp_post[i2] == rp_pre[i2]);
                    }
                }
            }
        },
    }

    // every voter record is still a cast vote with a bounded title
    assert(voters_valid(post.voters@)) by {
        assert forall|i: int|
            0 <= i < post.voters@.len() implies (#[trigger] post.voters@[i]).voter.has_voted
            && byte_len(post.voters@[i].title@) <= MAX_TITLE_BYTES by {
            if i < pre.voters@.len() {
                assert(post.voters@[i] == pre.voters@[i]);
            } else {
                assert(byte_len(pre.proposals@[pi].proposal.title@) <= MAX_TITLE_BYTES);
            }
        }
    }

    // tallies still count the votes cast on each proposal
    assert(tallies_count_votes(post.proposals@, post.voters@)) by {
        assert forall|k: int|
            0 <= k < post.proposals@.len() implies byte_len(
            (#[trigger] post.proposals@[k]).proposal.title@,
        ) <= MAX_TITLE_BYTES && byte_len(post.proposals@[k].proposal.description@)
            <= MAX_DESCRIPTION_BYTES && post.proposals@[k].proposal.votes_yes as int
            + post.proposals@[k].proposal.votes_no as int == vote_count_on(
            vp_post,
            post.proposals@[k].dao,
            post.proposals@[k].proposal.title@,
        ) as int by {
            lemma_vote_count_on_push(
                vp_pre,
                (vkey, true),
                post.proposals@[k].dao,
                post.proposals@[k].proposal.title@,
            );
            if k != pi {
                assert(post.proposals@[k] == pre.proposals@[k]);
                assert(pp_pre[k].0 == (pre.proposals@[k].dao, pre.proposals@[k].proposal.title@));
                assert(pp_pre[k].0 != pp_pre[pi].0);
            }
        }
    }

    // reward points still count the votes cast by each user
    assert(rewards_count_votes(post.rewards@, post.voters@)) by {
        assert forall|k: int|
            0 <= k < post.rewards@.len() implies (#[trigger] post.rewards@[k]).account.reward_points
            as int == vote_count_by(vp_post, post.rewards@[k].dao, post.rewards@[k].account.user)
            as int by {
            lemma_vote_count_by_push(
                vp_pre,
                (vkey, true),
                post.rewards@[k].dao,
                post.rewards@[k].account.user,
            );
            match rj {
                Some(j) => {
                    if k != j {
                        assert(post.rewards@[k] == pre.rewards@[k]);
                        assert(rp_pre[k].0 == (pre.rewards@[k].dao, pre.rewards@[k].account.user));
                        assert(rp_pre[k].0 != rp_pre[j].0);
                    }
                },
                None => {
                    if k < pre.rewards@.len() {
                        assert(post.rewards@[k] == pre.rewards@[k]);
                    } else {
                        // no reward account existed, so the user had cast no vote under d
                        assert forall|i: int|
                            0 <= i < vp_pre.len() implies !((#[trigger] vp_pre[i]).0.0 == d
                                && vp_pre[i].0.2 == user && vp_pre[i].1) by {
                            if pre.voters@[i].dao == d && pre.voters@[i].user == user {
                                assert(has_reward_for(pre.rewards@, d, user));
                                let j2 = choose|j2: int|
                                    0 <= j2 < pre.rewards@.len() && (#[trigger] pre.rewards@[
                                    j2
                                ]).dao == d && pre.rewards@[j2].account.user == user;
                                assert(false);
                            }
                        }
                        lemma_vote_count_by_no_match(vp_pre, d, user);
                    }
                },
            }
        }
    }

    // every cast vote still has a reward account
    assert(rewards_present(post.voters@, post.rewards@)) by {
        assert forall|i: int|
            0 <= i < post.voters@.len() implies has_reward_for(
            post.rewards@,
            (#[trigger] post.voters@[i]).dao,
            post.voters@[i].user,
        ) by {
            if i < pre.voters@.len() {
                let v2 = pre.voters@[i];
                let j2 = choose|j2: int|
                    0 <= j2 < pre.rewards@.len() && (#[trigger] pre.rewards@[j2]).dao == v2.dao
                        && pre.rewards@[j2].account.user == v2.user;
                match rj {
                    Some(j) => {
                        if j2 != j {
                            assert(post.rewards@[j2] == pre.rewards@[j2]);
                        }
                    },
                    None => {
                        assert(post.rewards@[j2] == pre.rewards@[j2]);
                    },
                }
            } else {
                match rj {
                    Some(j) => {
                        assert(post.rewards@[j].dao == d && post.rewards@[j].account.user == user);
                    },
                    None => {
                        let j3 = post.rewards@.len() - 1;
                        assert(post.rewards@[j3].dao == d && post.rewards@[j3].account.user
                            == user);
                    },
                }
            }
        }
    }

    // every voter record still names an existing proposal
    assert(voters_reference_proposals(post.voters@, post.proposals@)) by {
        assert forall|i: int|
            0 <= i < post.voters@.len() implies references_proposal(
            post.proposals@,
            (#[trigger] post.voters@[i]).dao,
            post.voters@[i].title@,
        ) by {
            if i < pre.voters@.len() {
                let v2 = pre.voters@[i];
                let j2 = choose|j2: int|
                    0 <= j2 < pre.proposals@.len() && (#[trigger] pre.proposals@[j2]).dao == v2.dao
                        && pre.proposals@[j2].proposal.title@ == v2.title@;
                if j2 != pi {
                    assert(post.proposals@[j2] == pre.proposals@[j2]);
                } else {
                    assert(post.proposals@[pi].dao == v2.dao);
                    assert(post.proposals@[pi].proposal.title@ == v2.title@);
                }
            } else {
                assert(post.proposals@[pi].dao == d && post.proposals@[pi].proposal.title@ == t);
            }
        }
    }
}

/// The index of the DAO record at `addr`, if one exists.
fn find_dao(daos: &Vec<DaoRecord>, addr: u64) -> (r: Option<usize>)
    ensures
        match r {
            Some(i) => i < daos@.len() && daos@[i as int].addr == addr,
            None => forall|j: int| 0 <= j < daos@.len() ==> (#[trigger] daos@[j]).addr != addr,
        },
{
    let n = daos.len();
    let mut i: usize = 0;
    while i < n
        invariant
            n == daos@.len(),
            i <= n,
            forall|j: int| 0 <= j < i ==> (#[trigger] daos@[j]).addr != addr,
        decreases n - i,
    {
        if daos[i].addr == addr {
            return Some(i);
        }
        i = i + 1;
    }
    None
}

/// The index of the proposal record keyed (`dao`, `title`), if one exists.
fn find_proposal(proposals: &Vec<ProposalRecord>, dao: u64, title: &String) -> (r: Option<usize>)
    ensures
        match r {
            Some(i) => i < proposals@.len() && proposals@[i as int].dao == dao && proposals@[
                i as int
            ].proposal.title@ == title@,
            None => forall|j: int|
                0 <= j < proposals@.len() ==> !((#[trigger] proposals@[j]).dao == dao
                    && proposals@[j].proposal.title@ == title@),
        },
{
    let n = proposals.len();
    let mut i: usize = 0;
    while i < n
        invariant
            n == proposals@.len(),
            i <= n,
            forall|j: int|
                0 <= j < i ==> !((#[trigger] proposals@[j]).dao == dao
                    && proposals@[j].proposal.title@ == title@),
        decreases n - i,
    {
        if proposals[i].dao == dao && proposals[i].proposal.title == *title {
            return Some(i);
        }
        i = i + 1;
    }
    None
}

/// The index of the voter record keyed (`dao`, `title`, `user`), if one
/// exists.
fn find_voter(voters: &Vec<VoterRecord>, dao: u64, title: &String, user: u64) -> (r: Option<usize>)
    ensures
        match r {
            Some(i) => i < voters@.len() && voters@[i as int].dao == dao && voters@[
                i as int
            ].title@ == title@ && voters@[i as int].user == user,
            None => forall|j: int|
                0 <= j < voters@.len() ==> !((#[trigger] voters@[j]).dao == dao
                    && voters@[j].title@ == title@ && voters@[j].user == user),
        },
{
    let n = voters.len();
    let mut i: usize = 0;
    while i < n
        invariant
            n == voters@.len(),
            i <= n,
            forall|j: int|
                0 <= j < i ==> !((#[trigger] voters@[j]).dao == dao && voters@[j].title@ == title@
                    && voters@[j].user == user),
        decreases n - i,
    {
        if voters[i].dao == dao && voters[i].user == user && voters[i].title == *title {
            return Some(i);
        }
        i = i + 1;
    }
    None
}

/// The index of the reward record keyed (`dao`, `user`), if one exists.
fn find_reward(rewards: &Vec<RewardRecord>, dao: u64, user: u64) -> (r: Option<usize>)
    ensures
        match r {
            Some(i) => i < rewards@.len() && rewards@[i as int].dao == dao && rewards@[
                i as int
            ].account.user == user,
            None => forall|j: int|
                0 <= j < rewards@.len() ==> !((#[trigger] rewards@[j]).dao == dao && rewards@[
                    j
                ].account.user == user),
        },
{
    let n = rewards.len();
    let mut i: usize = 0;
    while i < n
        invariant
            n == rewards@.len(),
            i <= n,
            forall|j: int|
                0 <= j < i ==> !((#[trigger] rewards@[j]).dao == dao && rewards@[j].account.user
                    == user),
        decreases n - i,
    {
        if rewards[i].dao == dao && rewards[i].account.user == user {
            return Some(i);
        }
        i = i + 1;
    }
    None
}

/// Law: `initialize` succeeds at most once per address. Once a DAO
/// stands at `addr` — whatever record a successful `initialize` put
/// there — no further `initialize` at `addr` is allowed, whatever name
/// it brings, so by the contract of `initialize` it fails with
/// `AllocationError` and changes nothing.
pub proof fn lemma_initialize_at_most_once(
    pre: GovernanceLedger,
    post: GovernanceLedger,
    addr: u64,
    created: DaoView,
    name: Seq<char>,
)
    requires
        post.daos() == pre.daos().insert(addr, created),
    ensures
        !post.initialize_allowed(addr, name),
{
}

/// Law: `create_proposal` succeeds at most once per (DAO, title). Once a
/// proposal stands under that key, no further creation there is allowed,
/// whatever description it brings, so by the contract of
/// `create_proposal` it fails with `AllocationError` and changes nothing.
pub proof fn lemma_create_proposal_at_most_once(
    pre: GovernanceLedger,
    post: GovernanceLedger,
    dao: u64,
    title: Seq<char>,
    created: ProposalView,
    description: Seq<char>,
)
    requires
        post.proposals() == pre.proposals().insert((dao, title), created),
    ensures
        !post.create_allowed(dao, title, description),
{
}

/// Law: at most one successful `vote` per (proposal, user). Once the
/// vote of `user` on (`dao`, `title`) is recorded, voting again is not
/// allowed, so by the contract of `vote` it fails with `VotedTwice` and
/// changes nothing.
pub proof fn lemma_vote_at_most_once(
    pre: GovernanceLedger,
    post: GovernanceLedger,
    dao: u64,
    title: Seq<char>,
    user: u64,
)
    requires
        post.voted() == pre.voted().insert((dao, title, user), true),
    ensures
        !post.vote_allowed(dao, title, user),
{
}

/// Law: conservation of tallies. On every well-formed ledger, a
/// proposal's yes and no tallies sum to the number of distinct users who
/// voted successfully on it.
pub proof fn lemma_vote_conservation(l: GovernanceLedger, dao: u64, title: Seq<char>)
    requires
        l.wf(),
        l.proposal_exists(dao, title),
    ensures
        l.voters_of(dao, title).finite(),
        l.votes_yes(dao, title) + l.votes_no(dao, title) == l.voters_of(dao, title).len(),
{
    let vp = voter_pairs(l.voters@);
    // the proposal's stored tallies are the view's tallies
    lemma_map_of_contains(proposal_pairs(l.proposals@), (dao, title));
    let pi = choose|i: int|
        0 <= i < proposal_pairs(l.proposals@).len() && (#[trigger] proposal_pairs(
            l.proposals@,
        )[i]).0 == (dao, title);
    lemma_map_of_index(proposal_pairs(l.proposals@), pi);
    assert(l.proposals@[pi].dao == dao && l.proposals@[pi].proposal.title@ == title);
    // the set of users who voted is the recursive vote set
    assert forall|u: u64|
        l.voters_of(dao, title).contains(u) == users_voted_on(vp, dao, title).contains(u) by {
        lemma_users_voted_on_contains(vp, dao, title, u);
        lemma_map_of_contains(vp, (dao, title, u));
        if l.voted().contains_key((dao, title, u)) && l.voted()[(dao, title, u)] {
            let i = choose|i: int|
                0 <= i < vp.len() && (#[trigger] vp[i]).0 == (dao, title, u);
            lemma_map_of_index(vp, i);
        }
        if users_voted_on(vp, dao, title).contains(u) {
            let i = choose|i: int|
                0 <= i < vp.len() && (#[trigger] vp[i]).0 == (dao, title, u) && vp[i].1;
            lemma_map_of_index(vp, i);
        }
    }
    assert(l.voters_of(dao, title) =~= users_voted_on(vp, dao, title));
    lemma_users_voted_on_len(vp, dao, title);
}

} // verus!
