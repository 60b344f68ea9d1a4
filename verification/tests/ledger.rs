use voting::ledger::GovernanceLedger;
use voting::records::CreateProposal;
use voting::records::Initialize;
use voting::records::Vote;
use voting::records::VotingError;

const ALICE: u64 = 100;
const BOB: u64 = 101;
const DAO: u64 = 7;

fn acme_with_proposal() -> GovernanceLedger {
    let mut l = GovernanceLedger::new();
    let r = l.initialize(
        Initialize { payer: ALICE, dao_account: DAO },
        String::from("Acme"),
    );
    assert_eq!(r, Ok(()));
    let r = l.create_proposal(
        CreateProposal { payer: ALICE, dao_account: DAO },
        String::from("Q1"),
        String::from("desc"),
    );
    assert_eq!(r, Ok(()));
    l
}

#[test]
fn initialize_creates_dao() {
    let mut l = GovernanceLedger::new();
    let r = l.initialize(
        Initialize { payer: ALICE, dao_account: DAO },
        String::from("Acme"),
    );
    assert_eq!(r, Ok(()));
    let dao = l.get_dao(DAO).expect("the DAO exists after initialize");
    assert_eq!(dao.name.as_str(), "Acme");
    assert_eq!(dao.owner, ALICE);
}

#[test]
fn initialize_twice_at_same_address_fails() {
    let mut l = GovernanceLedger::new();
    let r = l.initialize(
        Initialize { payer: ALICE, dao_account: DAO },
        String::from("Acme"),
    );
    assert_eq!(r, Ok(()));
    let r = l.initialize(
        Initialize { payer: BOB, dao_account: DAO },
        String::from("Other"),
    );
    assert_eq!(r, Err(VotingError::AllocationError));
    // the DAO is unchanged
    let dao = l.get_dao(DAO).unwrap();
    assert_eq!(dao.name.as_str(), "Acme");
    assert_eq!(dao.owner, ALICE);
}

#[test]
fn initialize_at_distinct_addresses_succeeds() {
    let mut l = GovernanceLedger::new();
    assert_eq!(
        l.initialize(Initialize { payer: ALICE, dao_account: 1 }, String::from("First")),
        Ok(())
    );
    assert_eq!(
        l.initialize(Initialize { payer: BOB, dao_account: 2 }, String::from("Second")),
        Ok(())
    );
    assert_eq!(l.get_dao(1).unwrap().owner, ALICE);
    assert_eq!(l.get_dao(2).unwrap().owner, BOB);
}

#[test]
fn initialize_rejects_oversized_name() {
    let mut l = GovernanceLedger::new();
    // 21 bytes, one over the bound of 20
    let name = "A".repeat(21);
    let r = l.initialize(Initialize { payer: ALICE, dao_account: DAO }, name);
    assert_eq!(r, Err(VotingError::AllocationError));
    assert!(l.get_dao(DAO).is_none());
    // exactly 20 bytes is accepted
    let name = "A".repeat(20);
    let r = l.initialize(Initialize { payer: ALICE, dao_account: DAO }, name);
    assert_eq!(r, Ok(()));
}

#[test]
fn create_proposal_starts_at_zero() {
    let l = acme_with_proposal();
    let title = String::from("Q1");
    let p = l.get_proposal(DAO, &title).expect("the proposal exists");
    assert_eq!(p.title.as_str(), "Q1");
    assert_eq!(p.description.as_str(), "desc");
    assert_eq!(p.votes_yes, 0);
    assert_eq!(p.votes_no, 0);
}

#[test]
fn create_proposal_duplicate_title_fails() {
    let mut l = acme_with_proposal();
    let r = l.create_proposal(
        CreateProposal { payer: BOB, dao_account: DAO },
        String::from("Q1"),
        String::from("another description"),
    );
    assert_eq!(r, Err(VotingError::AllocationError));
    // the stored proposal is unchanged
    let title = String::from("Q1");
    let p = l.get_proposal(DAO, &title).unwrap();
    assert_eq!(p.description.as_str(), "desc");
}

#[test]
fn create_proposal_same_title_under_other_dao_succeeds() {
    let mut l = acme_with_proposal();
    assert_eq!(
        l.initialize(Initialize { payer: BOB, dao_account: 8 }, String::from("Besides")),
        Ok(())
    );
    let r = l.create_proposal(
        CreateProposal { payer: BOB, dao_account: 8 },
        String::from("Q1"),
        String::from("elsewhere"),
    );
    assert_eq!(r, Ok(()));
    let title = String::from("Q1");
    assert_eq!(l.get_proposal(8, &title).unwrap().description.as_str(), "elsewhere");
    assert_eq!(l.get_proposal(DAO, &title).unwrap().description.as_str(), "desc");
}

#[test]
fn create_proposal_rejects_oversized_strings() {
    let mut l = acme_with_proposal();
    let r = l.create_proposal(
        CreateProposal { payer: ALICE, dao_account: DAO },
        "T".repeat(51),
        String::from("ok"),
    );
    assert_eq!(r, Err(VotingError::AllocationError));
    let r = l.create_proposal(
        CreateProposal { payer: ALICE, dao_account: DAO },
        String::from("Q2"),
        "D".repeat(201),
    );
    assert_eq!(r, Err(VotingError::AllocationError));
    let title = String::from("Q2");
    assert!(l.get_proposal(DAO, &title).is_none());
}

#[test]
fn vote_counts_and_rewards() {
    let mut l = acme_with_proposal();
    let r = l.vote(Vote { user: ALICE, dao_account: DAO }, String::from("Q1"), true);
    assert_eq!(r, Ok(()));
    let title = String::from("Q1");
    let p = l.get_proposal(DAO, &title).unwrap();
    assert_eq!(p.votes_yes, 1);
    assert_eq!(p.votes_no, 0);
    assert!(l.get_voter(DAO, &title, ALICE).unwrap().has_voted);
    assert_eq!(l.get_reward_account(DAO, ALICE).unwrap().reward_points, 1);
    assert_eq!(l.get_reward_account(DAO, ALICE).unwrap().user, ALICE);
}

#[test]
fn vote_twice_fails_and_changes_nothing() {
    let mut l = acme_with_proposal();
    assert_eq!(
        l.vote(Vote { user: ALICE, dao_account: DAO }, String::from("Q1"), true),
        Ok(())
    );
    // the same user again, with either choice
    let r = l.vote(Vote { user: ALICE, dao_account: DAO }, String::from("Q1"), false);
    assert_eq!(r, Err(VotingError::VotedTwice));
    let title = String::from("Q1");
    let p = l.get_proposal(DAO, &title).unwrap();
    assert_eq!(p.votes_yes, 1);
    assert_eq!(p.votes_no, 0);
    assert!(l.get_voter(DAO, &title, ALICE).unwrap().has_voted);
    assert_eq!(l.get_reward_account(DAO, ALICE).unwrap().reward_points, 1);
}

#[test]
fn distinct_users_vote_independently() {
    let mut l = acme_with_proposal();
    assert_eq!(
        l.vote(Vote { user: ALICE, dao_account: DAO }, String::from("Q1"), true),
        Ok(())
    );
    assert_eq!(
        l.vote(Vote { user: BOB, dao_account: DAO }, String::from("Q1"), false),
        Ok(())
    );
    let title = String::from("Q1");
    let p = l.get_proposal(DAO, &title).unwrap();
    // conservation: 1 + 1 tallies for 2 distinct voters
    assert_eq!(p.votes_yes, 1);
    assert_eq!(p.votes_no, 1);
    assert_eq!(l.get_reward_account(DAO, ALICE).unwrap().reward_points, 1);
    assert_eq!(l.get_reward_account(DAO, BOB).unwrap().reward_points, 1);
}

#[test]
fn rewards_accumulate_across_proposals() {
    let mut l = acme_with_proposal();
    assert_eq!(
        l.create_proposal(
            CreateProposal { payer: ALICE, dao_account: DAO },
            String::from("Q2"),
            String::from("second"),
        ),
        Ok(())
    );
    assert_eq!(
        l.vote(Vote { user: ALICE, dao_account: DAO }, String::from("Q1"), true),
        Ok(())
    );
    assert_eq!(
        l.vote(Vote { user: ALICE, dao_account: DAO }, String::from("Q2"), false),
        Ok(())
    );
    // one point per successful vote across the DAO's proposals
    assert_eq!(l.get_reward_account(DAO, ALICE).unwrap().reward_points, 2);
}

#[test]
fn voter_record_is_per_proposal() {
    let mut l = acme_with_proposal();
    assert_eq!(
        l.create_proposal(
            CreateProposal { payer: ALICE, dao_account: DAO },
            String::from("Q2"),
            String::from("second"),
        ),
        Ok(())
    );
    assert_eq!(
        l.vote(Vote { user: ALICE, dao_account: DAO }, String::from("Q1"), true),
        Ok(())
    );
    let q1 = String::from("Q1");
    let q2 = String::from("Q2");
    assert!(l.get_voter(DAO, &q1, ALICE).is_some());
    assert!(l.get_voter(DAO, &q2, ALICE).is_none());
}

#[test]
fn scenario_acme_q1() {
    // initialize DAO "Acme", create proposal "Q1"/"desc", vote yes by
    // user A, vote yes by A again (fails), vote no by user B
    let mut l = GovernanceLedger::new();
    assert_eq!(
        l.initialize(Initialize { payer: ALICE, dao_account: DAO }, String::from("Acme")),
        Ok(())
    );
    assert_eq!(
        l.create_proposal(
            CreateProposal { payer: ALICE, dao_account: DAO },
            String::from("Q1"),
            String::from("desc"),
        ),
        Ok(())
    );
    assert_eq!(
        l.vote(Vote { user: ALICE, dao_account: DAO }, String::from("Q1"), true),
        Ok(())
    );
    let title = String::from("Q1");
    let p = l.get_proposal(DAO, &title).unwrap();
    assert_eq!((p.votes_yes, p.votes_no), (1, 0));
    assert_eq!(l.get_reward_account(DAO, ALICE).unwrap().reward_points, 1);

    assert_eq!(
        l.vote(Vote { user: ALICE, dao_account: DAO }, String::from("Q1"), true),
        Err(VotingError::VotedTwice)
    );
    let p = l.get_proposal(DAO, &title).unwrap();
    assert_eq!((p.votes_yes, p.votes_no), (1, 0));
    assert_eq!(l.get_reward_account(DAO, ALICE).unwrap().reward_points, 1);

    assert_eq!(
        l.vote(Vote { user: BOB, dao_account: DAO }, String::from("Q1"), false),
        Ok(())
    );
    let p = l.get_proposal(DAO, &title).unwrap();
    assert_eq!((p.votes_yes, p.votes_no), (1, 1));
    assert_eq!(l.get_reward_account(DAO, BOB).unwrap().reward_points, 1);
}

#[test]
fn error_messages() {
    assert_eq!(VotingError::VotedTwice.message(), "The user has already voted");
    assert_eq!(VotingError::AllocationError.message(), "Allocation failed");
}

#[test]
fn absent_records_read_as_absent() {
    let l = GovernanceLedger::new();
    let title = String::from("Q1");
    assert!(l.get_dao(DAO).is_none());
    assert!(l.get_proposal(DAO, &title).is_none());
    assert!(l.get_voter(DAO, &title, ALICE).is_none());
    assert!(l.get_reward_account(DAO, ALICE).is_none());
}
