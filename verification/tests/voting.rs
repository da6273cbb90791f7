use union_governance::access_config::{AccessConfig, AlloweeConstraint};
use union_governance::choice::{Choice, ChoiceRepository};
use union_governance::types::GroupOrProfile;
use union_governance::voting::{Voting, VotingRepository, VotingStatus};
use union_governance::voting_config::{
    Fraction, LenInterval, RoundSettings, ThresholdValue, VotingConfig, VotingConfigRepository,
};
use union_governance::voting_service::{
    evaluate_round, RoundDecision, Vote, VoteType, Voter, VotingError, VotingService,
};

fn any_threshold() -> ThresholdValue {
    ThresholdValue::QuantityOf(0)
}

fn plain_config() -> VotingConfig {
    VotingConfig::new(
        String::from("Config"),
        String::from(""),
        Some(LenInterval { from: 1, to: 10 }),
        Some(LenInterval { from: 1, to: 5 }),
        vec![1],
        RoundSettings {
            round_duration: 100,
            round_delay: 10,
        },
        any_threshold(),
        any_threshold(),
        any_threshold(),
        any_threshold(),
        any_threshold(),
    )
    .expect("the plain configuration is valid")
}

struct World {
    configs: VotingConfigRepository,
    access: Vec<AccessConfig>,
    votings: VotingRepository,
    choices: ChoiceRepository,
    config_id: u64,
}

fn world() -> World {
    let mut configs = VotingConfigRepository::new();
    let config_id = configs.save(plain_config());
    // One access configuration admits every caller to the permission the
    // plain voting configuration binds.
    let operators = AccessConfig::new(
        String::from("Everyone"),
        String::from(""),
        vec![1],
        vec![AlloweeConstraint::Everyone],
    )
    .unwrap();
    World {
        configs,
        access: vec![operators],
        votings: VotingRepository::new(),
        choices: ChoiceRepository::new(),
        config_id,
    }
}

fn create_voting(w: &mut World) -> u64 {
    VotingService::create_voting(
        &w.configs,
        &w.access,
        &mut w.votings,
        &mut w.choices,
        w.config_id,
        String::from("A voting"),
        String::from("About something"),
        1,
        77,
        &vec![],
        1000,
    )
    .expect("creation should succeed")
}

/// Drives a freshly created voting into its first round and registers one
/// custom choice; returns (voting id, custom choice id).
fn voting_in_round(w: &mut World) -> (u64, u64) {
    let id = create_voting(w);
    let choice = Choice::new(
        String::from("Choice C"),
        String::from(""),
        union_governance::types::Program::Empty,
        id,
    )
    .unwrap();
    let cid = w.choices.save(choice);
    let mut v = w.votings.delete(&id).unwrap();
    v.add_custom_choice(cid);
    v.approve(1001).unwrap();
    v.start_round(1002).unwrap();
    w.votings.save(v);
    (id, cid)
}

#[test]
fn created_voting_has_builtin_choices() {
    let mut w = world();
    let id = create_voting(&mut w);
    let v = VotingService::get_voting(&w.votings, &id).unwrap();
    assert!(matches!(v.get_status(), VotingStatus::Created));
    let rc = v.get_rejection_choice().unwrap();
    let ac = v.get_approval_choice().unwrap();
    assert_eq!(w.choices.get(&rc).unwrap().get_voting_id(), &id);
    assert_eq!(w.choices.get(&ac).unwrap().get_voting_id(), &id);
}

#[test]
fn transitions_follow_the_table() {
    let mut v = Voting::new(0, String::from("V"), String::from(""), 1, 1, 5).unwrap();

    // A created voting cannot start a round or finish.
    assert!(v.start_round(6).is_err());
    assert!(matches!(v.get_status(), VotingStatus::Created));
    assert!(v.finish_success(6).is_err());
    assert!(matches!(v.get_status(), VotingStatus::Created));
    assert!(v.next_round(6).is_err());
    assert!(matches!(v.get_status(), VotingStatus::Created));

    // Created -> PreRound(1).
    v.approve(7).unwrap();
    assert!(matches!(v.get_status(), VotingStatus::PreRound(1)));
    // Approving twice is refused.
    assert!(v.approve(8).is_err());
    assert!(matches!(v.get_status(), VotingStatus::PreRound(1)));
    // A pre-round voting cannot be rejected.
    assert!(v.reject(8).is_err());

    // PreRound(1) -> Round(1).
    v.start_round(9).unwrap();
    assert!(matches!(v.get_status(), VotingStatus::Round(1)));

    // Round(1) -> PreRound(2) -> Round(2).
    v.next_round(10).unwrap();
    assert!(matches!(v.get_status(), VotingStatus::PreRound(2)));
    v.start_round(11).unwrap();
    assert!(matches!(v.get_status(), VotingStatus::Round(2)));

    // Round(2) -> Success; afterwards everything is refused.
    v.finish_success(12).unwrap();
    assert!(matches!(v.get_status(), VotingStatus::Success));
    assert!(v.approve(13).is_err());
    assert!(v.reject(13).is_err());
    assert!(v.start_round(13).is_err());
    assert!(v.next_round(13).is_err());
    assert!(v.finish_success(13).is_err());
    assert!(v.finish_fail(String::from("r"), 13).is_err());
    assert!(matches!(v.get_status(), VotingStatus::Success));
}

#[test]
fn reject_and_fail_transitions() {
    let mut v = Voting::new(0, String::from("V"), String::from(""), 1, 1, 5).unwrap();
    // Created -> Rejected.
    v.reject(6).unwrap();
    assert!(matches!(v.get_status(), VotingStatus::Rejected));

    let mut v2 = Voting::new(0, String::from("W"), String::from(""), 1, 1, 5).unwrap();
    v2.approve(6).unwrap();
    v2.start_round(7).unwrap();
    v2.finish_fail(String::from("no quorum"), 8).unwrap();
    match v2.get_status() {
        VotingStatus::Fail(m) => assert_eq!(m, "no quorum"),
        _ => panic!("expected a failed voting"),
    }
}

#[test]
fn only_created_votings_can_be_updated() {
    let mut w = world();
    let (id, _cid) = voting_in_round(&mut w);
    let r = VotingService::update_voting(
        &w.configs,
        &w.access,
        &mut w.votings,
        &id,
        Some(String::from("New name")),
        None,
        None,
        77,
        &vec![],
        2000,
    );
    assert!(matches!(r, Err(VotingError::InvalidStateTransition(v)) if v == id));
}

#[test]
fn cast_vote_is_last_write_wins() {
    let mut w = world();
    let (id, cid) = voting_in_round(&mut w);

    // A profile voter casts 30 shares on the custom choice.
    let vote1 = Vote {
        voter: Voter::Profile(5),
        vote_type: VoteType::Custom(vec![(cid, 30)]),
    };
    VotingService::cast_vote(&mut w.votings, &mut w.choices, &id, &vote1, 100, 2001).unwrap();
    let scope = GroupOrProfile::Profile(5);
    assert_eq!(w.choices.get(&cid).unwrap().get_shares_of_voter(scope, 5), 30);
    assert_eq!(w.choices.get(&cid).unwrap().get_voted_shares_sum(scope), 30);

    // A second voter in the same scope kind adds 12 shares.
    let vote2 = Vote {
        voter: Voter::Profile(6),
        vote_type: VoteType::Custom(vec![(cid, 12)]),
    };
    VotingService::cast_vote(&mut w.votings, &mut w.choices, &id, &vote2, 100, 2002).unwrap();

    // The first voter re-votes with 7 shares: exactly the second ballot's
    // amount remains for that voter.
    let vote3 = Vote {
        voter: Voter::Profile(5),
        vote_type: VoteType::Custom(vec![(cid, 7)]),
    };
    VotingService::cast_vote(&mut w.votings, &mut w.choices, &id, &vote3, 100, 2003).unwrap();

    let c = w.choices.get(&cid).unwrap();
    assert_eq!(c.get_shares_of_voter(GroupOrProfile::Profile(5), 5), 7);
    assert_eq!(c.get_shares_of_voter(GroupOrProfile::Profile(6), 6), 12);
    // The scope-level sum equals the sum of the current per-voter amounts.
    assert_eq!(c.get_voted_shares_sum(GroupOrProfile::Profile(5)), 7);
    assert_eq!(c.get_voted_shares_sum(GroupOrProfile::Profile(6)), 12);
}

#[test]
fn rejection_vote_replaces_custom_vote() {
    let mut w = world();
    let (id, cid) = voting_in_round(&mut w);
    let scope = GroupOrProfile::Profile(5);

    let vote1 = Vote {
        voter: Voter::Profile(5),
        vote_type: VoteType::Custom(vec![(cid, 30)]),
    };
    VotingService::cast_vote(&mut w.votings, &mut w.choices, &id, &vote1, 100, 2001).unwrap();

    let vote2 = Vote {
        voter: Voter::Profile(5),
        vote_type: VoteType::Rejection(9),
    };
    VotingService::cast_vote(&mut w.votings, &mut w.choices, &id, &vote2, 100, 2002).unwrap();

    // The custom amount is fully cleared; the rejection choice holds 9.
    assert_eq!(w.choices.get(&cid).unwrap().get_shares_of_voter(scope, 5), 0);
    assert_eq!(w.choices.get(&cid).unwrap().get_voted_shares_sum(scope), 0);
    let v = VotingService::get_voting(&w.votings, &id).unwrap();
    let rc = v.get_rejection_choice().unwrap();
    assert_eq!(w.choices.get(&rc).unwrap().get_shares_of_voter(scope, 5), 9);
    assert_eq!(w.choices.get(&rc).unwrap().get_voted_shares_sum(scope), 9);
}

#[test]
fn group_supply_snapshot_must_stay_equal() {
    // Scenario: two casts by the same group identity with total supply 100
    // and then 100 again are accepted; a third with 90 is rejected as a
    // data-integrity fault.
    let mut w = world();
    let (id, cid) = voting_in_round(&mut w);
    let vote = Vote {
        voter: Voter::Group(3, 50),
        vote_type: VoteType::Custom(vec![(cid, 10)]),
    };
    VotingService::cast_vote(&mut w.votings, &mut w.choices, &id, &vote, 100, 2001).unwrap();
    VotingService::cast_vote(&mut w.votings, &mut w.choices, &id, &vote, 100, 2002).unwrap();
    let r = VotingService::cast_vote(&mut w.votings, &mut w.choices, &id, &vote, 90, 2003);
    assert!(matches!(r, Err(VotingError::DataIntegrityFault)));
    // The earlier snapshot and tallies are untouched.
    let v = VotingService::get_voting(&w.votings, &id).unwrap();
    assert_eq!(v.get_total_supply(GroupOrProfile::Group(3)), Some(100));
    assert_eq!(
        w.choices
            .get(&cid)
            .unwrap()
            .get_shares_of_voter(GroupOrProfile::Group(3), 50),
        10
    );
}

#[test]
fn unknown_choice_in_ballot_is_refused() {
    let mut w = world();
    let (id, cid) = voting_in_round(&mut w);
    let vote = Vote {
        voter: Voter::Profile(5),
        vote_type: VoteType::Custom(vec![(cid + 100, 10)]),
    };
    let r = VotingService::cast_vote(&mut w.votings, &mut w.choices, &id, &vote, 100, 2001);
    assert!(matches!(r, Err(VotingError::ChoiceNotFound(c)) if c == cid + 100));
}

#[test]
fn voting_outside_a_round_rejects_ballots() {
    let mut w = world();
    let id = create_voting(&mut w);
    let vote = Vote {
        voter: Voter::Profile(5),
        vote_type: VoteType::Rejection(1),
    };
    let r = VotingService::cast_vote(&mut w.votings, &mut w.choices, &id, &vote, 100, 2001);
    assert!(matches!(r, Err(VotingError::InvalidStateTransition(v)) if v == id));
}

#[test]
fn quorum_not_met_leads_to_next_round_not_success() {
    // Scenario: quorum = 50%, win = 60%, total supply 100 shares. The round
    // gathers 40 shares for a choice and 10 for rejection: the quorum of 50
    // is not met, so the voting moves to PreRound(2) instead of Success.
    let vc = VotingConfig::new(
        String::from("Strict"),
        String::from(""),
        None,
        None,
        vec![],
        RoundSettings {
            round_duration: 100,
            round_delay: 10,
        },
        ThresholdValue::QuantityOf(0),
        ThresholdValue::FractionOf(Fraction {
            numerator: 1,
            denominator: 2,
        }),
        ThresholdValue::QuantityOf(u64::MAX),
        ThresholdValue::FractionOf(Fraction {
            numerator: 3,
            denominator: 5,
        }),
        ThresholdValue::QuantityOf(0),
    )
    .unwrap();

    let decision = evaluate_round(&vc, 100, 50, 10, 40);
    assert_eq!(decision, RoundDecision::NextRound);

    let mut v = Voting::new(0, String::from("V"), String::from(""), 1, 1, 5).unwrap();
    v.approve(6).unwrap();
    v.start_round(7).unwrap();
    match decision {
        RoundDecision::NextRound => {
            v.next_round(8).unwrap();
        }
        RoundDecision::FinishSuccess => {
            v.finish_success(8).unwrap();
        }
        RoundDecision::FinishFail => {
            v.finish_fail(String::from("failed"), 8).unwrap();
        }
        RoundDecision::KeepOpen => {}
    }
    assert!(matches!(v.get_status(), VotingStatus::PreRound(2)));
    assert!(!matches!(v.get_status(), VotingStatus::Success));
}

#[test]
fn threshold_evaluation_is_exact() {
    let half = ThresholdValue::FractionOf(Fraction {
        numerator: 1,
        denominator: 2,
    });
    // A fraction threshold must be strictly exceeded.
    assert!(!half.evaluate(50, 100));
    assert!(half.evaluate(51, 100));
    assert!(!half.evaluate(0, 0));

    let quantity = ThresholdValue::QuantityOf(30);
    assert!(quantity.evaluate(30, 100));
    assert!(!quantity.evaluate(29, 100));
}

#[test]
fn delete_voting_removes_all_its_choices() {
    let mut w = world();
    let (id, cid) = voting_in_round(&mut w);
    let (rc, ac) = {
        let v = VotingService::get_voting(&w.votings, &id).unwrap();
        (
            v.get_rejection_choice().unwrap(),
            v.get_approval_choice().unwrap(),
        )
    };
    VotingService::delete_voting(
        &w.configs,
        &w.access,
        &mut w.votings,
        &mut w.choices,
        &id,
        77,
        &vec![],
    )
    .unwrap();
    assert!(VotingService::get_voting(&w.votings, &id).is_err());
    assert!(w.choices.get(&rc).is_none());
    assert!(w.choices.get(&ac).is_none());
    assert!(w.choices.get(&cid).is_none());
}

#[test]
fn only_the_proposer_may_edit_or_delete() {
    let mut w = world();
    let id = create_voting(&mut w);
    // Without an admitting access configuration, only the proposer passes.
    let no_access: Vec<AccessConfig> = vec![];
    let r = VotingService::update_voting(
        &w.configs,
        &no_access,
        &mut w.votings,
        &id,
        Some(String::from("X")),
        None,
        None,
        99,
        &vec![],
        2000,
    );
    assert!(matches!(r, Err(VotingError::EditorNotFoundInVotingConfig(p)) if p == 99));
    let r = VotingService::delete_voting(
        &w.configs,
        &no_access,
        &mut w.votings,
        &mut w.choices,
        &id,
        99,
        &vec![],
    );
    assert!(matches!(r, Err(VotingError::EditorNotFoundInVotingConfig(p)) if p == 99));
}

#[test]
fn winners_need_must_fit_the_configured_interval() {
    let mut w = world();
    let r = VotingService::create_voting(
        &w.configs,
        &w.access,
        &mut w.votings,
        &mut w.choices,
        w.config_id,
        String::from("A voting"),
        String::from(""),
        6,
        77,
        &vec![],
        1000,
    );
    assert!(matches!(r, Err(VotingError::WinnersNeedOutOfBounds(6))));
}

#[test]
fn missing_config_and_bad_name_are_reported() {
    let mut w = world();
    let r = VotingService::create_voting(
        &w.configs,
        &w.access,
        &mut w.votings,
        &mut w.choices,
        w.config_id + 100,
        String::from("A voting"),
        String::from(""),
        1,
        77,
        &vec![],
        1000,
    );
    assert!(matches!(r, Err(VotingError::VotingConfigNotFound(c)) if c == w.config_id + 100));

    let r = VotingService::create_voting(
        &w.configs,
        &w.access,
        &mut w.votings,
        &mut w.choices,
        w.config_id,
        String::from("   "),
        String::from(""),
        1,
        77,
        &vec![],
        1000,
    );
    assert!(matches!(r, Err(VotingError::ValidationError(_))));
}

#[test]
fn a_ballot_may_name_each_choice_only_once() {
    let mut w = world();
    let (id, cid) = voting_in_round(&mut w);
    let vote = Vote {
        voter: Voter::Profile(5),
        vote_type: VoteType::Custom(vec![(cid, 10), (cid, 20)]),
    };
    let r = VotingService::cast_vote(&mut w.votings, &mut w.choices, &id, &vote, 100, 2001);
    assert!(matches!(r, Err(VotingError::DuplicateChoiceInVote(c)) if c == cid));
    // Nothing was recorded.
    assert_eq!(
        w.choices
            .get(&cid)
            .unwrap()
            .get_voted_shares_sum(GroupOrProfile::Profile(5)),
        0
    );
}

#[test]
fn approval_threshold_gates_the_first_round() {
    let mut w = world();
    // A configuration demanding thirty shares of approval support.
    let vc = VotingConfig::new(
        String::from("Guarded"),
        String::from(""),
        None,
        None,
        vec![1],
        RoundSettings {
            round_duration: 100,
            round_delay: 10,
        },
        ThresholdValue::QuantityOf(30),
        any_threshold(),
        any_threshold(),
        any_threshold(),
        any_threshold(),
    )
    .unwrap();
    let config_id = w.configs.save(vc);
    let id = VotingService::create_voting(
        &w.configs,
        &w.access,
        &mut w.votings,
        &mut w.choices,
        config_id,
        String::from("Guarded voting"),
        String::from(""),
        1,
        77,
        &vec![],
        1000,
    )
    .unwrap();

    // Short of support, the voting stays in creation.
    let r = VotingService::try_approve_voting(&w.configs, &mut w.votings, &id, 29, 100, 1001);
    assert_eq!(r.unwrap(), false);
    let v = VotingService::get_voting(&w.votings, &id).unwrap();
    assert!(matches!(v.get_status(), VotingStatus::Created));

    // With enough support it moves into the first pre-round.
    let r = VotingService::try_approve_voting(&w.configs, &mut w.votings, &id, 30, 100, 1002);
    assert_eq!(r.unwrap(), true);
    let v = VotingService::get_voting(&w.votings, &id).unwrap();
    assert!(matches!(v.get_status(), VotingStatus::PreRound(1)));

    // Once out of creation the judgement is refused.
    let r = VotingService::try_approve_voting(&w.configs, &mut w.votings, &id, 30, 100, 1003);
    assert!(matches!(r, Err(VotingError::InvalidStateTransition(x)) if x == id));
}

#[test]
fn the_gate_judges_proposers_by_allowees() {
    let mut w = world();
    // Only members of group 3 may touch permission 1.
    let members_only = AccessConfig::new(
        String::from("Members"),
        String::from(""),
        vec![1],
        vec![AlloweeConstraint::Group(3)],
    )
    .unwrap();
    let access = vec![members_only];

    // A caller outside the group is denied before anything is created.
    let votings_before = VotingService::list_votings(
        &w.votings,
        &union_governance::pagination::PageRequest {
            page_index: 0,
            page_size: 100,
            filter: (),
            sort: (),
        },
    );
    let r = VotingService::create_voting(
        &w.configs,
        &access,
        &mut w.votings,
        &mut w.choices,
        w.config_id,
        String::from("A voting"),
        String::from(""),
        1,
        77,
        &vec![],
        1000,
    );
    assert!(matches!(r, Err(VotingError::PermissionDenied(p)) if p == 77));
    let votings_after = VotingService::list_votings(
        &w.votings,
        &union_governance::pagination::PageRequest {
            page_index: 0,
            page_size: 100,
            filter: (),
            sort: (),
        },
    );
    assert_eq!(votings_before.data, votings_after.data);

    // The same caller, voting through the group, is admitted.
    let r = VotingService::create_voting(
        &w.configs,
        &access,
        &mut w.votings,
        &mut w.choices,
        w.config_id,
        String::from("A voting"),
        String::from(""),
        1,
        77,
        &vec![3],
        1000,
    );
    assert!(r.is_ok());

    // A profile-specific allowee admits exactly that caller.
    let one_profile = AccessConfig::new(
        String::from("One"),
        String::from(""),
        vec![1],
        vec![AlloweeConstraint::Profile(8)],
    )
    .unwrap();
    assert!(one_profile.allows_caller(8, &vec![]));
    assert!(!one_profile.allows_caller(9, &vec![]));
}
