//! Operations on votings: creation against a configuration, guarded
//! mutation and deletion, listing, share-weighted vote casting, and the
//! judgement of a round against the configured thresholds.

use vstd::prelude::*;

use crate::access_config::AccessConfig;
use crate::choice::{voter_amount, voters_unique, Choice, ChoiceRepository};
use crate::choice::{lemma_voter_at, lemma_voter_le_total};
use crate::pagination::{page_window, spec_has_next, Page, PageRequest};
use crate::types::{ids_intersect, spec_ids_intersect, ChoiceId, GroupId, GroupOrProfile, PrincipalId, ProfileId, Shares, VotingConfigId, VotingId};
use crate::validation::ValidationError;
use crate::voting::{transition_allowed, Voting, VotingOp, VotingRepository, VotingStatus};
use crate::voting_config::{threshold_met, VotingConfig, VotingConfigRepository};

verus! {

/// Who is casting a vote: an individual profile, or a group's delegate.
#[derive(Clone, Copy, PartialEq, Eq, Structural, Debug)]
pub enum Voter {
    Profile(ProfileId),
    Group(GroupId, PrincipalId),
}

/// What is being voted: support for rejection, or amounts spread over
/// custom choices.
#[derive(Clone, Debug)]
pub enum VoteType {
    Rejection(Shares),
    Custom(Vec<(ChoiceId, Shares)>),
}

/// One cast ballot.
#[derive(Clone, Debug)]
pub struct Vote {
    pub voter: Voter,
    pub vote_type: VoteType,
}

/// The voting-weight scope a voter votes under.
pub open spec fn voter_scope(v: Voter) -> GroupOrProfile {
    match v {
        Voter::Profile(p) => GroupOrProfile::Profile(p),
        Voter::Group(g, _) => GroupOrProfile::Group(g),
    }
}

/// The identity recorded within the scope.
pub open spec fn voter_identity(v: Voter) -> PrincipalId {
    match v {
        Voter::Profile(p) => p,
        Voter::Group(_, d) => d,
    }
}

/// Why an operation on a voting was refused.
#[derive(Clone, Debug)]
pub enum VotingError {
    VotingNotFound(VotingId),
    VotingConfigNotFound(VotingConfigId),
    ChoiceNotFound(ChoiceId),
    DuplicateChoiceInVote(ChoiceId),
    ValidationError(ValidationError),
    EditorNotFoundInVotingConfig(PrincipalId),
    InvalidStateTransition(VotingId),
    WinnersNeedOutOfBounds(usize),
    PermissionDenied(PrincipalId),
    DataIntegrityFault,
}

/// A requested winner count must lie in the configuration's interval, when
/// one is configured.
pub open spec fn winners_need_fine(vc: &VotingConfig, winners_need: usize) -> bool {
    match vc.spec_winners_count() {
        Some(iv) => iv.spec_contains(winners_need as int),
        None => true,
    }
}

/// The authorization gate over a voting configuration: the caller passes
/// when at least one access configuration admits the caller and binds at
/// least one of the configuration's permissions.
pub open spec fn spec_gate_admits(
    configs: Seq<AccessConfig>,
    vc: &VotingConfig,
    caller: PrincipalId,
    groups: Seq<GroupId>,
) -> bool {
    exists|i: int|
        0 <= i < configs.len() && (#[trigger] configs[i]).spec_allows(caller, groups)
            && spec_ids_intersect(configs[i].spec_permissions(), vc.spec_permissions())
}

/// The authorization gate over a voting configuration.
#[verifier::loop_isolation(false)]
pub fn gate_admits(
    configs: &Vec<AccessConfig>,
    vc: &VotingConfig,
    caller: PrincipalId,
    groups: &Vec<GroupId>,
) -> (r: bool)
    ensures
        r == spec_gate_admits(configs@, vc, caller, groups@),
{
    let n = configs.len();
    let mut i: usize = 0;
    while i < n
        invariant
            i <= n,
            n == configs@.len(),
            forall|j: int|
                0 <= j < i ==> !((#[trigger] configs@[j]).spec_allows(caller, groups@)
                    && spec_ids_intersect(configs@[j].spec_permissions(), vc.spec_permissions())),
        decreases n - i,
    {
        if configs[i].allows_caller(caller, groups) && ids_intersect(
            configs[i].get_permissions(),
            vc.get_permissions(),
        ) {
            return true;
        }
        i = i + 1;
    }
    proof {
        if spec_gate_admits(configs@, vc, caller, groups@) {
            let j = choose|j: int|
                0 <= j < configs@.len() && (#[trigger] configs@[j]).spec_allows(caller, groups@)
                    && spec_ids_intersect(configs@[j].spec_permissions(), vc.spec_permissions());
            assert(false);
        }
    }
    false
}

/// What a concluded evaluation of a round asks the state machine to do.
#[derive(Clone, Copy, PartialEq, Eq, Structural, Debug)]
pub enum RoundDecision {
    FinishFail,
    FinishSuccess,
    NextRound,
    KeepOpen,
}

/// The round judgement policy over aggregated numbers: rejection support
/// ends the voting; a winning choice needs both the win and the quorum
/// threshold; an unresolved round continues into the next round when the
/// next-round threshold admits it, and otherwise stays open.
pub open spec fn spec_round_decision(
    vc: &VotingConfig,
    total_supply: int,
    participation: int,
    rejection_support: int,
    best_choice_support: int,
) -> RoundDecision {
    if threshold_met(vc.spec_rejection(), rejection_support, total_supply) {
        RoundDecision::FinishFail
    } else if threshold_met(vc.spec_win(), best_choice_support, total_supply) && threshold_met(
        vc.spec_quorum(),
        participation,
        total_supply,
    ) {
        RoundDecision::FinishSuccess
    } else if threshold_met(vc.spec_next_round(), participation, total_supply) {
        RoundDecision::NextRound
    } else {
        RoundDecision::KeepOpen
    }
}

/// Judges a round of a voting against its configuration's thresholds,
/// given the aggregated share numbers of that round.
pub fn evaluate_round(
    vc: &VotingConfig,
    total_supply: Shares,
    participation: Shares,
    rejection_support: Shares,
    best_choice_support: Shares,
) -> (r: RoundDecision)
    ensures
        r == spec_round_decision(
            vc,
            total_supply as int,
            participation as int,
            rejection_support as int,
            best_choice_support as int,
        ),
{
    if vc.get_rejection_threshold().evaluate(rejection_support, total_supply) {
        RoundDecision::FinishFail
    } else if vc.get_win_threshold().evaluate(best_choice_support, total_supply)
        && vc.get_quorum_threshold().evaluate(participation, total_supply) {
        RoundDecision::FinishSuccess
    } else if vc.get_next_round_threshold().evaluate(participation, total_supply) {
        RoundDecision::NextRound
    } else {
        RoundDecision::KeepOpen
    }
}

/// The amount one ballot assigns to one choice: a rejection ballot puts its
/// shares on the rejection choice alone; a custom ballot distributes the
/// amounts it lists.
pub open spec fn spec_vote_amount(vote: &Vote, cid: ChoiceId, rejection_choice: ChoiceId) -> int {
    match vote.vote_type {
        VoteType::Rejection(sh) => if cid == rejection_choice {
            sh as int
        } else {
            0
        },
        VoteType::Custom(entries) => voter_amount(entries@, cid),
    }
}

/// Relation between a choice before and after one ballot replaced the
/// amount recorded for `(g, ident)` by `amount`: the per-voter amount is
/// exactly `amount`, the scope sum moved by the difference, and every other
/// scope, voter and field is untouched.
pub open spec fn spec_revoted(
    oldc: Choice,
    newc: Choice,
    g: GroupOrProfile,
    ident: u64,
    amount: int,
) -> bool {
    &&& newc.spec_id() == oldc.spec_id()
    &&& newc.spec_voting_id() == oldc.spec_voting_id()
    &&& newc.spec_name() == oldc.spec_name()
    &&& newc.spec_description() == oldc.spec_description()
    &&& newc.spec_program() == oldc.spec_program()
    &&& newc.spec_voter_shares(g, ident) == amount
    &&& newc.spec_total(g) == oldc.spec_total(g) - oldc.spec_voter_shares(g, ident) + amount
    &&& forall|g2: GroupOrProfile|
        g2 != g ==> #[trigger] newc.spec_total(g2) == oldc.spec_total(g2)
    &&& forall|g2: GroupOrProfile, v2: u64|
        !(g2 == g && v2 == ident) ==> #[trigger] newc.spec_voter_shares(g2, v2)
            == oldc.spec_voter_shares(g2, v2)
}

/// All conditions under which a ballot is accepted: the voting exists and
/// is in a round; a group ballot's supply snapshot is consistent; the
/// voting's built-in and custom choices are all stored; a custom ballot
/// names each custom choice at most once and only known ones; and no tally
/// overflows.
pub open spec fn spec_cast_allowed(
    votings: &VotingRepository,
    choices: &ChoiceRepository,
    id: VotingId,
    vote: &Vote,
    supply: Shares,
) -> bool {
    let g = voter_scope(vote.voter);
    let ident = voter_identity(vote.voter);
    &&& votings@.contains_key(id)
    &&& transition_allowed(votings@[id].spec_status(), VotingOp::CastVote)
    &&& (match vote.voter {
        Voter::Profile(_) => true,
        Voter::Group(_, _) => match votings@[id].spec_total_supply(g) {
            Some(s) => s == supply,
            None => true,
        },
    })
    &&& votings@[id].spec_rejection_choice() matches Some(rc) && choices@.contains_key(rc)
    &&& forall|k: int|
        0 <= k < votings@[id].spec_choices().len() ==> choices@.contains_key(
            #[trigger] votings@[id].spec_choices()[k],
        )
    &&& (match vote.vote_type {
        VoteType::Rejection(sh) => {
            let rc = votings@[id].spec_rejection_choice()->0;
            choices@[rc].spec_total(g) - choices@[rc].spec_voter_shares(g, ident) + sh
                <= u64::MAX
        },
        VoteType::Custom(entries) => {
            &&& voters_unique(entries@)
            &&& forall|k: int|
                0 <= k < entries@.len() ==> votings@[id].spec_choices().contains(
                    (#[trigger] entries@[k]).0,
                )
            &&& forall|k: int|
                0 <= k < entries@.len() ==> choices@[(#[trigger] entries@[k]).0].spec_total(g)
                    - choices@[(entries@[k]).0].spec_voter_shares(g, ident) + entries@[k].1
                    <= u64::MAX
        },
    })
}

/// The governance actions on votings. Every action takes the repositories
/// it works on explicitly; there is no ambient state.
pub struct VotingService;

impl VotingService {
    /// Creates a voting in `Created` status bound to an existing
    /// configuration, together with its built-in rejection and approval
    /// choices. The proposer must pass the authorization gate: some access
    /// configuration has to admit them and bind one of the configuration's
    /// permissions.
    pub fn create_voting(
        voting_configs: &VotingConfigRepository,
        access_configs: &Vec<AccessConfig>,
        votings: &mut VotingRepository,
        choices: &mut ChoiceRepository,
        voting_config_id: VotingConfigId,
        name: String,
        description: String,
        winners_need: usize,
        proposer: PrincipalId,
        proposer_groups: &Vec<GroupId>,
        timestamp: u64,
    ) -> (r: Result<VotingId, VotingError>)
        requires
            voting_configs.wf(),
            old(votings).wf(),
            old(choices).wf(),
            old(votings).spec_counter() < u64::MAX,
            old(choices).spec_counter() + 2 < u64::MAX,
        ensures
            final(votings).wf(),
            final(choices).wf(),
            r is Ok <==> {
                &&& voting_configs@.contains_key(voting_config_id)
                &&& winners_need_fine(&voting_configs@[voting_config_id], winners_need)
                &&& spec_gate_admits(
                    access_configs@,
                    &voting_configs@[voting_config_id],
                    proposer,
                    proposer_groups@,
                )
                &&& crate::validation::trimmed_len_ok(
                    name@,
                    crate::voting::VOTING_NAME_MIN_LEN as int,
                    crate::voting::VOTING_NAME_MAX_LEN as int,
                )
                &&& crate::validation::trimmed_len_ok(
                    description@,
                    crate::voting::VOTING_DESCRIPTION_MIN_LEN as int,
                    crate::voting::VOTING_DESCRIPTION_MAX_LEN as int,
                )
            },
            match r {
                Ok(id) => {
                    &&& voting_configs@.contains_key(voting_config_id)
                    &&& winners_need_fine(&voting_configs@[voting_config_id], winners_need)
                    &&& !old(votings)@.contains_key(id)
                    &&& final(votings)@.contains_key(id)
                    &&& final(votings)@ == old(votings)@.insert(id, final(votings)@[id])
                    &&& final(votings).spec_keys() == old(votings).spec_keys().push(id)
                    &&& final(votings)@[id].spec_status() is Created
                    &&& final(votings)@[id].spec_voting_config_id() == voting_config_id
                    &&& final(votings)@[id].spec_proposer() == proposer
                    &&& final(votings)@[id].spec_winners_need() == winners_need
                    &&& final(votings)@[id].spec_created_at() == timestamp
                    &&& final(votings)@[id].spec_name() == crate::validation::trimmed_of(name@)
                    &&& final(votings)@[id].spec_description() == crate::validation::trimmed_of(
                        description@,
                    )
                    &&& final(votings)@[id].spec_choices() == Seq::<ChoiceId>::empty()
                    &&& (final(votings)@[id].spec_rejection_choice() matches Some(rc)
                        && final(choices)@.contains_key(rc) && final(choices)@[rc].spec_voting_id()
                        == id && final(choices)@[rc].spec_name() == "Reject"@)
                    &&& (final(votings)@[id].spec_approval_choice() matches Some(ac)
                        && final(choices)@.contains_key(ac) && final(choices)@[ac].spec_voting_id()
                        == id && final(choices)@[ac].spec_name() == "Approve"@)
                    &&& forall|cid: u64|
                        old(choices)@.contains_key(cid) ==> #[trigger] final(choices)@.contains_key(
                            cid,
                        ) && final(choices)@[cid] == old(choices)@[cid]
                },
                Err(e) => {
                    &&& *final(votings) == *old(votings)
                    &&& *final(choices) == *old(choices)
                    &&& (e matches VotingError::VotingConfigNotFound(c) ==> c == voting_config_id
                        && !voting_configs@.contains_key(voting_config_id))
                    &&& (e matches VotingError::WinnersNeedOutOfBounds(w) ==> w == winners_need
                        && voting_configs@.contains_key(voting_config_id) && !winners_need_fine(
                        &voting_configs@[voting_config_id],
                        winners_need,
                    ))
                    &&& (e matches VotingError::PermissionDenied(p) ==> p == proposer
                        && voting_configs@.contains_key(voting_config_id) && winners_need_fine(
                        &voting_configs@[voting_config_id],
                        winners_need,
                    ) && !spec_gate_admits(
                        access_configs@,
                        &voting_configs@[voting_config_id],
                        proposer,
                        proposer_groups@,
                    ))
                    &&& (e is ValidationError <==> (voting_configs@.contains_key(voting_config_id)
                        && winners_need_fine(&voting_configs@[voting_config_id], winners_need)
                        && spec_gate_admits(
                        access_configs@,
                        &voting_configs@[voting_config_id],
                        proposer,
                        proposer_groups@,
                    ) && !(crate::validation::trimmed_len_ok(
                        name@,
                        crate::voting::VOTING_NAME_MIN_LEN as int,
                        crate::voting::VOTING_NAME_MAX_LEN as int,
                    ) && crate::validation::trimmed_len_ok(
                        description@,
                        crate::voting::VOTING_DESCRIPTION_MIN_LEN as int,
                        crate::voting::VOTING_DESCRIPTION_MAX_LEN as int,
                    ))))
                    &&& (e is VotingConfigNotFound || e is WinnersNeedOutOfBounds
                        || e is PermissionDenied || e is ValidationError)
                },
            },
    {
        let vc = match voting_configs.get(&voting_config_id) {
            Some(vc) => vc,
            None => {
                return Err(VotingError::VotingConfigNotFound(voting_config_id));
            },
        };
        match vc.get_winners_count() {
            Some(iv) => {
                if !iv.contains(winners_need) {
                    return Err(VotingError::WinnersNeedOutOfBounds(winners_need));
                }
            },
            None => {},
        }
        if !gate_admits(access_configs, vc, proposer, proposer_groups) {
            return Err(VotingError::PermissionDenied(proposer));
        }
        let voting = match Voting::new(
            voting_config_id,
            name,
            description,
            winners_need,
            proposer,
            timestamp,
        ) {
            Ok(v) => v,
            Err(e) => {
                return Err(VotingError::ValidationError(e));
            },
        };
        let id = votings.save(voting);
        let rejection = Choice::new_rejection(id);
        let approval = Choice::new_approval(id);
        let rejection_id = choices.save(rejection);
        let approval_id = choices.save(approval);
        let stored = match votings.get_mut(&id) {
            Some(v) => v,
            None => {
                proof {
                    assert(false);
                }
                return Err(VotingError::VotingNotFound(id));
            },
        };
        stored.init_rejection_and_approval_choices(rejection_id, approval_id);
        Ok(id)
    }

    /// Mutates a `Created` voting's name, description or winner count, on
    /// behalf of its proposer or of an editor the authorization gate
    /// admits.
    pub fn update_voting(
        voting_configs: &VotingConfigRepository,
        access_configs: &Vec<AccessConfig>,
        votings: &mut VotingRepository,
        id: &VotingId,
        new_name: Option<String>,
        new_description: Option<String>,
        new_winners_need: Option<usize>,
        editor: PrincipalId,
        editor_groups: &Vec<GroupId>,
        timestamp: u64,
    ) -> (r: Result<(), VotingError>)
        requires
            voting_configs.wf(),
            old(votings).wf(),
        ensures
            final(votings).wf(),
            r is Ok <==> {
                &&& old(votings)@.contains_key(*id)
                &&& old(votings)@[*id].spec_status() is Created
                &&& voting_configs@.contains_key(old(votings)@[*id].spec_voting_config_id())
                &&& (match new_winners_need {
                    Some(w) => winners_need_fine(
                        &voting_configs@[old(votings)@[*id].spec_voting_config_id()],
                        w,
                    ),
                    None => true,
                })
                &&& (editor == old(votings)@[*id].spec_proposer() || spec_gate_admits(
                    access_configs@,
                    &voting_configs@[old(votings)@[*id].spec_voting_config_id()],
                    editor,
                    editor_groups@,
                ))
                &&& (match new_name {
                    Some(n) => crate::validation::trimmed_len_ok(
                        n@,
                        crate::voting::VOTING_NAME_MIN_LEN as int,
                        crate::voting::VOTING_NAME_MAX_LEN as int,
                    ),
                    None => true,
                })
                &&& (match new_description {
                    Some(d) => crate::validation::trimmed_len_ok(
                        d@,
                        crate::voting::VOTING_DESCRIPTION_MIN_LEN as int,
                        crate::voting::VOTING_DESCRIPTION_MAX_LEN as int,
                    ),
                    None => true,
                })
            },
            match r {
                Ok(()) => {
                    &&& old(votings)@.contains_key(*id)
                    &&& old(votings)@[*id].spec_status() is Created
                    &&& final(votings)@ == old(votings)@.insert(*id, final(votings)@[*id])
                    &&& final(votings)@[*id].spec_status() is Created
                    &&& final(votings)@[*id].spec_updated_at() == timestamp
                    &&& final(votings)@[*id].spec_name() == (match new_name {
                        Some(n) => crate::validation::trimmed_of(n@),
                        None => old(votings)@[*id].spec_name(),
                    })
                    &&& final(votings)@[*id].spec_description() == (match new_description {
                        Some(d) => crate::validation::trimmed_of(d@),
                        None => old(votings)@[*id].spec_description(),
                    })
                    &&& final(votings)@[*id].spec_winners_need() == (match new_winners_need {
                        Some(w) => w,
                        None => old(votings)@[*id].spec_winners_need(),
                    })
                },
                Err(e) => {
                    &&& final(votings)@ == old(votings)@
                    &&& final(votings).spec_keys() == old(votings).spec_keys()
                    &&& final(votings).spec_counter() == old(votings).spec_counter()
                    &&& (e matches VotingError::VotingNotFound(v) ==> v == *id && !old(
                        votings,
                    )@.contains_key(*id))
                    &&& (e matches VotingError::InvalidStateTransition(v) ==> v == *id && old(
                        votings,
                    )@.contains_key(*id) && !transition_allowed(
                        old(votings)@[*id].spec_status(),
                        VotingOp::Update,
                    ))
                    &&& (e matches VotingError::VotingConfigNotFound(c) ==> old(
                        votings,
                    )@.contains_key(*id) && c == old(votings)@[*id].spec_voting_config_id()
                        && !voting_configs@.contains_key(c))
                    &&& (e matches VotingError::WinnersNeedOutOfBounds(w) ==> new_winners_need
                        == Some(w) && old(votings)@.contains_key(*id)
                        && voting_configs@.contains_key(old(votings)@[*id].spec_voting_config_id())
                        && !winners_need_fine(
                        &voting_configs@[old(votings)@[*id].spec_voting_config_id()],
                        w,
                    ))
                    &&& (e matches VotingError::EditorNotFoundInVotingConfig(p) ==> p == editor
                        && old(votings)@.contains_key(*id) && voting_configs@.contains_key(
                        old(votings)@[*id].spec_voting_config_id(),
                    ) && editor != old(votings)@[*id].spec_proposer() && !spec_gate_admits(
                        access_configs@,
                        &voting_configs@[old(votings)@[*id].spec_voting_config_id()],
                        editor,
                        editor_groups@,
                    ))
                    &&& (e is ValidationError ==> {
                        &&& old(votings)@.contains_key(*id)
                        &&& old(votings)@[*id].spec_status() is Created
                        &&& voting_configs@.contains_key(
                            old(votings)@[*id].spec_voting_config_id(),
                        )
                        &&& (editor == old(votings)@[*id].spec_proposer() || spec_gate_admits(
                            access_configs@,
                            &voting_configs@[old(votings)@[*id].spec_voting_config_id()],
                            editor,
                            editor_groups@,
                        ))
                        &&& !((match new_name {
                            Some(n) => crate::validation::trimmed_len_ok(
                                n@,
                                crate::voting::VOTING_NAME_MIN_LEN as int,
                                crate::voting::VOTING_NAME_MAX_LEN as int,
                            ),
                            None => true,
                        }) && (match new_description {
                            Some(d) => crate::validation::trimmed_len_ok(
                                d@,
                                crate::voting::VOTING_DESCRIPTION_MIN_LEN as int,
                                crate::voting::VOTING_DESCRIPTION_MAX_LEN as int,
                            ),
                            None => true,
                        }))
                    })
                    &&& (e is VotingNotFound || e is InvalidStateTransition
                        || e is VotingConfigNotFound || e is WinnersNeedOutOfBounds
                        || e is EditorNotFoundInVotingConfig || e is ValidationError)
                },
            },
    {
        let proposer: PrincipalId;
        let config_id: VotingConfigId;
        match votings.get(id) {
            None => {
                return Err(VotingError::VotingNotFound(*id));
            },
            Some(v) => {
                match v.get_status() {
                    VotingStatus::Created => {},
                    _ => {
                        return Err(VotingError::InvalidStateTransition(*id));
                    },
                }
                proposer = v.get_proposer();
                config_id = v.get_voting_config_id();
            },
        }
        let vc = match voting_configs.get(&config_id) {
            Some(vc) => vc,
            None => {
                return Err(VotingError::VotingConfigNotFound(config_id));
            },
        };
        match (new_winners_need, vc.get_winners_count()) {
            (Some(w), Some(iv)) => {
                if !iv.contains(w) {
                    return Err(VotingError::WinnersNeedOutOfBounds(w));
                }
            },
            _ => {},
        }
        if editor != proposer && !gate_admits(access_configs, vc, editor, editor_groups) {
            return Err(VotingError::EditorNotFoundInVotingConfig(editor));
        }
        proof {
            votings.lemma_stored_id(*id);
        }
        let stored = match votings.get_mut(id) {
            Some(v) => v,
            None => {
                proof {
                    assert(false);
                }
                return Err(VotingError::VotingNotFound(*id));
            },
        };
        match stored.update(new_name, new_description, new_winners_need, timestamp) {
            Ok(()) => Ok(()),
            Err(e) => {
                proof {
                    assert(votings@ =~= old(votings)@);
                }
                Err(VotingError::ValidationError(e))
            },
        }
    }

    /// Deletes a voting and every choice attached to it, on behalf of its
    /// proposer or of an editor the authorization gate admits.
    pub fn delete_voting(
        voting_configs: &VotingConfigRepository,
        access_configs: &Vec<AccessConfig>,
        votings: &mut VotingRepository,
        choices: &mut ChoiceRepository,
        id: &VotingId,
        deleter: PrincipalId,
        deleter_groups: &Vec<GroupId>,
    ) -> (r: Result<(), VotingError>)
        requires
            voting_configs.wf(),
            old(votings).wf(),
            old(choices).wf(),
        ensures
            final(votings).wf(),
            final(choices).wf(),
            r is Ok <==> {
                &&& old(votings)@.contains_key(*id)
                &&& voting_configs@.contains_key(old(votings)@[*id].spec_voting_config_id())
                &&& (deleter == old(votings)@[*id].spec_proposer() || spec_gate_admits(
                    access_configs@,
                    &voting_configs@[old(votings)@[*id].spec_voting_config_id()],
                    deleter,
                    deleter_groups@,
                ))
            },
            match r {
                Ok(()) => {
                    &&& old(votings)@.contains_key(*id)
                    &&& final(votings)@ == old(votings)@.remove(*id)
                    &&& forall|cid: u64|
                        #[trigger] final(choices)@.contains_key(cid) <==> (old(
                            choices,
                        )@.contains_key(cid) && !(old(votings)@[*id].spec_rejection_choice()
                            == Some(cid) || old(votings)@[*id].spec_approval_choice() == Some(cid)
                            || old(votings)@[*id].spec_choices().contains(cid) || old(
                            votings,
                        )@[*id].spec_winners().contains(cid) || old(
                            votings,
                        )@[*id].spec_losers().contains(cid)))
                    &&& forall|cid: u64|
                        #[trigger] final(choices)@.contains_key(cid) ==> final(choices)@[cid]
                            == old(choices)@[cid]
                },
                Err(e) => {
                    &&& *final(votings) == *old(votings)
                    &&& *final(choices) == *old(choices)
                    &&& (e matches VotingError::VotingNotFound(v) ==> v == *id && !old(
                        votings,
                    )@.contains_key(*id))
                    &&& (e matches VotingError::VotingConfigNotFound(c) ==> old(
                        votings,
                    )@.contains_key(*id) && c == old(votings)@[*id].spec_voting_config_id()
                        && !voting_configs@.contains_key(c))
                    &&& (e matches VotingError::EditorNotFoundInVotingConfig(p) ==> p == deleter
                        && old(votings)@.contains_key(*id) && voting_configs@.contains_key(
                        old(votings)@[*id].spec_voting_config_id(),
                    ) && deleter != old(votings)@[*id].spec_proposer() && !spec_gate_admits(
                        access_configs@,
                        &voting_configs@[old(votings)@[*id].spec_voting_config_id()],
                        deleter,
                        deleter_groups@,
                    ))
                    &&& (e is VotingNotFound || e is VotingConfigNotFound
                        || e is EditorNotFoundInVotingConfig)
                },
            },
    {
        match votings.get(id) {
            None => {
                return Err(VotingError::VotingNotFound(*id));
            },
            Some(v) => {
                let config_id = v.get_voting_config_id();
                let vc = match voting_configs.get(&config_id) {
                    Some(vc) => vc,
                    None => {
                        return Err(VotingError::VotingConfigNotFound(config_id));
                    },
                };
                if deleter != v.get_proposer() && !gate_admits(
                    access_configs,
                    vc,
                    deleter,
                    deleter_groups,
                ) {
                    return Err(VotingError::EditorNotFoundInVotingConfig(deleter));
                }
            },
        }
        let voting = match votings.delete(id) {
            Some(v) => v,
            None => {
                proof {
                    assert(false);
                }
                return Err(VotingError::VotingNotFound(*id));
            },
        };
        let ghost choices0 = *choices;
        match voting.get_rejection_choice() {
            Some(rc) => {
                choices.delete(&rc);
            },
            None => {},
        }
        match voting.get_approval_choice() {
            Some(ac) => {
                choices.delete(&ac);
            },
            None => {},
        }
        Self::delete_all(choices, voting.get_choices());
        Self::delete_all(choices, voting.get_winners());
        Self::delete_all(choices, voting.get_losers());
        proof {
            assert forall|cid: u64|
                #[trigger] final(choices)@.contains_key(cid) <==> (choices0@.contains_key(cid) && !(
                voting.spec_rejection_choice() == Some(cid) || voting.spec_approval_choice()
                    == Some(cid) || voting.spec_choices().contains(cid)
                    || voting.spec_winners().contains(cid) || voting.spec_losers().contains(
                    cid,
                ))) by {}
        }
        Ok(())
    }

    /// Deletes every listed choice.
    fn delete_all(choices: &mut ChoiceRepository, ids: &Vec<ChoiceId>)
        requires
            old(choices).wf(),
        ensures
            final(choices).wf(),
            forall|cid: u64|
                #[trigger] final(choices)@.contains_key(cid) <==> (old(choices)@.contains_key(cid)
                    && !ids@.contains(cid)),
            forall|cid: u64|
                #[trigger] final(choices)@.contains_key(cid) ==> final(choices)@[cid] == old(
                    choices,
                )@[cid],
            final(choices).spec_counter() == old(choices).spec_counter(),
    {
        let n = ids.len();
        let mut i: usize = 0;
        while i < n
            invariant
                i <= n,
                n == ids@.len(),
                choices.wf(),
                choices.spec_counter() == old(choices).spec_counter(),
                forall|cid: u64|
                    #[trigger] choices@.contains_key(cid) <==> (old(choices)@.contains_key(cid)
                        && !ids@.take(i as int).contains(cid)),
                forall|cid: u64|
                    #[trigger] choices@.contains_key(cid) ==> choices@[cid] == old(choices)@[cid],
            decreases n - i,
        {
            let ghost prev = choices@;
            choices.delete(&ids[i]);
            proof {
                assert forall|cid: u64|
                    #[trigger] choices@.contains_key(cid) <==> (old(choices)@.contains_key(cid)
                        && !ids@.take(i as int + 1).contains(cid)) by {
                    if ids@.take(i as int + 1).contains(cid) {
                        let j = choose|j: int|
                            0 <= j < i + 1 && #[trigger] ids@.take(i as int + 1)[j] == cid;
                        if j < i {
                            assert(ids@.take(i as int)[j] == cid);
                            assert(ids@.take(i as int).contains(cid));
                        } else {
                            assert(cid == ids@[i as int]);
                        }
                    } else {
                        assert(forall|j: int|
                            0 <= j < i ==> ids@.take(i as int)[j] == ids@.take(i as int + 1)[j]);
                        if ids@.take(i as int).contains(cid) {
                            let j = choose|j: int| 0 <= j < i && ids@.take(i as int)[j] == cid;
                            assert(ids@.take(i as int + 1)[j] == cid);
                            assert(false);
                        }
                        assert(ids@.take(i as int + 1)[i as int] == ids@[i as int]);
                        if cid == ids@[i as int] {
                            assert(ids@.take(i as int + 1).contains(cid));
                            assert(false);
                        }
                    }
                }
            }
            i = i + 1;
        }
        proof {
            assert(ids@.take(n as int) =~= ids@);
        }
    }

    /// Looks a voting up.
    pub fn get_voting<'a>(votings: &'a VotingRepository, id: &VotingId) -> (r: Result<
        &'a Voting,
        VotingError,
    >)
        requires
            votings.wf(),
        ensures
            match r {
                Ok(v) => votings@.contains_key(*id) && *v == votings@[*id],
                Err(e) => !votings@.contains_key(*id) && (e matches VotingError::VotingNotFound(v)
                    && v == *id),
            },
    {
        match votings.get(id) {
            Some(v) => Ok(v),
            None => Err(VotingError::VotingNotFound(*id)),
        }
    }

    /// One page of all voting ids, in listing order.
    pub fn list_votings(votings: &VotingRepository, page_req: &PageRequest<(), ()>) -> (r: Page<
        VotingId,
    >)
        requires
            votings.wf(),
        ensures
            r.data@ == page_window(
                votings.spec_keys(),
                page_req.page_index as int,
                page_req.page_size as int,
            ),
            r.has_next == spec_has_next(
                votings.spec_keys().len() as int,
                page_req.page_index as int,
                page_req.page_size as int,
            ),
    {
        votings.list(page_req.page_index, page_req.page_size)
    }

    /// Judges whether a `Created` voting may proceed at all: when the
    /// approval threshold is met by the given aggregated support, the
    /// voting moves into its first pre-round; otherwise it stays as it is.
    pub fn try_approve_voting(
        voting_configs: &VotingConfigRepository,
        votings: &mut VotingRepository,
        id: &VotingId,
        approval_support: Shares,
        total_supply: Shares,
        timestamp: u64,
    ) -> (r: Result<bool, VotingError>)
        requires
            voting_configs.wf(),
            old(votings).wf(),
        ensures
            final(votings).wf(),
            match r {
                Ok(approved) => {
                    &&& old(votings)@.contains_key(*id)
                    &&& old(votings)@[*id].spec_status() is Created
                    &&& voting_configs@.contains_key(old(votings)@[*id].spec_voting_config_id())
                    &&& approved == threshold_met(
                        voting_configs@[old(votings)@[*id].spec_voting_config_id()].spec_approval(),
                        approval_support as int,
                        total_supply as int,
                    )
                    &&& (approved ==> {
                        &&& final(votings)@ == old(votings)@.insert(*id, final(votings)@[*id])
                        &&& final(votings)@[*id].spec_status() == VotingStatus::PreRound(1u16)
                        &&& final(votings)@[*id].spec_updated_at() == timestamp
                        &&& final(votings)@[*id].same_but_status(&old(votings)@[*id])
                    })
                    &&& (!approved ==> final(votings)@ == old(votings)@)
                },
                Err(e) => {
                    &&& final(votings)@ == old(votings)@
                    &&& (e matches VotingError::VotingNotFound(v) ==> v == *id && !old(
                        votings,
                    )@.contains_key(*id))
                    &&& (e matches VotingError::InvalidStateTransition(v) ==> v == *id && old(
                        votings,
                    )@.contains_key(*id) && !(old(votings)@[*id].spec_status() is Created))
                    &&& (e matches VotingError::VotingConfigNotFound(c) ==> old(
                        votings,
                    )@.contains_key(*id) && c == old(votings)@[*id].spec_voting_config_id()
                        && !voting_configs@.contains_key(c))
                    &&& (e is VotingNotFound || e is InvalidStateTransition
                        || e is VotingConfigNotFound)
                },
            },
    {
        let config_id: VotingConfigId;
        match votings.get(id) {
            None => {
                return Err(VotingError::VotingNotFound(*id));
            },
            Some(v) => {
                match v.get_status() {
                    VotingStatus::Created => {},
                    _ => {
                        return Err(VotingError::InvalidStateTransition(*id));
                    },
                }
                config_id = v.get_voting_config_id();
            },
        }
        let vc = match voting_configs.get(&config_id) {
            Some(vc) => vc,
            None => {
                return Err(VotingError::VotingConfigNotFound(config_id));
            },
        };
        if !vc.get_approval_threshold().evaluate(approval_support, total_supply) {
            return Ok(false);
        }
        proof {
            votings.lemma_stored_id(*id);
        }
        let stored = match votings.get_mut(id) {
            Some(v) => v,
            None => {
                proof {
                    assert(false);
                }
                return Err(VotingError::VotingNotFound(*id));
            },
        };
        let approved = stored.approve(timestamp);
        proof {
            assert(approved is Ok);
        }
        Ok(true)
    }

    /// Clears the amount `(g, ident)` has on one stored choice, in place.
    fn clear_vote(choices: &mut ChoiceRepository, cid: ChoiceId, g: GroupOrProfile, ident: u64)
        requires
            old(choices).wf(),
            old(choices)@.contains_key(cid),
        ensures
            final(choices).wf(),
            final(choices)@.dom() == old(choices)@.dom(),
            final(choices).spec_keys() == old(choices).spec_keys(),
            final(choices).spec_counter() == old(choices).spec_counter(),
            spec_revoted(old(choices)@[cid], final(choices)@[cid], g, ident, 0),
            forall|c2: u64|
                c2 != cid && old(choices)@.contains_key(c2) ==> #[trigger] final(choices)@[c2]
                    == old(choices)@[c2],
    {
        choices.clear_vote_in(cid, g, ident);
    }

    /// Adds `amount` for `(g, ident)` on one stored choice.
    fn add_to_choice(
        choices: &mut ChoiceRepository,
        cid: ChoiceId,
        g: GroupOrProfile,
        ident: u64,
        amount: Shares,
    )
        requires
            old(choices).wf(),
            old(choices)@.contains_key(cid),
            old(choices)@[cid].spec_total(g) + amount <= u64::MAX,
        ensures
            final(choices).wf(),
            final(choices)@.dom() == old(choices)@.dom(),
            final(choices).spec_keys() == old(choices).spec_keys(),
            final(choices).spec_counter() == old(choices).spec_counter(),
            final(choices)@[cid].spec_id() == old(choices)@[cid].spec_id(),
            final(choices)@[cid].spec_voting_id() == old(choices)@[cid].spec_voting_id(),
            final(choices)@[cid].spec_name() == old(choices)@[cid].spec_name(),
            final(choices)@[cid].spec_description() == old(choices)@[cid].spec_description(),
            final(choices)@[cid].spec_program() == old(choices)@[cid].spec_program(),
            final(choices)@[cid].spec_voter_shares(g, ident) == old(choices)@[cid].spec_voter_shares(
                g,
                ident,
            ) + amount,
            final(choices)@[cid].spec_total(g) == old(choices)@[cid].spec_total(g) + amount,
            forall|g2: GroupOrProfile|
                g2 != g ==> #[trigger] final(choices)@[cid].spec_total(g2) == old(
                    choices,
                )@[cid].spec_total(g2),
            forall|g2: GroupOrProfile, v2: u64|
                !(g2 == g && v2 == ident) ==> #[trigger] final(choices)@[cid].spec_voter_shares(
                    g2,
                    v2,
                ) == old(choices)@[cid].spec_voter_shares(g2, v2),
            forall|c2: u64|
                c2 != cid && old(choices)@.contains_key(c2) ==> #[trigger] final(choices)@[c2]
                    == old(choices)@[c2],
    {
        choices.add_shares_in(cid, g, ident, amount);
    }

    /// Casts one ballot on a voting in a round: any prior amounts this
    /// identity had recorded on the rejection choice and on every custom
    /// choice are fully replaced by the new ballot's amounts.
    #[verifier::loop_isolation(false)]
    pub fn cast_vote(
        votings: &mut VotingRepository,
        choices: &mut ChoiceRepository,
        id: &VotingId,
        vote: &Vote,
        gop_total_supply: Shares,
        timestamp: u64,
    ) -> (r: Result<(), VotingError>)
        requires
            old(votings).wf(),
            old(choices).wf(),
        ensures
            final(votings).wf(),
            final(choices).wf(),
            r is Ok <==> spec_cast_allowed(old(votings), old(choices), *id, vote, gop_total_supply),
            r is Err ==> *final(votings) == *old(votings) && *final(choices) == *old(choices),
            r matches Err(e) ==> {
                &&& (e matches VotingError::VotingNotFound(v) ==> v == *id && !old(
                    votings,
                )@.contains_key(*id))
                &&& (e matches VotingError::InvalidStateTransition(v) ==> v == *id && old(
                    votings,
                )@.contains_key(*id) && !(old(votings)@[*id].spec_status() is Round))
                &&& (e matches VotingError::ChoiceNotFound(c) ==> (vote.vote_type matches
                    VoteType::Custom(entries) && (exists|k: int|
                    0 <= k < entries@.len() && (#[trigger] entries@[k]).0 == c) && !old(
                    votings,
                )@[*id].spec_choices().contains(c)))
                &&& (e matches VotingError::DuplicateChoiceInVote(c) ==> (vote.vote_type matches
                    VoteType::Custom(entries) && !voters_unique(entries@)))
                &&& (e is VotingNotFound || e is InvalidStateTransition || e is ChoiceNotFound
                    || e is DuplicateChoiceInVote || e is DataIntegrityFault)
            },
            r is Ok ==> {
                let g = voter_scope(vote.voter);
                let ident = voter_identity(vote.voter);
                let v_old = old(votings)@[*id];
                let rc = v_old.spec_rejection_choice()->0;
                &&& final(votings)@ == old(votings)@.insert(*id, final(votings)@[*id])
                &&& final(votings).spec_keys() == old(votings).spec_keys()
                &&& final(votings)@[*id].spec_status() == v_old.spec_status()
                &&& final(votings)@[*id].spec_updated_at() == timestamp
                &&& final(votings)@[*id].spec_total_supply(g) == Some(gop_total_supply)
                &&& (forall|g2: GroupOrProfile|
                    g2 != g ==> #[trigger] final(votings)@[*id].spec_total_supply(g2)
                        == v_old.spec_total_supply(g2))
                &&& final(votings)@[*id].spec_choices() == v_old.spec_choices()
                &&& final(votings)@[*id].spec_rejection_choice() == v_old.spec_rejection_choice()
                &&& final(votings)@[*id].spec_approval_choice() == v_old.spec_approval_choice()
                &&& final(choices)@.dom() == old(choices)@.dom()
                &&& final(choices).spec_keys() == old(choices).spec_keys()
                &&& forall|cid: u64|
                    old(choices)@.contains_key(cid) ==> if (cid == rc
                        || v_old.spec_choices().contains(cid)) {
                        spec_revoted(
                            old(choices)@[cid],
                            #[trigger] final(choices)@[cid],
                            g,
                            ident,
                            spec_vote_amount(vote, cid, rc),
                        )
                    } else {
                        final(choices)@[cid] == old(choices)@[cid]
                    }
            },
    {
        let gop: GroupOrProfile;
        let ident: u64;
        let force: bool;
        match vote.voter {
            Voter::Profile(p) => {
                gop = GroupOrProfile::Profile(p);
                ident = p;
                force = true;
            },
            Voter::Group(gid, d) => {
                gop = GroupOrProfile::Group(gid);
                ident = d;
                force = false;
            },
        }
        let rc: ChoiceId;
        match votings.get(id) {
            None => {
                return Err(VotingError::VotingNotFound(*id));
            },
            Some(v) => {
                proof {
                    votings.lemma_stored_id(*id);
                }
                if !v.is_round() {
                    return Err(VotingError::InvalidStateTransition(*id));
                }
                if !force {
                    match v.get_total_supply(gop) {
                        Some(s) => {
                            if s != gop_total_supply {
                                return Err(VotingError::DataIntegrityFault);
                            }
                        },
                        None => {},
                    }
                }
                rc = match v.get_rejection_choice() {
                    Some(rc) => rc,
                    None => {
                        return Err(VotingError::DataIntegrityFault);
                    },
                };
                if choices.get(&rc).is_none() {
                    return Err(VotingError::DataIntegrityFault);
                }
                let n = v.get_choices().len();
                let mut i: usize = 0;
                while i < n
                    invariant
                        i <= n,
                        n == v.spec_choices().len(),
                        forall|k: int|
                            0 <= k < i ==> choices@.contains_key(#[trigger] v.spec_choices()[k]),
                    decreases n - i,
                {
                    let cid = v.get_choices()[i];
                    if choices.get(&cid).is_none() {
                        return Err(VotingError::DataIntegrityFault);
                    }
                    i = i + 1;
                }
                match &vote.vote_type {
                    VoteType::Rejection(sh) => {
                        let c = match choices.get(&rc) {
                            Some(c) => c,
                            None => {
                                proof {
                                    assert(false);
                                }
                                return Err(VotingError::DataIntegrityFault);
                            },
                        };
                        proof {
                            choices.lemma_stored_tallies_wf(rc);
                            lemma_voter_le_total(c, gop, ident);
                        }
                        let cur_total = c.get_voted_shares_sum(gop);
                        let cur_voter = c.get_shares_of_voter(gop, ident);
                        if *sh > u64::MAX - (cur_total - cur_voter) {
                            return Err(VotingError::DataIntegrityFault);
                        }
                    },
                    VoteType::Custom(entries) => {
                        let m = entries.len();
                        let mut k: usize = 0;
                        while k < m
                            invariant
                                k <= m,
                                m == entries@.len(),
                                forall|a: int, b: int|
                                    0 <= a < b < k ==> (#[trigger] entries@[a]).0 != (
                                    #[trigger] entries@[b]).0,
                                forall|a: int|
                                    0 <= a < k ==> v.spec_choices().contains(
                                        (#[trigger] entries@[a]).0,
                                    ),
                                forall|a: int|
                                    0 <= a < k ==> choices@[(#[trigger] entries@[a]).0].spec_total(
                                        gop,
                                    ) - choices@[(entries@[a]).0].spec_voter_shares(gop, ident)
                                        + entries@[a].1 <= u64::MAX,
                            decreases m - k,
                        {
                            let (cid, amt) = entries[k];
                            let mut j: usize = 0;
                            while j < k
                                invariant
                                    j <= k < m,
                                    cid == entries@[k as int].0,
                                    forall|a: int|
                                        0 <= a < j ==> (#[trigger] entries@[a]).0 != cid,
                                decreases k - j,
                            {
                                if entries[j].0 == cid {
                                    return Err(VotingError::DuplicateChoiceInVote(cid));
                                }
                                j = j + 1;
                            }
                            if !v.has_custom_choice(cid) {
                                return Err(VotingError::ChoiceNotFound(cid));
                            }
                            proof {
                                let w = choose|w: int|
                                    0 <= w < v.spec_choices().len() && v.spec_choices()[w] == cid;
                                assert(choices@.contains_key(cid));
                            }
                            let c = match choices.get(&cid) {
                                Some(c) => c,
                                None => {
                                    proof {
                                        assert(false);
                                    }
                                    return Err(VotingError::DataIntegrityFault);
                                },
                            };
                            proof {
                                choices.lemma_stored_tallies_wf(cid);
                                lemma_voter_le_total(c, gop, ident);
                            }
                            let cur_total = c.get_voted_shares_sum(gop);
                            let cur_voter = c.get_shares_of_voter(gop, ident);
                            if amt > u64::MAX - (cur_total - cur_voter) {
                                return Err(VotingError::DataIntegrityFault);
                            }
                            k = k + 1;
                        }
                    },
                }
            },
        }
        proof {
            assert(spec_cast_allowed(votings, choices, *id, vote, gop_total_supply));
            votings.lemma_stored_id(*id);
        }
        let ghost choices0 = *choices;
        let ghost v_old = votings@[*id];
        let v = match votings.get_mut(id) {
            Some(v) => v,
            None => {
                proof {
                    assert(false);
                }
                return Err(VotingError::VotingNotFound(*id));
            },
        };
        let recorded = v.record_total_supply(gop, gop_total_supply, force);
        proof {
            assert(recorded is Ok);
        }
        let ghost v1 = *v;
        v.touch(timestamp);
        proof {
            assert(v.spec_id() == Some(*id) && v.wf());
            assert forall|g2: GroupOrProfile| g2 != gop implies v.spec_total_supply(g2)
                == v_old.spec_total_supply(g2) by {
                assert(v1.spec_total_supply(g2) == v_old.spec_total_supply(g2));
                assert(v.spec_supplies() == v1.spec_supplies());
            }
        }
        Self::clear_vote(choices, rc, gop, ident);
        let cvec = v.get_choices();
        let n = cvec.len();
        let mut i: usize = 0;
        while i < n
            invariant
                i <= n,
                n == v_old.spec_choices().len(),
                cvec@ == v_old.spec_choices(),
                choices.wf(),
                choices@.dom() == choices0@.dom(),
                choices.spec_keys() == choices0.spec_keys(),
                choices.spec_counter() == choices0.spec_counter(),
                spec_revoted(choices0@[rc], choices@[rc], gop, ident, 0),
                forall|cid: u64|
                    choices0@.contains_key(cid) ==> if (cid == rc || v_old.spec_choices().take(
                        i as int,
                    ).contains(cid)) {
                        spec_revoted(choices0@[cid], #[trigger] choices@[cid], gop, ident, 0)
                    } else {
                        choices@[cid] == choices0@[cid]
                    },
            decreases n - i,
        {
            let cid = cvec[i];
            let ghost prev = *choices;
            proof {
                assert(choices@.contains_key(cid));
            }
            Self::clear_vote(choices, cid, gop, ident);
            proof {
                assert forall|c2: u64|
                    choices0@.contains_key(c2) implies (if (c2 == rc
                        || v_old.spec_choices().take(i as int + 1).contains(c2)) {
                        spec_revoted(choices0@[c2], #[trigger] choices@[c2], gop, ident, 0)
                    } else {
                        choices@[c2] == choices0@[c2]
                    }) by {
                    assert(v_old.spec_choices().take(i as int + 1)[i as int] == cid);
                    if c2 == cid {
                        assert(v_old.spec_choices().take(i as int + 1).contains(c2));
                        assert(spec_revoted(choices0@[c2], prev@[c2], gop, ident, 0)
                            || prev@[c2] == choices0@[c2]);
                        assert(spec_revoted(prev@[c2], choices@[c2], gop, ident, 0));
                    } else {
                        assert(choices@[c2] == prev@[c2]);
                        if v_old.spec_choices().take(i as int + 1).contains(c2) {
                            let w = choose|w: int|
                                0 <= w < i + 1 && #[trigger] v_old.spec_choices().take(
                                    i as int + 1,
                                )[w] == c2;
                            assert(w < i);
                            assert(v_old.spec_choices().take(i as int)[w] == c2);
                            assert(v_old.spec_choices().take(i as int).contains(c2));
                        } else {
                            if v_old.spec_choices().take(i as int).contains(c2) {
                                let w = choose|w: int|
                                    0 <= w < i && #[trigger] v_old.spec_choices().take(
                                        i as int,
                                    )[w] == c2;
                                assert(v_old.spec_choices().take(i as int + 1)[w] == c2);
                                assert(false);
                            }
                        }
                    }
                }
            }
            i = i + 1;
        }
        proof {
            assert(v_old.spec_choices().take(n as int) =~= v_old.spec_choices());
        }
        let ghost cleared = *choices;
        match &vote.vote_type {
            VoteType::Rejection(sh) => {
                proof {
                    assert(choices@[rc].spec_total(gop) == choices0@[rc].spec_total(gop)
                        - choices0@[rc].spec_voter_shares(gop, ident));
                }
                Self::add_to_choice(choices, rc, gop, ident, *sh);
                proof {
                    assert forall|cid: u64|
                        choices0@.contains_key(cid) implies (if (cid == rc
                            || v_old.spec_choices().contains(cid)) {
                            spec_revoted(
                                choices0@[cid],
                                #[trigger] choices@[cid],
                                gop,
                                ident,
                                spec_vote_amount(vote, cid, rc),
                            )
                        } else {
                            choices@[cid] == choices0@[cid]
                        }) by {
                        if cid != rc {
                            assert(choices@[cid] == cleared@[cid]);
                        }
                    }
                }
            },
            VoteType::Custom(entries) => {
                let m = entries.len();
                let mut k: usize = 0;
                while k < m
                    invariant
                        k <= m,
                        m == entries@.len(),
                        choices.wf(),
                        choices@.dom() == choices0@.dom(),
                        choices.spec_keys() == choices0.spec_keys(),
                        choices.spec_counter() == choices0.spec_counter(),
                        forall|cid: u64|
                            choices0@.contains_key(cid) ==> if (cid == rc
                                || v_old.spec_choices().contains(cid)) {
                                spec_revoted(
                                    choices0@[cid],
                                    #[trigger] choices@[cid],
                                    gop,
                                    ident,
                                    voter_amount(entries@.take(k as int), cid),
                                )
                            } else {
                                choices@[cid] == choices0@[cid]
                            },
                    decreases m - k,
                {
                    let (cid, amt) = entries[k];
                    let ghost prev = *choices;
                    proof {
                        let w = choose|w: int|
                            0 <= w < v_old.spec_choices().len() && #[trigger] v_old.spec_choices()[w]
                                == cid;
                        assert(choices0@.contains_key(cid));
                        lemma_voter_at(entries@, k as int);
                        crate::choice::lemma_voter_absent_prefix(entries@, k as int);
                        assert(voter_amount(entries@.take(k as int), cid) == 0);
                        assert(spec_revoted(choices0@[cid], choices@[cid], gop, ident, 0));
                        assert(choices@[cid].spec_total(gop) + amt <= u64::MAX);
                    }
                    Self::add_to_choice(choices, cid, gop, ident, amt);
                    proof {
                        assert forall|c2: u64|
                            choices0@.contains_key(c2) implies (if (c2 == rc
                                || v_old.spec_choices().contains(c2)) {
                                spec_revoted(
                                    choices0@[c2],
                                    #[trigger] choices@[c2],
                                    gop,
                                    ident,
                                    voter_amount(entries@.take(k as int + 1), c2),
                                )
                            } else {
                                choices@[c2] == choices0@[c2]
                            }) by {
                            crate::choice::lemma_voter_amount_take_step(entries@, k as int, c2);
                            if c2 != cid {
                                assert(choices@[c2] == prev@[c2]);
                            }
                        }
                    }
                    k = k + 1;
                }
                proof {
                    assert(entries@.take(m as int) =~= entries@);
                }
            },
        }
        Ok(())
    }
}

} // verus!
