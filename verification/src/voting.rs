//! The voting state machine: lifecycle of a single decision, its supply
//! snapshots, and its attached choices. Status only ever changes along the
//! transition table; any other attempt fails and leaves the voting
//! untouched.

use vstd::prelude::*;

use crate::idmap::IdMap;
use crate::pagination::{page_of_copied, page_window, spec_has_next, Page};
use crate::types::{ChoiceId, GroupOrProfile, PrincipalId, RoundId, Shares, VotingConfigId, VotingId};
use crate::validation::{byte_len, trimmed_len_ok, trimmed_of, validate_and_trim_str, ValidationError, ValidationReason};

verus! {

pub const VOTING_NAME_MIN_LEN: usize = 1;

pub const VOTING_NAME_MAX_LEN: usize = 200;

pub const VOTING_DESCRIPTION_MIN_LEN: usize = 0;

pub const VOTING_DESCRIPTION_MAX_LEN: usize = 2000;

/// Where a voting stands in its lifecycle.
#[derive(Clone, Debug)]
pub enum VotingStatus {
    Created,
    Rejected,
    PreRound(RoundId),
    Round(RoundId),
    Success,
    Fail(String),
}

/// When an approved voting's first round starts.
#[derive(Clone, Copy, PartialEq, Eq, Structural, Debug)]
pub enum StartCondition {
    ExactDate(u64),
    DelayAfterApproval(u64),
}

/// The operations that may be attempted on a voting.
#[derive(Clone, Copy, PartialEq, Eq, Structural, Debug)]
pub enum VotingOp {
    Approve,
    Reject,
    StartRound,
    NextRound,
    FinishSuccess,
    FinishFail,
    Update,
    CastVote,
}

/// The transition table: which operations are admitted from which status.
pub open spec fn transition_allowed(from: VotingStatus, op: VotingOp) -> bool {
    match op {
        VotingOp::Approve => from is Created,
        VotingOp::Reject => from is Created || from is Round,
        VotingOp::StartRound => from is PreRound,
        VotingOp::NextRound => from is Round,
        VotingOp::FinishSuccess => from is Round,
        VotingOp::FinishFail => from is Round,
        VotingOp::Update => from is Created,
        VotingOp::CastVote => from is Round,
    }
}

/// A recorded total supply per scope, or nothing yet.
pub open spec fn supply_find(s: Seq<(GroupOrProfile, Shares)>, g: GroupOrProfile) -> Option<Shares>
    decreases s.len(),
{
    if s.len() == 0 {
        None
    } else if s.last().0 == g {
        Some(s.last().1)
    } else {
        supply_find(s.drop_last(), g)
    }
}

pub open spec fn supplies_unique(s: Seq<(GroupOrProfile, Shares)>) -> bool {
    forall|i: int, j: int|
        0 <= i < j < s.len() ==> (#[trigger] s[i]).0 != (#[trigger] s[j]).0
}

proof fn lemma_supply_at(s: Seq<(GroupOrProfile, Shares)>, i: int)
    requires
        supplies_unique(s),
        0 <= i < s.len(),
    ensures
        supply_find(s, s[i].0) == Some(s[i].1),
    decreases s.len(),
{
    if i < s.len() - 1 {
        assert(supplies_unique(s.drop_last()));
        assert(s.drop_last()[i] == s[i]);
        lemma_supply_at(s.drop_last(), i);
        assert(s.last().0 != s[i].0);
    }
}

proof fn lemma_supply_absent(s: Seq<(GroupOrProfile, Shares)>, g: GroupOrProfile)
    requires
        forall|i: int| 0 <= i < s.len() ==> (#[trigger] s[i]).0 != g,
    ensures
        supply_find(s, g) is None,
    decreases s.len(),
{
    if s.len() > 0 {
        lemma_supply_absent(s.drop_last(), g);
    }
}

proof fn lemma_supply_update(s: Seq<(GroupOrProfile, Shares)>, i: int, x: Shares)
    requires
        supplies_unique(s),
        0 <= i < s.len(),
    ensures
        supplies_unique(s.update(i, (s[i].0, x))),
        forall|g: GroupOrProfile|
            #[trigger] supply_find(s.update(i, (s[i].0, x)), g) == if g == s[i].0 {
                Some(x)
            } else {
                supply_find(s, g)
            },
    decreases s.len(),
{
    let t = s.update(i, (s[i].0, x));
    assert(supplies_unique(t));
    if i == s.len() - 1 {
        assert(t.drop_last() =~= s.drop_last());
        assert(t.last() == (s[i].0, x));
    } else {
        assert(supplies_unique(s.drop_last()));
        assert(s.drop_last()[i] == s[i]);
        lemma_supply_update(s.drop_last(), i, x);
        assert(t.drop_last() =~= s.drop_last().update(i, (s[i].0, x)));
        assert(t.last() == s.last());
        assert(s.last().0 != s[i].0);
        assert forall|g: GroupOrProfile|
            #[trigger] supply_find(t, g) == if g == s[i].0 {
                Some(x)
            } else {
                supply_find(s, g)
            } by {
            if g != s.last().0 {
                assert(supply_find(t, g) == supply_find(t.drop_last(), g));
            }
        }
    }
}

proof fn lemma_supply_push(s: Seq<(GroupOrProfile, Shares)>, g0: GroupOrProfile, x: Shares)
    requires
        supplies_unique(s),
        forall|i: int| 0 <= i < s.len() ==> (#[trigger] s[i]).0 != g0,
    ensures
        supplies_unique(s.push((g0, x))),
        forall|g: GroupOrProfile|
            #[trigger] supply_find(s.push((g0, x)), g) == if g == g0 {
                Some(x)
            } else {
                supply_find(s, g)
            },
{
    let t = s.push((g0, x));
    assert(t.drop_last() =~= s);
    assert(t.last() == (g0, x));
    assert forall|a: int, b: int| 0 <= a < b < t.len() implies (#[trigger] t[a]).0 != (
    #[trigger] t[b]).0 by {
        if b < t.len() - 1 {
            assert(t[a] == s[a] && t[b] == s[b]);
        } else {
            assert(t[a] == s[a]);
        }
    }
}

/// One collective decision working through its lifecycle.
#[derive(Clone, Debug)]
pub struct Voting {
    id: Option<VotingId>,
    voting_config_id: VotingConfigId,
    status: VotingStatus,
    created_at: u64,
    updated_at: u64,
    proposer: PrincipalId,
    name: String,
    description: String,
    winners_need: usize,
    start_condition: Option<StartCondition>,
    total_supplies: Vec<(GroupOrProfile, Shares)>,
    choices: Vec<ChoiceId>,
    winners: Vec<ChoiceId>,
    losers: Vec<ChoiceId>,
    rejection_choice: Option<ChoiceId>,
    approval_choice: Option<ChoiceId>,
}

impl Voting {
    pub closed spec fn spec_id(&self) -> Option<VotingId> {
        self.id
    }

    pub closed spec fn spec_voting_config_id(&self) -> VotingConfigId {
        self.voting_config_id
    }

    pub closed spec fn spec_status(&self) -> VotingStatus {
        self.status
    }

    pub closed spec fn spec_created_at(&self) -> u64 {
        self.created_at
    }

    pub closed spec fn spec_updated_at(&self) -> u64 {
        self.updated_at
    }

    pub closed spec fn spec_proposer(&self) -> PrincipalId {
        self.proposer
    }

    pub closed spec fn spec_name(&self) -> Seq<char> {
        self.name@
    }

    pub closed spec fn spec_description(&self) -> Seq<char> {
        self.description@
    }

    pub closed spec fn spec_winners_need(&self) -> usize {
        self.winners_need
    }

    pub closed spec fn spec_supplies(&self) -> Seq<(GroupOrProfile, Shares)> {
        self.total_supplies@
    }

    /// The recorded total supply for a scope, if any.
    pub open spec fn spec_total_supply(&self, g: GroupOrProfile) -> Option<Shares> {
        supply_find(self.spec_supplies(), g)
    }

    pub closed spec fn spec_choices(&self) -> Seq<ChoiceId> {
        self.choices@
    }

    pub closed spec fn spec_winners(&self) -> Seq<ChoiceId> {
        self.winners@
    }

    pub closed spec fn spec_losers(&self) -> Seq<ChoiceId> {
        self.losers@
    }

    pub closed spec fn spec_rejection_choice(&self) -> Option<ChoiceId> {
        self.rejection_choice
    }

    pub closed spec fn spec_approval_choice(&self) -> Option<ChoiceId> {
        self.approval_choice
    }

    pub open spec fn wf(&self) -> bool {
        supplies_unique(self.spec_supplies())
    }

    /// Everything but the status and the update stamp is kept.
    pub open spec fn same_but_status(&self, other: &Voting) -> bool {
        &&& self.spec_id() == other.spec_id()
        &&& self.spec_voting_config_id() == other.spec_voting_config_id()
        &&& self.spec_created_at() == other.spec_created_at()
        &&& self.spec_proposer() == other.spec_proposer()
        &&& self.spec_name() == other.spec_name()
        &&& self.spec_description() == other.spec_description()
        &&& self.spec_winners_need() == other.spec_winners_need()
        &&& self.spec_supplies() == other.spec_supplies()
        &&& self.spec_choices() == other.spec_choices()
        &&& self.spec_winners() == other.spec_winners()
        &&& self.spec_losers() == other.spec_losers()
        &&& self.spec_rejection_choice() == other.spec_rejection_choice()
        &&& self.spec_approval_choice() == other.spec_approval_choice()
    }

    /// Builds a voting in `Created` status with a validated name and
    /// description and no supply snapshot.
    pub fn new(
        voting_config_id: VotingConfigId,
        name: String,
        description: String,
        winners_need: usize,
        proposer: PrincipalId,
        timestamp: u64,
    ) -> (r: Result<Self, ValidationError>)
        ensures
            match r {
                Ok(v) => {
                    &&& trimmed_len_ok(
                        name@,
                        VOTING_NAME_MIN_LEN as int,
                        VOTING_NAME_MAX_LEN as int,
                    )
                    &&& trimmed_len_ok(
                        description@,
                        VOTING_DESCRIPTION_MIN_LEN as int,
                        VOTING_DESCRIPTION_MAX_LEN as int,
                    )
                    &&& v.spec_id() is None
                    &&& v.spec_voting_config_id() == voting_config_id
                    &&& v.spec_status() is Created
                    &&& v.spec_created_at() == timestamp
                    &&& v.spec_updated_at() == timestamp
                    &&& v.spec_proposer() == proposer
                    &&& v.spec_name() == trimmed_of(name@)
                    &&& v.spec_description() == trimmed_of(description@)
                    &&& v.spec_winners_need() == winners_need
                    &&& v.spec_supplies() == Seq::<(GroupOrProfile, Shares)>::empty()
                    &&& v.spec_choices() == Seq::<ChoiceId>::empty()
                    &&& v.spec_winners() == Seq::<ChoiceId>::empty()
                    &&& v.spec_losers() == Seq::<ChoiceId>::empty()
                    &&& v.spec_rejection_choice() is None
                    &&& v.spec_approval_choice() is None
                    &&& v.wf()
                },
                Err(e) => {
                    &&& !(trimmed_len_ok(
                        name@,
                        VOTING_NAME_MIN_LEN as int,
                        VOTING_NAME_MAX_LEN as int,
                    ) && trimmed_len_ok(
                        description@,
                        VOTING_DESCRIPTION_MIN_LEN as int,
                        VOTING_DESCRIPTION_MAX_LEN as int,
                    ))
                    &&& if !trimmed_len_ok(name@, VOTING_NAME_MIN_LEN as int, VOTING_NAME_MAX_LEN as int) {
                        e.field@ == "Voting name"@ && (if byte_len(trimmed_of(name@)) > VOTING_NAME_MAX_LEN {
                            e.reason == (ValidationReason::TooLong {
                                max: VOTING_NAME_MAX_LEN,
                                actual: byte_len(trimmed_of(name@)) as usize,
                            })
                        } else {
                            e.reason == (ValidationReason::TooShort {
                                min: VOTING_NAME_MIN_LEN,
                                actual: byte_len(trimmed_of(name@)) as usize,
                            })
                        })
                    } else {
                        e.field@ == "Voting description"@ && (if byte_len(trimmed_of(description@)) > VOTING_DESCRIPTION_MAX_LEN {
                            e.reason == (ValidationReason::TooLong {
                                max: VOTING_DESCRIPTION_MAX_LEN,
                                actual: byte_len(trimmed_of(description@)) as usize,
                            })
                        } else {
                            e.reason == (ValidationReason::TooShort {
                                min: VOTING_DESCRIPTION_MIN_LEN,
                                actual: byte_len(trimmed_of(description@)) as usize,
                            })
                        })
                    }
                },
            },
    {
        let name2 = match validate_and_trim_str(
            name,
            VOTING_NAME_MIN_LEN,
            VOTING_NAME_MAX_LEN,
            "Voting name",
        ) {
            Ok(n) => n,
            Err(e) => {
                return Err(e);
            },
        };
        let description2 = match validate_and_trim_str(
            description,
            VOTING_DESCRIPTION_MIN_LEN,
            VOTING_DESCRIPTION_MAX_LEN,
            "Voting description",
        ) {
            Ok(d) => d,
            Err(e) => {
                return Err(e);
            },
        };
        let v = Voting {
            id: None,
            voting_config_id,
            status: VotingStatus::Created,
            created_at: timestamp,
            updated_at: timestamp,
            proposer,
            name: name2,
            description: description2,
            winners_need,
            start_condition: None,
            total_supplies: Vec::new(),
            choices: Vec::new(),
            winners: Vec::new(),
            losers: Vec::new(),
            rejection_choice: None,
            approval_choice: None,
        };
        proof {
            assert(v.spec_supplies() =~= Seq::<(GroupOrProfile, Shares)>::empty());
            assert(v.spec_choices() =~= Seq::<ChoiceId>::empty());
            assert(v.spec_winners() =~= Seq::<ChoiceId>::empty());
            assert(v.spec_losers() =~= Seq::<ChoiceId>::empty());
        }
        Ok(v)
    }

    /// Attaches the built-in rejection and approval choices, once.
    pub fn init_rejection_and_approval_choices(
        &mut self,
        rejection_choice: ChoiceId,
        approval_choice: ChoiceId,
    )
        requires
            old(self).spec_rejection_choice() is None,
            old(self).spec_approval_choice() is None,
        ensures
            final(self).spec_rejection_choice() == Some(rejection_choice),
            final(self).spec_approval_choice() == Some(approval_choice),
            final(self).spec_status() == old(self).spec_status(),
            final(self).same_but_choices_markers(old(self)),
    {
        self.rejection_choice = Some(rejection_choice);
        self.approval_choice = Some(approval_choice);
    }

    /// Everything but the two built-in choice markers is kept.
    pub open spec fn same_but_choices_markers(&self, other: &Voting) -> bool {
        &&& self.spec_id() == other.spec_id()
        &&& self.spec_voting_config_id() == other.spec_voting_config_id()
        &&& self.spec_created_at() == other.spec_created_at()
        &&& self.spec_updated_at() == other.spec_updated_at()
        &&& self.spec_proposer() == other.spec_proposer()
        &&& self.spec_name() == other.spec_name()
        &&& self.spec_description() == other.spec_description()
        &&& self.spec_winners_need() == other.spec_winners_need()
        &&& self.spec_supplies() == other.spec_supplies()
        &&& self.spec_choices() == other.spec_choices()
        &&& self.spec_winners() == other.spec_winners()
        &&& self.spec_losers() == other.spec_losers()
    }

    /// Registers one more custom choice.
    pub fn add_custom_choice(&mut self, id: ChoiceId)
        ensures
            final(self).spec_choices() == old(self).spec_choices().push(id),
            final(self).spec_status() == old(self).spec_status(),
            final(self).spec_id() == old(self).spec_id(),
            final(self).spec_voting_config_id() == old(self).spec_voting_config_id(),
            final(self).spec_created_at() == old(self).spec_created_at(),
            final(self).spec_updated_at() == old(self).spec_updated_at(),
            final(self).spec_proposer() == old(self).spec_proposer(),
            final(self).spec_name() == old(self).spec_name(),
            final(self).spec_description() == old(self).spec_description(),
            final(self).spec_winners_need() == old(self).spec_winners_need(),
            final(self).spec_supplies() == old(self).spec_supplies(),
            final(self).spec_winners() == old(self).spec_winners(),
            final(self).spec_losers() == old(self).spec_losers(),
            final(self).spec_rejection_choice() == old(self).spec_rejection_choice(),
            final(self).spec_approval_choice() == old(self).spec_approval_choice(),
    {
        self.choices.push(id);
    }

    /// Mutates name, description or winner count; only a `Created` voting
    /// may be mutated.
    pub fn update(
        &mut self,
        new_name: Option<String>,
        new_description: Option<String>,
        new_winners_need: Option<usize>,
        timestamp: u64,
    ) -> (r: Result<(), ValidationError>)
        requires
            transition_allowed(old(self).spec_status(), VotingOp::Update),
        ensures
            match r {
                Ok(()) => {
                    &&& final(self).spec_status() is Created
                    &&& final(self).spec_updated_at() == timestamp
                    &&& final(self).spec_id() == old(self).spec_id()
                    &&& final(self).spec_name() == (match new_name {
                        Some(n) => trimmed_of(n@),
                        None => old(self).spec_name(),
                    })
                    &&& final(self).spec_description() == (match new_description {
                        Some(d) => trimmed_of(d@),
                        None => old(self).spec_description(),
                    })
                    &&& final(self).spec_winners_need() == (match new_winners_need {
                        Some(w) => w,
                        None => old(self).spec_winners_need(),
                    })
                    &&& final(self).spec_supplies() == old(self).spec_supplies()
                    &&& final(self).spec_choices() == old(self).spec_choices()
                },
                Err(_) => *final(self) == *old(self),
            },
            r is Ok <==> {
                &&& (match new_name {
                    Some(n) => trimmed_len_ok(
                        n@,
                        VOTING_NAME_MIN_LEN as int,
                        VOTING_NAME_MAX_LEN as int,
                    ),
                    None => true,
                })
                &&& (match new_description {
                    Some(d) => trimmed_len_ok(
                        d@,
                        VOTING_DESCRIPTION_MIN_LEN as int,
                        VOTING_DESCRIPTION_MAX_LEN as int,
                    ),
                    None => true,
                })
            },
    {
        let name2 = match new_name {
            Some(n) => match validate_and_trim_str(
                n,
                VOTING_NAME_MIN_LEN,
                VOTING_NAME_MAX_LEN,
                "Voting name",
            ) {
                Ok(n2) => Some(n2),
                Err(e) => {
                    return Err(e);
                },
            },
            None => None,
        };
        let description2 = match new_description {
            Some(d) => match validate_and_trim_str(
                d,
                VOTING_DESCRIPTION_MIN_LEN,
                VOTING_DESCRIPTION_MAX_LEN,
                "Voting description",
            ) {
                Ok(d2) => Some(d2),
                Err(e) => {
                    return Err(e);
                },
            },
            None => None,
        };
        if let Some(n) = name2 {
            self.name = n;
        }
        if let Some(d) = description2 {
            self.description = d;
        }
        if let Some(w) = new_winners_need {
            self.winners_need = w;
        }
        self.updated_at = timestamp;
        Ok(())
    }

    /// `Created -> PreRound(1)`.
    pub fn approve(&mut self, timestamp: u64) -> (r: Result<(), ()>)
        ensures
            r is Ok <==> transition_allowed(old(self).spec_status(), VotingOp::Approve),
            r is Ok ==> final(self).spec_status() == VotingStatus::PreRound(1u16)
                && final(self).spec_updated_at() == timestamp && final(self).same_but_status(
                old(self),
            ),
            r is Err ==> *final(self) == *old(self),
    {
        match self.status {
            VotingStatus::Created => {
                self.status = VotingStatus::PreRound(1);
                self.updated_at = timestamp;
                Ok(())
            },
            _ => Err(()),
        }
    }

    /// `Created | Round(n) -> Rejected`.
    pub fn reject(&mut self, timestamp: u64) -> (r: Result<(), ()>)
        ensures
            r is Ok <==> transition_allowed(old(self).spec_status(), VotingOp::Reject),
            r is Ok ==> final(self).spec_status() is Rejected && final(self).spec_updated_at()
                == timestamp && final(self).same_but_status(old(self)),
            r is Err ==> *final(self) == *old(self),
    {
        match self.status {
            VotingStatus::Created | VotingStatus::Round(_) => {
                self.status = VotingStatus::Rejected;
                self.updated_at = timestamp;
                Ok(())
            },
            _ => Err(()),
        }
    }

    /// `PreRound(n) -> Round(n)`.
    pub fn start_round(&mut self, timestamp: u64) -> (r: Result<(), ()>)
        ensures
            r is Ok <==> transition_allowed(old(self).spec_status(), VotingOp::StartRound),
            r is Ok ==> (match old(self).spec_status() {
                VotingStatus::PreRound(n) => final(self).spec_status() == VotingStatus::Round(n),
                _ => false,
            }) && final(self).spec_updated_at() == timestamp && final(self).same_but_status(
                old(self),
            ),
            r is Err ==> *final(self) == *old(self),
    {
        match self.status {
            VotingStatus::PreRound(n) => {
                self.status = VotingStatus::Round(n);
                self.updated_at = timestamp;
                Ok(())
            },
            _ => Err(()),
        }
    }

    /// `Round(n) -> PreRound(n + 1)`; the round counter must not be
    /// exhausted.
    pub fn next_round(&mut self, timestamp: u64) -> (r: Result<(), ()>)
        requires
            old(self).spec_status() matches VotingStatus::Round(n) ==> n < RoundId::MAX,
        ensures
            r is Ok <==> transition_allowed(old(self).spec_status(), VotingOp::NextRound),
            r is Ok ==> (match old(self).spec_status() {
                VotingStatus::Round(n) => final(self).spec_status() == VotingStatus::PreRound(
                    (n + 1) as RoundId,
                ),
                _ => false,
            }) && final(self).spec_updated_at() == timestamp && final(self).same_but_status(
                old(self),
            ),
            r is Err ==> *final(self) == *old(self),
    {
        match self.status {
            VotingStatus::Round(n) => {
                self.status = VotingStatus::PreRound(n + 1);
                self.updated_at = timestamp;
                Ok(())
            },
            _ => Err(()),
        }
    }

    /// `Round(n) -> Success`.
    pub fn finish_success(&mut self, timestamp: u64) -> (r: Result<(), ()>)
        ensures
            r is Ok <==> transition_allowed(old(self).spec_status(), VotingOp::FinishSuccess),
            r is Ok ==> final(self).spec_status() is Success && final(self).spec_updated_at()
                == timestamp && final(self).same_but_status(old(self)),
            r is Err ==> *final(self) == *old(self),
    {
        match self.status {
            VotingStatus::Round(_) => {
                self.status = VotingStatus::Success;
                self.updated_at = timestamp;
                Ok(())
            },
            _ => Err(()),
        }
    }

    /// `Round(n) -> Fail(reason)`.
    pub fn finish_fail(&mut self, reason: String, timestamp: u64) -> (r: Result<(), ()>)
        ensures
            r is Ok <==> transition_allowed(old(self).spec_status(), VotingOp::FinishFail),
            r is Ok ==> (final(self).spec_status() matches VotingStatus::Fail(m) && m@ == reason@)
                && final(self).spec_updated_at() == timestamp && final(self).same_but_status(
                old(self),
            ),
            r is Err ==> *final(self) == *old(self),
    {
        match self.status {
            VotingStatus::Round(_) => {
                self.status = VotingStatus::Fail(reason);
                self.updated_at = timestamp;
                Ok(())
            },
            _ => Err(()),
        }
    }

    /// Records the total supply snapshot for a scope. A snapshot may be set
    /// or overwritten deliberately (`force`, the profile-voter path); a
    /// guarded snapshot (`!force`, the group-voter path) must be unset or
    /// exactly equal to the recorded one, or the call reports a mismatch.
    #[verifier::loop_isolation(false)]
    pub fn record_total_supply(&mut self, gop: GroupOrProfile, supply: Shares, force: bool) -> (r:
        Result<(), ()>)
        requires
            old(self).wf(),
        ensures
            final(self).wf(),
            r is Ok <==> (force || match old(self).spec_total_supply(gop) {
                Some(s) => s == supply,
                None => true,
            }),
            r is Ok ==> {
                &&& final(self).spec_total_supply(gop) == Some(supply)
                &&& (forall|g: GroupOrProfile|
                    g != gop ==> #[trigger] final(self).spec_total_supply(g) == old(
                        self,
                    ).spec_total_supply(g))
                &&& final(self).spec_status() == old(self).spec_status()
                &&& final(self).spec_updated_at() == old(self).spec_updated_at()
                &&& final(self).spec_choices() == old(self).spec_choices()
                &&& final(self).spec_id() == old(self).spec_id()
                &&& final(self).spec_rejection_choice() == old(self).spec_rejection_choice()
                &&& final(self).spec_approval_choice() == old(self).spec_approval_choice()
                &&& final(self).spec_proposer() == old(self).spec_proposer()
                &&& final(self).spec_winners() == old(self).spec_winners()
                &&& final(self).spec_losers() == old(self).spec_losers()
                &&& final(self).spec_winners_need() == old(self).spec_winners_need()
                &&& final(self).spec_name() == old(self).spec_name()
                &&& final(self).spec_description() == old(self).spec_description()
                &&& final(self).spec_created_at() == old(self).spec_created_at()
                &&& final(self).spec_voting_config_id() == old(self).spec_voting_config_id()
            },
            r is Err ==> *final(self) == *old(self),
    {
        let ghost s0 = self.total_supplies@;
        let n = self.total_supplies.len();
        let mut i: usize = 0;
        while i < n
            invariant
                i <= n,
                *self == *old(self),
                n == self.total_supplies@.len(),
                forall|j: int| 0 <= j < i ==> (#[trigger] self.total_supplies@[j]).0 != gop,
            decreases n - i,
        {
            if self.total_supplies[i].0 == gop {
                proof {
                    lemma_supply_at(s0, i as int);
                }
                if !force && self.total_supplies[i].1 != supply {
                    return Err(());
                }
                proof {
                    lemma_supply_update(s0, i as int, supply);
                }
                let slot = &mut self.total_supplies[i];
                *slot = (gop, supply);
                proof {
                    assert(self.total_supplies@ =~= s0.update(i as int, (gop, supply)));
                }
                return Ok(());
            }
            i = i + 1;
        }
        proof {
            lemma_supply_absent(s0, gop);
            lemma_supply_push(s0, gop, supply);
        }
        self.total_supplies.push((gop, supply));
        Ok(())
    }

    /// The recorded total supply for a scope, if any.
    #[verifier::loop_isolation(false)]
    pub fn get_total_supply(&self, gop: GroupOrProfile) -> (r: Option<Shares>)
        requires
            self.wf(),
        ensures
            r == self.spec_total_supply(gop),
    {
        let n = self.total_supplies.len();
        let mut i: usize = 0;
        while i < n
            invariant
                i <= n,
                n == self.total_supplies@.len(),
                forall|j: int| 0 <= j < i ==> (#[trigger] self.total_supplies@[j]).0 != gop,
            decreases n - i,
        {
            if self.total_supplies[i].0 == gop {
                proof {
                    lemma_supply_at(self.total_supplies@, i as int);
                }
                return Some(self.total_supplies[i].1);
            }
            i = i + 1;
        }
        proof {
            lemma_supply_absent(self.total_supplies@, gop);
        }
        None
    }

    /// Touches the update stamp.
    pub fn touch(&mut self, timestamp: u64)
        ensures
            final(self).spec_updated_at() == timestamp,
            final(self).spec_status() == old(self).spec_status(),
            final(self).same_but_status(old(self)),
    {
        self.updated_at = timestamp;
    }

    /// Whether the given choice id is one of this voting's custom choices.
    #[verifier::loop_isolation(false)]
    pub fn has_custom_choice(&self, id: ChoiceId) -> (r: bool)
        ensures
            r == self.spec_choices().contains(id),
    {
        let n = self.choices.len();
        let mut i: usize = 0;
        while i < n
            invariant
                i <= n,
                n == self.spec_choices().len(),
                forall|j: int| 0 <= j < i ==> self.spec_choices()[j] != id,
            decreases n - i,
        {
            if self.choices[i] == id {
                return true;
            }
            i = i + 1;
        }
        proof {
            if self.spec_choices().contains(id) {
                let j = choose|j: int| 0 <= j < self.spec_choices().len() && self.spec_choices()[j] == id;
                assert(false);
            }
        }
        false
    }

    pub fn get_status(&self) -> (r: &VotingStatus)
        ensures
            *r == self.spec_status(),
    {
        &self.status
    }

    pub fn is_round(&self) -> (r: bool)
        ensures
            r == (self.spec_status() is Round),
    {
        match self.status {
            VotingStatus::Round(_) => true,
            _ => false,
        }
    }

    pub fn get_proposer(&self) -> (r: PrincipalId)
        ensures
            r == self.spec_proposer(),
    {
        self.proposer
    }

    pub fn get_voting_config_id(&self) -> (r: VotingConfigId)
        ensures
            r == self.spec_voting_config_id(),
    {
        self.voting_config_id
    }

    pub fn get_winners_need(&self) -> (r: usize)
        ensures
            r == self.spec_winners_need(),
    {
        self.winners_need
    }

    pub fn get_rejection_choice(&self) -> (r: Option<ChoiceId>)
        ensures
            r == self.spec_rejection_choice(),
    {
        self.rejection_choice
    }

    pub fn get_approval_choice(&self) -> (r: Option<ChoiceId>)
        ensures
            r == self.spec_approval_choice(),
    {
        self.approval_choice
    }

    pub fn get_choices(&self) -> (r: &Vec<ChoiceId>)
        ensures
            r@ == self.spec_choices(),
    {
        &self.choices
    }

    pub fn get_winners(&self) -> (r: &Vec<ChoiceId>)
        ensures
            r@ == self.spec_winners(),
    {
        &self.winners
    }

    pub fn get_losers(&self) -> (r: &Vec<ChoiceId>)
        ensures
            r@ == self.spec_losers(),
    {
        &self.losers
    }

    pub fn get_id(&self) -> (r: Option<VotingId>)
        ensures
            r == self.spec_id(),
    {
        self.id
    }

    pub fn is_transient(&self) -> (r: bool)
        ensures
            r == (self.spec_id() is None),
    {
        self.id.is_none()
    }

    /// Sets the winner and loser partition once a round concludes.
    pub fn set_winners_and_losers(&mut self, winners: Vec<ChoiceId>, losers: Vec<ChoiceId>)
        ensures
            final(self).spec_winners() == winners@,
            final(self).spec_losers() == losers@,
            final(self).spec_status() == old(self).spec_status(),
            final(self).spec_id() == old(self).spec_id(),
            final(self).spec_choices() == old(self).spec_choices(),
            final(self).spec_supplies() == old(self).spec_supplies(),
            final(self).spec_updated_at() == old(self).spec_updated_at(),
            final(self).spec_rejection_choice() == old(self).spec_rejection_choice(),
            final(self).spec_approval_choice() == old(self).spec_approval_choice(),
    {
        self.winners = winners;
        self.losers = losers;
    }

    /// Assigns the id on first save; an already-identified voting can never
    /// be re-assigned.
    pub fn init_id(&mut self, id: VotingId)
        requires
            old(self).spec_id() is None,
        ensures
            final(self).spec_id() == Some(id),
            final(self).spec_status() == old(self).spec_status(),
            final(self).spec_updated_at() == old(self).spec_updated_at(),
            final(self).spec_voting_config_id() == old(self).spec_voting_config_id(),
            final(self).spec_created_at() == old(self).spec_created_at(),
            final(self).spec_proposer() == old(self).spec_proposer(),
            final(self).spec_name() == old(self).spec_name(),
            final(self).spec_description() == old(self).spec_description(),
            final(self).spec_winners_need() == old(self).spec_winners_need(),
            final(self).spec_supplies() == old(self).spec_supplies(),
            final(self).spec_choices() == old(self).spec_choices(),
            final(self).spec_winners() == old(self).spec_winners(),
            final(self).spec_losers() == old(self).spec_losers(),
            final(self).spec_rejection_choice() == old(self).spec_rejection_choice(),
            final(self).spec_approval_choice() == old(self).spec_approval_choice(),
    {
        self.id = Some(id);
    }
}

/// Owns every voting; ids are assigned once, monotonically.
pub struct VotingRepository {
    votings: IdMap<Voting>,
    voting_ids_counter: VotingId,
}

impl VotingRepository {
    pub closed spec fn view(&self) -> Map<u64, Voting> {
        self.votings@
    }

    pub closed spec fn spec_keys(&self) -> Seq<u64> {
        self.votings.keys()
    }

    pub closed spec fn spec_counter(&self) -> VotingId {
        self.voting_ids_counter
    }

    pub open spec fn wf(&self) -> bool {
        self.spec_wf_inner()
    }

    pub closed spec fn spec_wf_inner(&self) -> bool {
        &&& self.votings.wf()
        &&& forall|id: u64|
            #[trigger] self.votings@.contains_key(id) ==> id < self.voting_ids_counter
                && self.votings@[id].spec_id() == Some(id) && self.votings@[id].wf()
    }


    /// Relates the listing order to the stored map: the keys list each
    /// stored id exactly once.
    pub proof fn lemma_keys(&self)
        requires
            self.wf(),
        ensures
            self.spec_keys().len() == self@.len(),
            forall|k: u64| self@.contains_key(k) <==> self.spec_keys().contains(k),
            forall|i: int, j: int|
                0 <= i < j < self.spec_keys().len() ==> #[trigger] self.spec_keys()[i]
                    != #[trigger] self.spec_keys()[j],
            forall|i: int|
                0 <= i < self.spec_keys().len() ==> self@.contains_key(
                    #[trigger] self.spec_keys()[i],
                ),
    {
        self.votings.lemma_keys();
    }

    /// A stored entity carries its own key as id, below the counter.
    pub proof fn lemma_stored_id(&self, id: u64)
        requires
            self.wf(),
            self@.contains_key(id),
        ensures
            self@[id].spec_id() == Some(id),
            self@[id].wf(),
            id < self.spec_counter(),
    {
    }

    pub fn new() -> (r: Self)
        ensures
            r.wf(),
            r@ == Map::<u64, Voting>::empty(),
            r.spec_counter() == 0,
    {
        VotingRepository { votings: IdMap::new(), voting_ids_counter: 0 }
    }

    /// Saves a voting: a transient one is assigned the next fresh id; an
    /// already-identified one replaces its stored version.
    pub fn save(&mut self, it: Voting) -> (r: VotingId)
        requires
            old(self).wf(),
            it.wf(),
            it.spec_id() is None ==> old(self).spec_counter() < u64::MAX,
            it.spec_id() matches Some(i) ==> i < old(self).spec_counter(),
        ensures
            final(self).wf(),
            match it.spec_id() {
                Some(i) => r == i && final(self)@ == old(self)@.insert(i, it) && final(self).spec_counter() == old(self).spec_counter(),
                None => {
                    &&& r == old(self).spec_counter()
                    &&& !old(self)@.contains_key(r)
                    &&& final(self).spec_counter() == old(self).spec_counter() + 1
                    &&& final(self)@ == old(self)@.insert(r, final(self)@[r])
                    &&& final(self)@[r].spec_id() == Some(r)
                    &&& final(self)@[r].spec_status() == it.spec_status()
                    &&& final(self)@[r].spec_voting_config_id() == it.spec_voting_config_id()
                    &&& final(self)@[r].spec_name() == it.spec_name()
                    &&& final(self)@[r].spec_description() == it.spec_description()
                    &&& final(self)@[r].spec_proposer() == it.spec_proposer()
                    &&& final(self)@[r].spec_winners_need() == it.spec_winners_need()
                    &&& final(self)@[r].spec_supplies() == it.spec_supplies()
                    &&& final(self)@[r].spec_choices() == it.spec_choices()
                    &&& final(self)@[r].spec_rejection_choice() == it.spec_rejection_choice()
                    &&& final(self)@[r].spec_approval_choice() == it.spec_approval_choice()
                    &&& final(self)@[r].spec_created_at() == it.spec_created_at()
                    &&& final(self)@[r].spec_updated_at() == it.spec_updated_at()
                },
            },
            old(self)@.contains_key(r) ==> final(self).spec_keys() == old(self).spec_keys(),
            !old(self)@.contains_key(r) ==> final(self).spec_keys() == old(self).spec_keys().push(
                r,
            ),
    {
        let mut it = it;
        match it.get_id() {
            Some(i) => {
                self.votings.insert(i, it);
                i
            },
            None => {
                let id = self.voting_ids_counter;
                self.voting_ids_counter = id + 1;
                it.init_id(id);
                self.votings.insert(id, it);
                id
            },
        }
    }

    /// Removes and returns a stored voting.
    pub fn delete(&mut self, id: &VotingId) -> (r: Option<Voting>)
        requires
            old(self).wf(),
        ensures
            final(self).wf(),
            final(self)@ == old(self)@.remove(*id),
            r is Some <==> old(self)@.contains_key(*id),
            r matches Some(v) ==> v == old(self)@[*id],
            r is None ==> *final(self) == *old(self),
            r is Some ==> exists|i: int|
                0 <= i < old(self).spec_keys().len() && old(self).spec_keys()[i] == *id
                    && final(self).spec_keys() == old(self).spec_keys().remove(i),
            final(self).spec_counter() == old(self).spec_counter(),
    {
        let r = self.votings.remove(*id);
        proof {
            if r is Some {
                let i = choose|i: int|
                    0 <= i < old(self).votings.keys().len() && old(self).votings.keys()[i] == *id
                        && self.votings.keys() == old(self).votings.keys().remove(i);
                assert(old(self).spec_keys()[i] == *id && self.spec_keys() == old(
                    self,
                ).spec_keys().remove(i));
            }
        }
        r
    }

    /// Borrows a stored voting for in-place mutation: the listing order is
    /// untouched. The repository stays well-formed as long as the caller
    /// leaves the voting's id untouched and its supply table a table — and
    /// no public method of `Voting` can break either.
    pub fn get_mut(&mut self, id: &VotingId) -> (r: Option<&mut Voting>)
        requires
            old(self).wf(),
        ensures
            match r {
                Some(v) => {
                    &&& old(self)@.contains_key(*id)
                    &&& *v == old(self)@[*id]
                    &&& final(self)@ == old(self)@.insert(*id, *final(v))
                    &&& final(self).spec_keys() == old(self).spec_keys()
                    &&& final(self).spec_counter() == old(self).spec_counter()
                    &&& ((final(v).spec_id() == Some(*id) && final(v).wf()) ==> final(self).wf())
                },
                None => !old(self)@.contains_key(*id) && *final(self) == *old(self),
            },
    {
        proof {
            if self@.contains_key(*id) {
                self.lemma_stored_id(*id);
            }
        }
        match self.votings.get_mut(*id) {
            Some(v) => Some(v),
            None => None,
        }
    }

    /// Looks a stored voting up.
    pub fn get(&self, id: &VotingId) -> (r: Option<&Voting>)
        requires
            self.wf(),
        ensures
            r is Some <==> self@.contains_key(*id),
            r matches Some(v) ==> *v == self@[*id],
    {
        self.votings.get(*id)
    }

    /// One page of all voting ids, in listing order.
    #[verifier::loop_isolation(false)]
    pub fn list(&self, page_index: usize, page_size: usize) -> (r: Page<VotingId>)
        requires
            self.wf(),
        ensures
            r.data@ == page_window(self.spec_keys(), page_index as int, page_size as int),
            r.has_next == spec_has_next(
                self.spec_keys().len() as int,
                page_index as int,
                page_size as int,
            ),
    {
        let n = self.votings.len();
        let mut ids: Vec<VotingId> = Vec::new();
        let mut i: usize = 0;
        while i < n
            invariant
                i <= n,
                n == self.spec_keys().len(),
                ids@ == self.spec_keys().take(i as int),
            decreases n - i,
        {
            ids.push(self.votings.key_at(i));
            proof {
                assert(self.spec_keys().take(i as int + 1) =~= self.spec_keys().take(i as int).push(
                    self.spec_keys()[i as int],
                ));
            }
            i = i + 1;
        }
        proof {
            assert(self.spec_keys().take(n as int) =~= self.spec_keys());
        }
        page_of_copied(&ids, page_index, page_size)
    }
}

impl crate::pagination::Pageable for VotingRepository {
    type Item = VotingId;

    open spec fn listing(&self) -> Seq<VotingId> {
        self.spec_keys()
    }

    open spec fn pageable_wf(&self) -> bool {
        self.wf()
    }

    fn get_page<F, S>(&self, req: &crate::pagination::PageRequest<F, S>) -> (r: Page<VotingId>) {
        self.list(req.page_index, req.page_size)
    }
}

} // verus!
