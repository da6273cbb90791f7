//! Voting configurations: the numeric and interval rules that govern how a
//! voting round is judged — thresholds, round timing, and bounds on how many
//! choices and winners a voting may have.

use vstd::prelude::*;

use crate::idmap::IdMap;
use crate::types::{dedup_first_ids, dedup_ids, ids_unique, PermissionId, Shares, VotingConfigId};
use vstd::string::StringExecFns;
use crate::validation::{
    byte_len, trimmed_len_ok, trimmed_of, validate_and_trim_str, ValidationError,
    ValidationReason,
};

verus! {

pub const VOTING_CONFIG_NAME_MIN_LEN: usize = 1;

pub const VOTING_CONFIG_NAME_MAX_LEN: usize = 200;

pub const VOTING_CONFIG_DESCRIPTION_MIN_LEN: usize = 0;

pub const VOTING_CONFIG_DESCRIPTION_MAX_LEN: usize = 2000;

/// An inclusive bound on a count (of choices, or of winners).
#[derive(Clone, Copy, PartialEq, Eq, Structural, Debug)]
pub struct LenInterval {
    pub from: usize,
    pub to: usize,
}

impl LenInterval {
    /// An interval is consistent when its low bound does not exceed its high
    /// bound.
    pub open spec fn spec_is_valid(&self) -> bool {
        self.from <= self.to
    }

    pub fn is_valid(&self) -> (r: bool)
        ensures
            r == self.spec_is_valid(),
    {
        self.from <= self.to
    }

    pub open spec fn spec_contains(&self, x: int) -> bool {
        self.from <= x <= self.to
    }

    pub fn contains(&self, x: usize) -> (r: bool)
        ensures
            r == self.spec_contains(x as int),
    {
        self.from <= x && x <= self.to
    }
}

/// A rational part of the total supply, written as numerator/denominator.
#[derive(Clone, Copy, PartialEq, Eq, Structural, Debug)]
pub struct Fraction {
    pub numerator: u64,
    pub denominator: u64,
}

/// A policy-level numeric rule evaluated against accumulated shares: either
/// an absolute quantity, or a fraction of the total supply.
#[derive(Clone, Copy, PartialEq, Eq, Structural, Debug)]
pub enum ThresholdValue {
    QuantityOf(Shares),
    FractionOf(Fraction),
}

/// Whether a threshold is met by `achieved` shares out of `total` supply: an
/// absolute quantity must be reached; a fraction must be strictly exceeded.
pub open spec fn threshold_met(t: ThresholdValue, achieved: int, total: int) -> bool {
    match t {
        ThresholdValue::QuantityOf(q) => achieved >= q,
        ThresholdValue::FractionOf(f) => achieved * f.denominator > total * f.numerator,
    }
}

impl ThresholdValue {
    /// A fraction must be proper: a positive denominator, and no more than
    /// the whole.
    pub open spec fn spec_is_valid(&self) -> bool {
        match *self {
            ThresholdValue::QuantityOf(_) => true,
            ThresholdValue::FractionOf(f) => f.denominator > 0 && f.numerator <= f.denominator,
        }
    }

    pub fn is_valid(&self) -> (r: bool)
        ensures
            r == self.spec_is_valid(),
    {
        match self {
            ThresholdValue::QuantityOf(_) => true,
            ThresholdValue::FractionOf(f) => f.denominator > 0 && f.numerator <= f.denominator,
        }
    }

    /// Evaluates the threshold against accumulated shares and total supply.
    pub fn evaluate(&self, achieved: Shares, total_supply: Shares) -> (r: bool)
        ensures
            r == threshold_met(*self, achieved as int, total_supply as int),
    {
        match self {
            ThresholdValue::QuantityOf(q) => achieved >= *q,
            ThresholdValue::FractionOf(f) => {
                proof {
                    assert((achieved as int) * (f.denominator as int) <= u64::MAX as int
                        * u64::MAX as int && (total_supply as int) * (f.numerator as int)
                        <= u64::MAX as int * u64::MAX as int) by (nonlinear_arith)
                        requires
                            achieved <= u64::MAX,
                            f.denominator <= u64::MAX,
                            total_supply <= u64::MAX,
                            f.numerator <= u64::MAX,
                    ;
                }
                let lhs: u128 = (achieved as u128) * (f.denominator as u128);
                let rhs: u128 = (total_supply as u128) * (f.numerator as u128);
                lhs > rhs
            },
        }
    }
}

/// When rounds start and how long they run.
#[derive(Clone, Copy, PartialEq, Eq, Structural, Debug)]
pub struct RoundSettings {
    pub round_duration: u64,
    pub round_delay: u64,
}

/// All five lifecycle thresholds are proper.
pub open spec fn thresholds_valid(
    approval: ThresholdValue,
    quorum: ThresholdValue,
    rejection: ThresholdValue,
    win: ThresholdValue,
    next_round: ThresholdValue,
) -> bool {
    approval.spec_is_valid() && quorum.spec_is_valid() && rejection.spec_is_valid()
        && win.spec_is_valid() && next_round.spec_is_valid()
}

/// An optional interval is absent or consistent.
pub open spec fn interval_ok(i: Option<LenInterval>) -> bool {
    match i {
        Some(iv) => iv.spec_is_valid(),
        None => true,
    }
}

/// The numeric and interval rules one voting is governed by.
#[derive(Clone, Debug)]
pub struct VotingConfig {
    id: Option<VotingConfigId>,
    name: String,
    description: String,
    choices_count: Option<LenInterval>,
    winners_count: Option<LenInterval>,
    round: RoundSettings,
    permissions: Vec<PermissionId>,
    approval: ThresholdValue,
    rejection: ThresholdValue,
    quorum: ThresholdValue,
    win: ThresholdValue,
    next_round: ThresholdValue,
}

impl VotingConfig {
    pub closed spec fn spec_id(&self) -> Option<VotingConfigId> {
        self.id
    }

    pub closed spec fn spec_name(&self) -> Seq<char> {
        self.name@
    }

    pub closed spec fn spec_description(&self) -> Seq<char> {
        self.description@
    }

    pub closed spec fn spec_choices_count(&self) -> Option<LenInterval> {
        self.choices_count
    }

    pub closed spec fn spec_winners_count(&self) -> Option<LenInterval> {
        self.winners_count
    }

    pub closed spec fn spec_round(&self) -> RoundSettings {
        self.round
    }

    pub closed spec fn spec_permissions(&self) -> Seq<PermissionId> {
        self.permissions@
    }

    pub closed spec fn spec_approval(&self) -> ThresholdValue {
        self.approval
    }

    pub closed spec fn spec_rejection(&self) -> ThresholdValue {
        self.rejection
    }

    pub closed spec fn spec_quorum(&self) -> ThresholdValue {
        self.quorum
    }

    pub closed spec fn spec_win(&self) -> ThresholdValue {
        self.win
    }

    pub closed spec fn spec_next_round(&self) -> ThresholdValue {
        self.next_round
    }

    /// Every stored interval and threshold is consistent.
    pub open spec fn wf(&self) -> bool {
        &&& interval_ok(self.spec_choices_count())
        &&& interval_ok(self.spec_winners_count())
        &&& thresholds_valid(
            self.spec_approval(),
            self.spec_quorum(),
            self.spec_rejection(),
            self.spec_win(),
            self.spec_next_round(),
        )
        &&& ids_unique(self.spec_permissions())
    }

    /// Builds a configuration after validating the intervals, the trimmed
    /// name and description, and every threshold, in that order.
    pub fn new(
        name: String,
        description: String,
        choices_count: Option<LenInterval>,
        winners_count: Option<LenInterval>,
        permissions: Vec<PermissionId>,
        round: RoundSettings,
        approval: ThresholdValue,
        quorum: ThresholdValue,
        rejection: ThresholdValue,
        win: ThresholdValue,
        next_round: ThresholdValue,
    ) -> (r: Result<VotingConfig, ValidationError>)
        ensures
            match r {
                Ok(vc) => {
                    &&& interval_ok(choices_count)
                    &&& interval_ok(winners_count)
                    &&& trimmed_len_ok(
                        name@,
                        VOTING_CONFIG_NAME_MIN_LEN as int,
                        VOTING_CONFIG_NAME_MAX_LEN as int,
                    )
                    &&& trimmed_len_ok(
                        description@,
                        VOTING_CONFIG_DESCRIPTION_MIN_LEN as int,
                        VOTING_CONFIG_DESCRIPTION_MAX_LEN as int,
                    )
                    &&& thresholds_valid(approval, quorum, rejection, win, next_round)
                    &&& vc.spec_id() is None
                    &&& vc.spec_name() == trimmed_of(name@)
                    &&& vc.spec_description() == trimmed_of(description@)
                    &&& vc.spec_choices_count() == choices_count
                    &&& vc.spec_winners_count() == winners_count
                    &&& vc.spec_permissions() == dedup_first_ids(permissions@)
                    &&& vc.spec_round() == round
                    &&& vc.spec_approval() == approval
                    &&& vc.spec_quorum() == quorum
                    &&& vc.spec_rejection() == rejection
                    &&& vc.spec_win() == win
                    &&& vc.spec_next_round() == next_round
                    &&& vc.wf()
                },
                Err(e) => {
                    &&& !(interval_ok(choices_count) && interval_ok(winners_count)
                        && trimmed_len_ok(
                        name@,
                        VOTING_CONFIG_NAME_MIN_LEN as int,
                        VOTING_CONFIG_NAME_MAX_LEN as int,
                    ) && trimmed_len_ok(
                        description@,
                        VOTING_CONFIG_DESCRIPTION_MIN_LEN as int,
                        VOTING_CONFIG_DESCRIPTION_MAX_LEN as int,
                    ) && thresholds_valid(approval, quorum, rejection, win, next_round))
                    &&& if !interval_ok(choices_count) {
                        e.reason == ValidationReason::InvalidInterval && e.field@
                            == "Voting config choices count"@
                    } else if !interval_ok(winners_count) {
                        e.reason == ValidationReason::InvalidInterval && e.field@
                            == "Voting config winners count"@
                    } else if !trimmed_len_ok(
                        name@,
                        VOTING_CONFIG_NAME_MIN_LEN as int,
                        VOTING_CONFIG_NAME_MAX_LEN as int,
                    ) {
                        e.field@ == "Voting config name"@ && (if byte_len(trimmed_of(name@))
                            > VOTING_CONFIG_NAME_MAX_LEN {
                            e.reason == (ValidationReason::TooLong {
                                max: VOTING_CONFIG_NAME_MAX_LEN,
                                actual: byte_len(trimmed_of(name@)) as usize,
                            })
                        } else {
                            e.reason == (ValidationReason::TooShort {
                                min: VOTING_CONFIG_NAME_MIN_LEN,
                                actual: byte_len(trimmed_of(name@)) as usize,
                            })
                        })
                    } else if !trimmed_len_ok(
                        description@,
                        VOTING_CONFIG_DESCRIPTION_MIN_LEN as int,
                        VOTING_CONFIG_DESCRIPTION_MAX_LEN as int,
                    ) {
                        e.field@ == "Voting config description"@ && (if byte_len(trimmed_of(
                            description@,
                        )) > VOTING_CONFIG_DESCRIPTION_MAX_LEN {
                            e.reason == (ValidationReason::TooLong {
                                max: VOTING_CONFIG_DESCRIPTION_MAX_LEN,
                                actual: byte_len(trimmed_of(description@)) as usize,
                            })
                        } else {
                            e.reason == (ValidationReason::TooShort {
                                min: VOTING_CONFIG_DESCRIPTION_MIN_LEN,
                                actual: byte_len(trimmed_of(description@)) as usize,
                            })
                        })
                    } else {
                        e.reason == ValidationReason::InvalidThreshold && e.field@
                            == "Voting config threshold"@
                    }
                },
            },
    {
        if let Some(cc) = &choices_count {
            if !cc.is_valid() {
                return Err(ValidationError {
                    field: String::from_str("Voting config choices count"),
                    reason: ValidationReason::InvalidInterval,
                });
            }
        }
        if let Some(wc) = &winners_count {
            if !wc.is_valid() {
                return Err(ValidationError {
                    field: String::from_str("Voting config winners count"),
                    reason: ValidationReason::InvalidInterval,
                });
            }
        }
        let name2 = match Self::process_name(name) {
            Ok(n) => n,
            Err(e) => {
                return Err(e);
            },
        };
        let description2 = match Self::process_description(description) {
            Ok(d) => d,
            Err(e) => {
                return Err(e);
            },
        };
        if !(approval.is_valid() && quorum.is_valid() && rejection.is_valid() && win.is_valid()
            && next_round.is_valid()) {
            return Err(ValidationError {
                field: String::from_str("Voting config threshold"),
                reason: ValidationReason::InvalidThreshold,
            });
        }
        let permissions2 = dedup_ids(&permissions);
        Ok(VotingConfig {
            id: None,
            name: name2,
            description: description2,
            choices_count,
            winners_count,
            permissions: permissions2,
            round,
            approval,
            quorum,
            rejection,
            win,
            next_round,
        })
    }

    /// Replaces any subset of the fields after validating every replacement;
    /// nothing changes when a replacement is rejected.
    pub fn update(
        &mut self,
        name_opt: Option<String>,
        description_opt: Option<String>,
        choices_count_opt: Option<Option<LenInterval>>,
        winners_count_opt: Option<Option<LenInterval>>,
        permissions_opt: Option<Vec<PermissionId>>,
        round_opt: Option<RoundSettings>,
        approval_opt: Option<ThresholdValue>,
        quorum_opt: Option<ThresholdValue>,
        rejection_opt: Option<ThresholdValue>,
        win_opt: Option<ThresholdValue>,
        next_round_opt: Option<ThresholdValue>,
    ) -> (r: Result<(), ValidationError>)
        ensures
            match r {
                Ok(()) => {
                    &&& final(self).spec_id() == old(self).spec_id()
                    &&& final(self).spec_name() == (match name_opt {
                        Some(n) => trimmed_of(n@),
                        None => old(self).spec_name(),
                    })
                    &&& final(self).spec_description() == (match description_opt {
                        Some(d) => trimmed_of(d@),
                        None => old(self).spec_description(),
                    })
                    &&& final(self).spec_choices_count() == (match choices_count_opt {
                        Some(cc) => cc,
                        None => old(self).spec_choices_count(),
                    })
                    &&& final(self).spec_winners_count() == (match winners_count_opt {
                        Some(wc) => wc,
                        None => old(self).spec_winners_count(),
                    })
                    &&& final(self).spec_permissions() == (match permissions_opt {
                        Some(p) => dedup_first_ids(p@),
                        None => old(self).spec_permissions(),
                    })
                    &&& final(self).spec_round() == (match round_opt {
                        Some(rs) => rs,
                        None => old(self).spec_round(),
                    })
                    &&& final(self).spec_approval() == (match approval_opt {
                        Some(t) => t,
                        None => old(self).spec_approval(),
                    })
                    &&& final(self).spec_quorum() == (match quorum_opt {
                        Some(t) => t,
                        None => old(self).spec_quorum(),
                    })
                    &&& final(self).spec_rejection() == (match rejection_opt {
                        Some(t) => t,
                        None => old(self).spec_rejection(),
                    })
                    &&& final(self).spec_win() == (match win_opt {
                        Some(t) => t,
                        None => old(self).spec_win(),
                    })
                    &&& final(self).spec_next_round() == (match next_round_opt {
                        Some(t) => t,
                        None => old(self).spec_next_round(),
                    })
                    &&& old(self).wf() ==> final(self).wf()
                },
                Err(_) => *final(self) == *old(self),
            },
            r is Ok <==> {
                &&& (match name_opt {
                    Some(n) => trimmed_len_ok(
                        n@,
                        VOTING_CONFIG_NAME_MIN_LEN as int,
                        VOTING_CONFIG_NAME_MAX_LEN as int,
                    ),
                    None => true,
                })
                &&& (match description_opt {
                    Some(d) => trimmed_len_ok(
                        d@,
                        VOTING_CONFIG_DESCRIPTION_MIN_LEN as int,
                        VOTING_CONFIG_DESCRIPTION_MAX_LEN as int,
                    ),
                    None => true,
                })
                &&& (match choices_count_opt {
                    Some(cc) => interval_ok(cc),
                    None => true,
                })
                &&& (match winners_count_opt {
                    Some(wc) => interval_ok(wc),
                    None => true,
                })
                &&& (match approval_opt {
                    Some(t) => t.spec_is_valid(),
                    None => true,
                })
                &&& (match quorum_opt {
                    Some(t) => t.spec_is_valid(),
                    None => true,
                })
                &&& (match rejection_opt {
                    Some(t) => t.spec_is_valid(),
                    None => true,
                })
                &&& (match win_opt {
                    Some(t) => t.spec_is_valid(),
                    None => true,
                })
                &&& (match next_round_opt {
                    Some(t) => t.spec_is_valid(),
                    None => true,
                })
            },
    {
        let name2 = match name_opt {
            Some(n) => match Self::process_name(n) {
                Ok(n2) => Some(n2),
                Err(e) => {
                    return Err(e);
                },
            },
            None => None,
        };
        let description2 = match description_opt {
            Some(d) => match Self::process_description(d) {
                Ok(d2) => Some(d2),
                Err(e) => {
                    return Err(e);
                },
            },
            None => None,
        };
        if let Some(Some(cc)) = &choices_count_opt {
            if !cc.is_valid() {
                return Err(ValidationError {
                    field: String::from_str("Voting config choices count"),
                    reason: ValidationReason::InvalidInterval,
                });
            }
        }
        if let Some(Some(wc)) = &winners_count_opt {
            if !wc.is_valid() {
                return Err(ValidationError {
                    field: String::from_str("Voting config winners count"),
                    reason: ValidationReason::InvalidInterval,
                });
            }
        }
        let thresholds_ok = (match &approval_opt {
            Some(t) => t.is_valid(),
            None => true,
        }) && (match &quorum_opt {
            Some(t) => t.is_valid(),
            None => true,
        }) && (match &rejection_opt {
            Some(t) => t.is_valid(),
            None => true,
        }) && (match &win_opt {
            Some(t) => t.is_valid(),
            None => true,
        }) && (match &next_round_opt {
            Some(t) => t.is_valid(),
            None => true,
        });
        if !thresholds_ok {
            return Err(ValidationError {
                field: String::from_str("Voting config threshold"),
                reason: ValidationReason::InvalidThreshold,
            });
        }
        if let Some(n) = name2 {
            self.name = n;
        }
        if let Some(d) = description2 {
            self.description = d;
        }
        if let Some(cc) = choices_count_opt {
            self.choices_count = cc;
        }
        if let Some(wc) = winners_count_opt {
            self.winners_count = wc;
        }
        if let Some(p) = permissions_opt {
            self.permissions = dedup_ids(&p);
        }
        if let Some(rs) = round_opt {
            self.round = rs;
        }
        if let Some(t) = approval_opt {
            self.approval = t;
        }
        if let Some(t) = quorum_opt {
            self.quorum = t;
        }
        if let Some(t) = rejection_opt {
            self.rejection = t;
        }
        if let Some(t) = win_opt {
            self.win = t;
        }
        if let Some(t) = next_round_opt {
            self.next_round = t;
        }
        Ok(())
    }

    pub fn get_round_settings(&self) -> (r: &RoundSettings)
        ensures
            *r == self.spec_round(),
    {
        &self.round
    }

    pub fn get_winners_count(&self) -> (r: &Option<LenInterval>)
        ensures
            *r == self.spec_winners_count(),
    {
        &self.winners_count
    }

    pub fn get_choices_count(&self) -> (r: &Option<LenInterval>)
        ensures
            *r == self.spec_choices_count(),
    {
        &self.choices_count
    }

    pub fn get_permissions(&self) -> (r: &Vec<PermissionId>)
        ensures
            r@ == self.spec_permissions(),
    {
        &self.permissions
    }

    pub fn get_approval_threshold(&self) -> (r: &ThresholdValue)
        ensures
            *r == self.spec_approval(),
    {
        &self.approval
    }

    pub fn get_rejection_threshold(&self) -> (r: &ThresholdValue)
        ensures
            *r == self.spec_rejection(),
    {
        &self.rejection
    }

    pub fn get_quorum_threshold(&self) -> (r: &ThresholdValue)
        ensures
            *r == self.spec_quorum(),
    {
        &self.quorum
    }

    pub fn get_win_threshold(&self) -> (r: &ThresholdValue)
        ensures
            *r == self.spec_win(),
    {
        &self.win
    }

    pub fn get_next_round_threshold(&self) -> (r: &ThresholdValue)
        ensures
            *r == self.spec_next_round(),
    {
        &self.next_round
    }

    pub fn get_id(&self) -> (r: Option<VotingConfigId>)
        ensures
            r == self.spec_id(),
    {
        self.id
    }

    pub fn is_transient(&self) -> (r: bool)
        ensures
            r == (self.spec_id() is None),
    {
        self.id.is_none()
    }

    /// Assigns the id on first save; an already-identified configuration can
    /// never be re-assigned.
    pub fn init_id(&mut self, id: VotingConfigId)
        requires
            old(self).spec_id() is None,
        ensures
            final(self).spec_id() == Some(id),
            final(self).spec_name() == old(self).spec_name(),
            final(self).spec_description() == old(self).spec_description(),
            final(self).spec_choices_count() == old(self).spec_choices_count(),
            final(self).spec_winners_count() == old(self).spec_winners_count(),
            final(self).spec_permissions() == old(self).spec_permissions(),
            final(self).spec_round() == old(self).spec_round(),
            final(self).spec_approval() == old(self).spec_approval(),
            final(self).spec_quorum() == old(self).spec_quorum(),
            final(self).spec_rejection() == old(self).spec_rejection(),
            final(self).spec_win() == old(self).spec_win(),
            final(self).spec_next_round() == old(self).spec_next_round(),
    {
        self.id = Some(id);
    }

    fn process_name(name: String) -> (r: Result<String, ValidationError>)
        ensures
            match r {
                Ok(t) => trimmed_len_ok(
                    name@,
                    VOTING_CONFIG_NAME_MIN_LEN as int,
                    VOTING_CONFIG_NAME_MAX_LEN as int,
                ) && t@ == trimmed_of(name@),
                Err(e) => !trimmed_len_ok(
                    name@,
                    VOTING_CONFIG_NAME_MIN_LEN as int,
                    VOTING_CONFIG_NAME_MAX_LEN as int,
                ) && e.field@ == "Voting config name"@ && (if byte_len(trimmed_of(name@))
                    > VOTING_CONFIG_NAME_MAX_LEN {
                    e.reason == (ValidationReason::TooLong {
                        max: VOTING_CONFIG_NAME_MAX_LEN,
                        actual: byte_len(trimmed_of(name@)) as usize,
                    })
                } else {
                    e.reason == (ValidationReason::TooShort {
                        min: VOTING_CONFIG_NAME_MIN_LEN,
                        actual: byte_len(trimmed_of(name@)) as usize,
                    })
                }),
            },
    {
        validate_and_trim_str(
            name,
            VOTING_CONFIG_NAME_MIN_LEN,
            VOTING_CONFIG_NAME_MAX_LEN,
            "Voting config name",
        )
    }

    fn process_description(description: String) -> (r: Result<String, ValidationError>)
        ensures
            match r {
                Ok(t) => trimmed_len_ok(
                    description@,
                    VOTING_CONFIG_DESCRIPTION_MIN_LEN as int,
                    VOTING_CONFIG_DESCRIPTION_MAX_LEN as int,
                ) && t@ == trimmed_of(description@),
                Err(e) => !trimmed_len_ok(
                    description@,
                    VOTING_CONFIG_DESCRIPTION_MIN_LEN as int,
                    VOTING_CONFIG_DESCRIPTION_MAX_LEN as int,
                ) && e.field@ == "Voting config description"@ && (if byte_len(trimmed_of(
                    description@,
                )) > VOTING_CONFIG_DESCRIPTION_MAX_LEN {
                    e.reason == (ValidationReason::TooLong {
                        max: VOTING_CONFIG_DESCRIPTION_MAX_LEN,
                        actual: byte_len(trimmed_of(description@)) as usize,
                    })
                } else {
                    e.reason == (ValidationReason::TooShort {
                        min: VOTING_CONFIG_DESCRIPTION_MIN_LEN,
                        actual: byte_len(trimmed_of(description@)) as usize,
                    })
                }),
            },
    {
        validate_and_trim_str(
            description,
            VOTING_CONFIG_DESCRIPTION_MIN_LEN,
            VOTING_CONFIG_DESCRIPTION_MAX_LEN,
            "Voting config description",
        )
    }
}

/// Owns every voting configuration; ids are assigned once, monotonically.
pub struct VotingConfigRepository {
    configs: IdMap<VotingConfig>,
    config_ids_counter: VotingConfigId,
}

impl VotingConfigRepository {
    pub closed spec fn view(&self) -> Map<u64, VotingConfig> {
        self.configs@
    }

    pub closed spec fn spec_keys(&self) -> Seq<u64> {
        self.configs.keys()
    }

    pub closed spec fn spec_counter(&self) -> VotingConfigId {
        self.config_ids_counter
    }

    /// Relates the listing order to the stored map: the keys list each
    /// stored id exactly once.
    pub proof fn lemma_keys(&self)
        requires
            self.wf(),
        ensures
            self.spec_keys().len() == self@.len(),
            forall|k: u64| self@.contains_key(k) <==> self.spec_keys().contains(k),
            forall|i: int, j: int|
                0 <= i < j < self.spec_keys().len() ==> #[trigger] self.spec_keys()[i]
                    != #[trigger] self.spec_keys()[j],
            forall|i: int|
                0 <= i < self.spec_keys().len() ==> self@.contains_key(
                    #[trigger] self.spec_keys()[i],
                ),
    {
        self.configs.lemma_keys();
    }

    pub open spec fn wf(&self) -> bool {
        self.spec_wf_inner()
    }

    pub closed spec fn spec_wf_inner(&self) -> bool {
        &&& self.configs.wf()
        &&& forall|id: u64|
            #[trigger] self.configs@.contains_key(id) ==> id < self.config_ids_counter
                && self.configs@[id].spec_id() == Some(id)
    }


    /// A stored entity carries its own key as id, below the counter.
    pub proof fn lemma_stored_id(&self, id: u64)
        requires
            self.wf(),
            self@.contains_key(id),
        ensures
            self@[id].spec_id() == Some(id),
            id < self.spec_counter(),
    {
    }

    pub fn new() -> (r: Self)
        ensures
            r.wf(),
            r@ == Map::<u64, VotingConfig>::empty(),
            r.spec_counter() == 0,
    {
        VotingConfigRepository { configs: IdMap::new(), config_ids_counter: 0 }
    }

    /// Saves a configuration: a transient one is assigned the next fresh
    /// id; an already-identified one replaces its stored version.
    pub fn save(&mut self, it: VotingConfig) -> (r: VotingConfigId)
        requires
            old(self).wf(),
            it.spec_id() is None ==> old(self).spec_counter() < u64::MAX,
            it.spec_id() matches Some(i) ==> i < old(self).spec_counter(),
        ensures
            final(self).wf(),
            match it.spec_id() {
                Some(i) => r == i && final(self)@ == old(self)@.insert(i, it) && final(self).spec_counter() == old(self).spec_counter(),
                None => {
                    &&& r == old(self).spec_counter()
                    &&& !old(self)@.contains_key(r)
                    &&& final(self).spec_counter() == old(self).spec_counter() + 1
                    &&& final(self)@ == old(self)@.insert(r, final(self)@[r])
                    &&& final(self)@[r].spec_id() == Some(r)
                    &&& final(self)@[r].spec_name() == it.spec_name()
                    &&& final(self)@[r].spec_description() == it.spec_description()
                    &&& final(self)@[r].spec_choices_count() == it.spec_choices_count()
                    &&& final(self)@[r].spec_winners_count() == it.spec_winners_count()
                    &&& final(self)@[r].spec_permissions() == it.spec_permissions()
                    &&& final(self)@[r].spec_round() == it.spec_round()
                    &&& final(self)@[r].spec_approval() == it.spec_approval()
                    &&& final(self)@[r].spec_quorum() == it.spec_quorum()
                    &&& final(self)@[r].spec_rejection() == it.spec_rejection()
                    &&& final(self)@[r].spec_win() == it.spec_win()
                    &&& final(self)@[r].spec_next_round() == it.spec_next_round()
                },
            },
            old(self)@.contains_key(r) ==> final(self).spec_keys() == old(self).spec_keys(),
            !old(self)@.contains_key(r) ==> final(self).spec_keys() == old(self).spec_keys().push(
                r,
            ),
    {
        let mut it = it;
        match it.get_id() {
            Some(i) => {
                self.configs.insert(i, it);
                i
            },
            None => {
                let id = self.config_ids_counter;
                self.config_ids_counter = id + 1;
                it.init_id(id);
                self.configs.insert(id, it);
                id
            },
        }
    }

    /// Removes and returns a stored configuration.
    pub fn delete(&mut self, id: &VotingConfigId) -> (r: Option<VotingConfig>)
        requires
            old(self).wf(),
        ensures
            final(self).wf(),
            final(self)@ == old(self)@.remove(*id),
            r is Some <==> old(self)@.contains_key(*id),
            r matches Some(v) ==> v == old(self)@[*id],
            r is None ==> *final(self) == *old(self),
            r is Some ==> exists|i: int|
                0 <= i < old(self).spec_keys().len() && old(self).spec_keys()[i] == *id
                    && final(self).spec_keys() == old(self).spec_keys().remove(i),
            final(self).spec_counter() == old(self).spec_counter(),
    {
        let r = self.configs.remove(*id);
        proof {
            if r is Some {
                let i = choose|i: int|
                    0 <= i < old(self).configs.keys().len() && old(self).configs.keys()[i] == *id
                        && self.configs.keys() == old(self).configs.keys().remove(i);
                assert(old(self).spec_keys()[i] == *id && self.spec_keys() == old(
                    self,
                ).spec_keys().remove(i));
            }
        }
        r
    }

    /// Looks a stored configuration up.
    pub fn get(&self, id: &VotingConfigId) -> (r: Option<&VotingConfig>)
        requires
            self.wf(),
        ensures
            r is Some <==> self@.contains_key(*id),
            r matches Some(v) ==> *v == self@[*id],
    {
        self.configs.get(*id)
    }
}

} // verus!
