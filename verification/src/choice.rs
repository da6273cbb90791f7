//! Choices of a voting and their tally accounting: per scope, both the
//! per-voter share amounts and the scope-level running sum are maintained;
//! removal is a pure subtraction reconciled against the recorded per-voter
//! amount, never recomputed from scratch.

use vstd::prelude::*;
use vstd::string::StringExecFns;

use crate::idmap::IdMap;
use crate::pagination::{page_of_copied, page_window, spec_has_next, Page};
use crate::types::{ChoiceId, GroupOrProfile, Program, Shares, VotingId};
use crate::validation::{byte_len, trimmed_len_ok, trimmed_of, validate_and_trim_str, ValidationError, ValidationReason};

verus! {

pub const VOTING_CHOICE_NAME_MIN_LEN: usize = 1;

pub const VOTING_CHOICE_NAME_MAX_LEN: usize = 200;

pub const VOTING_CHOICE_DESCRIPTION_MIN_LEN: usize = 0;

pub const VOTING_CHOICE_DESCRIPTION_MAX_LEN: usize = 2000;

/// The sum of all recorded per-voter amounts.
pub open spec fn shares_sum(s: Seq<(u64, Shares)>) -> int
    decreases s.len(),
{
    if s.len() == 0 {
        0
    } else {
        shares_sum(s.drop_last()) + s.last().1
    }
}

pub open spec fn voters_unique(s: Seq<(u64, Shares)>) -> bool {
    forall|i: int, j: int|
        0 <= i < j < s.len() ==> (#[trigger] s[i]).0 != (#[trigger] s[j]).0
}

/// The amount recorded for one voter (0 when the voter has no entry).
pub open spec fn voter_amount(s: Seq<(u64, Shares)>, v: u64) -> int
    decreases s.len(),
{
    if s.len() == 0 {
        0
    } else if s.last().0 == v {
        s.last().1 as int
    } else {
        voter_amount(s.drop_last(), v)
    }
}

pub proof fn lemma_sum_nonneg(s: Seq<(u64, Shares)>)
    ensures
        shares_sum(s) >= 0,
    decreases s.len(),
{
    if s.len() > 0 {
        lemma_sum_nonneg(s.drop_last());
    }
}

pub proof fn lemma_voter_at(s: Seq<(u64, Shares)>, i: int)
    requires
        voters_unique(s),
        0 <= i < s.len(),
    ensures
        voter_amount(s, s[i].0) == s[i].1,
    decreases s.len(),
{
    if i < s.len() - 1 {
        assert(voters_unique(s.drop_last()));
        assert(s.drop_last()[i] == s[i]);
        lemma_voter_at(s.drop_last(), i);
        assert(s.last().0 != s[i].0);
    }
}

pub proof fn lemma_voter_absent(s: Seq<(u64, Shares)>, v: u64)
    requires
        forall|i: int| 0 <= i < s.len() ==> (#[trigger] s[i]).0 != v,
    ensures
        voter_amount(s, v) == 0,
    decreases s.len(),
{
    if s.len() > 0 {
        lemma_voter_absent(s.drop_last(), v);
    }
}

pub proof fn lemma_amount_le_sum(s: Seq<(u64, Shares)>, v: u64)
    ensures
        0 <= voter_amount(s, v) <= shares_sum(s),
    decreases s.len(),
{
    if s.len() == 0 {
    } else {
        lemma_amount_le_sum(s.drop_last(), v);
        lemma_sum_nonneg(s.drop_last());
    }
}

proof fn lemma_update_voter(s: Seq<(u64, Shares)>, i: int, x: Shares)
    requires
        voters_unique(s),
        0 <= i < s.len(),
    ensures
        voters_unique(s.update(i, (s[i].0, x))),
        shares_sum(s.update(i, (s[i].0, x))) == shares_sum(s) - s[i].1 + x,
        forall|v: u64|
            #[trigger] voter_amount(s.update(i, (s[i].0, x)), v) == if v == s[i].0 {
                x as int
            } else {
                voter_amount(s, v)
            },
    decreases s.len(),
{
    let t = s.update(i, (s[i].0, x));
    assert(voters_unique(t));
    if i == s.len() - 1 {
        assert(t.drop_last() =~= s.drop_last());
        assert(t.last() == (s[i].0, x));
        assert forall|v: u64|
            #[trigger] voter_amount(t, v) == if v == s[i].0 {
                x as int
            } else {
                voter_amount(s, v)
            } by {}
    } else {
        assert(voters_unique(s.drop_last()));
        assert(s.drop_last()[i] == s[i]);
        lemma_update_voter(s.drop_last(), i, x);
        assert(t.drop_last() =~= s.drop_last().update(i, (s[i].0, x)));
        assert(t.last() == s.last());
        assert(s.last().0 != s[i].0);
        assert forall|v: u64|
            #[trigger] voter_amount(t, v) == if v == s[i].0 {
                x as int
            } else {
                voter_amount(s, v)
            } by {
            if v != s.last().0 {
                assert(voter_amount(t, v) == voter_amount(t.drop_last(), v));
            }
        }
    }
}

proof fn lemma_push_voter(s: Seq<(u64, Shares)>, v0: u64, x: Shares)
    requires
        voters_unique(s),
        forall|i: int| 0 <= i < s.len() ==> (#[trigger] s[i]).0 != v0,
    ensures
        voters_unique(s.push((v0, x))),
        shares_sum(s.push((v0, x))) == shares_sum(s) + x,
        forall|v: u64|
            #[trigger] voter_amount(s.push((v0, x)), v) == if v == v0 {
                x as int
            } else {
                voter_amount(s, v)
            },
{
    let t = s.push((v0, x));
    assert(t.drop_last() =~= s);
    assert(t.last() == (v0, x));
    assert forall|a: int, b: int| 0 <= a < b < t.len() implies (#[trigger] t[a]).0 != (
    #[trigger] t[b]).0 by {
        if b < t.len() - 1 {
            assert(t[a] == s[a] && t[b] == s[b]);
        } else {
            assert(t[a] == s[a]);
        }
    }
}

proof fn lemma_remove_voter(s: Seq<(u64, Shares)>, i: int)
    requires
        voters_unique(s),
        0 <= i < s.len(),
    ensures
        voters_unique(s.remove(i)),
        shares_sum(s.remove(i)) == shares_sum(s) - s[i].1,
        voter_amount(s.remove(i), s[i].0) == 0,
        forall|v: u64|
            v != s[i].0 ==> #[trigger] voter_amount(s.remove(i), v) == voter_amount(s, v),
    decreases s.len(),
{
    let t = s.remove(i);
    assert forall|a: int, b: int| 0 <= a < b < t.len() implies (#[trigger] t[a]).0 != (
    #[trigger] t[b]).0 by {
        let a2: int = if a < i {
            a
        } else {
            a + 1
        };
        let b2: int = if b < i {
            b
        } else {
            b + 1
        };
        assert(t[a] == s[a2] && t[b] == s[b2]);
    }
    if i == s.len() - 1 {
        assert(t =~= s.drop_last());
        assert forall|j: int| 0 <= j < t.len() implies (#[trigger] t[j]).0 != s[i].0 by {
            assert(t[j] == s[j]);
        }
        lemma_voter_absent(t, s[i].0);
    } else {
        assert(voters_unique(s.drop_last()));
        assert(s.drop_last()[i] == s[i]);
        lemma_remove_voter(s.drop_last(), i);
        assert(t.drop_last() =~= s.drop_last().remove(i));
        assert(t.last() == s.last());
        assert(s.last().0 != s[i].0);
        assert forall|v: u64|
            v != s[i].0 implies #[trigger] voter_amount(t, v) == voter_amount(s, v) by {
            if v != s.last().0 {
                assert(voter_amount(t, v) == voter_amount(t.drop_last(), v));
            }
        }
    }
}

/// One scope's tally: the running sum and the per-voter amounts behind it.
#[derive(Clone, Debug)]
pub struct GopTally {
    pub total: Shares,
    pub by_voter: Vec<(u64, Shares)>,
}

impl GopTally {
    /// The running sum always equals the sum of the per-voter amounts.
    pub open spec fn wf(&self) -> bool {
        voters_unique(self.by_voter@) && self.total == shares_sum(self.by_voter@)
    }
}

pub open spec fn gops_unique(s: Seq<(GroupOrProfile, GopTally)>) -> bool {
    forall|i: int, j: int|
        0 <= i < j < s.len() ==> (#[trigger] s[i]).0 != (#[trigger] s[j]).0
}

/// The tally stored for a scope, if any.
pub open spec fn gop_find(s: Seq<(GroupOrProfile, GopTally)>, g: GroupOrProfile) -> Option<GopTally>
    decreases s.len(),
{
    if s.len() == 0 {
        None
    } else if s.last().0 == g {
        Some(s.last().1)
    } else {
        gop_find(s.drop_last(), g)
    }
}

proof fn lemma_gop_at(s: Seq<(GroupOrProfile, GopTally)>, i: int)
    requires
        gops_unique(s),
        0 <= i < s.len(),
    ensures
        gop_find(s, s[i].0) == Some(s[i].1),
    decreases s.len(),
{
    if i < s.len() - 1 {
        assert(gops_unique(s.drop_last()));
        assert(s.drop_last()[i] == s[i]);
        lemma_gop_at(s.drop_last(), i);
        assert(s.last().0 != s[i].0);
    }
}

proof fn lemma_gop_absent(s: Seq<(GroupOrProfile, GopTally)>, g: GroupOrProfile)
    requires
        forall|i: int| 0 <= i < s.len() ==> (#[trigger] s[i]).0 != g,
    ensures
        gop_find(s, g) is None,
    decreases s.len(),
{
    if s.len() > 0 {
        lemma_gop_absent(s.drop_last(), g);
    }
}

proof fn lemma_gop_update(s: Seq<(GroupOrProfile, GopTally)>, i: int, t: GopTally)
    requires
        gops_unique(s),
        0 <= i < s.len(),
    ensures
        gops_unique(s.update(i, (s[i].0, t))),
        forall|g: GroupOrProfile|
            #[trigger] gop_find(s.update(i, (s[i].0, t)), g) == if g == s[i].0 {
                Some(t)
            } else {
                gop_find(s, g)
            },
    decreases s.len(),
{
    let u = s.update(i, (s[i].0, t));
    assert(gops_unique(u));
    if i == s.len() - 1 {
        assert(u.drop_last() =~= s.drop_last());
        assert(u.last() == (s[i].0, t));
        assert forall|g: GroupOrProfile|
            #[trigger] gop_find(u, g) == if g == s[i].0 {
                Some(t)
            } else {
                gop_find(s, g)
            } by {}
    } else {
        assert(gops_unique(s.drop_last()));
        assert(s.drop_last()[i] == s[i]);
        lemma_gop_update(s.drop_last(), i, t);
        assert(u.drop_last() =~= s.drop_last().update(i, (s[i].0, t)));
        assert(u.last() == s.last());
        assert(s.last().0 != s[i].0);
        assert forall|g: GroupOrProfile|
            #[trigger] gop_find(u, g) == if g == s[i].0 {
                Some(t)
            } else {
                gop_find(s, g)
            } by {
            if g != s.last().0 {
                assert(gop_find(u, g) == gop_find(u.drop_last(), g));
            }
        }
    }
}

proof fn lemma_gop_push(s: Seq<(GroupOrProfile, GopTally)>, g0: GroupOrProfile, t: GopTally)
    requires
        gops_unique(s),
        forall|i: int| 0 <= i < s.len() ==> (#[trigger] s[i]).0 != g0,
    ensures
        gops_unique(s.push((g0, t))),
        forall|g: GroupOrProfile|
            #[trigger] gop_find(s.push((g0, t)), g) == if g == g0 {
                Some(t)
            } else {
                gop_find(s, g)
            },
{
    let u = s.push((g0, t));
    assert(u.drop_last() =~= s);
    assert(u.last() == (g0, t));
    assert forall|a: int, b: int| 0 <= a < b < u.len() implies (#[trigger] u[a]).0 != (
    #[trigger] u[b]).0 by {
        if b < u.len() - 1 {
            assert(u[a] == s[a] && u[b] == s[b]);
        } else {
            assert(u[a] == s[a]);
        }
    }
}

/// One selectable outcome of a voting, with its tally.
#[derive(Clone, Debug)]
pub struct Choice {
    id: Option<ChoiceId>,
    voting_id: VotingId,
    name: String,
    description: String,
    program: Program,
    tallies: Vec<(GroupOrProfile, GopTally)>,
}

impl Choice {
    pub closed spec fn spec_id(&self) -> Option<ChoiceId> {
        self.id
    }

    pub closed spec fn spec_voting_id(&self) -> VotingId {
        self.voting_id
    }

    pub closed spec fn spec_name(&self) -> Seq<char> {
        self.name@
    }

    pub closed spec fn spec_description(&self) -> Seq<char> {
        self.description@
    }

    pub closed spec fn spec_program(&self) -> Program {
        self.program
    }

    pub closed spec fn spec_tallies(&self) -> Seq<(GroupOrProfile, GopTally)> {
        self.tallies@
    }

    /// The scope-level running sum for a scope (`voted_shares_sum`).
    pub open spec fn spec_total(&self, g: GroupOrProfile) -> int {
        match gop_find(self.spec_tallies(), g) {
            Some(t) => t.total as int,
            None => 0,
        }
    }

    /// The amount recorded for one voter in one scope (`shares_by_voter`).
    pub open spec fn spec_voter_shares(&self, g: GroupOrProfile, v: u64) -> int {
        match gop_find(self.spec_tallies(), g) {
            Some(t) => voter_amount(t.by_voter@, v),
            None => 0,
        }
    }

    /// Tally invariant: scopes are unique, and within each scope the running
    /// sum equals the sum of the per-voter amounts.
    pub open spec fn tallies_wf(&self) -> bool {
        gops_unique(self.spec_tallies()) && forall|i: int|
            0 <= i < self.spec_tallies().len() ==> (#[trigger] self.spec_tallies()[i]).1.wf()
    }

    /// Builds a choice with a validated, trimmed name and description and an
    /// empty tally.
    pub fn new(name: String, description: String, program: Program, voting_id: VotingId) -> (r:
        Result<Self, ValidationError>)
        ensures
            match r {
                Ok(c) => {
                    &&& trimmed_len_ok(
                        name@,
                        VOTING_CHOICE_NAME_MIN_LEN as int,
                        VOTING_CHOICE_NAME_MAX_LEN as int,
                    )
                    &&& trimmed_len_ok(
                        description@,
                        VOTING_CHOICE_DESCRIPTION_MIN_LEN as int,
                        VOTING_CHOICE_DESCRIPTION_MAX_LEN as int,
                    )
                    &&& c.spec_id() is None
                    &&& c.spec_voting_id() == voting_id
                    &&& c.spec_name() == trimmed_of(name@)
                    &&& c.spec_description() == trimmed_of(description@)
                    &&& c.spec_program() == program
                    &&& c.spec_tallies() == Seq::<(GroupOrProfile, GopTally)>::empty()
                    &&& c.tallies_wf()
                },
                Err(e) => {
                    &&& !(trimmed_len_ok(
                        name@,
                        VOTING_CHOICE_NAME_MIN_LEN as int,
                        VOTING_CHOICE_NAME_MAX_LEN as int,
                    ) && trimmed_len_ok(
                        description@,
                        VOTING_CHOICE_DESCRIPTION_MIN_LEN as int,
                        VOTING_CHOICE_DESCRIPTION_MAX_LEN as int,
                    ))
                    &&& if !trimmed_len_ok(name@, VOTING_CHOICE_NAME_MIN_LEN as int, VOTING_CHOICE_NAME_MAX_LEN as int) {
                        e.field@ == "Choice name"@ && (if byte_len(trimmed_of(name@)) > VOTING_CHOICE_NAME_MAX_LEN {
                            e.reason == (ValidationReason::TooLong {
                                max: VOTING_CHOICE_NAME_MAX_LEN,
                                actual: byte_len(trimmed_of(name@)) as usize,
                            })
                        } else {
                            e.reason == (ValidationReason::TooShort {
                                min: VOTING_CHOICE_NAME_MIN_LEN,
                                actual: byte_len(trimmed_of(name@)) as usize,
                            })
                        })
                    } else {
                        e.field@ == "Choice description"@ && (if byte_len(trimmed_of(description@)) > VOTING_CHOICE_DESCRIPTION_MAX_LEN {
                            e.reason == (ValidationReason::TooLong {
                                max: VOTING_CHOICE_DESCRIPTION_MAX_LEN,
                                actual: byte_len(trimmed_of(description@)) as usize,
                            })
                        } else {
                            e.reason == (ValidationReason::TooShort {
                                min: VOTING_CHOICE_DESCRIPTION_MIN_LEN,
                                actual: byte_len(trimmed_of(description@)) as usize,
                            })
                        })
                    }
                },
            },
    {
        let name2 = match Self::process_name(name) {
            Ok(n) => n,
            Err(e) => {
                return Err(e);
            },
        };
        let description2 = match Self::process_description(description) {
            Ok(d) => d,
            Err(e) => {
                return Err(e);
            },
        };
        let c = Choice {
            id: None,
            voting_id,
            name: name2,
            description: description2,
            program,
            tallies: Vec::new(),
        };
        proof {
            assert(c.spec_tallies() =~= Seq::<(GroupOrProfile, GopTally)>::empty());
        }
        Ok(c)
    }

    /// The built-in "Reject" choice of a voting.
    pub fn new_rejection(voting_id: VotingId) -> (r: Self)
        ensures
            r.spec_id() is None,
            r.spec_voting_id() == voting_id,
            r.spec_name() == "Reject"@,
            r.spec_description() == "I don't support this voting"@,
            r.spec_program() is Empty,
            r.spec_tallies() == Seq::<(GroupOrProfile, GopTally)>::empty(),
            r.tallies_wf(),
    {
        proof {
            reveal_strlit("Reject");
            reveal_strlit("I don't support this voting");
            assert(trimmed_of("Reject"@) =~= "Reject"@);
            assert(trimmed_of("I don't support this voting"@) =~= "I don't support this voting"@);
            assert(vstd::utf8::is_ascii_chars("Reject"@));
            vstd::utf8::is_ascii_chars_encode_utf8("Reject"@);
            assert(vstd::utf8::is_ascii_chars("I don't support this voting"@));
            vstd::utf8::is_ascii_chars_encode_utf8("I don't support this voting"@);
        }
        let name = String::from_str("Reject");
        let description = String::from_str("I don't support this voting");
        match Self::new(name, description, Program::Empty, voting_id) {
            Ok(c) => c,
            Err(_) => {
                proof {
                    assert(false);
                }
                Choice {
                    id: None,
                    voting_id,
                    name: String::new(),
                    description: String::new(),
                    program: Program::Empty,
                    tallies: Vec::new(),
                }
            },
        }
    }

    /// The built-in "Approve" choice of a voting.
    pub fn new_approval(voting_id: VotingId) -> (r: Self)
        ensures
            r.spec_id() is None,
            r.spec_voting_id() == voting_id,
            r.spec_name() == "Approve"@,
            r.spec_description() == "This voting makes sense to me"@,
            r.spec_program() is Empty,
            r.spec_tallies() == Seq::<(GroupOrProfile, GopTally)>::empty(),
            r.tallies_wf(),
    {
        proof {
            reveal_strlit("Approve");
            reveal_strlit("This voting makes sense to me");
            assert(trimmed_of("Approve"@) =~= "Approve"@);
            assert(trimmed_of("This voting makes sense to me"@) =~= "This voting makes sense to me"@);
            assert(vstd::utf8::is_ascii_chars("Approve"@));
            vstd::utf8::is_ascii_chars_encode_utf8("Approve"@);
            assert(vstd::utf8::is_ascii_chars("This voting makes sense to me"@));
            vstd::utf8::is_ascii_chars_encode_utf8("This voting makes sense to me"@);
        }
        let name = String::from_str("Approve");
        let description = String::from_str("This voting makes sense to me");
        match Self::new(name, description, Program::Empty, voting_id) {
            Ok(c) => c,
            Err(_) => {
                proof {
                    assert(false);
                }
                Choice {
                    id: None,
                    voting_id,
                    name: String::new(),
                    description: String::new(),
                    program: Program::Empty,
                    tallies: Vec::new(),
                }
            },
        }
    }

    /// Replaces any of the name, description and program after validation;
    /// nothing changes when a replacement is rejected.
    pub fn update(
        &mut self,
        new_name: Option<String>,
        new_description: Option<String>,
        new_program: Option<Program>,
    ) -> (r: Result<(), ValidationError>)
        ensures
            match r {
                Ok(()) => {
                    &&& final(self).spec_id() == old(self).spec_id()
                    &&& final(self).spec_voting_id() == old(self).spec_voting_id()
                    &&& final(self).spec_tallies() == old(self).spec_tallies()
                    &&& final(self).spec_name() == (match new_name {
                        Some(n) => trimmed_of(n@),
                        None => old(self).spec_name(),
                    })
                    &&& final(self).spec_description() == (match new_description {
                        Some(d) => trimmed_of(d@),
                        None => old(self).spec_description(),
                    })
                    &&& final(self).spec_program() == (match new_program {
                        Some(p) => p,
                        None => old(self).spec_program(),
                    })
                },
                Err(_) => *final(self) == *old(self),
            },
            r is Ok <==> {
                &&& (match new_name {
                    Some(n) => trimmed_len_ok(
                        n@,
                        VOTING_CHOICE_NAME_MIN_LEN as int,
                        VOTING_CHOICE_NAME_MAX_LEN as int,
                    ),
                    None => true,
                })
                &&& (match new_description {
                    Some(d) => trimmed_len_ok(
                        d@,
                        VOTING_CHOICE_DESCRIPTION_MIN_LEN as int,
                        VOTING_CHOICE_DESCRIPTION_MAX_LEN as int,
                    ),
                    None => true,
                })
            },
    {
        let name2 = match new_name {
            Some(n) => match Self::process_name(n) {
                Ok(n2) => Some(n2),
                Err(e) => {
                    return Err(e);
                },
            },
            None => None,
        };
        let description2 = match new_description {
            Some(d) => match Self::process_description(d) {
                Ok(d2) => Some(d2),
                Err(e) => {
                    return Err(e);
                },
            },
            None => None,
        };
        if let Some(n) = name2 {
            self.name = n;
        }
        if let Some(d) = description2 {
            self.description = d;
        }
        if let Some(p) = new_program {
            self.program = p;
        }
        Ok(())
    }

    /// Adds `amount` shares for one voter in one scope: both the per-voter
    /// amount and the scope's running sum grow by `amount`; every other
    /// scope and voter is untouched.
    #[verifier::loop_isolation(false)]
    pub fn add_vote(&mut self, gop: GroupOrProfile, voter: u64, amount: Shares)
        requires
            old(self).tallies_wf(),
            old(self).spec_total(gop) + amount <= u64::MAX,
        ensures
            final(self).tallies_wf(),
            final(self).spec_id() == old(self).spec_id(),
            final(self).spec_voting_id() == old(self).spec_voting_id(),
            final(self).spec_name() == old(self).spec_name(),
            final(self).spec_description() == old(self).spec_description(),
            final(self).spec_program() == old(self).spec_program(),
            final(self).spec_total(gop) == old(self).spec_total(gop) + amount,
            final(self).spec_voter_shares(gop, voter) == old(self).spec_voter_shares(gop, voter)
                + amount,
            forall|g: GroupOrProfile|
                g != gop ==> #[trigger] final(self).spec_total(g) == old(self).spec_total(g),
            forall|g: GroupOrProfile, v: u64|
                !(g == gop && v == voter) ==> #[trigger] final(self).spec_voter_shares(g, v)
                    == old(self).spec_voter_shares(g, v),
    {
        let ghost s0 = self.tallies@;
        let n = self.tallies.len();
        let mut i: usize = 0;
        while i < n
            invariant
                i <= n,
                n == self.tallies@.len(),
                *self == *old(self),
                forall|j: int| 0 <= j < i ==> (#[trigger] self.tallies@[j]).0 != gop,
            decreases n - i,
        {
            if self.tallies[i].0 == gop {
                proof {
                    lemma_gop_at(s0, i as int);
                    lemma_amount_le_sum(s0[i as int].1.by_voter@, voter);
                    lemma_sum_nonneg(s0[i as int].1.by_voter@);
                }
                let row_len = self.tallies[i].1.by_voter.len();
                let mut k: usize = 0;
                let mut pos: Option<usize> = None;
                while k < row_len
                    invariant
                        k <= row_len,
                        i < self.tallies@.len(),
                        *self == *old(self),
                        row_len == self.tallies@[i as int].1.by_voter@.len(),
                        match pos {
                            Some(p) => p < row_len && self.tallies@[i as int].1.by_voter@[
                                p as int
                            ].0 == voter,
                            None => forall|j: int|
                                0 <= j < k ==> (#[trigger] self.tallies@[i as int].1.by_voter@[
                                    j
                                ]).0 != voter,
                        },
                    decreases row_len - k,
                {
                    if self.tallies[i].1.by_voter[k].0 == voter {
                        pos = Some(k);
                        k = row_len;
                    } else {
                        k = k + 1;
                    }
                }
                let row = &self.tallies[i].1;
                let new_total = row.total + amount;
                match pos {
                    Some(p) => {
                        proof {
                            lemma_voter_at(s0[i as int].1.by_voter@, p as int);
                            lemma_update_voter(
                                s0[i as int].1.by_voter@,
                                p as int,
                                (s0[i as int].1.by_voter@[p as int].1 + amount) as Shares,
                            );
                        }
                        let old_amt = self.tallies[i].1.by_voter[p].1;
                        let slot = &mut self.tallies[i];
                        let cell = &mut slot.1.by_voter[p];
                        *cell = (voter, old_amt + amount);
                        slot.1.total = new_total;
                        proof {
                            let new_row = self.tallies@[i as int].1;
                            assert(new_row.by_voter@ =~= s0[i as int].1.by_voter@.update(
                                p as int,
                                (voter, (s0[i as int].1.by_voter@[p as int].1 + amount) as Shares),
                            ));
                            assert(self.tallies@ =~= s0.update(i as int, (gop, new_row)));
                            lemma_gop_update(s0, i as int, new_row);
                        }
                    },
                    None => {
                        proof {
                            lemma_voter_absent(s0[i as int].1.by_voter@, voter);
                            lemma_push_voter(s0[i as int].1.by_voter@, voter, amount);
                        }
                        let slot = &mut self.tallies[i];
                        slot.1.by_voter.push((voter, amount));
                        slot.1.total = new_total;
                        proof {
                            let new_row = self.tallies@[i as int].1;
                            assert(new_row.by_voter@ =~= s0[i as int].1.by_voter@.push(
                                (voter, amount),
                            ));
                            assert(self.tallies@ =~= s0.update(i as int, (gop, new_row)));
                            lemma_gop_update(s0, i as int, new_row);
                        }
                    },
                }
                return ;
            }
            i = i + 1;
        }
        proof {
            lemma_gop_absent(s0, gop);
        }
        let mut by_voter: Vec<(u64, Shares)> = Vec::new();
        by_voter.push((voter, amount));
        let row = GopTally { total: amount, by_voter };
        self.tallies.push((gop, row));
        proof {
            let r2 = self.tallies@.last().1;
            assert(r2.by_voter@ =~= Seq::<(u64, Shares)>::empty().push((voter, amount)));
            assert(r2.by_voter@.drop_last() =~= Seq::<(u64, Shares)>::empty());
            assert(shares_sum(Seq::<(u64, Shares)>::empty()) == 0);
            assert(shares_sum(r2.by_voter@) == amount);
            assert(voters_unique(r2.by_voter@));
            assert(voter_amount(r2.by_voter@, voter) == amount);
            assert forall|v: u64| v != voter implies voter_amount(r2.by_voter@, v) == 0 by {
                assert(voter_amount(Seq::<(u64, Shares)>::empty(), v) == 0);
            }
            assert(self.tallies@ =~= s0.push((gop, r2)));
            lemma_gop_push(s0, gop, r2);
        }
    }

    /// Clears one voter's recorded amount in one scope, subtracting exactly
    /// that amount from the scope's running sum; every other scope and voter
    /// is untouched. Returns the amount cleared.
    #[verifier::loop_isolation(false)]
    pub fn remove_vote(&mut self, gop: GroupOrProfile, voter: u64) -> (r: Shares)
        requires
            old(self).tallies_wf(),
        ensures
            final(self).tallies_wf(),
            final(self).spec_id() == old(self).spec_id(),
            final(self).spec_voting_id() == old(self).spec_voting_id(),
            final(self).spec_name() == old(self).spec_name(),
            final(self).spec_description() == old(self).spec_description(),
            final(self).spec_program() == old(self).spec_program(),
            r == old(self).spec_voter_shares(gop, voter),
            final(self).spec_voter_shares(gop, voter) == 0,
            final(self).spec_total(gop) == old(self).spec_total(gop) - r,
            forall|g: GroupOrProfile|
                g != gop ==> #[trigger] final(self).spec_total(g) == old(self).spec_total(g),
            forall|g: GroupOrProfile, v: u64|
                !(g == gop && v == voter) ==> #[trigger] final(self).spec_voter_shares(g, v)
                    == old(self).spec_voter_shares(g, v),
    {
        let ghost s0 = self.tallies@;
        let n = self.tallies.len();
        let mut i: usize = 0;
        while i < n
            invariant
                i <= n,
                n == self.tallies@.len(),
                *self == *old(self),
                forall|j: int| 0 <= j < i ==> (#[trigger] self.tallies@[j]).0 != gop,
            decreases n - i,
        {
            if self.tallies[i].0 == gop {
                proof {
                    lemma_gop_at(s0, i as int);
                    lemma_amount_le_sum(s0[i as int].1.by_voter@, voter);
                    lemma_sum_nonneg(s0[i as int].1.by_voter@);
                }
                let row_len = self.tallies[i].1.by_voter.len();
                let mut k: usize = 0;
                let mut pos: Option<usize> = None;
                while k < row_len
                    invariant
                        k <= row_len,
                        i < self.tallies@.len(),
                        *self == *old(self),
                        row_len == self.tallies@[i as int].1.by_voter@.len(),
                        match pos {
                            Some(p) => p < row_len && self.tallies@[i as int].1.by_voter@[
                                p as int
                            ].0 == voter,
                            None => forall|j: int|
                                0 <= j < k ==> (#[trigger] self.tallies@[i as int].1.by_voter@[
                                    j
                                ]).0 != voter,
                        },
                    decreases row_len - k,
                {
                    if self.tallies[i].1.by_voter[k].0 == voter {
                        pos = Some(k);
                        k = row_len;
                    } else {
                        k = k + 1;
                    }
                }
                match pos {
                    Some(p) => {
                        proof {
                            lemma_voter_at(s0[i as int].1.by_voter@, p as int);
                            lemma_remove_voter(s0[i as int].1.by_voter@, p as int);
                        }
                        let amt = self.tallies[i].1.by_voter[p].1;
                        let old_total = self.tallies[i].1.total;
                        let slot = &mut self.tallies[i];
                        slot.1.by_voter.remove(p);
                        slot.1.total = old_total - amt;
                        proof {
                            let new_row = self.tallies@[i as int].1;
                            assert(new_row.by_voter@ =~= s0[i as int].1.by_voter@.remove(p as int));
                            assert(self.tallies@ =~= s0.update(i as int, (gop, new_row)));
                            lemma_gop_update(s0, i as int, new_row);
                        }
                        return amt;
                    },
                    None => {
                        proof {
                            lemma_voter_absent(s0[i as int].1.by_voter@, voter);
                        }
                        return 0;
                    },
                }
            }
            i = i + 1;
        }
        proof {
            lemma_gop_absent(s0, gop);
        }
        0
    }

    pub fn get_voting_id(&self) -> (r: &VotingId)
        ensures
            *r == self.spec_voting_id(),
    {
        &self.voting_id
    }

    pub fn get_program(&self) -> (r: &Program)
        ensures
            *r == self.spec_program(),
    {
        &self.program
    }

    /// The scope-level running sum for a scope (`voted_shares_sum` of the
    /// data model); 0 when the scope has never voted on this choice.
    #[verifier::loop_isolation(false)]
    pub fn get_voted_shares_sum(&self, gop: GroupOrProfile) -> (r: Shares)
        requires
            self.tallies_wf(),
        ensures
            r == self.spec_total(gop),
    {
        let n = self.tallies.len();
        let mut i: usize = 0;
        while i < n
            invariant
                i <= n,
                n == self.tallies@.len(),
                forall|j: int| 0 <= j < i ==> (#[trigger] self.tallies@[j]).0 != gop,
                self.tallies_wf(),
            decreases n - i,
        {
            if self.tallies[i].0 == gop {
                proof {
                    lemma_gop_at(self.tallies@, i as int);
                }
                return self.tallies[i].1.total;
            }
            i = i + 1;
        }
        proof {
            lemma_gop_absent(self.tallies@, gop);
        }
        0
    }

    /// The amount one voter has recorded in one scope (`shares_by_voter` of
    /// the data model); 0 without a recorded vote.
    #[verifier::loop_isolation(false)]
    pub fn get_shares_of_voter(&self, gop: GroupOrProfile, voter: u64) -> (r: Shares)
        requires
            self.tallies_wf(),
        ensures
            r == self.spec_voter_shares(gop, voter),
    {
        let n = self.tallies.len();
        let mut i: usize = 0;
        while i < n
            invariant
                i <= n,
                n == self.tallies@.len(),
                forall|j: int| 0 <= j < i ==> (#[trigger] self.tallies@[j]).0 != gop,
                self.tallies_wf(),
            decreases n - i,
        {
            if self.tallies[i].0 == gop {
                proof {
                    lemma_gop_at(self.tallies@, i as int);
                    lemma_amount_le_sum(self.tallies@[i as int].1.by_voter@, voter);
                    lemma_sum_nonneg(self.tallies@[i as int].1.by_voter@);
                }
                let row_len = self.tallies[i].1.by_voter.len();
                let mut k: usize = 0;
                while k < row_len
                    invariant
                        k <= row_len,
                        i < self.tallies@.len(),
                        self.tallies@[i as int].0 == gop,
                        self.tallies_wf(),
                        gop_find(self.tallies@, gop) == Some(self.tallies@[i as int].1),
                        row_len == self.tallies@[i as int].1.by_voter@.len(),
                        forall|j: int|
                            0 <= j < k ==> (#[trigger] self.tallies@[i as int].1.by_voter@[j]).0
                                != voter,
                    decreases row_len - k,
                {
                    if self.tallies[i].1.by_voter[k].0 == voter {
                        proof {
                            lemma_voter_at(self.tallies@[i as int].1.by_voter@, k as int);
                        }
                        return self.tallies[i].1.by_voter[k].1;
                    }
                    k = k + 1;
                }
                proof {
                    lemma_voter_absent(self.tallies@[i as int].1.by_voter@, voter);
                }
                return 0;
            }
            i = i + 1;
        }
        proof {
            lemma_gop_absent(self.tallies@, gop);
        }
        0
    }

    pub fn get_id(&self) -> (r: Option<ChoiceId>)
        ensures
            r == self.spec_id(),
    {
        self.id
    }

    pub fn is_transient(&self) -> (r: bool)
        ensures
            r == (self.spec_id() is None),
    {
        self.id.is_none()
    }

    /// Assigns the id on first save; an already-identified choice can never
    /// be re-assigned.
    pub fn init_id(&mut self, id: ChoiceId)
        requires
            old(self).spec_id() is None,
        ensures
            final(self).spec_id() == Some(id),
            final(self).spec_voting_id() == old(self).spec_voting_id(),
            final(self).spec_name() == old(self).spec_name(),
            final(self).spec_description() == old(self).spec_description(),
            final(self).spec_program() == old(self).spec_program(),
            final(self).spec_tallies() == old(self).spec_tallies(),
    {
        self.id = Some(id);
    }

    fn process_name(name: String) -> (r: Result<String, ValidationError>)
        ensures
            match r {
                Ok(t) => trimmed_len_ok(
                    name@,
                    VOTING_CHOICE_NAME_MIN_LEN as int,
                    VOTING_CHOICE_NAME_MAX_LEN as int,
                ) && t@ == trimmed_of(name@),
                Err(e) => !trimmed_len_ok(
                    name@,
                    VOTING_CHOICE_NAME_MIN_LEN as int,
                    VOTING_CHOICE_NAME_MAX_LEN as int,
                ) && e.field@ == "Choice name"@ && (if byte_len(trimmed_of(name@)) > VOTING_CHOICE_NAME_MAX_LEN {
                    e.reason == (ValidationReason::TooLong {
                        max: VOTING_CHOICE_NAME_MAX_LEN,
                        actual: byte_len(trimmed_of(name@)) as usize,
                    })
                } else {
                    e.reason == (ValidationReason::TooShort {
                        min: VOTING_CHOICE_NAME_MIN_LEN,
                        actual: byte_len(trimmed_of(name@)) as usize,
                    })
                }),
            },
    {
        validate_and_trim_str(
            name,
            VOTING_CHOICE_NAME_MIN_LEN,
            VOTING_CHOICE_NAME_MAX_LEN,
            "Choice name",
        )
    }

    fn process_description(description: String) -> (r: Result<String, ValidationError>)
        ensures
            match r {
                Ok(t) => trimmed_len_ok(
                    description@,
                    VOTING_CHOICE_DESCRIPTION_MIN_LEN as int,
                    VOTING_CHOICE_DESCRIPTION_MAX_LEN as int,
                ) && t@ == trimmed_of(description@),
                Err(e) => !trimmed_len_ok(
                    description@,
                    VOTING_CHOICE_DESCRIPTION_MIN_LEN as int,
                    VOTING_CHOICE_DESCRIPTION_MAX_LEN as int,
                ) && e.field@ == "Choice description"@ && (if byte_len(trimmed_of(description@)) > VOTING_CHOICE_DESCRIPTION_MAX_LEN {
                    e.reason == (ValidationReason::TooLong {
                        max: VOTING_CHOICE_DESCRIPTION_MAX_LEN,
                        actual: byte_len(trimmed_of(description@)) as usize,
                    })
                } else {
                    e.reason == (ValidationReason::TooShort {
                        min: VOTING_CHOICE_DESCRIPTION_MIN_LEN,
                        actual: byte_len(trimmed_of(description@)) as usize,
                    })
                }),
            },
    {
        validate_and_trim_str(
            description,
            VOTING_CHOICE_DESCRIPTION_MIN_LEN,
            VOTING_CHOICE_DESCRIPTION_MAX_LEN,
            "Choice description",
        )
    }
}

/// A key of a duplicate-free table has no amount recorded in the strict
/// prefix before its own entry.
pub proof fn lemma_voter_absent_prefix(s: Seq<(u64, Shares)>, k: int)
    requires
        voters_unique(s),
        0 <= k < s.len(),
    ensures
        voter_amount(s.take(k), s[k].0) == 0,
{
    assert forall|j: int| 0 <= j < k implies (#[trigger] s.take(k)[j]).0 != s[k].0 by {
        assert(s.take(k)[j] == s[j]);
    }
    lemma_voter_absent(s.take(k), s[k].0);
}

/// Extending a prefix by one entry changes only that entry's key.
pub proof fn lemma_voter_amount_take_step(s: Seq<(u64, Shares)>, k: int, key: u64)
    requires
        0 <= k < s.len(),
    ensures
        voter_amount(s.take(k + 1), key) == if key == s[k].0 {
            s[k].1 as int
        } else {
            voter_amount(s.take(k), key)
        },
{
    assert(s.take(k + 1).drop_last() =~= s.take(k));
    assert(s.take(k + 1).last() == s[k]);
}

/// A well-formed choice never records more for one voter than the scope's
/// running sum.
pub proof fn lemma_voter_le_total(c: &Choice, g: GroupOrProfile, v: u64)
    requires
        c.tallies_wf(),
    ensures
        0 <= c.spec_voter_shares(g, v) <= c.spec_total(g),
{
    lemma_gop_find_wf(c.spec_tallies(), g);
    match gop_find(c.spec_tallies(), g) {
        Some(t) => {
            lemma_amount_le_sum(t.by_voter@, v);
        },
        None => {},
    }
}

/// Law: within every scope of a well-formed tally, the scope-level running
/// sum equals the sum of the current per-voter amounts.
pub proof fn lemma_tally_sum_consistent(c: &Choice, g: GroupOrProfile)
    requires
        c.tallies_wf(),
    ensures
        match gop_find(c.spec_tallies(), g) {
            Some(t) => c.spec_total(g) == shares_sum(t.by_voter@),
            None => c.spec_total(g) == 0,
        },
{
    lemma_gop_find_wf(c.spec_tallies(), g);
}

proof fn lemma_gop_find_wf(s: Seq<(GroupOrProfile, GopTally)>, g: GroupOrProfile)
    requires
        forall|i: int| 0 <= i < s.len() ==> (#[trigger] s[i]).1.wf(),
    ensures
        match gop_find(s, g) {
            Some(t) => t.wf(),
            None => true,
        },
    decreases s.len(),
{
    if s.len() > 0 {
        lemma_gop_find_wf(s.drop_last(), g);
    }
}

/// The ids among `ids` whose stored choice belongs to `voting_id`, in
/// listing order.
pub open spec fn choice_ids_of_voting(
    ids: Seq<u64>,
    m: Map<u64, Choice>,
    voting_id: VotingId,
) -> Seq<u64>
    decreases ids.len(),
{
    if ids.len() == 0 {
        Seq::empty()
    } else {
        let rest = choice_ids_of_voting(ids.drop_last(), m, voting_id);
        if m.contains_key(ids.last()) && m[ids.last()].spec_voting_id() == voting_id {
            rest.push(ids.last())
        } else {
            rest
        }
    }
}

/// Owns every choice; ids are assigned once, monotonically.
pub struct ChoiceRepository {
    choices: IdMap<Choice>,
    choice_ids_counter: ChoiceId,
}

impl ChoiceRepository {
    pub closed spec fn view(&self) -> Map<u64, Choice> {
        self.choices@
    }

    pub closed spec fn spec_keys(&self) -> Seq<u64> {
        self.choices.keys()
    }

    pub closed spec fn spec_counter(&self) -> ChoiceId {
        self.choice_ids_counter
    }

    pub open spec fn wf(&self) -> bool {
        &&& self.spec_wf_inner()
    }

    pub closed spec fn spec_wf_inner(&self) -> bool {
        &&& self.choices.wf()
        &&& forall|id: u64|
            #[trigger] self.choices@.contains_key(id) ==> id < self.choice_ids_counter
                && self.choices@[id].spec_id() == Some(id) && self.choices@[id].tallies_wf()
    }

    /// Relates the listing order to the stored map: the keys list each
    /// stored id exactly once.
    pub proof fn lemma_keys(&self)
        requires
            self.wf(),
        ensures
            self.spec_keys().len() == self@.len(),
            forall|k: u64| self@.contains_key(k) <==> self.spec_keys().contains(k),
            forall|i: int, j: int|
                0 <= i < j < self.spec_keys().len() ==> #[trigger] self.spec_keys()[i]
                    != #[trigger] self.spec_keys()[j],
            forall|i: int|
                0 <= i < self.spec_keys().len() ==> self@.contains_key(
                    #[trigger] self.spec_keys()[i],
                ),
    {
        self.choices.lemma_keys();
    }

    /// Every stored choice keeps the tally invariant.
    pub proof fn lemma_stored_tallies_wf(&self, id: u64)
        requires
            self.wf(),
            self@.contains_key(id),
        ensures
            self@[id].tallies_wf(),
    {
    }


    /// A stored entity carries its own key as id, below the counter.
    pub proof fn lemma_stored_id(&self, id: u64)
        requires
            self.wf(),
            self@.contains_key(id),
        ensures
            self@[id].spec_id() == Some(id),
            id < self.spec_counter(),
    {
    }

    pub fn new() -> (r: Self)
        ensures
            r.wf(),
            r@ == Map::<u64, Choice>::empty(),
            r.spec_counter() == 0,
    {
        ChoiceRepository { choices: IdMap::new(), choice_ids_counter: 0 }
    }

    /// Saves a choice: a transient one is assigned the next fresh id; an
    /// already-identified one replaces its stored version.
    pub fn save(&mut self, it: Choice) -> (r: ChoiceId)
        requires
            old(self).wf(),
            it.spec_id() is None ==> old(self).spec_counter() < u64::MAX,
            it.tallies_wf(),
            it.spec_id() matches Some(i) ==> i < old(self).spec_counter(),
        ensures
            final(self).wf(),
            match it.spec_id() {
                Some(i) => r == i && final(self)@ == old(self)@.insert(i, it) && final(self).spec_counter() == old(self).spec_counter(),
                None => {
                    &&& r == old(self).spec_counter()
                    &&& !old(self)@.contains_key(r)
                    &&& final(self).spec_counter() == old(self).spec_counter() + 1
                    &&& final(self)@ == old(self)@.insert(r, final(self)@[r])
                    &&& final(self)@[r].spec_id() == Some(r)
                    &&& final(self)@[r].spec_voting_id() == it.spec_voting_id()
                    &&& final(self)@[r].spec_name() == it.spec_name()
                    &&& final(self)@[r].spec_description() == it.spec_description()
                    &&& final(self)@[r].spec_program() == it.spec_program()
                    &&& final(self)@[r].spec_tallies() == it.spec_tallies()
                },
            },
            old(self)@.contains_key(r) ==> final(self).spec_keys() == old(self).spec_keys(),
            !old(self)@.contains_key(r) ==> final(self).spec_keys() == old(self).spec_keys().push(
                r,
            ),
    {
        let mut it = it;
        match it.get_id() {
            Some(i) => {
                self.choices.insert(i, it);
                i
            },
            None => {
                let id = self.choice_ids_counter;
                self.choice_ids_counter = id + 1;
                it.init_id(id);
                self.choices.insert(id, it);
                id
            },
        }
    }

    /// Removes and returns a stored choice.
    pub fn delete(&mut self, id: &ChoiceId) -> (r: Option<Choice>)
        requires
            old(self).wf(),
        ensures
            final(self).wf(),
            final(self)@ == old(self)@.remove(*id),
            r is Some <==> old(self)@.contains_key(*id),
            r matches Some(c) ==> c == old(self)@[*id],
            r is None ==> *final(self) == *old(self),
            r is Some ==> exists|i: int|
                0 <= i < old(self).spec_keys().len() && old(self).spec_keys()[i] == *id
                    && final(self).spec_keys() == old(self).spec_keys().remove(i),
            final(self).spec_counter() == old(self).spec_counter(),
    {
        let r = self.choices.remove(*id);
        proof {
            if r is Some {
                let i = choose|i: int|
                    0 <= i < old(self).choices.keys().len() && old(self).choices.keys()[i] == *id
                        && self.choices.keys() == old(self).choices.keys().remove(i);
                assert(old(self).spec_keys()[i] == *id && self.spec_keys() == old(
                    self,
                ).spec_keys().remove(i));
            }
        }
        r
    }

    /// Looks a stored choice up.
    pub fn get(&self, id: &ChoiceId) -> (r: Option<&Choice>)
        requires
            self.wf(),
        ensures
            r is Some <==> self@.contains_key(*id),
            r matches Some(c) ==> *c == self@[*id],
    {
        self.choices.get(*id)
    }

    /// Clears one voter's amount on one stored choice, in place: the
    /// repository's listing order is untouched. Returns the amount cleared.
    pub fn clear_vote_in(&mut self, cid: ChoiceId, g: GroupOrProfile, ident: u64) -> (r: Shares)
        requires
            old(self).wf(),
            old(self)@.contains_key(cid),
        ensures
            final(self).wf(),
            final(self)@.dom() == old(self)@.dom(),
            final(self).spec_keys() == old(self).spec_keys(),
            final(self).spec_counter() == old(self).spec_counter(),
            r == old(self)@[cid].spec_voter_shares(g, ident),
            final(self)@[cid].spec_voter_shares(g, ident) == 0,
            final(self)@[cid].spec_total(g) == old(self)@[cid].spec_total(g) - r,
            final(self)@[cid].spec_id() == old(self)@[cid].spec_id(),
            final(self)@[cid].spec_voting_id() == old(self)@[cid].spec_voting_id(),
            final(self)@[cid].spec_name() == old(self)@[cid].spec_name(),
            final(self)@[cid].spec_description() == old(self)@[cid].spec_description(),
            final(self)@[cid].spec_program() == old(self)@[cid].spec_program(),
            forall|g2: GroupOrProfile|
                g2 != g ==> #[trigger] final(self)@[cid].spec_total(g2) == old(
                    self,
                )@[cid].spec_total(g2),
            forall|g2: GroupOrProfile, v2: u64|
                !(g2 == g && v2 == ident) ==> #[trigger] final(self)@[cid].spec_voter_shares(
                    g2,
                    v2,
                ) == old(self)@[cid].spec_voter_shares(g2, v2),
            forall|c2: u64|
                c2 != cid && old(self)@.contains_key(c2) ==> #[trigger] final(self)@[c2] == old(
                    self,
                )@[c2],
    {
        proof {
            self.lemma_stored_tallies_wf(cid);
            self.lemma_stored_id(cid);
        }
        let removed: Shares;
        match self.choices.get_mut(cid) {
            Some(c) => {
                removed = c.remove_vote(g, ident);
            },
            None => {
                proof {
                    assert(false);
                }
                removed = 0;
            },
        }
        proof {
            assert(self@.dom() =~= old(self)@.dom());
        }
        removed
    }

    /// Adds shares for one voter on one stored choice, in place: the
    /// repository's listing order is untouched.
    pub fn add_shares_in(&mut self, cid: ChoiceId, g: GroupOrProfile, ident: u64, amount: Shares)
        requires
            old(self).wf(),
            old(self)@.contains_key(cid),
            old(self)@[cid].spec_total(g) + amount <= u64::MAX,
        ensures
            final(self).wf(),
            final(self)@.dom() == old(self)@.dom(),
            final(self).spec_keys() == old(self).spec_keys(),
            final(self).spec_counter() == old(self).spec_counter(),
            final(self)@[cid].spec_voter_shares(g, ident) == old(self)@[cid].spec_voter_shares(
                g,
                ident,
            ) + amount,
            final(self)@[cid].spec_total(g) == old(self)@[cid].spec_total(g) + amount,
            final(self)@[cid].spec_id() == old(self)@[cid].spec_id(),
            final(self)@[cid].spec_voting_id() == old(self)@[cid].spec_voting_id(),
            final(self)@[cid].spec_name() == old(self)@[cid].spec_name(),
            final(self)@[cid].spec_description() == old(self)@[cid].spec_description(),
            final(self)@[cid].spec_program() == old(self)@[cid].spec_program(),
            forall|g2: GroupOrProfile|
                g2 != g ==> #[trigger] final(self)@[cid].spec_total(g2) == old(
                    self,
                )@[cid].spec_total(g2),
            forall|g2: GroupOrProfile, v2: u64|
                !(g2 == g && v2 == ident) ==> #[trigger] final(self)@[cid].spec_voter_shares(
                    g2,
                    v2,
                ) == old(self)@[cid].spec_voter_shares(g2, v2),
            forall|c2: u64|
                c2 != cid && old(self)@.contains_key(c2) ==> #[trigger] final(self)@[c2] == old(
                    self,
                )@[c2],
    {
        proof {
            self.lemma_stored_tallies_wf(cid);
            self.lemma_stored_id(cid);
        }
        match self.choices.get_mut(cid) {
            Some(c) => {
                c.add_vote(g, ident, amount);
            },
            None => {
                proof {
                    assert(false);
                }
            },
        }
        proof {
            assert(self@.dom() =~= old(self)@.dom());
        }
    }

    /// One page of the ids of the choices belonging to a voting, in listing
    /// order.
    #[verifier::loop_isolation(false)]
    pub fn list(&self, voting_id: VotingId, page_index: usize, page_size: usize) -> (r: Page<
        ChoiceId,
    >)
        requires
            self.wf(),
        ensures
            r.data@ == page_window(
                choice_ids_of_voting(self.spec_keys(), self@, voting_id),
                page_index as int,
                page_size as int,
            ),
            r.has_next == spec_has_next(
                choice_ids_of_voting(self.spec_keys(), self@, voting_id).len() as int,
                page_index as int,
                page_size as int,
            ),
    {
        let n = self.choices.len();
        let mut matching: Vec<ChoiceId> = Vec::new();
        let mut i: usize = 0;
        while i < n
            invariant
                i <= n,
                n == self.spec_keys().len(),
                matching@ == choice_ids_of_voting(self.spec_keys().take(i as int), self@, voting_id),
            decreases n - i,
        {
            let id = self.choices.key_at(i);
            let c = self.choices.value_at(i);
            proof {
                assert(self.spec_keys().take(i as int + 1).drop_last() =~= self.spec_keys().take(
                    i as int,
                ));
                assert(self.spec_keys().take(i as int + 1).last() == self.spec_keys()[i as int]);
            }
            if c.get_voting_id() == &voting_id {
                matching.push(id);
            }
            i = i + 1;
        }
        proof {
            assert(self.spec_keys().take(n as int) =~= self.spec_keys());
        }
        page_of_copied(&matching, page_index, page_size)
    }
}

} // verus!
