//! Core identifier and value types shared by every component.
//!
//! An actor (an IC principal) is represented by a plain numeric identifier;
//! the unverified shell converts real principal values to and from these ids
//! one for one.

use vstd::prelude::*;

verus! {

/// A monotonically generated entity identifier.
pub type Id = u64;

pub type PermissionId = Id;
pub type AccessConfigId = Id;
pub type VotingConfigId = Id;
pub type VotingId = Id;
pub type ChoiceId = Id;
pub type GroupId = Id;
pub type BatchId = Id;
pub type ChunkId = Id;

/// Stands for an actor (canister or user principal) known to the system.
pub type PrincipalId = u64;

pub type ProfileId = PrincipalId;

/// A numeric unit of voting weight.
pub type Shares = u64;

pub type RoundId = u16;

/// The two mutually exclusive scopes over which voting weight is tracked.
#[derive(Clone, Copy, PartialEq, Eq, Structural, Debug)]
pub enum GroupOrProfile {
    Group(GroupId),
    Profile(ProfileId),
}

/// A remote method on a particular canister.
#[derive(Clone, Debug)]
pub struct RemoteCallEndpoint {
    pub canister_id: PrincipalId,
    pub method_name: String,
}

/// One remote call of a program: an endpoint and an opaque argument blob.
#[derive(Clone, Debug)]
pub struct RemoteCall {
    pub endpoint: RemoteCallEndpoint,
    pub args: Vec<u8>,
}

/// The action a winning choice executes: a sequence of remote calls, or
/// nothing at all.
#[derive(Clone, Debug)]
pub enum Program {
    Empty,
    RemoteCallSequence(Vec<RemoteCall>),
}

/// Mathematical value of an endpoint: canister id and method name characters.
pub struct EndpointV {
    pub canister_id: PrincipalId,
    pub method_name: Seq<char>,
}

impl RemoteCallEndpoint {
    pub open spec fn view(&self) -> EndpointV {
        EndpointV { canister_id: self.canister_id, method_name: self.method_name@ }
    }
}

/// No id occurs twice.
pub open spec fn ids_unique(s: Seq<u64>) -> bool {
    forall|i: int, j: int| 0 <= i < j < s.len() ==> s[i] != s[j]
}

/// The sequence with later duplicates dropped: each id keeps its first
/// occurrence, in order.
pub open spec fn dedup_first_ids(s: Seq<u64>) -> Seq<u64>
    decreases s.len(),
{
    if s.len() == 0 {
        Seq::empty()
    } else {
        let d = dedup_first_ids(s.drop_last());
        if d.contains(s.last()) {
            d
        } else {
            d.push(s.last())
        }
    }
}

pub proof fn lemma_dedup_first_ids(s: Seq<u64>)
    ensures
        ids_unique(dedup_first_ids(s)),
        forall|x: u64| dedup_first_ids(s).contains(x) <==> s.contains(x),
    decreases s.len(),
{
    if s.len() > 0 {
        lemma_dedup_first_ids(s.drop_last());
        let d = dedup_first_ids(s.drop_last());
        if !d.contains(s.last()) {
            assert forall|i: int, j: int|
                0 <= i < j < d.push(s.last()).len() implies d.push(s.last())[i] != d.push(
                s.last(),
            )[j] by {
                if j < d.push(s.last()).len() - 1 {
                    assert(d.push(s.last())[i] == d[i] && d.push(s.last())[j] == d[j]);
                } else {
                    assert(d.push(s.last())[i] == d[i]);
                    if d[i] == s.last() {
                        assert(d.contains(s.last()));
                    }
                }
            }
        }
        assert forall|x: u64| dedup_first_ids(s).contains(x) <==> s.contains(x) by {
            if dedup_first_ids(s).contains(x) {
                if d.contains(x) {
                    assert(s.drop_last().contains(x));
                    let i = choose|i: int|
                        0 <= i < s.drop_last().len() && s.drop_last()[i] == x;
                    assert(s[i] == x);
                } else {
                    let i = choose|i: int|
                        0 <= i < dedup_first_ids(s).len() && dedup_first_ids(s)[i] == x;
                    assert(x == s.last());
                    assert(s[s.len() - 1] == x);
                }
            }
            if s.contains(x) {
                let i = choose|i: int| 0 <= i < s.len() && s[i] == x;
                if i < s.len() - 1 {
                    assert(s.drop_last()[i] == x);
                    assert(s.drop_last().contains(x));
                    if !d.contains(s.last()) {
                        assert(dedup_first_ids(s)[choose|k: int|
                            0 <= k < d.len() && d[k] == x] == x);
                    }
                } else {
                    if d.contains(x) {
                    } else {
                        assert(dedup_first_ids(s).last() == x);
                    }
                }
            }
        }
    }
}

/// Drops later duplicates, keeping each id's first occurrence in order (the
/// set semantics of the configuration stores).
#[verifier::loop_isolation(false)]
pub fn dedup_ids(v: &Vec<u64>) -> (r: Vec<u64>)
    ensures
        r@ == dedup_first_ids(v@),
        ids_unique(r@),
        forall|x: u64| r@.contains(x) <==> v@.contains(x),
{
    let mut r: Vec<u64> = Vec::new();
    let n = v.len();
    let mut i: usize = 0;
    while i < n
        invariant
            i <= n,
            n == v@.len(),
            r@ == dedup_first_ids(v@.take(i as int)),
        decreases n - i,
    {
        let x = v[i];
        proof {
            assert(v@.take(i as int + 1).drop_last() =~= v@.take(i as int));
            assert(v@.take(i as int + 1).last() == v@[i as int]);
        }
        let m = r.len();
        let mut j: usize = 0;
        let mut present = false;
        while j < m
            invariant
                j <= m,
                m == r@.len(),
                x == v@[i as int],
                present <==> exists|k: int| 0 <= k < j && r@[k] == x,
            decreases m - j,
        {
            if r[j] == x {
                present = true;
            }
            j = j + 1;
        }
        proof {
            if present {
                let k = choose|k: int| 0 <= k < m && r@[k] == x;
                assert(r@.contains(x));
            } else {
                if r@.contains(x) {
                    let k = choose|k: int| 0 <= k < r@.len() && r@[k] == x;
                    assert(false);
                }
            }
        }
        if !present {
            r.push(x);
        }
        i = i + 1;
    }
    proof {
        assert(v@.take(n as int) =~= v@);
        lemma_dedup_first_ids(v@);
    }
    r
}

/// Whether two id sequences share at least one element.
pub open spec fn spec_ids_intersect(a: Seq<u64>, b: Seq<u64>) -> bool {
    exists|i: int| 0 <= i < a.len() && b.contains(#[trigger] a[i])
}

/// Whether two id vectors share at least one element.
#[verifier::loop_isolation(false)]
pub fn ids_intersect(a: &Vec<u64>, b: &Vec<u64>) -> (r: bool)
    ensures
        r == spec_ids_intersect(a@, b@),
{
    let n = a.len();
    let mut i: usize = 0;
    while i < n
        invariant
            i <= n,
            n == a@.len(),
            forall|k: int| 0 <= k < i ==> !b@.contains(#[trigger] a@[k]),
        decreases n - i,
    {
        let x = a[i];
        let m = b.len();
        let mut j: usize = 0;
        while j < m
            invariant
                j <= m,
                m == b@.len(),
                x == a@[i as int],
                forall|k: int| 0 <= k < j ==> b@[k] != x,
            decreases m - j,
        {
            if b[j] == x {
                return true;
            }
            j = j + 1;
        }
        proof {
            if b@.contains(x) {
                let k = choose|k: int| 0 <= k < b@.len() && b@[k] == x;
                assert(false);
            }
        }
        i = i + 1;
    }
    proof {
        if spec_ids_intersect(a@, b@) {
            let k = choose|k: int| 0 <= k < a@.len() && b@.contains(#[trigger] a@[k]);
            assert(false);
        }
    }
    false
}

/// Compares two endpoints by value.
pub fn endpoint_eq(a: &RemoteCallEndpoint, b: &RemoteCallEndpoint) -> (r: bool)
    ensures
        r == (a.view() == b.view()),
{
    let r = a.canister_id == b.canister_id && a.method_name == b.method_name;
    proof {
        if r {
            assert(a.view() == b.view());
        } else {
            assert(a.view() != b.view());
        }
    }
    r
}

} // verus!
