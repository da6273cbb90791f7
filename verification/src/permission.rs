//! Permissions: matching rules over call targets with a whitelist/blacklist
//! scope, stored in a repository that keeps a reverse index from each target
//! to the permissions naming it.

use vstd::prelude::*;

use crate::idmap::IdMap;
use crate::types::{EndpointV, PermissionId, PrincipalId, Program, RemoteCall, RemoteCallEndpoint};
use crate::types::endpoint_eq;

verus! {

/// Whether the listed targets are allowed (whitelist) or denied (blacklist).
#[derive(Clone, Copy, PartialEq, Eq, Structural, Debug)]
pub enum PermissionScope {
    Whitelist,
    Blacklist,
}

/// The matching unit a permission authorizes or denies.
#[derive(Clone, Debug)]
pub enum PermissionTarget {
    SelfEmptyProgram,
    Canister(PrincipalId),
    Endpoint(RemoteCallEndpoint),
}

/// Mathematical value of a permission target.
pub enum PermissionTargetV {
    SelfEmptyProgram,
    Canister(PrincipalId),
    Endpoint(EndpointV),
}

impl View for PermissionTarget {
    type V = PermissionTargetV;

    open spec fn view(&self) -> PermissionTargetV {
        match self {
            PermissionTarget::SelfEmptyProgram => PermissionTargetV::SelfEmptyProgram,
            PermissionTarget::Canister(p) => PermissionTargetV::Canister(*p),
            PermissionTarget::Endpoint(e) => PermissionTargetV::Endpoint(e.view()),
        }
    }
}

/// The coarser-grained canister target an endpoint target generalizes to.
pub open spec fn spec_to_canister(t: PermissionTargetV) -> Option<PermissionTargetV> {
    match t {
        PermissionTargetV::SelfEmptyProgram => None,
        PermissionTargetV::Canister(p) => Some(PermissionTargetV::Canister(p)),
        PermissionTargetV::Endpoint(e) => Some(PermissionTargetV::Canister(e.canister_id)),
    }
}

impl PermissionTarget {
    pub fn to_canister(self) -> (r: Option<PermissionTarget>)
        ensures
            match r {
                Some(t) => spec_to_canister(self@) == Some(t@),
                None => spec_to_canister(self@) is None,
            },
    {
        match &self {
            PermissionTarget::SelfEmptyProgram => None,
            PermissionTarget::Canister(_) => Some(self),
            PermissionTarget::Endpoint(e) => Some(PermissionTarget::Canister(e.canister_id)),
        }
    }
}

/// Compares two targets by value.
pub fn target_eq(a: &PermissionTarget, b: &PermissionTarget) -> (r: bool)
    ensures
        r == (a@ == b@),
{
    match (a, b) {
        (PermissionTarget::SelfEmptyProgram, PermissionTarget::SelfEmptyProgram) => true,
        (PermissionTarget::Canister(x), PermissionTarget::Canister(y)) => x == y,
        (PermissionTarget::Endpoint(x), PermissionTarget::Endpoint(y)) => endpoint_eq(x, y),
        _ => {
            proof {
                assert(a@ != b@);
            }
            false
        },
    }
}

/// Copies a target, preserving its value.
pub fn copy_target(t: &PermissionTarget) -> (r: PermissionTarget)
    ensures
        r == *t,
{
    match t {
        PermissionTarget::SelfEmptyProgram => PermissionTarget::SelfEmptyProgram,
        PermissionTarget::Canister(p) => PermissionTarget::Canister(*p),
        PermissionTarget::Endpoint(e) => PermissionTarget::Endpoint(
            RemoteCallEndpoint { canister_id: e.canister_id, method_name: e.method_name.clone() },
        ),
    }
}

/// Copies a target vector, preserving every value.
pub fn copy_targets(ts: &Vec<PermissionTarget>) -> (r: Vec<PermissionTarget>)
    ensures
        r@ == ts@,
{
    let mut r: Vec<PermissionTarget> = Vec::new();
    let n = ts.len();
    let mut i: usize = 0;
    while i < n
        invariant
            i <= n,
            n == ts@.len(),
            r@ == ts@.take(i as int),
        decreases n - i,
    {
        r.push(copy_target(&ts[i]));
        proof {
            assert(ts@.take(i as int + 1) =~= ts@.take(i as int).push(ts@[i as int]));
        }
        i = i + 1;
    }
    proof {
        assert(ts@.take(n as int) =~= ts@);
    }
    r
}

/// The set of target values a target vector denotes.
pub open spec fn targets_set(ts: Seq<PermissionTarget>) -> Set<PermissionTargetV> {
    Set::new(|tv: PermissionTargetV| exists|i: int| 0 <= i < ts.len() && (#[trigger] ts[i])@ == tv)
}

/// Whether `t`'s value occurs in the vector.
pub fn contains_target(ts: &Vec<PermissionTarget>, t: &PermissionTarget) -> (r: bool)
    ensures
        r == targets_set(ts@).contains(t@),
{
    let n = ts.len();
    let mut i: usize = 0;
    while i < n
        invariant
            i <= n,
            n == ts@.len(),
            forall|j: int| 0 <= j < i ==> (#[trigger] ts@[j])@ != t@,
        decreases n - i,
    {
        if target_eq(&ts[i], t) {
            return true;
        }
        i = i + 1;
    }
    proof {
        if targets_set(ts@).contains(t@) {
            let j = choose|j: int| 0 <= j < ts@.len() && (#[trigger] ts@[j])@ == t@;
            assert(false);
        }
    }
    false
}

/// A matching rule: named targets, judged under a whitelist or blacklist
/// scope.
#[derive(Clone, Debug)]
pub struct Permission {
    pub id: PermissionId,
    pub name: String,
    pub targets: Vec<PermissionTarget>,
    pub scope: PermissionScope,
}

/// Mathematical value of a permission.
pub struct PermissionV {
    pub id: PermissionId,
    pub name: Seq<char>,
    pub targets: Set<PermissionTargetV>,
    pub scope: PermissionScope,
}

impl View for Permission {
    type V = PermissionV;

    open spec fn view(&self) -> PermissionV {
        PermissionV {
            id: self.id,
            name: self.name@,
            targets: targets_set(self.targets@),
            scope: self.scope,
        }
    }
}

#[derive(Clone, Copy, PartialEq, Eq, Structural, Debug)]
pub enum PermissionRepositoryError {
    PermissionDoesNotExist,
    NotPermissionTarget,
    ThereShouldBeAtLeastOnePermission,
}

/// Whether the targets match the given endpoint (or the empty program when
/// there is none), before the scope is applied: an exact endpoint target or
/// its enclosing canister target matches an endpoint; the self-empty-program
/// target matches the empty program.
pub open spec fn spec_matches_endpoint(
    targets: Set<PermissionTargetV>,
    ep: Option<EndpointV>,
) -> bool {
    match ep {
        Some(e) => targets.contains(PermissionTargetV::Endpoint(e)) || targets.contains(
            PermissionTargetV::Canister(e.canister_id),
        ),
        None => targets.contains(PermissionTargetV::SelfEmptyProgram),
    }
}

/// The full matching judgement: the raw match, inverted under a blacklist
/// scope.
pub open spec fn spec_is_permission_target(p: PermissionV, ep: Option<EndpointV>) -> bool {
    if p.scope == PermissionScope::Blacklist {
        !spec_matches_endpoint(p.targets, ep)
    } else {
        spec_matches_endpoint(p.targets, ep)
    }
}

/// Whether the permission admits every call of a call sequence.
pub open spec fn spec_calls_allowed(p: PermissionV, calls: Seq<RemoteCall>) -> bool {
    forall|i: int|
        0 <= i < calls.len() ==> spec_is_permission_target(
            p,
            Some((#[trigger] calls[i]).endpoint@),
        )
}

/// Whether the permission allows every call of the program.
pub open spec fn spec_program_allowed(p: PermissionV, prog: &Program) -> bool {
    match prog {
        Program::Empty => spec_is_permission_target(p, None),
        Program::RemoteCallSequence(calls) => spec_calls_allowed(p, calls@),
    }
}

pub open spec fn unique_u64s(s: Seq<u64>) -> bool {
    forall|i: int, j: int| 0 <= i < j < s.len() ==> s[i] != s[j]
}

proof fn lemma_u64_remove(s: Seq<u64>, i: int)
    requires
        unique_u64s(s),
        0 <= i < s.len(),
    ensures
        unique_u64s(s.remove(i)),
        forall|x: u64| s.remove(i).contains(x) <==> (s.contains(x) && x != s[i]),
{
    let t = s.remove(i);
    assert forall|a: int, b: int| 0 <= a < b < t.len() implies t[a] != t[b] by {
        let a2: int = if a < i {
            a
        } else {
            a + 1
        };
        let b2: int = if b < i {
            b
        } else {
            b + 1
        };
        assert(t[a] == s[a2] && t[b] == s[b2]);
    }
    assert forall|x: u64| t.contains(x) <==> (s.contains(x) && x != s[i]) by {
        if t.contains(x) {
            let j = choose|j: int| 0 <= j < t.len() && t[j] == x;
            let j2: int = if j < i {
                j
            } else {
                j + 1
            };
            assert(s[j2] == x);
            assert(x != s[i]);
        } else if s.contains(x) && x != s[i] {
            let j = choose|j: int| 0 <= j < s.len() && s[j] == x;
            let j2: int = if j < i {
                j
            } else {
                j - 1
            };
            assert(t[j2] == x);
        }
    }
}

/// One reverse-index row: a target and the permissions that name it.
type IndexRow = (PermissionTarget, Vec<PermissionId>);

pub open spec fn index_keys_unique(s: Seq<IndexRow>) -> bool {
    forall|i: int, j: int| 0 <= i < j < s.len() ==> (#[trigger] s[i]).0@ != (#[trigger] s[j]).0@
}

pub open spec fn index_rows_unique(s: Seq<IndexRow>) -> bool {
    forall|i: int| 0 <= i < s.len() ==> unique_u64s((#[trigger] s[i]).1@)
}

/// The permission ids recorded for a target value.
pub open spec fn index_find(s: Seq<IndexRow>, tv: PermissionTargetV) -> Option<Seq<u64>>
    decreases s.len(),
{
    if s.len() == 0 {
        None
    } else if s.last().0@ == tv {
        Some(s.last().1@)
    } else {
        index_find(s.drop_last(), tv)
    }
}

proof fn lemma_index_find_at(s: Seq<IndexRow>, i: int)
    requires
        index_keys_unique(s),
        0 <= i < s.len(),
    ensures
        index_find(s, s[i].0@) == Some(s[i].1@),
    decreases s.len(),
{
    if i == s.len() - 1 {
    } else {
        assert(index_keys_unique(s.drop_last()));
        assert(s.drop_last()[i] == s[i]);
        lemma_index_find_at(s.drop_last(), i);
        assert(s.last().0@ != s[i].0@);
    }
}

proof fn lemma_index_find_absent(s: Seq<IndexRow>, tv: PermissionTargetV)
    requires
        forall|i: int| 0 <= i < s.len() ==> (#[trigger] s[i]).0@ != tv,
    ensures
        index_find(s, tv) is None,
    decreases s.len(),
{
    if s.len() > 0 {
        lemma_index_find_absent(s.drop_last(), tv);
    }
}

proof fn lemma_index_find_update(s: Seq<IndexRow>, i: int, row: IndexRow)
    requires
        index_keys_unique(s),
        0 <= i < s.len(),
        row.0@ == s[i].0@,
    ensures
        index_keys_unique(s.update(i, row)),
        forall|tv: PermissionTargetV|
            #[trigger] index_find(s.update(i, row), tv) == if tv == s[i].0@ {
                Some(row.1@)
            } else {
                index_find(s, tv)
            },
    decreases s.len(),
{
    let t = s.update(i, row);
    assert(index_keys_unique(t));
    if i == s.len() - 1 {
        assert(t.drop_last() =~= s.drop_last());
        assert(t.last() == row);
        assert forall|tv: PermissionTargetV|
            #[trigger] index_find(t, tv) == if tv == s[i].0@ {
                Some(row.1@)
            } else {
                index_find(s, tv)
            } by {
            if tv != s[i].0@ {
                assert(index_find(t, tv) == index_find(t.drop_last(), tv));
                assert(index_find(s, tv) == index_find(s.drop_last(), tv));
            }
        }
    } else {
        assert(index_keys_unique(s.drop_last()));
        assert(s.drop_last()[i] == s[i]);
        lemma_index_find_update(s.drop_last(), i, row);
        assert(t.drop_last() =~= s.drop_last().update(i, row));
        assert(t.last() == s.last());
        assert(s.last().0@ != s[i].0@);
        assert forall|tv: PermissionTargetV|
            #[trigger] index_find(t, tv) == if tv == s[i].0@ {
                Some(row.1@)
            } else {
                index_find(s, tv)
            } by {
            if tv == t.last().0@ {
                assert(index_find(t, tv) == Some(t.last().1@));
                assert(index_find(s, tv) == Some(s.last().1@));
            } else {
                assert(index_find(t, tv) == index_find(t.drop_last(), tv));
                assert(index_find(s, tv) == index_find(s.drop_last(), tv));
            }
        }
    }
}

proof fn lemma_index_find_push(s: Seq<IndexRow>, row: IndexRow)
    requires
        forall|i: int| 0 <= i < s.len() ==> (#[trigger] s[i]).0@ != row.0@,
    ensures
        forall|tv: PermissionTargetV|
            #[trigger] index_find(s.push(row), tv) == if tv == row.0@ {
                Some(row.1@)
            } else {
                index_find(s, tv)
            },
{
    assert(s.push(row).drop_last() =~= s);
    assert(s.push(row).last() == row);
    assert forall|tv: PermissionTargetV|
        #[trigger] index_find(s.push(row), tv) == if tv == row.0@ {
            Some(row.1@)
        } else {
            index_find(s, tv)
        } by {
        if tv != row.0@ {
            assert(index_find(s.push(row), tv) == index_find(s, tv));
        }
    }
}

/// Reverse index from each target to the set of permissions naming it.
///
/// The index does not take the whitelist/blacklist judgement into account: it
/// records raw target membership only.
pub struct TargetIndex {
    entries: Vec<IndexRow>,
}

impl TargetIndex {
    /// The ids recorded for a target value (empty when the target is
    /// unknown).
    pub closed spec fn ids_of(&self, tv: PermissionTargetV) -> Seq<u64> {
        match index_find(self.entries@, tv) {
            Some(s) => s,
            None => Seq::empty(),
        }
    }

    /// Whether the index records `id` under the target value `tv`.
    pub open spec fn has(&self, tv: PermissionTargetV, id: u64) -> bool {
        self.ids_of(tv).contains(id)
    }

    pub closed spec fn wf(&self) -> bool {
        index_keys_unique(self.entries@) && index_rows_unique(self.entries@)
    }

    pub proof fn lemma_ids_unique(&self, tv: PermissionTargetV)
        requires
            self.wf(),
        ensures
            unique_u64s(self.ids_of(tv)),
    {
        self.lemma_ids_unique_rec(self.entries@, tv);
    }

    proof fn lemma_ids_unique_rec(&self, s: Seq<IndexRow>, tv: PermissionTargetV)
        requires
            index_rows_unique(s),
        ensures
            match index_find(s, tv) {
                Some(ids) => unique_u64s(ids),
                None => true,
            },
        decreases s.len(),
    {
        if s.len() > 0 {
            assert(index_rows_unique(s.drop_last()));
            self.lemma_ids_unique_rec(s.drop_last(), tv);
        }
    }

    pub fn new() -> (r: Self)
        ensures
            r.wf(),
            forall|tv: PermissionTargetV, id: u64| !r.has(tv, id),
            forall|tv: PermissionTargetV| r.ids_of(tv) == Seq::<u64>::empty(),
    {
        TargetIndex { entries: Vec::new() }
    }

    fn position_of(&self, t: &PermissionTarget) -> (r: Option<usize>)
        ensures
            match r {
                Some(i) => i < self.entries@.len() && self.entries@[i as int].0@ == t@,
                None => forall|i: int|
                    0 <= i < self.entries@.len() ==> (#[trigger] self.entries@[i]).0@ != t@,
            },
    {
        let n = self.entries.len();
        let mut i: usize = 0;
        while i < n
            invariant
                i <= n,
                n == self.entries@.len(),
                forall|j: int| 0 <= j < i ==> (#[trigger] self.entries@[j]).0@ != t@,
            decreases n - i,
        {
            if target_eq(&self.entries[i].0, t) {
                return Some(i);
            }
            i = i + 1;
        }
        None
    }

    /// The recorded ids for a target, if the target is known.
    pub fn get_ids(&self, t: &PermissionTarget) -> (r: Option<&Vec<PermissionId>>)
        requires
            self.wf(),
        ensures
            match r {
                Some(v) => v@ == self.ids_of(t@),
                None => self.ids_of(t@) == Seq::<u64>::empty(),
            },
    {
        match self.position_of(t) {
            Some(i) => {
                proof {
                    lemma_index_find_at(self.entries@, i as int);
                }
                Some(&self.entries[i].1)
            },
            None => {
                proof {
                    lemma_index_find_absent(self.entries@, t@);
                }
                None
            },
        }
    }

    /// Records `id` under `target` (idempotent): a fresh id joins the end
    /// of the target's row, so a row lists ids in recording order.
    pub fn add(&mut self, id: PermissionId, target: PermissionTarget)
        requires
            old(self).wf(),
        ensures
            final(self).wf(),
            forall|tv: PermissionTargetV, i: u64|
                final(self).has(tv, i) <==> (old(self).has(tv, i) || (tv == target@ && i == id)),
            forall|tv: PermissionTargetV|
                tv != target@ ==> final(self).ids_of(tv) == old(self).ids_of(tv),
            final(self).ids_of(target@) == (if old(self).ids_of(target@).contains(id) {
                old(self).ids_of(target@)
            } else {
                old(self).ids_of(target@).push(id)
            }),
    {
        let ghost s0 = self.entries@;
        match self.position_of(&target) {
            Some(i) => {
                proof {
                    lemma_index_find_at(s0, i as int);
                }
                let mut present = false;
                let row_len = self.entries[i].1.len();
                let mut k: usize = 0;
                while k < row_len
                    invariant
                        k <= row_len,
                        i < self.entries@.len(),
                        self.entries@ == s0,
                        row_len == self.entries@[i as int].1@.len(),
                        present <==> exists|j: int|
                            0 <= j < k && (#[trigger] self.entries@[i as int].1@[j]) == id,
                    decreases row_len - k,
                {
                    if self.entries[i].1[k] == id {
                        present = true;
                    }
                    k = k + 1;
                }
                if !present {
                    proof {
                        if s0[i as int].1@.contains(id) {
                            let j = choose|j: int|
                                0 <= j < s0[i as int].1@.len() && s0[i as int].1@[j] == id;
                            assert(false);
                        }
                    }
                    let slot = &mut self.entries[i];
                    slot.1.push(id);
                    proof {
                        let row = (s0[i as int].0, s0[i as int].1@.push(id));
                        assert(self.entries@ =~= s0.update(
                            i as int,
                            (self.entries@[i as int].0, self.entries@[i as int].1),
                        ));
                        assert(self.entries@[i as int].0 == s0[i as int].0);
                        assert(self.entries@[i as int].1@ == s0[i as int].1@.push(id));
                        lemma_index_find_update(
                            s0,
                            i as int,
                            (self.entries@[i as int].0, self.entries@[i as int].1),
                        );
                        assert(index_rows_unique(self.entries@));
                        let grown = s0[i as int].1@.push(id);
                        assert(final(self).ids_of(target@) == grown);
                        assert(old(self).ids_of(target@) == s0[i as int].1@);
                        assert forall|tv: PermissionTargetV, i2: u64|
                            final(self).has(tv, i2) <==> (old(self).has(tv, i2) || (tv == target@
                                && i2 == id)) by {
                            if tv == target@ {
                                if grown.contains(i2) {
                                    let j = choose|j: int|
                                        0 <= j < grown.len() && grown[j] == i2;
                                    if j < grown.len() - 1 {
                                        assert(s0[i as int].1@[j] == i2);
                                    } else {
                                        assert(i2 == id);
                                    }
                                }
                                if s0[i as int].1@.contains(i2) {
                                    let j = choose|j: int|
                                        0 <= j < s0[i as int].1@.len() && s0[i as int].1@[j] == i2;
                                    assert(grown[j] == i2);
                                }
                                if i2 == id {
                                    assert(grown.last() == i2);
                                }
                            }
                        }
                    }
                } else {
                    proof {
                        let j = choose|j: int|
                            0 <= j < s0[i as int].1@.len() && s0[i as int].1@[j] == id;
                        assert(old(self).has(target@, id));
                    }
                }
            },
            None => {
                proof {
                    lemma_index_find_absent(s0, target@);
                }
                let mut row_ids: Vec<PermissionId> = Vec::new();
                row_ids.push(id);
                self.entries.push((target, row_ids));
                proof {
                    let row = self.entries@.last();
                    assert(self.entries@ =~= s0.push(row));
                    lemma_index_find_push(s0, row);
                    assert(index_keys_unique(self.entries@));
                    assert(index_rows_unique(self.entries@));
                    assert(row.1@.len() == 1 && row.1@[0] == id);
                    assert forall|tv: PermissionTargetV, i2: u64|
                        final(self).has(tv, i2) <==> (old(self).has(tv, i2) || (tv == row.0@ && i2
                            == id)) by {
                        if tv == row.0@ {
                            assert(final(self).ids_of(tv) == row.1@);
                            assert(old(self).ids_of(tv) == Seq::<u64>::empty());
                            if row.1@.contains(i2) {
                                let j = choose|j: int| 0 <= j < row.1@.len() && row.1@[j] == i2;
                                assert(j == 0);
                            }
                            if i2 == id {
                                assert(row.1@[0] == i2);
                            }
                        }
                    }
                }
            },
        }
    }

    /// Removes `id` from the row of `target`, if both are recorded; the
    /// other ids keep their recording order.
    pub fn remove(&mut self, id: &PermissionId, target: &PermissionTarget)
        requires
            old(self).wf(),
        ensures
            final(self).wf(),
            forall|tv: PermissionTargetV, i: u64|
                final(self).has(tv, i) <==> (old(self).has(tv, i) && !(tv == target@ && i == *id)),
            forall|tv: PermissionTargetV|
                tv != target@ ==> final(self).ids_of(tv) == old(self).ids_of(tv),
            old(self).ids_of(target@).contains(*id) ==> exists|i: int|
                0 <= i < old(self).ids_of(target@).len() && old(self).ids_of(target@)[i] == *id
                    && final(self).ids_of(target@) == old(self).ids_of(target@).remove(i),
            !old(self).ids_of(target@).contains(*id) ==> final(self).ids_of(target@) == old(
                self,
            ).ids_of(target@),
    {
        let ghost s0 = self.entries@;
        match self.position_of(target) {
            Some(i) => {
                proof {
                    lemma_index_find_at(s0, i as int);
                }
                let row_len = self.entries[i].1.len();
                let mut k: usize = 0;
                let mut pos: Option<usize> = None;
                while k < row_len
                    invariant
                        k <= row_len,
                        i < self.entries@.len(),
                        self.entries@ == s0,
                        row_len == self.entries@[i as int].1@.len(),
                        match pos {
                            Some(p) => p < row_len && self.entries@[i as int].1@[p as int] == *id,
                            None => forall|j: int|
                                0 <= j < k ==> (#[trigger] self.entries@[i as int].1@[j]) != *id,
                        },
                    decreases row_len - k,
                {
                    if self.entries[i].1[k] == *id {
                        pos = Some(k);
                        k = row_len;
                    } else {
                        k = k + 1;
                    }
                }
                match pos {
                    Some(p) => {
                        proof {
                            lemma_u64_remove(s0[i as int].1@, p as int);
                        }
                        let slot = &mut self.entries[i];
                        slot.1.remove(p);
                        proof {
                            assert(self.entries@ =~= s0.update(
                                i as int,
                                (self.entries@[i as int].0, self.entries@[i as int].1),
                            ));
                            assert(self.entries@[i as int].0 == s0[i as int].0);
                            assert(self.entries@[i as int].1@ == s0[i as int].1@.remove(p as int));
                            lemma_index_find_update(
                                s0,
                                i as int,
                                (self.entries@[i as int].0, self.entries@[i as int].1),
                            );
                            assert(index_rows_unique(self.entries@));
                        }
                    },
                    None => {
                        proof {
                            if s0[i as int].1@.contains(*id) {
                                let j = choose|j: int|
                                    0 <= j < s0[i as int].1@.len() && s0[i as int].1@[j] == *id;
                                assert(false);
                            }
                        }
                    },
                }
            },
            None => {
                proof {
                    lemma_index_find_absent(s0, target@);
                }
            },
        }
    }
}

/// Stores every permission, keeps the reverse target index exactly in step
/// with each permission's current targets, and guarantees that at least one
/// permission always remains.
pub struct PermissionRepository {
    pub permissions: IdMap<Permission>,
    pub permission_ids_counter: PermissionId,
    pub permissions_by_permission_target_index: TargetIndex,
}

impl PermissionRepository {
    /// Repository invariant; the last clause is the exactness of the reverse
    /// index.
    pub open spec fn wf(&self) -> bool {
        &&& self.permissions.wf()
        &&& self.permissions_by_permission_target_index.wf()
        &&& forall|id: u64|
            self.permissions@.contains_key(id) ==> (#[trigger] self.permissions@[id]).id == id
        &&& forall|id: u64|
            #[trigger] self.permissions@.contains_key(id) ==> id < self.permission_ids_counter
        &&& forall|tv: PermissionTargetV, id: u64|
            #[trigger] self.permissions_by_permission_target_index.has(tv, id)
                <==> (self.permissions@.contains_key(id) && targets_set(
                self.permissions@[id].targets@,
            ).contains(tv))
    }

    pub fn new() -> (r: Self)
        ensures
            r.wf(),
            r.permissions@ == Map::<u64, Permission>::empty(),
            r.permission_ids_counter == 0,
    {
        PermissionRepository {
            permissions: IdMap::new(),
            permission_ids_counter: 0,
            permissions_by_permission_target_index: TargetIndex::new(),
        }
    }

    /// Creates a permission under a fresh id and records each of its targets
    /// in the reverse index.
    pub fn create_permission(
        &mut self,
        name: String,
        targets: Vec<PermissionTarget>,
        scope: PermissionScope,
    ) -> (r: PermissionId)
        requires
            old(self).wf(),
            old(self).permission_ids_counter < u64::MAX,
        ensures
            final(self).wf(),
            r == old(self).permission_ids_counter,
            !old(self).permissions@.contains_key(r),
            final(self).permission_ids_counter == r + 1,
            final(self).permissions@.contains_key(r),
            final(self).permissions@ == old(self).permissions@.insert(
                r,
                final(self).permissions@[r],
            ),
            final(self).permissions@[r].id == r,
            final(self).permissions@[r].name == name,
            final(self).permissions@[r].targets@ == targets@,
            final(self).permissions@[r].scope == scope,
    {
        let id = self.permission_ids_counter;
        self.permission_ids_counter = id + 1;
        let ghost idx0 = self.permissions_by_permission_target_index;
        let n = targets.len();
        let mut k: usize = 0;
        while k < n
            invariant
                k <= n,
                n == targets@.len(),
                self.permissions == old(self).permissions,
                self.permission_ids_counter == id + 1,
                self.permissions_by_permission_target_index.wf(),
                forall|tv: PermissionTargetV, i2: u64|
                    #[trigger] self.permissions_by_permission_target_index.has(tv, i2) <==> (
                    idx0.has(tv, i2) || (i2 == id && exists|j: int|
                        0 <= j < k && (#[trigger] targets@[j])@ == tv)),
            decreases n - k,
        {
            let ghost idx_prev = self.permissions_by_permission_target_index;
            let t = copy_target(&targets[k]);
            self.permissions_by_permission_target_index.add(id, t);
            proof {
                assert forall|tv: PermissionTargetV, i2: u64|
                    #[trigger] self.permissions_by_permission_target_index.has(tv, i2) <==> (
                    idx0.has(tv, i2) || (i2 == id && exists|j: int|
                        0 <= j < k + 1 && (#[trigger] targets@[j])@ == tv)) by {
                    if self.permissions_by_permission_target_index.has(tv, i2) {
                        if !idx_prev.has(tv, i2) {
                            assert(targets@[k as int]@ == tv);
                        }
                    }
                    if i2 == id && exists|j: int|
                        0 <= j < k + 1 && (#[trigger] targets@[j])@ == tv {
                        let j = choose|j: int| 0 <= j < k + 1 && (#[trigger] targets@[j])@ == tv;
                        if j < k {
                            assert(idx_prev.has(tv, i2));
                        } else {
                            assert(tv == t@);
                        }
                    }
                }
            }
            k = k + 1;
        }
        let permission = Permission { id, name, targets, scope };
        self.permissions.insert(id, permission);
        proof {
            self.permissions.lemma_keys();
            assert forall|tv: PermissionTargetV, i2: u64|
                #[trigger] self.permissions_by_permission_target_index.has(tv, i2) <==> (
                self.permissions@.contains_key(i2) && targets_set(
                    self.permissions@[i2].targets@,
                ).contains(tv)) by {
                if i2 == id {
                    assert(self.permissions@[i2].targets@ == targets@);
                } else {
                    assert(old(self).permissions@.contains_key(i2)
                        == self.permissions@.contains_key(i2));
                }
            }
        }
        id
    }

    /// Replaces any of the permission's name, targets and scope; on a target
    /// change, the reverse index is adjusted entry by entry.
    pub fn update_permission(
        &mut self,
        permission_id: &PermissionId,
        new_name: Option<String>,
        new_targets: Option<Vec<PermissionTarget>>,
        new_scope: Option<PermissionScope>,
    ) -> (r: Result<(), PermissionRepositoryError>)
        requires
            old(self).wf(),
        ensures
            final(self).wf(),
            r is Err ==> r == Err::<(), PermissionRepositoryError>(
                PermissionRepositoryError::PermissionDoesNotExist,
            ) && *final(self) == *old(self) && !old(self).permissions@.contains_key(*permission_id),
            r is Ok ==> {
                &&& old(self).permissions@.contains_key(*permission_id)
                &&& final(self).permissions@ == old(self).permissions@.insert(
                    *permission_id,
                    final(self).permissions@[*permission_id],
                )
                &&& final(self).permissions@[*permission_id].id == *permission_id
                &&& final(self).permissions@[*permission_id].name == (match new_name {
                    Some(n) => n,
                    None => old(self).permissions@[*permission_id].name,
                })
                &&& final(self).permissions@[*permission_id].targets@ == (match new_targets {
                    Some(ts) => ts@,
                    None => old(self).permissions@[*permission_id].targets@,
                })
                &&& final(self).permissions@[*permission_id].scope == (match new_scope {
                    Some(sc) => sc,
                    None => old(self).permissions@[*permission_id].scope,
                })
                &&& final(self).permission_ids_counter == old(self).permission_ids_counter
            },
    {
        let pid = *permission_id;
        let (name2, scope2, old_ts) = match self.permissions.get(pid) {
            None => {
                return Err(PermissionRepositoryError::PermissionDoesNotExist);
            },
            Some(cur) => {
                let name2 = match new_name {
                    Some(n) => n,
                    None => cur.name.clone(),
                };
                let scope2 = match new_scope {
                    Some(sc) => sc,
                    None => cur.scope,
                };
                let old_ts = copy_targets(&cur.targets);
                (name2, scope2, old_ts)
            },
        };
        match new_targets {
            None => {
                let targets2 = copy_targets(&old_ts);
                let p2 = Permission { id: pid, name: name2, targets: targets2, scope: scope2 };
                self.permissions.insert(pid, p2);
                proof {
                    assert forall|tv: PermissionTargetV, i2: u64|
                        #[trigger] self.permissions_by_permission_target_index.has(tv, i2) <==> (
                        self.permissions@.contains_key(i2) && targets_set(
                            self.permissions@[i2].targets@,
                        ).contains(tv)) by {
                        if i2 == pid {
                            assert(self.permissions@[i2].targets@ == old(
                                self,
                            ).permissions@[i2].targets@);
                        }
                    }
                }
                Ok(())
            },
            Some(ts) => {
                let ghost idx0 = self.permissions_by_permission_target_index;
                let n_old = old_ts.len();
                let mut k: usize = 0;
                while k < n_old
                    invariant
                        k <= n_old,
                        n_old == old_ts@.len(),
                        self.permissions == old(self).permissions,
                        self.permission_ids_counter == old(self).permission_ids_counter,
                        self.permissions_by_permission_target_index.wf(),
                        forall|tv: PermissionTargetV, i2: u64|
                            #[trigger] self.permissions_by_permission_target_index.has(tv, i2)
                                <==> (idx0.has(tv, i2) && !(i2 == pid && exists|j: int|
                                0 <= j < k && (#[trigger] old_ts@[j])@ == tv)),
                    decreases n_old - k,
                {
                    let ghost idx_prev = self.permissions_by_permission_target_index;
                    self.permissions_by_permission_target_index.remove(&pid, &old_ts[k]);
                    proof {
                        assert forall|tv: PermissionTargetV, i2: u64|
                            #[trigger] self.permissions_by_permission_target_index.has(tv, i2)
                                <==> (idx0.has(tv, i2) && !(i2 == pid && exists|j: int|
                                0 <= j < k + 1 && (#[trigger] old_ts@[j])@ == tv)) by {
                            if idx0.has(tv, i2) && !(i2 == pid && exists|j: int|
                                0 <= j < k + 1 && (#[trigger] old_ts@[j])@ == tv) {
                                assert(forall|j: int|
                                    0 <= j < k + 1 ==> (i2 != pid || (#[trigger] old_ts@[j])@
                                        != tv));
                                assert(idx_prev.has(tv, i2));
                                assert(!(tv == old_ts@[k as int]@ && i2 == pid));
                            }
                            if self.permissions_by_permission_target_index.has(tv, i2) {
                                if i2 == pid && exists|j: int|
                                    0 <= j < k + 1 && (#[trigger] old_ts@[j])@ == tv {
                                    let j = choose|j: int|
                                        0 <= j < k + 1 && (#[trigger] old_ts@[j])@ == tv;
                                    assert(j < k || tv == old_ts@[k as int]@);
                                    assert(false);
                                }
                            }
                        }
                    }
                    k = k + 1;
                }
                let ghost idx1 = self.permissions_by_permission_target_index;
                let n_new = ts.len();
                let mut m: usize = 0;
                while m < n_new
                    invariant
                        m <= n_new,
                        n_new == ts@.len(),
                        self.permissions == old(self).permissions,
                        self.permission_ids_counter == old(self).permission_ids_counter,
                        self.permissions_by_permission_target_index.wf(),
                        forall|tv: PermissionTargetV, i2: u64|
                            #[trigger] self.permissions_by_permission_target_index.has(tv, i2)
                                <==> (idx1.has(tv, i2) || (i2 == pid && exists|j: int|
                                0 <= j < m && (#[trigger] ts@[j])@ == tv)),
                    decreases n_new - m,
                {
                    let ghost idx_prev = self.permissions_by_permission_target_index;
                    let t = copy_target(&ts[m]);
                    self.permissions_by_permission_target_index.add(pid, t);
                    proof {
                        assert forall|tv: PermissionTargetV, i2: u64|
                            #[trigger] self.permissions_by_permission_target_index.has(tv, i2)
                                <==> (idx1.has(tv, i2) || (i2 == pid && exists|j: int|
                                0 <= j < m + 1 && (#[trigger] ts@[j])@ == tv)) by {
                            if self.permissions_by_permission_target_index.has(tv, i2) {
                                if !idx_prev.has(tv, i2) {
                                    assert(ts@[m as int]@ == tv);
                                }
                            }
                            if i2 == pid && exists|j: int|
                                0 <= j < m + 1 && (#[trigger] ts@[j])@ == tv {
                                let j = choose|j: int| 0 <= j < m + 1 && (#[trigger] ts@[j])@ == tv;
                                if j < m {
                                    assert(idx_prev.has(tv, i2));
                                } else {
                                    assert(tv == t@);
                                }
                            }
                        }
                    }
                    m = m + 1;
                }
                let p2 = Permission { id: pid, name: name2, targets: ts, scope: scope2 };
                self.permissions.insert(pid, p2);
                proof {
                    assert forall|tv: PermissionTargetV, i2: u64|
                        #[trigger] self.permissions_by_permission_target_index.has(tv, i2) <==> (
                        self.permissions@.contains_key(i2) && targets_set(
                            self.permissions@[i2].targets@,
                        ).contains(tv)) by {
                        if i2 == pid {
                        } else {
                            assert(idx0.has(tv, i2) == old(
                                self,
                            ).permissions_by_permission_target_index.has(tv, i2));
                        }
                    }
                }
                Ok(())
            },
        }
    }

    /// Removes a permission and every index entry naming it; the sole
    /// remaining permission can never be removed.
    pub fn remove_permission(&mut self, permission_id: &PermissionId) -> (r: Result<
        Permission,
        PermissionRepositoryError,
    >)
        requires
            old(self).wf(),
        ensures
            final(self).wf(),
            old(self).permissions@.len() == 1 ==> r == Err::<Permission, _>(
                PermissionRepositoryError::ThereShouldBeAtLeastOnePermission,
            ) && *final(self) == *old(self),
            match r {
                Ok(p) => {
                    &&& old(self).permissions@.len() != 1
                    &&& old(self).permissions@.contains_key(*permission_id)
                    &&& p == old(self).permissions@[*permission_id]
                    &&& final(self).permissions@ == old(self).permissions@.remove(*permission_id)
                    &&& final(self).permission_ids_counter == old(self).permission_ids_counter
                },
                Err(e) => {
                    &&& *final(self) == *old(self)
                    &&& (e == PermissionRepositoryError::ThereShouldBeAtLeastOnePermission || e
                        == PermissionRepositoryError::PermissionDoesNotExist)
                    &&& (e == PermissionRepositoryError::ThereShouldBeAtLeastOnePermission <==> old(
                        self,
                    ).permissions@.len() == 1)
                    &&& (e == PermissionRepositoryError::PermissionDoesNotExist <==> (old(
                        self,
                    ).permissions@.len() != 1 && !old(self).permissions@.contains_key(
                        *permission_id,
                    )))
                },
            },
    {
        if self.permissions.len() == 1 {
            return Err(PermissionRepositoryError::ThereShouldBeAtLeastOnePermission);
        }
        let pid = *permission_id;
        match self.permissions.remove(pid) {
            None => Err(PermissionRepositoryError::PermissionDoesNotExist),
            Some(p) => {
                let ghost idx0 = self.permissions_by_permission_target_index;
                let n = p.targets.len();
                let mut k: usize = 0;
                while k < n
                    invariant
                        k <= n,
                        n == p.targets@.len(),
                        self.permissions.wf(),
                        self.permissions@ == old(self).permissions@.remove(pid),
                        self.permission_ids_counter == old(self).permission_ids_counter,
                        self.permissions_by_permission_target_index.wf(),
                        forall|tv: PermissionTargetV, i2: u64|
                            #[trigger] self.permissions_by_permission_target_index.has(tv, i2)
                                <==> (idx0.has(tv, i2) && !(i2 == pid && exists|j: int|
                                0 <= j < k && (#[trigger] p.targets@[j])@ == tv)),
                    decreases n - k,
                {
                    let ghost idx_prev = self.permissions_by_permission_target_index;
                    self.permissions_by_permission_target_index.remove(&pid, &p.targets[k]);
                    proof {
                        assert forall|tv: PermissionTargetV, i2: u64|
                            #[trigger] self.permissions_by_permission_target_index.has(tv, i2)
                                <==> (idx0.has(tv, i2) && !(i2 == pid && exists|j: int|
                                0 <= j < k + 1 && (#[trigger] p.targets@[j])@ == tv)) by {
                            if idx0.has(tv, i2) && !(i2 == pid && exists|j: int|
                                0 <= j < k + 1 && (#[trigger] p.targets@[j])@ == tv) {
                                assert(forall|j: int|
                                    0 <= j < k + 1 ==> (i2 != pid || (#[trigger] p.targets@[j])@
                                        != tv));
                                assert(idx_prev.has(tv, i2));
                                assert(!(tv == p.targets@[k as int]@ && i2 == pid));
                            }
                            if self.permissions_by_permission_target_index.has(tv, i2) {
                                if i2 == pid && exists|j: int|
                                    0 <= j < k + 1 && (#[trigger] p.targets@[j])@ == tv {
                                    let j = choose|j: int|
                                        0 <= j < k + 1 && (#[trigger] p.targets@[j])@ == tv;
                                    assert(j < k || tv == p.targets@[k as int]@);
                                    assert(false);
                                }
                            }
                        }
                    }
                    k = k + 1;
                }
                proof {
                    assert(idx0 == old(self).permissions_by_permission_target_index);
                    assert forall|tv: PermissionTargetV, i2: u64|
                        #[trigger] self.permissions_by_permission_target_index.has(tv, i2) <==> (
                        self.permissions@.contains_key(i2) && targets_set(
                            self.permissions@[i2].targets@,
                        ).contains(tv)) by {
                        assert(idx0.has(tv, i2)
                            == old(self).permissions_by_permission_target_index.has(tv, i2));
                        if i2 == pid && idx0.has(tv, i2) {
                            assert(targets_set(p.targets@).contains(tv));
                        }
                    }
                }
                Ok(p)
            },
        }
    }

    /// Judges whether a single call target (or the empty program, when
    /// `endpoint_opt` is `None`) is admitted by the permission: an exact
    /// endpoint or its enclosing canister target matches, and a blacklist
    /// scope inverts the raw match.
    pub fn is_permission_target(
        &self,
        endpoint_opt: Option<RemoteCallEndpoint>,
        permission_id: &PermissionId,
    ) -> (r: Result<(), PermissionRepositoryError>)
        requires
            self.wf(),
        ensures
            match r {
                Ok(()) => self.permissions@.contains_key(*permission_id)
                    && spec_is_permission_target(
                    self.permissions@[*permission_id]@,
                    match endpoint_opt {
                        Some(e) => Some(e@),
                        None => None,
                    },
                ),
                Err(e) => {
                    if !self.permissions@.contains_key(*permission_id) {
                        e == PermissionRepositoryError::PermissionDoesNotExist
                    } else {
                        e == PermissionRepositoryError::NotPermissionTarget
                            && !spec_is_permission_target(
                            self.permissions@[*permission_id]@,
                            match endpoint_opt {
                                Some(e2) => Some(e2@),
                                None => None,
                            },
                        )
                    }
                },
            },
    {
        let permission = match self.permissions.get(*permission_id) {
            None => {
                return Err(PermissionRepositoryError::PermissionDoesNotExist);
            },
            Some(p) => p,
        };
        let is_target = match endpoint_opt {
            Some(endpoint) => {
                let target = PermissionTarget::Endpoint(endpoint);
                let direct = contains_target(&permission.targets, &target);
                let canister_target = match target.to_canister() {
                    Some(t) => t,
                    None => {
                        proof {
                            assert(false);
                        }
                        PermissionTarget::SelfEmptyProgram
                    },
                };
                let general = contains_target(&permission.targets, &canister_target);
                direct || general
            },
            None => contains_target(&permission.targets, &PermissionTarget::SelfEmptyProgram),
        };
        let inverted = match permission.scope {
            PermissionScope::Blacklist => !is_target,
            PermissionScope::Whitelist => is_target,
        };
        if inverted {
            Ok(())
        } else {
            Err(PermissionRepositoryError::NotPermissionTarget)
        }
    }

    /// Judges a whole program: every call of a sequence must match; the
    /// empty program is judged by the self-empty-program target.
    pub fn is_program_allowed_by_permission(
        &self,
        program: &Program,
        permission_id: &PermissionId,
    ) -> (r: Result<(), PermissionRepositoryError>)
        requires
            self.wf(),
        ensures
            match r {
                Ok(()) => self.permissions@.contains_key(*permission_id) && spec_program_allowed(
                    self.permissions@[*permission_id]@,
                    program,
                ),
                Err(e) => {
                    if !self.permissions@.contains_key(*permission_id) {
                        e == PermissionRepositoryError::PermissionDoesNotExist
                    } else {
                        e == PermissionRepositoryError::NotPermissionTarget
                            && !spec_program_allowed(
                            self.permissions@[*permission_id]@,
                            program,
                        )
                    }
                },
            },
    {
        match self.permissions.get(*permission_id) {
            None => {
                return Err(PermissionRepositoryError::PermissionDoesNotExist);
            },
            Some(_) => {},
        }
        match program {
            Program::RemoteCallSequence(sequence) => {
                let n = sequence.len();
                let mut i: usize = 0;
                while i < n
                    invariant
                        self.wf(),
                        i <= n,
                        n == sequence@.len(),
                        *program matches Program::RemoteCallSequence(cs) && cs@ == sequence@,
                        self.permissions@.contains_key(*permission_id),
                        forall|j: int|
                            0 <= j < i ==> spec_is_permission_target(
                                self.permissions@[*permission_id]@,
                                Some((#[trigger] sequence@[j]).endpoint@),
                            ),
                    decreases n - i,
                {
                    let ep = RemoteCallEndpoint {
                        canister_id: sequence[i].endpoint.canister_id,
                        method_name: sequence[i].endpoint.method_name.clone(),
                    };
                    let ghost epv = ep@;
                    proof {
                        assert(epv == (sequence@[i as int]).endpoint@);
                    }
                    match self.is_permission_target(Some(ep), permission_id) {
                        Ok(()) => {},
                        Err(e) => {
                            proof {
                                assert(!spec_is_permission_target(
                                    self.permissions@[*permission_id]@,
                                    Some((sequence@[i as int]).endpoint@),
                                ));
                                assert(!spec_calls_allowed(
                                    self.permissions@[*permission_id]@,
                                    sequence@,
                                ));
                                assert(*program matches Program::RemoteCallSequence(cs) && cs@
                                    == sequence@);
                            }
                            return Err(e);
                        },
                    }
                    i = i + 1;
                }
                Ok(())
            },
            Program::Empty => {
                match self.is_permission_target(None, permission_id) {
                    Ok(()) => Ok(()),
                    Err(e) => Err(e),
                }
            },
        }
    }

    /// All permission ids, in creation order.
    pub fn get_permission_ids_cloned(&self) -> (r: Vec<PermissionId>)
        requires
            self.wf(),
        ensures
            r@ == self.permissions.keys(),
    {
        let n = self.permissions.len();
        let mut r: Vec<PermissionId> = Vec::new();
        let mut i: usize = 0;
        while i < n
            invariant
                i <= n,
                self.wf(),
                n == self.permissions.keys().len(),
                r@ == self.permissions.keys().take(i as int),
            decreases n - i,
        {
            r.push(self.permissions.key_at(i));
            proof {
                assert(self.permissions.keys().take(i as int + 1) =~= self.permissions.keys().take(
                    i as int,
                ).push(self.permissions.keys()[i as int]));
            }
            i = i + 1;
        }
        proof {
            assert(self.permissions.keys().take(n as int) =~= self.permissions.keys());
        }
        r
    }

    /// The ids the reverse index records for a target, copied out in the
    /// index's recording order: each id sits where its target entry was
    /// last (re-)recorded, not in ascending id order.
    pub fn get_permission_ids_by_permission_target_cloned(
        &self,
        permission_target: &PermissionTarget,
    ) -> (r: Vec<PermissionId>)
        requires
            self.wf(),
        ensures
            r@ == self.permissions_by_permission_target_index.ids_of(permission_target@),
            forall|id: u64|
                r@.contains(id) <==> (self.permissions@.contains_key(id) && targets_set(
                    self.permissions@[id].targets@,
                ).contains(permission_target@)),
    {
        let mut r: Vec<PermissionId> = Vec::new();
        match self.permissions_by_permission_target_index.get_ids(permission_target) {
            None => {
                proof {
                    assert(r@ =~= self.permissions_by_permission_target_index.ids_of(
                        permission_target@,
                    ));
                }
            },
            Some(ids) => {
                let n = ids.len();
                let mut i: usize = 0;
                while i < n
                    invariant
                        i <= n,
                        n == ids@.len(),
                        r@ == ids@.take(i as int),
                    decreases n - i,
                {
                    r.push(ids[i]);
                    proof {
                        assert(ids@.take(i as int + 1) =~= ids@.take(i as int).push(
                            ids@[i as int],
                        ));
                    }
                    i = i + 1;
                }
                proof {
                    assert(ids@.take(n as int) =~= ids@);
                }
            },
        }
        proof {
            assert forall|id: u64|
                r@.contains(id) <==> (self.permissions@.contains_key(id) && targets_set(
                    self.permissions@[id].targets@,
                ).contains(permission_target@)) by {
                assert(r@.contains(id) == self.permissions_by_permission_target_index.has(
                    permission_target@,
                    id,
                ));
            }
        }
        r
    }

    /// The ids the reverse index records for a target, by reference.
    pub fn get_permission_ids_by_permission_target(
        &self,
        permission_target: &PermissionTarget,
    ) -> (r: Option<&Vec<PermissionId>>)
        requires
            self.wf(),
        ensures
            match r {
                Some(v) => v@ == self.permissions_by_permission_target_index.ids_of(
                    permission_target@,
                ),
                None => self.permissions_by_permission_target_index.ids_of(permission_target@)
                    == Seq::<u64>::empty(),
            },
    {
        self.permissions_by_permission_target_index.get_ids(permission_target)
    }

    /// Looks a permission up by id.
    pub fn get_permission(&self, permission_id: &PermissionId) -> (r: Result<
        &Permission,
        PermissionRepositoryError,
    >)
        requires
            self.wf(),
        ensures
            match r {
                Ok(p) => self.permissions@.contains_key(*permission_id) && *p
                    == self.permissions@[*permission_id],
                Err(e) => e == PermissionRepositoryError::PermissionDoesNotExist
                    && !self.permissions@.contains_key(*permission_id),
            },
    {
        match self.permissions.get(*permission_id) {
            Some(p) => Ok(p),
            None => Err(PermissionRepositoryError::PermissionDoesNotExist),
        }
    }
}

/// Law: the reverse target index records a permission under a target value
/// exactly when that permission currently lists the target. Every mutating
/// operation preserves `wf`, so this holds after any sequence of create,
/// update and remove operations.
pub proof fn lemma_target_index_exact(
    repo: &PermissionRepository,
    tv: PermissionTargetV,
    id: PermissionId,
)
    requires
        repo.wf(),
    ensures
        repo.permissions_by_permission_target_index.has(tv, id) <==> (repo.permissions@.contains_key(
            id,
        ) && repo.permissions@[id]@.targets.contains(tv)),
{
}

} // verus!
