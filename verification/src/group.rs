//! Groups: named collectives whose members vote through a delegate, stored
//! in their own repository.

use vstd::prelude::*;

use crate::idmap::IdMap;
use crate::pagination::{page_of_copied, page_window, spec_has_next, Page, PageRequest};
use crate::types::GroupId;
use crate::validation::{byte_len, trimmed_len_ok, trimmed_of, validate_and_trim_str, ValidationError, ValidationReason};

verus! {

pub const GROUP_NAME_MIN_LEN: usize = 1;

pub const GROUP_NAME_MAX_LEN: usize = 100;

pub const GROUP_DESCRIPTION_MIN_LEN: usize = 0;

pub const GROUP_DESCRIPTION_MAX_LEN: usize = 300;

/// Whether a group's shares may be transferred between members, or stay
/// bound to each member.
#[derive(Clone, Copy, PartialEq, Eq, Structural, Debug)]
pub enum GroupType {
    Public,
    Private,
}

/// A named collective with delegated voting weight.
#[derive(Clone, Debug)]
pub struct Group {
    id: Option<GroupId>,
    name: String,
    description: String,
    group_type: GroupType,
}

impl Group {
    pub closed spec fn spec_id(&self) -> Option<GroupId> {
        self.id
    }

    pub closed spec fn spec_name(&self) -> Seq<char> {
        self.name@
    }

    pub closed spec fn spec_description(&self) -> Seq<char> {
        self.description@
    }

    pub closed spec fn spec_group_type(&self) -> GroupType {
        self.group_type
    }

    /// Builds a group with a validated, trimmed name and description.
    pub fn new(name: String, description: String, group_type: GroupType) -> (r: Result<
        Self,
        ValidationError,
    >)
        ensures
            match r {
                Ok(g) => {
                    &&& trimmed_len_ok(
                        name@,
                        GROUP_NAME_MIN_LEN as int,
                        GROUP_NAME_MAX_LEN as int,
                    )
                    &&& trimmed_len_ok(
                        description@,
                        GROUP_DESCRIPTION_MIN_LEN as int,
                        GROUP_DESCRIPTION_MAX_LEN as int,
                    )
                    &&& g.spec_id() is None
                    &&& g.spec_name() == trimmed_of(name@)
                    &&& g.spec_description() == trimmed_of(description@)
                    &&& g.spec_group_type() == group_type
                },
                Err(e) => {
                    &&& !(trimmed_len_ok(
                        name@,
                        GROUP_NAME_MIN_LEN as int,
                        GROUP_NAME_MAX_LEN as int,
                    ) && trimmed_len_ok(
                        description@,
                        GROUP_DESCRIPTION_MIN_LEN as int,
                        GROUP_DESCRIPTION_MAX_LEN as int,
                    ))
                    &&& if !trimmed_len_ok(name@, GROUP_NAME_MIN_LEN as int, GROUP_NAME_MAX_LEN as int) {
                        e.field@ == "Group name"@ && (if byte_len(trimmed_of(name@)) > GROUP_NAME_MAX_LEN {
                            e.reason == (ValidationReason::TooLong {
                                max: GROUP_NAME_MAX_LEN,
                                actual: byte_len(trimmed_of(name@)) as usize,
                            })
                        } else {
                            e.reason == (ValidationReason::TooShort {
                                min: GROUP_NAME_MIN_LEN,
                                actual: byte_len(trimmed_of(name@)) as usize,
                            })
                        })
                    } else {
                        e.field@ == "Group description"@ && (if byte_len(trimmed_of(description@)) > GROUP_DESCRIPTION_MAX_LEN {
                            e.reason == (ValidationReason::TooLong {
                                max: GROUP_DESCRIPTION_MAX_LEN,
                                actual: byte_len(trimmed_of(description@)) as usize,
                            })
                        } else {
                            e.reason == (ValidationReason::TooShort {
                                min: GROUP_DESCRIPTION_MIN_LEN,
                                actual: byte_len(trimmed_of(description@)) as usize,
                            })
                        })
                    }
                },
            },
    {
        let name2 = match validate_and_trim_str(
            name,
            GROUP_NAME_MIN_LEN,
            GROUP_NAME_MAX_LEN,
            "Group name",
        ) {
            Ok(n) => n,
            Err(e) => {
                return Err(e);
            },
        };
        let description2 = match validate_and_trim_str(
            description,
            GROUP_DESCRIPTION_MIN_LEN,
            GROUP_DESCRIPTION_MAX_LEN,
            "Group description",
        ) {
            Ok(d) => d,
            Err(e) => {
                return Err(e);
            },
        };
        Ok(Group { id: None, name: name2, description: description2, group_type })
    }

    /// Copies the group, preserving its value exactly.
    pub fn duplicate(&self) -> (r: Self)
        ensures
            r == *self,
    {
        Group {
            id: self.id,
            name: self.name.clone(),
            description: self.description.clone(),
            group_type: self.group_type,
        }
    }

    pub fn get_id(&self) -> (r: Option<GroupId>)
        ensures
            r == self.spec_id(),
    {
        self.id
    }

    pub fn get_name(&self) -> (r: &String)
        ensures
            r@ == self.spec_name(),
    {
        &self.name
    }

    pub fn get_description(&self) -> (r: &String)
        ensures
            r@ == self.spec_description(),
    {
        &self.description
    }

    pub fn get_group_type(&self) -> (r: GroupType)
        ensures
            r == self.spec_group_type(),
    {
        self.group_type
    }

    pub fn is_transient(&self) -> (r: bool)
        ensures
            r == (self.spec_id() is None),
    {
        self.id.is_none()
    }

    /// Assigns the id on first save; an already-identified group can never
    /// be re-assigned.
    pub fn init_id(&mut self, id: GroupId)
        requires
            old(self).spec_id() is None,
        ensures
            final(self).spec_id() == Some(id),
            final(self).spec_name() == old(self).spec_name(),
            final(self).spec_description() == old(self).spec_description(),
            final(self).spec_group_type() == old(self).spec_group_type(),
    {
        self.id = Some(id);
    }
}

/// Owns every group; ids are assigned once, monotonically.
pub struct GroupRepository {
    groups: IdMap<Group>,
    group_ids_counter: GroupId,
}

impl GroupRepository {
    pub closed spec fn view(&self) -> Map<u64, Group> {
        self.groups@
    }

    pub closed spec fn spec_keys(&self) -> Seq<u64> {
        self.groups.keys()
    }

    pub closed spec fn spec_counter(&self) -> GroupId {
        self.group_ids_counter
    }

    pub open spec fn wf(&self) -> bool {
        self.spec_wf_inner()
    }

    pub closed spec fn spec_wf_inner(&self) -> bool {
        &&& self.groups.wf()
        &&& forall|id: u64|
            #[trigger] self.groups@.contains_key(id) ==> id < self.group_ids_counter
                && self.groups@[id].spec_id() == Some(id)
    }

    /// Relates the listing order to the stored map: the keys list each
    /// stored id exactly once.
    pub proof fn lemma_keys(&self)
        requires
            self.wf(),
        ensures
            self.spec_keys().len() == self@.len(),
            forall|k: u64| self@.contains_key(k) <==> self.spec_keys().contains(k),
            forall|i: int, j: int|
                0 <= i < j < self.spec_keys().len() ==> #[trigger] self.spec_keys()[i]
                    != #[trigger] self.spec_keys()[j],
            forall|i: int|
                0 <= i < self.spec_keys().len() ==> self@.contains_key(
                    #[trigger] self.spec_keys()[i],
                ),
    {
        self.groups.lemma_keys();
    }

    pub fn new() -> (r: Self)
        ensures
            r.wf(),
            r@ == Map::<u64, Group>::empty(),
            r.spec_counter() == 0,
    {
        GroupRepository { groups: IdMap::new(), group_ids_counter: 0 }
    }

    /// Saves a group: a transient one is assigned the next fresh id; an
    /// already-identified one replaces its stored version.
    pub fn save(&mut self, it: Group) -> (r: GroupId)
        requires
            old(self).wf(),
            it.spec_id() is None ==> old(self).spec_counter() < u64::MAX,
            it.spec_id() matches Some(i) ==> i < old(self).spec_counter(),
        ensures
            final(self).wf(),
            match it.spec_id() {
                Some(i) => r == i && final(self)@ == old(self)@.insert(i, it) && final(self).spec_counter() == old(self).spec_counter(),
                None => {
                    &&& r == old(self).spec_counter()
                    &&& !old(self)@.contains_key(r)
                    &&& final(self).spec_counter() == old(self).spec_counter() + 1
                    &&& final(self)@ == old(self)@.insert(r, final(self)@[r])
                    &&& final(self)@[r].spec_id() == Some(r)
                    &&& final(self)@[r].spec_name() == it.spec_name()
                    &&& final(self)@[r].spec_description() == it.spec_description()
                    &&& final(self)@[r].spec_group_type() == it.spec_group_type()
                },
            },
            old(self)@.contains_key(r) ==> final(self).spec_keys() == old(self).spec_keys(),
            !old(self)@.contains_key(r) ==> final(self).spec_keys() == old(self).spec_keys().push(
                r,
            ),
    {
        let mut it = it;
        match it.get_id() {
            Some(i) => {
                self.groups.insert(i, it);
                i
            },
            None => {
                let id = self.group_ids_counter;
                self.group_ids_counter = id + 1;
                it.init_id(id);
                self.groups.insert(id, it);
                id
            },
        }
    }

    /// Removes and returns a stored group.
    pub fn delete(&mut self, id: &GroupId) -> (r: Option<Group>)
        requires
            old(self).wf(),
        ensures
            final(self).wf(),
            final(self)@ == old(self)@.remove(*id),
            r is Some <==> old(self)@.contains_key(*id),
            r matches Some(g) ==> g == old(self)@[*id],
            r is None ==> *final(self) == *old(self),
            r is Some ==> exists|i: int|
                0 <= i < old(self).spec_keys().len() && old(self).spec_keys()[i] == *id
                    && final(self).spec_keys() == old(self).spec_keys().remove(i),
            final(self).spec_counter() == old(self).spec_counter(),
    {
        let r = self.groups.remove(*id);
        proof {
            if r is Some {
                let i = choose|i: int|
                    0 <= i < old(self).groups.keys().len() && old(self).groups.keys()[i] == *id
                        && self.groups.keys() == old(self).groups.keys().remove(i);
                assert(old(self).spec_keys()[i] == *id && self.spec_keys() == old(
                    self,
                ).spec_keys().remove(i));
            }
        }
        r
    }

    /// Looks a stored group up.
    pub fn get(&self, id: &GroupId) -> (r: Option<&Group>)
        requires
            self.wf(),
        ensures
            r is Some <==> self@.contains_key(*id),
            r matches Some(g) ==> *g == self@[*id],
    {
        self.groups.get(*id)
    }

    /// One page of all groups, in listing order; each returned group equals
    /// its stored version.
    #[verifier::loop_isolation(false)]
    pub fn list(&self, page_req: &PageRequest<(), ()>) -> (r: Page<Group>)
        requires
            self.wf(),
        ensures
            r.data@.len() == page_window(
                self.spec_keys(),
                page_req.page_index as int,
                page_req.page_size as int,
            ).len(),
            forall|k: int|
                0 <= k < r.data@.len() ==> #[trigger] r.data@[k] == self@[page_window(
                    self.spec_keys(),
                    page_req.page_index as int,
                    page_req.page_size as int,
                )[k]],
            r.has_next == spec_has_next(
                self.spec_keys().len() as int,
                page_req.page_index as int,
                page_req.page_size as int,
            ),
    {
        let n = self.groups.len();
        let mut ids: Vec<GroupId> = Vec::new();
        let mut i: usize = 0;
        while i < n
            invariant
                i <= n,
                n == self.spec_keys().len(),
                ids@ == self.spec_keys().take(i as int),
            decreases n - i,
        {
            ids.push(self.groups.key_at(i));
            proof {
                assert(self.spec_keys().take(i as int + 1) =~= self.spec_keys().take(i as int).push(
                    self.spec_keys()[i as int],
                ));
            }
            i = i + 1;
        }
        proof {
            assert(self.spec_keys().take(n as int) =~= self.spec_keys());
            self.groups.lemma_keys();
        }
        let id_page = page_of_copied(&ids, page_req.page_index, page_req.page_size);
        let ghost window = page_window(
            self.spec_keys(),
            page_req.page_index as int,
            page_req.page_size as int,
        );
        let m = id_page.data.len();
        let mut data: Vec<Group> = Vec::new();
        let mut k: usize = 0;
        while k < m
            invariant
                k <= m,
                m == window.len(),
                id_page.data@ == window,
                data@.len() == k,
                forall|j: int| 0 <= j < k ==> #[trigger] data@[j] == self@[window[j]],
            decreases m - k,
        {
            let gid = id_page.data[k];
            proof {
                assert(self@.contains_key(window[k as int]));
            }
            match self.groups.get(gid) {
                Some(g) => {
                    data.push(g.duplicate());
                },
                None => {
                    proof {
                        assert(false);
                    }
                },
            }
            k = k + 1;
        }
        Page { data, has_next: id_page.has_next }
    }
}

} // verus!
