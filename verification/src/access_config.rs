//! Access configurations: bind a set of permissions ("what") to a set of
//! allowee constraints ("who") for a class of operations.

use vstd::prelude::*;

use crate::types::{dedup_first_ids, dedup_ids, ids_unique, AccessConfigId, GroupId, PermissionId, PrincipalId, ProfileId};
use crate::validation::{byte_len, trimmed_len_ok, trimmed_of, validate_and_trim_str, ValidationError, ValidationReason};

verus! {

pub const ACCESS_CONFIG_NAME_MIN_LEN: usize = 1;

pub const ACCESS_CONFIG_NAME_MAX_LEN: usize = 100;

pub const ACCESS_CONFIG_DESCRIPTION_MIN_LEN: usize = 0;

pub const ACCESS_CONFIG_DESCRIPTION_MAX_LEN: usize = 300;

/// A rule describing which callers an access configuration admits.
#[derive(Clone, Copy, PartialEq, Eq, Structural, Debug)]
pub enum AlloweeConstraint {
    Everyone,
    Group(GroupId),
    Profile(ProfileId),
}

/// Whether one allowee constraint admits a caller with the given group
/// memberships.
pub open spec fn spec_allowee_admits(
    a: AlloweeConstraint,
    caller: PrincipalId,
    groups: Seq<GroupId>,
) -> bool {
    match a {
        AlloweeConstraint::Everyone => true,
        AlloweeConstraint::Profile(p) => p == caller,
        AlloweeConstraint::Group(g) => groups.contains(g),
    }
}

/// Whether one allowee constraint admits a caller with the given group
/// memberships.
#[verifier::loop_isolation(false)]
pub fn allowee_admits(a: &AlloweeConstraint, caller: PrincipalId, groups: &Vec<GroupId>) -> (r:
    bool)
    ensures
        r == spec_allowee_admits(*a, caller, groups@),
{
    match a {
        AlloweeConstraint::Everyone => true,
        AlloweeConstraint::Profile(p) => *p == caller,
        AlloweeConstraint::Group(g) => {
            let n = groups.len();
            let mut i: usize = 0;
            while i < n
                invariant
                    i <= n,
                    n == groups@.len(),
                    forall|j: int| 0 <= j < i ==> groups@[j] != *g,
                decreases n - i,
            {
                if groups[i] == *g {
                    return true;
                }
                i = i + 1;
            }
            proof {
                if groups@.contains(*g) {
                    let j = choose|j: int| 0 <= j < groups@.len() && groups@[j] == *g;
                    assert(false);
                }
            }
            false
        },
    }
}

/// Binds allowees to the permissions they may exercise.
#[derive(Clone, Debug)]
pub struct AccessConfig {
    id: Option<AccessConfigId>,
    name: String,
    description: String,
    permissions: Vec<PermissionId>,
    allowees: Vec<AlloweeConstraint>,
}

impl AccessConfig {
    pub closed spec fn spec_id(&self) -> Option<AccessConfigId> {
        self.id
    }

    pub closed spec fn spec_name(&self) -> Seq<char> {
        self.name@
    }

    pub closed spec fn spec_description(&self) -> Seq<char> {
        self.description@
    }

    pub closed spec fn spec_permissions(&self) -> Seq<PermissionId> {
        self.permissions@
    }

    pub closed spec fn spec_allowees(&self) -> Seq<AlloweeConstraint> {
        self.allowees@
    }

    /// The bound permission ids form a set.
    pub open spec fn wf(&self) -> bool {
        ids_unique(self.spec_permissions())
    }

    /// Whether this configuration admits the caller: at least one allowee
    /// constraint does.
    pub open spec fn spec_allows(&self, caller: PrincipalId, groups: Seq<GroupId>) -> bool {
        exists|i: int|
            0 <= i < self.spec_allowees().len() && spec_allowee_admits(
                #[trigger] self.spec_allowees()[i],
                caller,
                groups,
            )
    }

    /// Whether this configuration admits the caller: at least one allowee
    /// constraint does.
    #[verifier::loop_isolation(false)]
    pub fn allows_caller(&self, caller: PrincipalId, groups: &Vec<GroupId>) -> (r: bool)
        ensures
            r == self.spec_allows(caller, groups@),
    {
        let n = self.allowees.len();
        let mut i: usize = 0;
        while i < n
            invariant
                i <= n,
                n == self.spec_allowees().len(),
                forall|j: int|
                    0 <= j < i ==> !spec_allowee_admits(
                        #[trigger] self.spec_allowees()[j],
                        caller,
                        groups@,
                    ),
            decreases n - i,
        {
            if allowee_admits(&self.allowees[i], caller, groups) {
                return true;
            }
            i = i + 1;
        }
        proof {
            if self.spec_allows(caller, groups@) {
                let j = choose|j: int|
                    0 <= j < self.spec_allowees().len() && spec_allowee_admits(
                        #[trigger] self.spec_allowees()[j],
                        caller,
                        groups@,
                    );
                assert(false);
            }
        }
        false
    }

    /// Builds a configuration from a validated, trimmed name and
    /// description.
    pub fn new(
        name: String,
        description: String,
        permissions: Vec<PermissionId>,
        allowees: Vec<AlloweeConstraint>,
    ) -> (r: Result<Self, ValidationError>)
        ensures
            match r {
                Ok(ac) => {
                    &&& trimmed_len_ok(
                        name@,
                        ACCESS_CONFIG_NAME_MIN_LEN as int,
                        ACCESS_CONFIG_NAME_MAX_LEN as int,
                    )
                    &&& trimmed_len_ok(
                        description@,
                        ACCESS_CONFIG_DESCRIPTION_MIN_LEN as int,
                        ACCESS_CONFIG_DESCRIPTION_MAX_LEN as int,
                    )
                    &&& ac.spec_id() is None
                    &&& ac.spec_name() == trimmed_of(name@)
                    &&& ac.spec_description() == trimmed_of(description@)
                    &&& ac.spec_permissions() == dedup_first_ids(permissions@)
                    &&& ac.wf()
                    &&& ac.spec_allowees() == allowees@
                },
                Err(e) => {
                    &&& !(trimmed_len_ok(
                        name@,
                        ACCESS_CONFIG_NAME_MIN_LEN as int,
                        ACCESS_CONFIG_NAME_MAX_LEN as int,
                    ) && trimmed_len_ok(
                        description@,
                        ACCESS_CONFIG_DESCRIPTION_MIN_LEN as int,
                        ACCESS_CONFIG_DESCRIPTION_MAX_LEN as int,
                    ))
                    &&& if !trimmed_len_ok(name@, ACCESS_CONFIG_NAME_MIN_LEN as int, ACCESS_CONFIG_NAME_MAX_LEN as int) {
                        e.field@ == "Access config name"@ && (if byte_len(trimmed_of(name@)) > ACCESS_CONFIG_NAME_MAX_LEN {
                            e.reason == (ValidationReason::TooLong {
                                max: ACCESS_CONFIG_NAME_MAX_LEN,
                                actual: byte_len(trimmed_of(name@)) as usize,
                            })
                        } else {
                            e.reason == (ValidationReason::TooShort {
                                min: ACCESS_CONFIG_NAME_MIN_LEN,
                                actual: byte_len(trimmed_of(name@)) as usize,
                            })
                        })
                    } else {
                        e.field@ == "Access config description"@ && (if byte_len(trimmed_of(description@)) > ACCESS_CONFIG_DESCRIPTION_MAX_LEN {
                            e.reason == (ValidationReason::TooLong {
                                max: ACCESS_CONFIG_DESCRIPTION_MAX_LEN,
                                actual: byte_len(trimmed_of(description@)) as usize,
                            })
                        } else {
                            e.reason == (ValidationReason::TooShort {
                                min: ACCESS_CONFIG_DESCRIPTION_MIN_LEN,
                                actual: byte_len(trimmed_of(description@)) as usize,
                            })
                        })
                    }
                },
            },
    {
        let name2 = match Self::process_name(name) {
            Ok(n) => n,
            Err(e) => {
                return Err(e);
            },
        };
        let description2 = match Self::process_description(description) {
            Ok(d) => d,
            Err(e) => {
                return Err(e);
            },
        };
        let permissions2 = dedup_ids(&permissions);
        Ok(
            AccessConfig {
                id: None,
                name: name2,
                description: description2,
                permissions: permissions2,
                allowees,
            },
        )
    }

    /// Replaces any subset of the fields after validating every replacement;
    /// nothing changes when a replacement is rejected.
    pub fn update(
        &mut self,
        new_name: Option<String>,
        new_description: Option<String>,
        new_permissions: Option<Vec<PermissionId>>,
        new_allowees: Option<Vec<AlloweeConstraint>>,
    ) -> (r: Result<(), ValidationError>)
        ensures
            match r {
                Ok(()) => {
                    &&& final(self).spec_id() == old(self).spec_id()
                    &&& final(self).spec_name() == (match new_name {
                        Some(n) => trimmed_of(n@),
                        None => old(self).spec_name(),
                    })
                    &&& final(self).spec_description() == (match new_description {
                        Some(d) => trimmed_of(d@),
                        None => old(self).spec_description(),
                    })
                    &&& final(self).spec_permissions() == (match new_permissions {
                        Some(p) => dedup_first_ids(p@),
                        None => old(self).spec_permissions(),
                    })
                    &&& (old(self).wf() ==> final(self).wf())
                    &&& final(self).spec_allowees() == (match new_allowees {
                        Some(a) => a@,
                        None => old(self).spec_allowees(),
                    })
                },
                Err(_) => *final(self) == *old(self),
            },
            r is Ok <==> {
                &&& (match new_name {
                    Some(n) => trimmed_len_ok(
                        n@,
                        ACCESS_CONFIG_NAME_MIN_LEN as int,
                        ACCESS_CONFIG_NAME_MAX_LEN as int,
                    ),
                    None => true,
                })
                &&& (match new_description {
                    Some(d) => trimmed_len_ok(
                        d@,
                        ACCESS_CONFIG_DESCRIPTION_MIN_LEN as int,
                        ACCESS_CONFIG_DESCRIPTION_MAX_LEN as int,
                    ),
                    None => true,
                })
            },
    {
        let name2 = match new_name {
            Some(n) => match Self::process_name(n) {
                Ok(n2) => Some(n2),
                Err(e) => {
                    return Err(e);
                },
            },
            None => None,
        };
        let description2 = match new_description {
            Some(d) => match Self::process_description(d) {
                Ok(d2) => Some(d2),
                Err(e) => {
                    return Err(e);
                },
            },
            None => None,
        };
        if let Some(n) = name2 {
            self.name = n;
        }
        if let Some(d) = description2 {
            self.description = d;
        }
        if let Some(p) = new_permissions {
            self.permissions = dedup_ids(&p);
        }
        if let Some(a) = new_allowees {
            self.allowees = a;
        }
        Ok(())
    }

    pub fn get_permissions(&self) -> (r: &Vec<PermissionId>)
        ensures
            r@ == self.spec_permissions(),
    {
        &self.permissions
    }

    pub fn get_allowees(&self) -> (r: &Vec<AlloweeConstraint>)
        ensures
            r@ == self.spec_allowees(),
    {
        &self.allowees
    }

    pub fn get_id(&self) -> (r: Option<AccessConfigId>)
        ensures
            r == self.spec_id(),
    {
        self.id
    }

    pub fn is_transient(&self) -> (r: bool)
        ensures
            r == (self.spec_id() is None),
    {
        self.id.is_none()
    }

    /// Assigns the id on first save; an already-identified configuration can
    /// never be re-assigned.
    pub fn init_id(&mut self, id: AccessConfigId)
        requires
            old(self).spec_id() is None,
        ensures
            final(self).spec_id() == Some(id),
            final(self).spec_name() == old(self).spec_name(),
            final(self).spec_description() == old(self).spec_description(),
            final(self).spec_permissions() == old(self).spec_permissions(),
            final(self).spec_allowees() == old(self).spec_allowees(),
    {
        self.id = Some(id);
    }

    fn process_name(name: String) -> (r: Result<String, ValidationError>)
        ensures
            match r {
                Ok(t) => trimmed_len_ok(
                    name@,
                    ACCESS_CONFIG_NAME_MIN_LEN as int,
                    ACCESS_CONFIG_NAME_MAX_LEN as int,
                ) && t@ == trimmed_of(name@),
                Err(e) => !trimmed_len_ok(
                    name@,
                    ACCESS_CONFIG_NAME_MIN_LEN as int,
                    ACCESS_CONFIG_NAME_MAX_LEN as int,
                ) && e.field@ == "Access config name"@ && (if byte_len(trimmed_of(name@)) > ACCESS_CONFIG_NAME_MAX_LEN {
                    e.reason == (ValidationReason::TooLong {
                        max: ACCESS_CONFIG_NAME_MAX_LEN,
                        actual: byte_len(trimmed_of(name@)) as usize,
                    })
                } else {
                    e.reason == (ValidationReason::TooShort {
                        min: ACCESS_CONFIG_NAME_MIN_LEN,
                        actual: byte_len(trimmed_of(name@)) as usize,
                    })
                }),
            },
    {
        validate_and_trim_str(
            name,
            ACCESS_CONFIG_NAME_MIN_LEN,
            ACCESS_CONFIG_NAME_MAX_LEN,
            "Access config name",
        )
    }

    fn process_description(description: String) -> (r: Result<String, ValidationError>)
        ensures
            match r {
                Ok(t) => trimmed_len_ok(
                    description@,
                    ACCESS_CONFIG_DESCRIPTION_MIN_LEN as int,
                    ACCESS_CONFIG_DESCRIPTION_MAX_LEN as int,
                ) && t@ == trimmed_of(description@),
                Err(e) => !trimmed_len_ok(
                    description@,
                    ACCESS_CONFIG_DESCRIPTION_MIN_LEN as int,
                    ACCESS_CONFIG_DESCRIPTION_MAX_LEN as int,
                ) && e.field@ == "Access config description"@ && (if byte_len(trimmed_of(description@)) > ACCESS_CONFIG_DESCRIPTION_MAX_LEN {
                    e.reason == (ValidationReason::TooLong {
                        max: ACCESS_CONFIG_DESCRIPTION_MAX_LEN,
                        actual: byte_len(trimmed_of(description@)) as usize,
                    })
                } else {
                    e.reason == (ValidationReason::TooShort {
                        min: ACCESS_CONFIG_DESCRIPTION_MIN_LEN,
                        actual: byte_len(trimmed_of(description@)) as usize,
                    })
                }),
            },
    {
        validate_and_trim_str(
            description,
            ACCESS_CONFIG_DESCRIPTION_MIN_LEN,
            ACCESS_CONFIG_DESCRIPTION_MAX_LEN,
            "Access config description",
        )
    }
}

} // verus!
