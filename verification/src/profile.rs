//! Profiles: individual participants, and the request/response records of
//! the profile operations.

use vstd::prelude::*;

use crate::pagination::{Page, PageRequest};
use crate::types::ProfileId;
use crate::validation::{byte_len, trimmed_len_ok, trimmed_of, validate_and_trim_str, ValidationError, ValidationReason};

verus! {

pub const PROFILE_NAME_MIN_LEN: usize = 1;

pub const PROFILE_NAME_MAX_LEN: usize = 100;

pub const PROFILE_DESCRIPTION_MIN_LEN: usize = 0;

pub const PROFILE_DESCRIPTION_MAX_LEN: usize = 300;

/// One individual participant.
#[derive(Clone, Debug)]
pub struct Profile {
    id: ProfileId,
    name: String,
    description: String,
}

impl Profile {
    pub closed spec fn spec_id(&self) -> ProfileId {
        self.id
    }

    pub closed spec fn spec_name(&self) -> Seq<char> {
        self.name@
    }

    pub closed spec fn spec_description(&self) -> Seq<char> {
        self.description@
    }

    /// Builds a profile with a validated, trimmed name and description.
    pub fn new(id: ProfileId, name: String, description: String) -> (r: Result<
        Self,
        ValidationError,
    >)
        ensures
            match r {
                Ok(p) => {
                    &&& trimmed_len_ok(
                        name@,
                        PROFILE_NAME_MIN_LEN as int,
                        PROFILE_NAME_MAX_LEN as int,
                    )
                    &&& trimmed_len_ok(
                        description@,
                        PROFILE_DESCRIPTION_MIN_LEN as int,
                        PROFILE_DESCRIPTION_MAX_LEN as int,
                    )
                    &&& p.spec_id() == id
                    &&& p.spec_name() == trimmed_of(name@)
                    &&& p.spec_description() == trimmed_of(description@)
                },
                Err(e) => {
                    &&& !(trimmed_len_ok(
                        name@,
                        PROFILE_NAME_MIN_LEN as int,
                        PROFILE_NAME_MAX_LEN as int,
                    ) && trimmed_len_ok(
                        description@,
                        PROFILE_DESCRIPTION_MIN_LEN as int,
                        PROFILE_DESCRIPTION_MAX_LEN as int,
                    ))
                    &&& if !trimmed_len_ok(name@, PROFILE_NAME_MIN_LEN as int, PROFILE_NAME_MAX_LEN as int) {
                        e.field@ == "Profile name"@ && (if byte_len(trimmed_of(name@)) > PROFILE_NAME_MAX_LEN {
                            e.reason == (ValidationReason::TooLong {
                                max: PROFILE_NAME_MAX_LEN,
                                actual: byte_len(trimmed_of(name@)) as usize,
                            })
                        } else {
                            e.reason == (ValidationReason::TooShort {
                                min: PROFILE_NAME_MIN_LEN,
                                actual: byte_len(trimmed_of(name@)) as usize,
                            })
                        })
                    } else {
                        e.field@ == "Profile description"@ && (if byte_len(trimmed_of(description@)) > PROFILE_DESCRIPTION_MAX_LEN {
                            e.reason == (ValidationReason::TooLong {
                                max: PROFILE_DESCRIPTION_MAX_LEN,
                                actual: byte_len(trimmed_of(description@)) as usize,
                            })
                        } else {
                            e.reason == (ValidationReason::TooShort {
                                min: PROFILE_DESCRIPTION_MIN_LEN,
                                actual: byte_len(trimmed_of(description@)) as usize,
                            })
                        })
                    }
                },
            },
    {
        let name2 = match validate_and_trim_str(
            name,
            PROFILE_NAME_MIN_LEN,
            PROFILE_NAME_MAX_LEN,
            "Profile name",
        ) {
            Ok(n) => n,
            Err(e) => {
                return Err(e);
            },
        };
        let description2 = match validate_and_trim_str(
            description,
            PROFILE_DESCRIPTION_MIN_LEN,
            PROFILE_DESCRIPTION_MAX_LEN,
            "Profile description",
        ) {
            Ok(d) => d,
            Err(e) => {
                return Err(e);
            },
        };
        Ok(Profile { id, name: name2, description: description2 })
    }

    pub fn get_id(&self) -> (r: ProfileId)
        ensures
            r == self.spec_id(),
    {
        self.id
    }

    pub fn get_name(&self) -> (r: &String)
        ensures
            r@ == self.spec_name(),
    {
        &self.name
    }

    pub fn get_description(&self) -> (r: &String)
        ensures
            r@ == self.spec_description(),
    {
        &self.description
    }
}

pub struct CreateProfileRequest {
    pub id: ProfileId,
    pub name: String,
    pub description: String,
}

pub struct DeleteProfileRequest {
    pub id: ProfileId,
}

pub struct UpdateMyProfileRequest {
    pub new_name: Option<String>,
    pub new_description: Option<String>,
}

pub struct UpdateProfileRequest {
    pub id: ProfileId,
    pub new_name: Option<String>,
    pub new_description: Option<String>,
}

pub struct GetProfileResponse {
    pub profile: Profile,
}

pub struct GetProfileRequest {
    pub id: ProfileId,
}

pub struct ListProfilesRequest {
    pub page_req: PageRequest<(), ()>,
}

pub struct ListProfilesResponse {
    pub page: Page<Profile>,
}

} // verus!
