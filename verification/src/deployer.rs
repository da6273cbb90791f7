//! Lifecycle of distributable binary versions and of the instances running
//! them: a version is created, uploaded once, released, and eventually
//! deleted — never while it is the latest release.

use vstd::prelude::*;

use crate::blob::Blob;
use crate::idmap::IdMap;
use crate::types::PrincipalId;
use crate::validation::{trimmed_len_ok, trimmed_of, validate_and_trim_str, ValidationError};

verus! {

pub const BINARY_VERSION_MIN_LEN: usize = 5;

pub const BINARY_VERSION_MAX_LEN: usize = 30;

pub const BINARY_DESCRIPTION_MIN_LEN: usize = 10;

pub const BINARY_DESCRIPTION_MAX_LEN: usize = 5000;

/// Where a binary version stands in its lifecycle.
#[derive(Clone, Copy, PartialEq, Eq, Structural, Debug)]
pub enum UnionWalletBinaryStatus {
    Created,
    Released,
    Deleted,
}

/// One distributable binary version and its metadata.
#[derive(Clone, Debug)]
pub struct UnionWalletBinary {
    pub version: String,
    pub description: String,
    pub status: UnionWalletBinaryStatus,
    pub binary: Option<Blob>,
    pub created_at: u64,
    pub updated_at: u64,
}

/// One running instance and the version it was deployed from.
#[derive(Clone, Debug)]
pub struct UnionWalletInstance {
    pub canister_id: PrincipalId,
    pub binary_version: String,
    pub created_at: u64,
    pub upgraded_at: u64,
}

#[derive(Clone, Debug)]
pub enum DeployerError {
    ValidationError(ValidationError),
    BinaryVersionAlreadyExists,
    BinaryVersionNotFound,
    BinaryVersionHasWrongStatus,
    MissingBinary,
    UnableToDeleteLatestVersion,
    BinaryIsImmutable,
    InstanceNotFound,
}

pub open spec fn bin_versions_unique(s: Seq<UnionWalletBinary>) -> bool {
    forall|i: int, j: int|
        0 <= i < j < s.len() ==> (#[trigger] s[i]).version@ != (#[trigger] s[j]).version@
}

/// The stored binary carrying a version string, if any.
pub open spec fn bin_find(s: Seq<UnionWalletBinary>, v: Seq<char>) -> Option<UnionWalletBinary>
    decreases s.len(),
{
    if s.len() == 0 {
        None
    } else if s.last().version@ == v {
        Some(s.last())
    } else {
        bin_find(s.drop_last(), v)
    }
}

proof fn lemma_bin_at(s: Seq<UnionWalletBinary>, i: int)
    requires
        bin_versions_unique(s),
        0 <= i < s.len(),
    ensures
        bin_find(s, s[i].version@) == Some(s[i]),
    decreases s.len(),
{
    if i < s.len() - 1 {
        assert(bin_versions_unique(s.drop_last()));
        assert(s.drop_last()[i] == s[i]);
        lemma_bin_at(s.drop_last(), i);
        assert(s.last().version@ != s[i].version@);
    }
}

proof fn lemma_bin_absent(s: Seq<UnionWalletBinary>, v: Seq<char>)
    requires
        forall|i: int| 0 <= i < s.len() ==> (#[trigger] s[i]).version@ != v,
    ensures
        bin_find(s, v) is None,
    decreases s.len(),
{
    if s.len() > 0 {
        lemma_bin_absent(s.drop_last(), v);
    }
}

proof fn lemma_bin_update(s: Seq<UnionWalletBinary>, i: int, b: UnionWalletBinary)
    requires
        bin_versions_unique(s),
        0 <= i < s.len(),
        b.version@ == s[i].version@,
    ensures
        bin_versions_unique(s.update(i, b)),
        forall|v: Seq<char>|
            #[trigger] bin_find(s.update(i, b), v) == if v == s[i].version@ {
                Some(b)
            } else {
                bin_find(s, v)
            },
    decreases s.len(),
{
    let t = s.update(i, b);
    assert(bin_versions_unique(t));
    if i == s.len() - 1 {
        assert(t.drop_last() =~= s.drop_last());
        assert(t.last() == b);
    } else {
        assert(bin_versions_unique(s.drop_last()));
        assert(s.drop_last()[i] == s[i]);
        lemma_bin_update(s.drop_last(), i, b);
        assert(t.drop_last() =~= s.drop_last().update(i, b));
        assert(t.last() == s.last());
        assert(s.last().version@ != s[i].version@);
        assert forall|v: Seq<char>|
            #[trigger] bin_find(t, v) == if v == s[i].version@ {
                Some(b)
            } else {
                bin_find(s, v)
            } by {
            if v != s.last().version@ {
                assert(bin_find(t, v) == bin_find(t.drop_last(), v));
            }
        }
    }
}

proof fn lemma_bin_push(s: Seq<UnionWalletBinary>, b: UnionWalletBinary)
    requires
        bin_versions_unique(s),
        forall|i: int| 0 <= i < s.len() ==> (#[trigger] s[i]).version@ != b.version@,
    ensures
        bin_versions_unique(s.push(b)),
        forall|v: Seq<char>|
            #[trigger] bin_find(s.push(b), v) == if v == b.version@ {
                Some(b)
            } else {
                bin_find(s, v)
            },
{
    let t = s.push(b);
    assert(t.drop_last() =~= s);
    assert(t.last() == b);
    assert forall|a: int, c: int| 0 <= a < c < t.len() implies (#[trigger] t[a]).version@ != (
    #[trigger] t[c]).version@ by {
        if c < t.len() - 1 {
            assert(t[a] == s[a] && t[c] == s[c]);
        } else {
            assert(t[a] == s[a]);
        }
    }
}

/// Copies a byte string.
fn copy_bytes(v: &Vec<u8>) -> (r: Vec<u8>)
    ensures
        r@ == v@,
{
    let mut r: Vec<u8> = Vec::new();
    let n = v.len();
    let mut i: usize = 0;
    while i < n
        invariant
            i <= n,
            n == v@.len(),
            r@ == v@.take(i as int),
        decreases n - i,
    {
        r.push(v[i]);
        proof {
            assert(v@.take(i as int + 1) =~= v@.take(i as int).push(v@[i as int]));
        }
        i = i + 1;
    }
    proof {
        assert(v@.take(n as int) =~= v@);
    }
    r
}

/// The deployment state: every known binary version, the latest released
/// one, and every running instance.
pub struct State {
    binaries: Vec<UnionWalletBinary>,
    latest_version: Option<String>,
    instances: IdMap<UnionWalletInstance>,
}

impl State {
    pub closed spec fn spec_binaries(&self) -> Seq<UnionWalletBinary> {
        self.binaries@
    }

    /// The binary stored under a version string, if any.
    pub open spec fn spec_binary(&self, v: Seq<char>) -> Option<UnionWalletBinary> {
        bin_find(self.spec_binaries(), v)
    }

    pub closed spec fn spec_latest_version(&self) -> Option<Seq<char>> {
        match self.latest_version {
            Some(s) => Some(s@),
            None => None,
        }
    }

    pub closed spec fn spec_instances(&self) -> Map<u64, UnionWalletInstance> {
        self.instances@
    }

    /// Versions are unique; the latest release always names a stored
    /// binary; every instance record carries its own key.
    pub open spec fn wf(&self) -> bool {
        self.spec_wf_inner()
    }

    pub closed spec fn spec_wf_inner(&self) -> bool {
        &&& bin_versions_unique(self.binaries@)
        &&& (match self.spec_latest_version() {
            Some(v) => self.spec_binary(v) is Some,
            None => true,
        })
        &&& self.instances.wf()
        &&& forall|id: u64|
            #[trigger] self.instances@.contains_key(id) ==> self.instances@[id].canister_id == id
    }

    pub fn new() -> (r: Self)
        ensures
            r.wf(),
            r.spec_binaries() == Seq::<UnionWalletBinary>::empty(),
            r.spec_latest_version() is None,
            r.spec_instances() == Map::<u64, UnionWalletInstance>::empty(),
    {
        let r = State { binaries: Vec::new(), latest_version: None, instances: IdMap::new() };
        proof {
            assert(r.spec_binaries() =~= Seq::<UnionWalletBinary>::empty());
        }
        r
    }

    fn position_of(&self, version: &String) -> (r: Option<usize>)
        ensures
            match r {
                Some(i) => i < self.binaries@.len() && self.binaries@[i as int].version@
                    == version@,
                None => forall|i: int|
                    0 <= i < self.binaries@.len() ==> (#[trigger] self.binaries@[i]).version@
                        != version@,
            },
    {
        let n = self.binaries.len();
        let mut i: usize = 0;
        while i < n
            invariant
                i <= n,
                n == self.binaries@.len(),
                forall|j: int|
                    0 <= j < i ==> (#[trigger] self.binaries@[j]).version@ != version@,
            decreases n - i,
        {
            if self.binaries[i].version == *version {
                return Some(i);
            }
            i = i + 1;
        }
        None
    }

    /// Registers a new version in `Created` status, without a binary yet.
    #[verifier::loop_isolation(false)]
    pub fn create_binary_version(&mut self, version: String, description: String, timestamp: u64)
        -> (r: Result<(), DeployerError>)
        requires
            old(self).wf(),
        ensures
            final(self).wf(),
            match r {
                Ok(()) => {
                    &&& trimmed_len_ok(
                        version@,
                        BINARY_VERSION_MIN_LEN as int,
                        BINARY_VERSION_MAX_LEN as int,
                    )
                    &&& trimmed_len_ok(
                        description@,
                        BINARY_DESCRIPTION_MIN_LEN as int,
                        BINARY_DESCRIPTION_MAX_LEN as int,
                    )
                    &&& old(self).spec_binary(trimmed_of(version@)) is None
                    &&& (final(self).spec_binary(trimmed_of(version@)) matches Some(b) && {
                        &&& b.version@ == trimmed_of(version@)
                        &&& b.description@ == trimmed_of(description@)
                        &&& b.status is Created
                        &&& b.binary is None
                        &&& b.created_at == timestamp
                        &&& b.updated_at == timestamp
                    })
                    &&& forall|v: Seq<char>|
                        v != trimmed_of(version@) ==> #[trigger] final(self).spec_binary(v) == old(
                            self,
                        ).spec_binary(v)
                    &&& final(self).spec_latest_version() == old(self).spec_latest_version()
                    &&& final(self).spec_instances() == old(self).spec_instances()
                },
                Err(e) => {
                    &&& *final(self) == *old(self)
                    &&& (e is ValidationError || e is BinaryVersionAlreadyExists)
                    &&& (e is ValidationError <==> !(trimmed_len_ok(
                        version@,
                        BINARY_VERSION_MIN_LEN as int,
                        BINARY_VERSION_MAX_LEN as int,
                    ) && trimmed_len_ok(
                        description@,
                        BINARY_DESCRIPTION_MIN_LEN as int,
                        BINARY_DESCRIPTION_MAX_LEN as int,
                    )))
                    &&& (e is BinaryVersionAlreadyExists <==> (trimmed_len_ok(
                        version@,
                        BINARY_VERSION_MIN_LEN as int,
                        BINARY_VERSION_MAX_LEN as int,
                    ) && trimmed_len_ok(
                        description@,
                        BINARY_DESCRIPTION_MIN_LEN as int,
                        BINARY_DESCRIPTION_MAX_LEN as int,
                    ) && old(self).spec_binary(trimmed_of(version@)) is Some))
                },
            },
    {
        let version2 = match validate_and_trim_str(
            version,
            BINARY_VERSION_MIN_LEN,
            BINARY_VERSION_MAX_LEN,
            "Version",
        ) {
            Ok(v) => v,
            Err(e) => {
                return Err(DeployerError::ValidationError(e));
            },
        };
        let description2 = match validate_and_trim_str(
            description,
            BINARY_DESCRIPTION_MIN_LEN,
            BINARY_DESCRIPTION_MAX_LEN,
            "Description",
        ) {
            Ok(d) => d,
            Err(e) => {
                return Err(DeployerError::ValidationError(e));
            },
        };
        match self.position_of(&version2) {
            Some(i) => {
                proof {
                    lemma_bin_at(self.binaries@, i as int);
                }
                Err(DeployerError::BinaryVersionAlreadyExists)
            },
            None => {
                proof {
                    lemma_bin_absent(self.binaries@, version2@);
                }
                let b = UnionWalletBinary {
                    version: version2,
                    description: description2,
                    status: UnionWalletBinaryStatus::Created,
                    binary: None,
                    created_at: timestamp,
                    updated_at: timestamp,
                };
                proof {
                    lemma_bin_push(self.binaries@, b);
                }
                self.binaries.push(b);
                Ok(())
            },
        }
    }

    /// Replaces a version's description.
    #[verifier::loop_isolation(false)]
    pub fn update_binary_version_description(
        &mut self,
        version: &String,
        new_description: Option<String>,
        timestamp: u64,
    ) -> (r: Result<(), DeployerError>)
        requires
            old(self).wf(),
        ensures
            final(self).wf(),
            match r {
                Ok(()) => {
                    &&& old(self).spec_binary(version@) is Some
                    &&& (final(self).spec_binary(version@) matches Some(b) && {
                        let b0 = old(self).spec_binary(version@)->0;
                        &&& b.version@ == b0.version@
                        &&& b.description@ == (match new_description {
                            Some(d) => trimmed_of(d@),
                            None => b0.description@,
                        })
                        &&& b.status == b0.status
                        &&& b.binary == b0.binary
                        &&& b.created_at == b0.created_at
                        &&& b.updated_at == timestamp
                    })
                    &&& forall|v: Seq<char>|
                        v != version@ ==> #[trigger] final(self).spec_binary(v) == old(
                            self,
                        ).spec_binary(v)
                    &&& final(self).spec_latest_version() == old(self).spec_latest_version()
                    &&& final(self).spec_instances() == old(self).spec_instances()
                },
                Err(e) => {
                    &&& *final(self) == *old(self)
                    &&& (e is BinaryVersionNotFound || e is ValidationError)
                    &&& (e is BinaryVersionNotFound <==> old(self).spec_binary(version@) is None)
                    &&& (e is ValidationError <==> (old(self).spec_binary(version@) is Some
                        && (new_description matches Some(d) && !trimmed_len_ok(
                        d@,
                        BINARY_DESCRIPTION_MIN_LEN as int,
                        BINARY_DESCRIPTION_MAX_LEN as int,
                    ))))
                },
            },
    {
        let i = match self.position_of(version) {
            Some(i) => i,
            None => {
                proof {
                    lemma_bin_absent(self.binaries@, version@);
                }
                return Err(DeployerError::BinaryVersionNotFound);
            },
        };
        proof {
            lemma_bin_at(self.binaries@, i as int);
        }
        let description2 = match new_description {
            Some(d) => match validate_and_trim_str(
                d,
                BINARY_DESCRIPTION_MIN_LEN,
                BINARY_DESCRIPTION_MAX_LEN,
                "Description",
            ) {
                Ok(d2) => Some(d2),
                Err(e) => {
                    return Err(DeployerError::ValidationError(e));
                },
            },
            None => None,
        };
        let ghost s0 = self.binaries@;
        let slot = &mut self.binaries[i];
        if let Some(d) = description2 {
            slot.description = d;
        }
        slot.updated_at = timestamp;
        proof {
            assert(self.binaries@ =~= s0.update(i as int, self.binaries@[i as int]));
            lemma_bin_update(s0, i as int, self.binaries@[i as int]);
        }
        Ok(())
    }

    /// Releases an uploaded version and makes it the latest one.
    #[verifier::loop_isolation(false)]
    pub fn release_binary_version(&mut self, version: &String, timestamp: u64) -> (r: Result<
        (),
        DeployerError,
    >)
        requires
            old(self).wf(),
        ensures
            final(self).wf(),
            match r {
                Ok(()) => {
                    &&& (old(self).spec_binary(version@) matches Some(b0) && b0.status is Created
                        && b0.binary is Some)
                    &&& (final(self).spec_binary(version@) matches Some(b) && {
                        let b0 = old(self).spec_binary(version@)->0;
                        &&& b.status is Released
                        &&& b.updated_at == timestamp
                        &&& b.version@ == b0.version@
                        &&& b.description@ == b0.description@
                        &&& b.binary == b0.binary
                        &&& b.created_at == b0.created_at
                    })
                    &&& final(self).spec_latest_version() == Some(version@)
                    &&& forall|v: Seq<char>|
                        v != version@ ==> #[trigger] final(self).spec_binary(v) == old(
                            self,
                        ).spec_binary(v)
                    &&& final(self).spec_instances() == old(self).spec_instances()
                },
                Err(e) => {
                    &&& *final(self) == *old(self)
                    &&& (e is BinaryVersionNotFound || e is BinaryVersionHasWrongStatus
                        || e is MissingBinary)
                    &&& (e is BinaryVersionNotFound <==> old(self).spec_binary(version@) is None)
                    &&& (e is BinaryVersionHasWrongStatus <==> (old(self).spec_binary(version@)
                        matches Some(b0) && !(b0.status is Created)))
                    &&& (e is MissingBinary <==> (old(self).spec_binary(version@) matches Some(b0)
                        && b0.status is Created && b0.binary is None))
                },
            },
    {
        let i = match self.position_of(version) {
            Some(i) => i,
            None => {
                proof {
                    lemma_bin_absent(self.binaries@, version@);
                }
                return Err(DeployerError::BinaryVersionNotFound);
            },
        };
        proof {
            lemma_bin_at(self.binaries@, i as int);
        }
        match self.binaries[i].status {
            UnionWalletBinaryStatus::Created => {},
            _ => {
                return Err(DeployerError::BinaryVersionHasWrongStatus);
            },
        }
        if self.binaries[i].binary.is_none() {
            return Err(DeployerError::MissingBinary);
        }
        let ghost s0 = self.binaries@;
        let slot = &mut self.binaries[i];
        slot.status = UnionWalletBinaryStatus::Released;
        slot.updated_at = timestamp;
        proof {
            assert(self.binaries@ =~= s0.update(i as int, self.binaries@[i as int]));
            lemma_bin_update(s0, i as int, self.binaries@[i as int]);
        }
        self.latest_version = Some(self.binaries[i].version.clone());
        Ok(())
    }

    /// Marks a version deleted and drops its payload; the latest release
    /// can never be deleted.
    #[verifier::loop_isolation(false)]
    pub fn delete_binary_version(&mut self, version: &String, timestamp: u64) -> (r: Result<
        (),
        DeployerError,
    >)
        requires
            old(self).wf(),
        ensures
            final(self).wf(),
            match r {
                Ok(()) => {
                    &&& (old(self).spec_binary(version@) matches Some(b0) && !(b0.status
                        is Deleted))
                    &&& old(self).spec_latest_version() != Some(version@)
                    &&& (final(self).spec_binary(version@) matches Some(b) && {
                        let b0 = old(self).spec_binary(version@)->0;
                        &&& b.status is Deleted
                        &&& b.binary is None
                        &&& b.updated_at == timestamp
                        &&& b.version@ == b0.version@
                        &&& b.description@ == b0.description@
                        &&& b.created_at == b0.created_at
                    })
                    &&& forall|v: Seq<char>|
                        v != version@ ==> #[trigger] final(self).spec_binary(v) == old(
                            self,
                        ).spec_binary(v)
                    &&& final(self).spec_latest_version() == old(self).spec_latest_version()
                    &&& final(self).spec_instances() == old(self).spec_instances()
                },
                Err(e) => {
                    &&& *final(self) == *old(self)
                    &&& (e is BinaryVersionNotFound || e is BinaryVersionHasWrongStatus
                        || e is UnableToDeleteLatestVersion)
                    &&& (e is BinaryVersionNotFound <==> old(self).spec_binary(version@) is None)
                    &&& (e is BinaryVersionHasWrongStatus <==> (old(self).spec_binary(version@)
                        matches Some(b0) && b0.status is Deleted))
                    &&& (e is UnableToDeleteLatestVersion <==> (old(self).spec_binary(version@)
                        matches Some(b0) && !(b0.status is Deleted) && old(
                        self,
                    ).spec_latest_version() == Some(version@)))
                },
            },
    {
        let i = match self.position_of(version) {
            Some(i) => i,
            None => {
                proof {
                    lemma_bin_absent(self.binaries@, version@);
                }
                return Err(DeployerError::BinaryVersionNotFound);
            },
        };
        proof {
            lemma_bin_at(self.binaries@, i as int);
        }
        match self.binaries[i].status {
            UnionWalletBinaryStatus::Deleted => {
                return Err(DeployerError::BinaryVersionHasWrongStatus);
            },
            _ => {},
        }
        match &self.latest_version {
            Some(latest) => {
                if *latest == *version {
                    return Err(DeployerError::UnableToDeleteLatestVersion);
                }
            },
            None => {},
        }
        let ghost s0 = self.binaries@;
        let slot = &mut self.binaries[i];
        slot.status = UnionWalletBinaryStatus::Deleted;
        slot.updated_at = timestamp;
        slot.binary = None;
        proof {
            assert(self.binaries@ =~= s0.update(i as int, self.binaries@[i as int]));
            lemma_bin_update(s0, i as int, self.binaries@[i as int]);
        }
        Ok(())
    }

    /// Attaches the payload to a version, once: an uploaded binary is
    /// immutable.
    #[verifier::loop_isolation(false)]
    pub fn upload_binary(&mut self, version: &String, binary: Blob, timestamp: u64) -> (r: Result<
        (),
        DeployerError,
    >)
        requires
            old(self).wf(),
        ensures
            final(self).wf(),
            match r {
                Ok(()) => {
                    &&& (old(self).spec_binary(version@) matches Some(b0) && b0.binary is None)
                    &&& (final(self).spec_binary(version@) matches Some(b) && {
                        let b0 = old(self).spec_binary(version@)->0;
                        &&& (b.binary matches Some(bytes) && bytes@ == binary@)
                        &&& b.updated_at == timestamp
                        &&& b.version@ == b0.version@
                        &&& b.description@ == b0.description@
                        &&& b.status == b0.status
                        &&& b.created_at == b0.created_at
                    })
                    &&& forall|v: Seq<char>|
                        v != version@ ==> #[trigger] final(self).spec_binary(v) == old(
                            self,
                        ).spec_binary(v)
                    &&& final(self).spec_latest_version() == old(self).spec_latest_version()
                    &&& final(self).spec_instances() == old(self).spec_instances()
                },
                Err(e) => {
                    &&& *final(self) == *old(self)
                    &&& (e is BinaryVersionNotFound || e is BinaryIsImmutable)
                    &&& (e is BinaryVersionNotFound <==> old(self).spec_binary(version@) is None)
                    &&& (e is BinaryIsImmutable <==> (old(self).spec_binary(version@) matches Some(
                        b0,
                    ) && b0.binary is Some))
                },
            },
    {
        let i = match self.position_of(version) {
            Some(i) => i,
            None => {
                proof {
                    lemma_bin_absent(self.binaries@, version@);
                }
                return Err(DeployerError::BinaryVersionNotFound);
            },
        };
        proof {
            lemma_bin_at(self.binaries@, i as int);
        }
        if self.binaries[i].binary.is_some() {
            return Err(DeployerError::BinaryIsImmutable);
        }
        let ghost s0 = self.binaries@;
        let slot = &mut self.binaries[i];
        slot.binary = Some(binary);
        slot.updated_at = timestamp;
        proof {
            assert(self.binaries@ =~= s0.update(i as int, self.binaries@[i as int]));
            lemma_bin_update(s0, i as int, self.binaries@[i as int]);
        }
        Ok(())
    }

    /// All known version strings, in registration order.
    #[verifier::loop_isolation(false)]
    pub fn get_binary_versions(&self) -> (r: Vec<String>)
        ensures
            r@.len() == self.spec_binaries().len(),
            forall|i: int|
                0 <= i < r@.len() ==> #[trigger] r@[i] == self.spec_binaries()[i].version,
    {
        let n = self.binaries.len();
        let mut r: Vec<String> = Vec::new();
        let mut i: usize = 0;
        while i < n
            invariant
                i <= n,
                r@.len() == i,
                forall|j: int|
                    0 <= j < i ==> #[trigger] r@[j] == self.spec_binaries()[j].version,
            decreases n - i,
        {
            r.push(self.binaries[i].version.clone());
            i = i + 1;
        }
        r
    }

    /// A version's metadata; the payload itself is withheld and only its
    /// presence is reported (as an empty placeholder payload).
    #[verifier::loop_isolation(false)]
    pub fn get_binary_version(&self, version: &String) -> (r: Result<
        UnionWalletBinary,
        DeployerError,
    >)
        requires
            self.wf(),
        ensures
            match r {
                Ok(b) => (self.spec_binary(version@) matches Some(b0) && {
                    &&& b.version == b0.version
                    &&& b.description == b0.description
                    &&& b.status == b0.status
                    &&& b.created_at == b0.created_at
                    &&& b.updated_at == b0.updated_at
                    &&& (b.binary is Some <==> b0.binary is Some)
                    &&& (b.binary matches Some(bytes) ==> bytes@ == Seq::<u8>::empty())
                }),
                Err(e) => e is BinaryVersionNotFound && self.spec_binary(version@) is None,
            },
    {
        let i = match self.position_of(version) {
            Some(i) => i,
            None => {
                proof {
                    lemma_bin_absent(self.binaries@, version@);
                }
                return Err(DeployerError::BinaryVersionNotFound);
            },
        };
        proof {
            lemma_bin_at(self.binaries@, i as int);
        }
        let b = &self.binaries[i];
        let placeholder: Option<Blob> = match &b.binary {
            Some(_) => Some(Vec::new()),
            None => None,
        };
        Ok(
            UnionWalletBinary {
                version: b.version.clone(),
                description: b.description.clone(),
                status: b.status,
                binary: placeholder,
                created_at: b.created_at,
                updated_at: b.updated_at,
            },
        )
    }

    /// A version's payload, copied out.
    #[verifier::loop_isolation(false)]
    pub fn download_binary(&self, version: &String) -> (r: Result<Option<Blob>, DeployerError>)
        requires
            self.wf(),
        ensures
            match r {
                Ok(payload) => (self.spec_binary(version@) matches Some(b0) && {
                    &&& (payload is Some <==> b0.binary is Some)
                    &&& (payload matches Some(bytes) ==> bytes@ == b0.binary->0@)
                }),
                Err(e) => e is BinaryVersionNotFound && self.spec_binary(version@) is None,
            },
    {
        let i = match self.position_of(version) {
            Some(i) => i,
            None => {
                proof {
                    lemma_bin_absent(self.binaries@, version@);
                }
                return Err(DeployerError::BinaryVersionNotFound);
            },
        };
        proof {
            lemma_bin_at(self.binaries@, i as int);
        }
        match &self.binaries[i].binary {
            Some(bytes) => Ok(Some(copy_bytes(bytes))),
            None => Ok(None),
        }
    }

    /// Records which version an instance runs: a known instance is
    /// upgraded in place, an unknown one is registered.
    pub fn set_instance_version(&mut self, instance_id: PrincipalId, version: String, timestamp: u64)
        requires
            old(self).wf(),
        ensures
            final(self).wf(),
            final(self).spec_instances().contains_key(instance_id),
            final(self).spec_instances() == old(self).spec_instances().insert(
                instance_id,
                final(self).spec_instances()[instance_id],
            ),
            final(self).spec_instances()[instance_id].canister_id == instance_id,
            final(self).spec_instances()[instance_id].binary_version == version,
            final(self).spec_instances()[instance_id].upgraded_at == timestamp,
            final(self).spec_instances()[instance_id].created_at == (
            if old(self).spec_instances().contains_key(instance_id) {
                old(self).spec_instances()[instance_id].created_at
            } else {
                timestamp
            }),
            final(self).spec_binaries() == old(self).spec_binaries(),
            final(self).spec_latest_version() == old(self).spec_latest_version(),
    {
        let created_at = match self.instances.get(instance_id) {
            Some(inst) => inst.created_at,
            None => timestamp,
        };
        let inst = UnionWalletInstance {
            canister_id: instance_id,
            binary_version: version,
            created_at,
            upgraded_at: timestamp,
        };
        self.instances.insert(instance_id, inst);
    }

    /// All known instance ids, in registration order.
    #[verifier::loop_isolation(false)]
    pub fn get_instance_ids(&self) -> (r: Vec<PrincipalId>)
        requires
            self.wf(),
        ensures
            r@.len() == self.spec_instances().len(),
            forall|i: int|
                0 <= i < r@.len() ==> self.spec_instances().contains_key(#[trigger] r@[i]),
    {
        proof {
            self.instances.lemma_keys();
        }
        let n = self.instances.len();
        let mut r: Vec<PrincipalId> = Vec::new();
        let mut i: usize = 0;
        while i < n
            invariant
                i <= n,
                n == self.instances.keys().len(),
                r@ == self.instances.keys().take(i as int),
            decreases n - i,
        {
            r.push(self.instances.key_at(i));
            proof {
                assert(self.instances.keys().take(i as int + 1) =~= self.instances.keys().take(
                    i as int,
                ).push(self.instances.keys()[i as int]));
            }
            i = i + 1;
        }
        proof {
            assert(self.instances.keys().take(n as int) =~= self.instances.keys());
            assert forall|j: int|
                0 <= j < r@.len() implies self.spec_instances().contains_key(
                #[trigger] r@[j],
            ) by {
                assert(r@[j] == self.instances.keys()[j]);
            }
        }
        r
    }

    /// One instance's record, copied out.
    pub fn get_instance(&self, instance_id: &PrincipalId) -> (r: Result<
        UnionWalletInstance,
        DeployerError,
    >)
        requires
            self.wf(),
        ensures
            match r {
                Ok(inst) => self.spec_instances().contains_key(*instance_id) && inst
                    == self.spec_instances()[*instance_id],
                Err(e) => e is InstanceNotFound && !self.spec_instances().contains_key(
                    *instance_id,
                ),
            },
    {
        match self.instances.get(*instance_id) {
            Some(inst) => Ok(
                UnionWalletInstance {
                    canister_id: inst.canister_id,
                    binary_version: inst.binary_version.clone(),
                    created_at: inst.created_at,
                    upgraded_at: inst.upgraded_at,
                },
            ),
            None => Err(DeployerError::InstanceNotFound),
        }
    }
}

} // verus!
