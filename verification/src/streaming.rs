//! Chunked artifact upload: batches of chunks that are filled, locked, and
//! then relayed by the unverified shell.

use vstd::prelude::*;

use crate::idmap::IdMap;
use crate::pagination::{page_of_copied, page_window, spec_has_next, Page, PageRequest};
use crate::types::{BatchId, ChunkId};

verus! {

/// One uploaded piece of an artifact.
#[derive(Clone, Debug)]
pub struct Chunk {
    pub batch_id: BatchId,
    pub content: Vec<u8>,
}

/// A named collection of chunks; once locked, it accepts no more.
#[derive(Clone, Debug)]
pub struct Batch {
    id: Option<BatchId>,
    key: String,
    content_type: String,
    locked: bool,
    chunk_ids: Vec<ChunkId>,
}

/// No chunk id occurs twice in a batch.
pub open spec fn chunk_ids_unique(s: Seq<ChunkId>) -> bool {
    forall|i: int, j: int| 0 <= i < j < s.len() ==> s[i] != s[j]
}

#[derive(Clone, Copy, PartialEq, Eq, Structural, Debug)]
pub enum StreamingRepositoryError {
    BatchNotFound(BatchId),
    ChunkNotFound(ChunkId),
    BatchIsAlreadyLocked(BatchId),
}

impl Batch {
    pub closed spec fn spec_id(&self) -> Option<BatchId> {
        self.id
    }

    pub closed spec fn spec_key(&self) -> Seq<char> {
        self.key@
    }

    pub closed spec fn spec_content_type(&self) -> Seq<char> {
        self.content_type@
    }

    pub closed spec fn spec_locked(&self) -> bool {
        self.locked
    }

    pub closed spec fn spec_chunk_ids(&self) -> Seq<ChunkId> {
        self.chunk_ids@
    }

    /// A batch lists each chunk once.
    pub open spec fn wf(&self) -> bool {
        chunk_ids_unique(self.spec_chunk_ids())
    }

    /// Field-level likeness; batches holding the same data.
    pub open spec fn like(&self, other: &Batch) -> bool {
        &&& self.spec_id() == other.spec_id()
        &&& self.spec_key() == other.spec_key()
        &&& self.spec_content_type() == other.spec_content_type()
        &&& self.spec_locked() == other.spec_locked()
        &&& self.spec_chunk_ids() == other.spec_chunk_ids()
    }

    /// A fresh, unlocked, empty batch.
    pub fn new(key: String, content_type: String) -> (r: Self)
        ensures
            r.spec_id() is None,
            r.spec_key() == key@,
            r.spec_content_type() == content_type@,
            !r.spec_locked(),
            r.spec_chunk_ids() == Seq::<ChunkId>::empty(),
            r.wf(),
    {
        let r = Batch { id: None, key, content_type, locked: false, chunk_ids: Vec::new() };
        proof {
            assert(r.spec_chunk_ids() =~= Seq::<ChunkId>::empty());
        }
        r
    }

    /// Registers a chunk, at most once; a locked batch accepts none.
    #[verifier::loop_isolation(false)]
    pub fn add_chunk(&mut self, batch_id: BatchId, chunk_id: ChunkId) -> (r: Result<
        (),
        StreamingRepositoryError,
    >)
        ensures
            r is Ok <==> !old(self).spec_locked(),
            r is Ok ==> {
                &&& final(self).spec_chunk_ids() == (if old(self).spec_chunk_ids().contains(
                    chunk_id,
                ) {
                    old(self).spec_chunk_ids()
                } else {
                    old(self).spec_chunk_ids().push(chunk_id)
                })
                &&& final(self).spec_id() == old(self).spec_id()
                &&& final(self).spec_key() == old(self).spec_key()
                &&& final(self).spec_content_type() == old(self).spec_content_type()
                &&& !final(self).spec_locked()
                &&& (old(self).wf() ==> final(self).wf())
            },
            r is Err ==> *final(self) == *old(self) && r == Err::<(), _>(
                StreamingRepositoryError::BatchIsAlreadyLocked(batch_id),
            ),
    {
        if self.locked {
            return Err(StreamingRepositoryError::BatchIsAlreadyLocked(batch_id));
        }
        let n = self.chunk_ids.len();
        let mut i: usize = 0;
        while i < n
            invariant
                i <= n,
                *self == *old(self),
                n == self.chunk_ids@.len(),
                forall|j: int| 0 <= j < i ==> self.chunk_ids@[j] != chunk_id,
            decreases n - i,
        {
            if self.chunk_ids[i] == chunk_id {
                return Ok(());
            }
            i = i + 1;
        }
        proof {
            if self.chunk_ids@.contains(chunk_id) {
                let j = choose|j: int|
                    0 <= j < self.chunk_ids@.len() && self.chunk_ids@[j] == chunk_id;
                assert(false);
            }
        }
        self.chunk_ids.push(chunk_id);
        proof {
            if old(self).wf() {
                assert forall|a: int, b: int|
                    0 <= a < b < self.chunk_ids@.len() implies self.chunk_ids@[a]
                    != self.chunk_ids@[b] by {
                    if b < self.chunk_ids@.len() - 1 {
                        assert(self.chunk_ids@[a] == old(self).spec_chunk_ids()[a]);
                        assert(self.chunk_ids@[b] == old(self).spec_chunk_ids()[b]);
                    } else {
                        assert(self.chunk_ids@[a] == old(self).spec_chunk_ids()[a]);
                    }
                }
            }
        }
        Ok(())
    }

    /// Locks the batch; locking twice is refused.
    pub fn lock(&mut self, batch_id: BatchId) -> (r: Result<(), StreamingRepositoryError>)
        ensures
            r is Ok <==> !old(self).spec_locked(),
            r is Ok ==> {
                &&& final(self).spec_locked()
                &&& final(self).spec_chunk_ids() == old(self).spec_chunk_ids()
                &&& final(self).spec_id() == old(self).spec_id()
                &&& final(self).spec_key() == old(self).spec_key()
                &&& final(self).spec_content_type() == old(self).spec_content_type()
            },
            r is Err ==> *final(self) == *old(self) && r == Err::<(), _>(
                StreamingRepositoryError::BatchIsAlreadyLocked(batch_id),
            ),
    {
        if self.locked {
            return Err(StreamingRepositoryError::BatchIsAlreadyLocked(batch_id));
        }
        self.locked = true;
        Ok(())
    }

    pub fn get_key(&self) -> (r: &String)
        ensures
            r@ == self.spec_key(),
    {
        &self.key
    }

    pub fn content_type(&self) -> (r: &String)
        ensures
            r@ == self.spec_content_type(),
    {
        &self.content_type
    }

    pub fn is_locked(&self) -> (r: bool)
        ensures
            r == self.spec_locked(),
    {
        self.locked
    }

    pub fn get_chunk_ids(&self) -> (r: &Vec<ChunkId>)
        ensures
            r@ == self.spec_chunk_ids(),
    {
        &self.chunk_ids
    }

    pub fn get_id(&self) -> (r: Option<BatchId>)
        ensures
            r == self.spec_id(),
    {
        self.id
    }

    pub fn is_transient(&self) -> (r: bool)
        ensures
            r == (self.spec_id() is None),
    {
        self.id.is_none()
    }

    /// Copies the batch; the copy holds the same data.
    pub fn duplicate(&self) -> (r: Self)
        ensures
            r.like(self),
    {
        let mut ids: Vec<ChunkId> = Vec::new();
        let n = self.chunk_ids.len();
        let mut i: usize = 0;
        while i < n
            invariant
                i <= n,
                n == self.chunk_ids@.len(),
                ids@ == self.chunk_ids@.take(i as int),
            decreases n - i,
        {
            ids.push(self.chunk_ids[i]);
            proof {
                assert(self.chunk_ids@.take(i as int + 1) =~= self.chunk_ids@.take(i as int).push(
                    self.chunk_ids@[i as int],
                ));
            }
            i = i + 1;
        }
        proof {
            assert(self.chunk_ids@.take(n as int) =~= self.chunk_ids@);
        }
        Batch {
            id: self.id,
            key: self.key.clone(),
            content_type: self.content_type.clone(),
            locked: self.locked,
            chunk_ids: ids,
        }
    }

    fn set_id(&mut self, id: BatchId)
        requires
            old(self).spec_id() is None,
        ensures
            final(self).spec_id() == Some(id),
            final(self).spec_key() == old(self).spec_key(),
            final(self).spec_content_type() == old(self).spec_content_type(),
            final(self).spec_locked() == old(self).spec_locked(),
            final(self).spec_chunk_ids() == old(self).spec_chunk_ids(),
    {
        self.id = Some(id);
    }
}

/// Owns every batch and chunk; ids are assigned once, monotonically.
pub struct StreamingRepository {
    chunks: IdMap<Chunk>,
    batches: IdMap<Batch>,
    chunk_id_counter: ChunkId,
    batch_id_counter: BatchId,
}

impl StreamingRepository {
    pub closed spec fn spec_batches(&self) -> Map<u64, Batch> {
        self.batches@
    }

    pub closed spec fn spec_chunks(&self) -> Map<u64, Chunk> {
        self.chunks@
    }

    pub closed spec fn spec_batch_keys(&self) -> Seq<u64> {
        self.batches.keys()
    }

    pub closed spec fn spec_batch_counter(&self) -> BatchId {
        self.batch_id_counter
    }

    pub closed spec fn spec_chunk_counter(&self) -> ChunkId {
        self.chunk_id_counter
    }

    pub open spec fn wf(&self) -> bool {
        self.spec_wf_inner()
    }

    pub closed spec fn spec_wf_inner(&self) -> bool {
        &&& self.batches.wf()
        &&& self.chunks.wf()
        &&& forall|id: u64|
            #[trigger] self.batches@.contains_key(id) ==> id < self.batch_id_counter
                && self.batches@[id].spec_id() == Some(id) && self.batches@[id].wf()
        &&& forall|id: u64, k: int|
            self.batches@.contains_key(id) && 0 <= k < self.batches@[id].spec_chunk_ids().len()
                ==> #[trigger] self.batches@[id].spec_chunk_ids()[k] < self.chunk_id_counter
        &&& forall|id: u64|
            #[trigger] self.chunks@.contains_key(id) ==> id < self.chunk_id_counter
    }

    /// Relates the batch listing order to the stored map: the keys list
    /// each stored batch id exactly once.
    pub proof fn lemma_batch_keys(&self)
        requires
            self.wf(),
        ensures
            self.spec_batch_keys().len() == self.spec_batches().len(),
            forall|k: u64|
                self.spec_batches().contains_key(k) <==> self.spec_batch_keys().contains(k),
            forall|i: int, j: int|
                0 <= i < j < self.spec_batch_keys().len() ==> #[trigger] self.spec_batch_keys()[i]
                    != #[trigger] self.spec_batch_keys()[j],
            forall|i: int|
                0 <= i < self.spec_batch_keys().len() ==> self.spec_batches().contains_key(
                    #[trigger] self.spec_batch_keys()[i],
                ),
    {
        self.batches.lemma_keys();
    }

    pub fn new() -> (r: Self)
        ensures
            r.wf(),
            r.spec_batches() == Map::<u64, Batch>::empty(),
            r.spec_chunks() == Map::<u64, Chunk>::empty(),
            r.spec_batch_counter() == 0,
            r.spec_chunk_counter() == 0,
    {
        StreamingRepository {
            chunks: IdMap::new(),
            batches: IdMap::new(),
            chunk_id_counter: 0,
            batch_id_counter: 0,
        }
    }

    /// Opens a fresh, unlocked, empty batch.
    pub fn create_batch(&mut self, key: String, content_type: String) -> (r: BatchId)
        requires
            old(self).wf(),
            old(self).spec_batch_counter() < u64::MAX,
        ensures
            final(self).wf(),
            r == old(self).spec_batch_counter(),
            !old(self).spec_batches().contains_key(r),
            final(self).spec_batch_counter() == r + 1,
            final(self).spec_chunk_counter() == old(self).spec_chunk_counter(),
            final(self).spec_chunks() == old(self).spec_chunks(),
            final(self).spec_batches() == old(self).spec_batches().insert(
                r,
                final(self).spec_batches()[r],
            ),
            final(self).spec_batches()[r].spec_key() == key@,
            final(self).spec_batches()[r].spec_content_type() == content_type@,
            !final(self).spec_batches()[r].spec_locked(),
            final(self).spec_batches()[r].spec_chunk_ids() == Seq::<ChunkId>::empty(),
            final(self).spec_batch_keys() == old(self).spec_batch_keys().push(r),
    {
        let id = self.batch_id_counter;
        self.batch_id_counter = id + 1;
        let mut batch = Batch::new(key, content_type);
        batch.set_id(id);
        self.batches.insert(id, batch);
        id
    }

    /// Appends a chunk to an unlocked batch.
    pub fn create_chunk(&mut self, batch_id: BatchId, content: Vec<u8>) -> (r: Result<
        ChunkId,
        StreamingRepositoryError,
    >)
        requires
            old(self).wf(),
            old(self).spec_chunk_counter() < u64::MAX,
        ensures
            final(self).wf(),
            match r {
                Ok(cid) => {
                    &&& old(self).spec_batches().contains_key(batch_id)
                    &&& !old(self).spec_batches()[batch_id].spec_locked()
                    &&& cid == old(self).spec_chunk_counter()
                    &&& final(self).spec_chunk_counter() == cid + 1
                    &&& final(self).spec_chunks() == old(self).spec_chunks().insert(
                        cid,
                        final(self).spec_chunks()[cid],
                    )
                    &&& final(self).spec_chunks()[cid].batch_id == batch_id
                    &&& final(self).spec_chunks()[cid].content@ == content@
                    &&& final(self).spec_batches() == old(self).spec_batches().insert(
                        batch_id,
                        final(self).spec_batches()[batch_id],
                    )
                    &&& final(self).spec_batches()[batch_id].spec_chunk_ids() == old(
                        self,
                    ).spec_batches()[batch_id].spec_chunk_ids().push(cid)
                    &&& final(self).spec_batch_keys() == old(self).spec_batch_keys()
                },
                Err(e) => {
                    &&& final(self).spec_batches() == old(self).spec_batches()
                    &&& final(self).spec_chunks() == old(self).spec_chunks()
                    &&& final(self).spec_batch_keys() == old(self).spec_batch_keys()
                    &&& final(self).spec_batch_counter() == old(self).spec_batch_counter()
                    &&& final(self).spec_chunk_counter() == old(self).spec_chunk_counter()
                    &&& (e is BatchNotFound || e is BatchIsAlreadyLocked)
                    &&& (e matches StreamingRepositoryError::BatchNotFound(b) ==> b == batch_id
                        && !old(self).spec_batches().contains_key(batch_id))
                    &&& (e matches StreamingRepositoryError::BatchIsAlreadyLocked(b) ==> b
                        == batch_id && old(self).spec_batches().contains_key(batch_id) && old(
                        self,
                    ).spec_batches()[batch_id].spec_locked())
                },
            },
    {
        proof {
            if self.batches@.contains_key(batch_id) {
                assert(self.batches@[batch_id].spec_id() == Some(batch_id));
                assert(self.batches@[batch_id].wf());
            }
        }
        let chunk_id = self.chunk_id_counter;
        let locked_err: bool;
        match self.batches.get_mut(batch_id) {
            None => {
                return Err(StreamingRepositoryError::BatchNotFound(batch_id));
            },
            Some(batch) => {
                match batch.add_chunk(batch_id, chunk_id) {
                    Ok(()) => {
                        locked_err = false;
                    },
                    Err(_) => {
                        locked_err = true;
                    },
                }
            },
        }
        if locked_err {
            proof {
                assert(self.batches@ =~= old(self).batches@);
            }
            return Err(StreamingRepositoryError::BatchIsAlreadyLocked(batch_id));
        }
        self.chunk_id_counter = chunk_id + 1;
        let chunk = Chunk { batch_id, content };
        self.chunks.insert(chunk_id, chunk);
        Ok(chunk_id)
    }

    /// Locks a batch against further chunks.
    pub fn lock_batch(&mut self, batch_id: BatchId) -> (r: Result<(), StreamingRepositoryError>)
        requires
            old(self).wf(),
        ensures
            final(self).wf(),
            match r {
                Ok(()) => {
                    &&& old(self).spec_batches().contains_key(batch_id)
                    &&& !old(self).spec_batches()[batch_id].spec_locked()
                    &&& final(self).spec_batches() == old(self).spec_batches().insert(
                        batch_id,
                        final(self).spec_batches()[batch_id],
                    )
                    &&& final(self).spec_batches()[batch_id].spec_locked()
                    &&& final(self).spec_batches()[batch_id].spec_chunk_ids() == old(
                        self,
                    ).spec_batches()[batch_id].spec_chunk_ids()
                    &&& final(self).spec_chunks() == old(self).spec_chunks()
                    &&& final(self).spec_batch_keys() == old(self).spec_batch_keys()
                },
                Err(e) => {
                    &&& final(self).spec_batches() == old(self).spec_batches()
                    &&& final(self).spec_chunks() == old(self).spec_chunks()
                    &&& final(self).spec_batch_keys() == old(self).spec_batch_keys()
                    &&& final(self).spec_batch_counter() == old(self).spec_batch_counter()
                    &&& final(self).spec_chunk_counter() == old(self).spec_chunk_counter()
                    &&& (e is BatchNotFound || e is BatchIsAlreadyLocked)
                    &&& (e matches StreamingRepositoryError::BatchNotFound(b) ==> b == batch_id
                        && !old(self).spec_batches().contains_key(batch_id))
                    &&& (e matches StreamingRepositoryError::BatchIsAlreadyLocked(b) ==> b
                        == batch_id && old(self).spec_batches().contains_key(batch_id) && old(
                        self,
                    ).spec_batches()[batch_id].spec_locked())
                },
            },
    {
        proof {
            if self.batches@.contains_key(batch_id) {
                assert(self.batches@[batch_id].spec_id() == Some(batch_id));
                assert(self.batches@[batch_id].wf());
            }
        }
        let locked_err: bool;
        match self.batches.get_mut(batch_id) {
            None => {
                return Err(StreamingRepositoryError::BatchNotFound(batch_id));
            },
            Some(batch) => {
                match batch.lock(batch_id) {
                    Ok(()) => {
                        locked_err = false;
                    },
                    Err(_) => {
                        locked_err = true;
                    },
                }
            },
        }
        if locked_err {
            proof {
                assert(self.batches@ =~= old(self).batches@);
            }
            return Err(StreamingRepositoryError::BatchIsAlreadyLocked(batch_id));
        }
        Ok(())
    }

    /// Deletes a batch and all its chunks; the batch's lock state must
    /// match the caller's expectation.
    #[verifier::loop_isolation(false)]
    pub fn delete_batch(&mut self, batch_id: &BatchId, lock_assertion: bool) -> (r: Result<
        (),
        StreamingRepositoryError,
    >)
        requires
            old(self).wf(),
            old(self).spec_batches().contains_key(*batch_id) ==> old(self).spec_batches()[
                *batch_id
            ].spec_locked() == lock_assertion,
        ensures
            final(self).wf(),
            match r {
                Ok(()) => {
                    &&& old(self).spec_batches().contains_key(*batch_id)
                    &&& final(self).spec_batches() == old(self).spec_batches().remove(*batch_id)
                    &&& (exists|i: int|
                        0 <= i < old(self).spec_batch_keys().len() && old(self).spec_batch_keys()[i]
                            == *batch_id && final(self).spec_batch_keys() == old(
                            self,
                        ).spec_batch_keys().remove(i))
                    &&& forall|cid: u64|
                        #[trigger] final(self).spec_chunks().contains_key(cid) <==> (old(
                            self,
                        ).spec_chunks().contains_key(cid) && !old(self).spec_batches()[
                            *batch_id
                        ].spec_chunk_ids().contains(cid))
                },
                Err(e) => {
                    &&& *final(self) == *old(self)
                    &&& e == StreamingRepositoryError::BatchNotFound(*batch_id)
                    &&& !old(self).spec_batches().contains_key(*batch_id)
                },
            },
    {
        let batch = match self.batches.remove(*batch_id) {
            Some(b) => b,
            None => {
                return Err(StreamingRepositoryError::BatchNotFound(*batch_id));
            },
        };
        proof {
            let i = choose|i: int|
                0 <= i < old(self).batches.keys().len() && old(self).batches.keys()[i] == *batch_id
                    && self.batches.keys() == old(self).batches.keys().remove(i);
            assert(old(self).spec_batch_keys()[i] == *batch_id && self.spec_batch_keys() == old(
                self,
            ).spec_batch_keys().remove(i));
        }
        let ids = batch.get_chunk_ids();
        let ghost batches1 = self.batches;
        let n = ids.len();
        let mut i: usize = 0;
        while i < n
            invariant
                i <= n,
                n == batch.spec_chunk_ids().len(),
                ids@ == batch.spec_chunk_ids(),
                self.chunks.wf(),
                self.batches == batches1,
                self.batches.wf(),
                self.batches@ == old(self).batches@.remove(*batch_id),
                self.batch_id_counter == old(self).batch_id_counter,
                self.chunk_id_counter == old(self).chunk_id_counter,
                forall|cid: u64|
                    #[trigger] self.chunks@.contains_key(cid) <==> (old(
                        self,
                    ).chunks@.contains_key(cid) && !ids@.take(i as int).contains(cid)),
                forall|cid: u64|
                    #[trigger] self.chunks@.contains_key(cid) ==> self.chunks@[cid] == old(
                        self,
                    ).chunks@[cid],
            decreases n - i,
        {
            let ghost prev = self.chunks@;
            self.chunks.remove(ids[i]);
            proof {
                assert forall|cid: u64|
                    #[trigger] self.chunks@.contains_key(cid) <==> (old(
                        self,
                    ).chunks@.contains_key(cid) && !ids@.take(i as int + 1).contains(cid)) by {
                    assert(ids@.take(i as int + 1)[i as int] == ids@[i as int]);
                    if ids@.take(i as int + 1).contains(cid) {
                        let j = choose|j: int|
                            0 <= j < i + 1 && #[trigger] ids@.take(i as int + 1)[j] == cid;
                        if j < i {
                            assert(ids@.take(i as int)[j] == cid);
                            assert(ids@.take(i as int).contains(cid));
                        }
                    } else {
                        if ids@.take(i as int).contains(cid) {
                            let j = choose|j: int|
                                0 <= j < i && #[trigger] ids@.take(i as int)[j] == cid;
                            assert(ids@.take(i as int + 1)[j] == cid);
                            assert(false);
                        }
                        if cid == ids@[i as int] {
                            assert(ids@.take(i as int + 1).contains(cid));
                            assert(false);
                        }
                    }
                }
            }
            i = i + 1;
        }
        proof {
            assert(ids@.take(n as int) =~= ids@);
        }
        Ok(())
    }

    /// Looks a stored batch up.
    pub fn get_batch(&self, batch_id: &BatchId) -> (r: Result<&Batch, StreamingRepositoryError>)
        requires
            self.wf(),
        ensures
            match r {
                Ok(b) => self.spec_batches().contains_key(*batch_id) && *b == self.spec_batches()[
                    *batch_id
                ],
                Err(e) => e == StreamingRepositoryError::BatchNotFound(*batch_id)
                    && !self.spec_batches().contains_key(*batch_id),
            },
    {
        match self.batches.get(*batch_id) {
            Some(b) => Ok(b),
            None => Err(StreamingRepositoryError::BatchNotFound(*batch_id)),
        }
    }

    /// Borrows a stored batch for in-place mutation. The repository stays
    /// well-formed as long as the caller leaves the batch's id untouched —
    /// and no public method of `Batch` can change it.
    pub fn get_batch_mut(&mut self, batch_id: &BatchId) -> (r: Result<
        &mut Batch,
        StreamingRepositoryError,
    >)
        requires
            old(self).wf(),
        ensures
            match r {
                Ok(b) => {
                    &&& old(self).spec_batches().contains_key(*batch_id)
                    &&& *b == old(self).spec_batches()[*batch_id]
                    &&& final(self).spec_batches() == old(self).spec_batches().insert(
                        *batch_id,
                        *final(b),
                    )
                    &&& final(self).spec_chunks() == old(self).spec_chunks()
                    &&& final(self).spec_batch_counter() == old(self).spec_batch_counter()
                    &&& final(self).spec_chunk_counter() == old(self).spec_chunk_counter()
                    &&& ((final(b).spec_id() == Some(*batch_id) && final(b).wf() && (forall|
                        k: int,
                    |
                        0 <= k < final(b).spec_chunk_ids().len()
                            ==> #[trigger] final(b).spec_chunk_ids()[k] < old(
                            self,
                        ).spec_chunk_counter())) ==> final(self).wf())
                },
                Err(e) => {
                    &&& *final(self) == *old(self)
                    &&& e == StreamingRepositoryError::BatchNotFound(*batch_id)
                    &&& !old(self).spec_batches().contains_key(*batch_id)
                },
            },
    {
        match self.batches.get_mut(*batch_id) {
            Some(b) => Ok(b),
            None => Err(StreamingRepositoryError::BatchNotFound(*batch_id)),
        }
    }

    /// One page of all batches, in listing order; each returned batch holds
    /// the same data as its stored version.
    #[verifier::loop_isolation(false)]
    pub fn get_batches_cloned(&self, page_req: PageRequest<(), ()>) -> (r: Page<(BatchId, Batch)>)
        requires
            self.wf(),
        ensures
            r.data@.len() == page_window(
                self.spec_batch_keys(),
                page_req.page_index as int,
                page_req.page_size as int,
            ).len(),
            forall|k: int|
                0 <= k < r.data@.len() ==> (#[trigger] r.data@[k]).0 == page_window(
                    self.spec_batch_keys(),
                    page_req.page_index as int,
                    page_req.page_size as int,
                )[k] && r.data@[k].1.like(&self.spec_batches()[r.data@[k].0]),
            r.has_next == spec_has_next(
                self.spec_batch_keys().len() as int,
                page_req.page_index as int,
                page_req.page_size as int,
            ),
    {
        let n = self.batches.len();
        let mut ids: Vec<BatchId> = Vec::new();
        let mut i: usize = 0;
        while i < n
            invariant
                i <= n,
                n == self.spec_batch_keys().len(),
                ids@ == self.spec_batch_keys().take(i as int),
            decreases n - i,
        {
            ids.push(self.batches.key_at(i));
            proof {
                assert(self.spec_batch_keys().take(i as int + 1) =~= self.spec_batch_keys().take(
                    i as int,
                ).push(self.spec_batch_keys()[i as int]));
            }
            i = i + 1;
        }
        proof {
            assert(self.spec_batch_keys().take(n as int) =~= self.spec_batch_keys());
            self.batches.lemma_keys();
        }
        let id_page = page_of_copied(&ids, page_req.page_index, page_req.page_size);
        let ghost window = page_window(
            self.spec_batch_keys(),
            page_req.page_index as int,
            page_req.page_size as int,
        );
        let m = id_page.data.len();
        let mut data: Vec<(BatchId, Batch)> = Vec::new();
        let mut k: usize = 0;
        while k < m
            invariant
                k <= m,
                m == window.len(),
                id_page.data@ == window,
                data@.len() == k,
                forall|j: int|
                    0 <= j < k ==> (#[trigger] data@[j]).0 == window[j] && data@[j].1.like(
                        &self.spec_batches()[data@[j].0],
                    ),
            decreases m - k,
        {
            let bid = id_page.data[k];
            proof {
                assert(self.spec_batches().contains_key(window[k as int]));
            }
            match self.batches.get(bid) {
                Some(b) => {
                    data.push((bid, b.duplicate()));
                },
                None => {
                    proof {
                        assert(false);
                    }
                },
            }
            k = k + 1;
        }
        Page { data, has_next: id_page.has_next }
    }

    /// Looks a stored chunk up.
    pub fn get_chunk(&self, chunk_id: &ChunkId) -> (r: Result<&Chunk, StreamingRepositoryError>)
        requires
            self.wf(),
        ensures
            match r {
                Ok(c) => self.spec_chunks().contains_key(*chunk_id) && *c == self.spec_chunks()[
                    *chunk_id
                ],
                Err(e) => e == StreamingRepositoryError::ChunkNotFound(*chunk_id)
                    && !self.spec_chunks().contains_key(*chunk_id),
            },
    {
        match self.chunks.get(*chunk_id) {
            Some(c) => Ok(c),
            None => Err(StreamingRepositoryError::ChunkNotFound(*chunk_id)),
        }
    }
}

} // verus!
