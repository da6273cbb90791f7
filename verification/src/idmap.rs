//! A verified map from numeric ids to entities, with a stable listing order.
//!
//! Every repository stores its entities in an `IdMap`: lookup, insert and
//! remove are specified against a mathematical `Map<u64, V>` view, while the
//! insertion order of the keys (`keys()`) stays available for stable
//! pagination.

use vstd::prelude::*;

verus! {

/// The keys of an entry sequence, in storage order.
pub open spec fn keys_of<V>(s: Seq<(u64, V)>) -> Seq<u64> {
    s.map_values(|e: (u64, V)| e.0)
}

/// No id occurs twice in the entry sequence.
pub open spec fn unique_ids<V>(s: Seq<(u64, V)>) -> bool {
    forall|i: int, j: int|
        0 <= i < j < s.len() ==> (#[trigger] s[i]).0 != (#[trigger] s[j]).0
}

/// The mathematical map an entry sequence denotes (later entries win).
pub open spec fn id_map_of<V>(s: Seq<(u64, V)>) -> Map<u64, V>
    decreases s.len(),
{
    if s.len() == 0 {
        Map::empty()
    } else {
        id_map_of(s.drop_last()).insert(s.last().0, s.last().1)
    }
}

pub proof fn lemma_id_map_contains<V>(s: Seq<(u64, V)>, k: u64)
    ensures
        id_map_of(s).contains_key(k) <==> exists|i: int|
            0 <= i < s.len() && (#[trigger] s[i]).0 == k,
    decreases s.len(),
{
    if s.len() > 0 {
        lemma_id_map_contains(s.drop_last(), k);
        if s.last().0 == k {
            assert((s[s.len() - 1]).0 == k);
        } else if id_map_of(s.drop_last()).contains_key(k) {
            let i = choose|i: int| 0 <= i < s.drop_last().len() && (#[trigger] s.drop_last()[i]).0 == k;
            assert((s[i]).0 == k);
        } else if exists|i: int| 0 <= i < s.len() && (#[trigger] s[i]).0 == k {
            let i = choose|i: int| 0 <= i < s.len() && (#[trigger] s[i]).0 == k;
            assert(i < s.len() - 1);
            assert((s.drop_last()[i]).0 == k);
        }
    }
}

pub proof fn lemma_id_map_index<V>(s: Seq<(u64, V)>, i: int)
    requires
        unique_ids(s),
        0 <= i < s.len(),
    ensures
        id_map_of(s).contains_key(s[i].0),
        id_map_of(s)[s[i].0] == s[i].1,
    decreases s.len(),
{
    if i == s.len() - 1 {
    } else {
        assert(unique_ids(s.drop_last()));
        assert(s.drop_last()[i] == s[i]);
        lemma_id_map_index(s.drop_last(), i);
        assert(s.last().0 != s[i].0);
    }
}

pub proof fn lemma_id_map_len<V>(s: Seq<(u64, V)>)
    requires
        unique_ids(s),
    ensures
        id_map_of(s).dom().finite(),
        id_map_of(s).len() == s.len(),
    decreases s.len(),
{
    if s.len() > 0 {
        assert(unique_ids(s.drop_last()));
        lemma_id_map_len(s.drop_last());
        lemma_id_map_contains(s.drop_last(), s.last().0);
        assert(!id_map_of(s.drop_last()).contains_key(s.last().0));
    }
}

pub proof fn lemma_id_map_update<V>(s: Seq<(u64, V)>, i: int, v: V)
    requires
        unique_ids(s),
        0 <= i < s.len(),
    ensures
        unique_ids(s.update(i, (s[i].0, v))),
        id_map_of(s.update(i, (s[i].0, v))) == id_map_of(s).insert(s[i].0, v),
    decreases s.len(),
{
    let k = s[i].0;
    let t = s.update(i, (k, v));
    assert(unique_ids(t));
    if i == s.len() - 1 {
        assert(t.drop_last() =~= s.drop_last());
        assert(t.last() == (k, v));
        assert(id_map_of(t) == id_map_of(s.drop_last()).insert(k, v));
        assert(id_map_of(s.drop_last()).insert(k, v) =~= id_map_of(
            s.drop_last(),
        ).insert(k, s[i].1).insert(k, v));
    } else {
        assert(unique_ids(s.drop_last()));
        assert(s.drop_last()[i] == s[i]);
        lemma_id_map_update(s.drop_last(), i, v);
        assert(t.drop_last() =~= s.drop_last().update(i, (k, v)));
        assert(t.last() == s.last());
        assert(s.last().0 != k);
        assert(id_map_of(t) == id_map_of(s.drop_last()).insert(k, v).insert(
            s.last().0,
            s.last().1,
        ));
        assert(id_map_of(s.drop_last()).insert(k, v).insert(s.last().0, s.last().1) =~= id_map_of(
            s,
        ).insert(k, v));
    }
}

pub proof fn lemma_id_map_remove<V>(s: Seq<(u64, V)>, i: int)
    requires
        unique_ids(s),
        0 <= i < s.len(),
    ensures
        unique_ids(s.remove(i)),
        id_map_of(s.remove(i)) == id_map_of(s).remove(s[i].0),
    decreases s.len(),
{
    let k = s[i].0;
    let t = s.remove(i);
    assert forall|a: int, b: int| 0 <= a < b < t.len() implies (#[trigger] t[a]).0 != (
    #[trigger] t[b]).0 by {
        let a2: int = if a < i { a } else { a + 1 };
        let b2: int = if b < i { b } else { b + 1 };
        assert(t[a] == s[a2] && t[b] == s[b2]);
    }
    if i == s.len() - 1 {
        assert(t =~= s.drop_last());
        lemma_id_map_contains(s.drop_last(), k);
        assert(!id_map_of(s.drop_last()).contains_key(k));
        assert(id_map_of(s.drop_last()) =~= id_map_of(s.drop_last()).insert(k, s[i].1).remove(k));
    } else {
        assert(unique_ids(s.drop_last()));
        assert(s.drop_last()[i] == s[i]);
        lemma_id_map_remove(s.drop_last(), i);
        assert(t.drop_last() =~= s.drop_last().remove(i));
        assert(t.last() == s.last());
        assert(s.last().0 != k);
        assert(id_map_of(t) == id_map_of(s.drop_last()).remove(k).insert(s.last().0, s.last().1));
        assert(id_map_of(s.drop_last()).remove(k).insert(s.last().0, s.last().1) =~= id_map_of(
            s,
        ).remove(k));
    }
}

/// Keyed storage with unique ids and a stable iteration order.
pub struct IdMap<V> {
    entries: Vec<(u64, V)>,
}

impl<V> View for IdMap<V> {
    type V = Map<u64, V>;

    closed spec fn view(&self) -> Map<u64, V> {
        id_map_of(self.entries@)
    }
}

impl<V> IdMap<V> {
    /// The stored ids, in insertion order.
    pub closed spec fn keys(&self) -> Seq<u64> {
        keys_of(self.entries@)
    }

    /// Ids are unique; always established by the constructor and preserved.
    pub closed spec fn wf(&self) -> bool {
        unique_ids(self.entries@)
    }

    /// Relates the key sequence to the map view.
    pub proof fn lemma_keys(&self)
        requires
            self.wf(),
        ensures
            self.keys().len() == self@.len(),
            self@.dom().finite(),
            forall|k: u64| self@.contains_key(k) <==> self.keys().contains(k),
            forall|i: int, j: int|
                0 <= i < j < self.keys().len() ==> #[trigger] self.keys()[i]
                    != #[trigger] self.keys()[j],
            forall|i: int| 0 <= i < self.keys().len() ==> self@.contains_key(
                #[trigger] self.keys()[i],
            ),
    {
        lemma_id_map_len(self.entries@);
        assert forall|k: u64| self@.contains_key(k) <==> self.keys().contains(k) by {
            lemma_id_map_contains(self.entries@, k);
            if self@.contains_key(k) {
                let i = choose|i: int|
                    0 <= i < self.entries@.len() && (#[trigger] self.entries@[i]).0 == k;
                assert(self.keys()[i] == k);
            } else if self.keys().contains(k) {
                let i = choose|i: int|
                    0 <= i < self.keys().len() && self.keys()[i] == k;
                assert((self.entries@[i]).0 == k);
            }
        }
        assert forall|i: int| 0 <= i < self.keys().len() implies self@.contains_key(
            #[trigger] self.keys()[i],
        ) by {
            lemma_id_map_contains(self.entries@, self.entries@[i].0);
        }
    }

    pub fn new() -> (r: Self)
        ensures
            r.wf(),
            r@ == Map::<u64, V>::empty(),
            r.keys() == Seq::<u64>::empty(),
    {
        let r = IdMap { entries: Vec::new() };
        proof {
            assert(r.keys() =~= Seq::<u64>::empty());
        }
        r
    }

    pub fn len(&self) -> (r: usize)
        requires
            self.wf(),
        ensures
            r == self.keys().len(),
            r == self@.len(),
    {
        proof {
            lemma_id_map_len(self.entries@);
        }
        self.entries.len()
    }

    fn index_of(&self, id: u64) -> (r: Option<usize>)
        ensures
            match r {
                Some(i) => i < self.entries@.len() && self.entries@[i as int].0 == id,
                None => forall|i: int|
                    0 <= i < self.entries@.len() ==> (#[trigger] self.entries@[i]).0 != id,
            },
    {
        let n = self.entries.len();
        let mut i: usize = 0;
        while i < n
            invariant
                i <= n,
                n == self.entries@.len(),
                forall|j: int| 0 <= j < i ==> (#[trigger] self.entries@[j]).0 != id,
            decreases n - i,
        {
            if self.entries[i].0 == id {
                return Some(i);
            }
            i = i + 1;
        }
        None
    }

    pub fn contains(&self, id: u64) -> (r: bool)
        requires
            self.wf(),
        ensures
            r == self@.contains_key(id),
    {
        proof {
            lemma_id_map_contains(self.entries@, id);
        }
        self.index_of(id).is_some()
    }

    pub fn get(&self, id: u64) -> (r: Option<&V>)
        requires
            self.wf(),
        ensures
            r is Some <==> self@.contains_key(id),
            r is Some ==> self@.contains_key(id) && *r->0 == self@[id],
    {
        proof {
            lemma_id_map_contains(self.entries@, id);
        }
        match self.index_of(id) {
            Some(i) => {
                proof {
                    lemma_id_map_index(self.entries@, i as int);
                }
                Some(&self.entries[i].1)
            },
            None => None,
        }
    }

    /// Borrows the value stored under `id` for in-place mutation: the map
    /// afterwards holds whatever the caller leaves behind the reference.
    pub fn get_mut(&mut self, id: u64) -> (r: Option<&mut V>)
        requires
            old(self).wf(),
        ensures
            match r {
                Some(v) => {
                    &&& old(self)@.contains_key(id)
                    &&& *v == old(self)@[id]
                    &&& final(self).wf()
                    &&& final(self)@ == old(self)@.insert(id, *final(v))
                    &&& final(self).keys() =~= old(self).keys()
                },
                None => !old(self)@.contains_key(id) && *final(self) == *old(self),
            },
    {
        proof {
            lemma_id_map_contains(self.entries@, id);
        }
        match self.index_of(id) {
            Some(i) => {
                proof {
                    lemma_id_map_index(self.entries@, i as int);
                }
                let ghost s0 = self.entries@;
                let slot = &mut self.entries[i];
                let vref = &mut slot.1;
                proof {
                    lemma_id_map_update(s0, i as int, *final(vref));
                }
                Some(vref)
            },
            None => None,
        }
    }

    /// Inserts or replaces the value stored under `id`.
    pub fn insert(&mut self, id: u64, v: V)
        requires
            old(self).wf(),
        ensures
            final(self).wf(),
            final(self)@ == old(self)@.insert(id, v),
            old(self)@.contains_key(id) ==> final(self).keys() == old(self).keys(),
            !old(self)@.contains_key(id) ==> final(self).keys() == old(self).keys().push(id),
    {
        proof {
            lemma_id_map_contains(self.entries@, id);
        }
        match self.index_of(id) {
            Some(i) => {
                proof {
                    lemma_id_map_update(self.entries@, i as int, v);
                }
                let ghost s0 = self.entries@;
                let slot = &mut self.entries[i];
                *slot = (id, v);
                proof {
                    assert(self.entries@ =~= s0.update(i as int, (id, v)));
                    assert(self.keys() =~= old(self).keys());
                }
            },
            None => {
                self.entries.push((id, v));
                proof {
                    assert(self.entries@.drop_last() =~= old(self).entries@);
                    assert(forall|i: int|
                        0 <= i < old(self).entries@.len() ==> (#[trigger] old(
                            self,
                        ).entries@[i]).0 != id);
                    assert(unique_ids(self.entries@));
                    assert(self.keys() =~= old(self).keys().push(id));
                }
            },
        }
    }

    pub fn remove(&mut self, id: u64) -> (r: Option<V>)
        requires
            old(self).wf(),
        ensures
            final(self).wf(),
            final(self)@ == old(self)@.remove(id),
            r is Some <==> old(self)@.contains_key(id),
            r is Some ==> r->0 == old(self)@[id],
            r is None ==> *final(self) == *old(self),
            r is Some ==> exists|i: int|
                0 <= i < old(self).keys().len() && old(self).keys()[i] == id && final(self).keys()
                    == old(self).keys().remove(i),
    {
        proof {
            lemma_id_map_contains(self.entries@, id);
        }
        match self.index_of(id) {
            Some(i) => {
                proof {
                    lemma_id_map_index(self.entries@, i as int);
                    lemma_id_map_remove(self.entries@, i as int);
                }
                let e = self.entries.remove(i);
                proof {
                    assert(self.keys() =~= old(self).keys().remove(i as int));
                }
                Some(e.1)
            },
            None => {
                proof {
                    assert(self@ =~= old(self)@.remove(id));
                }
                None
            },
        }
    }

    /// The id stored at position `i` of the listing order.
    pub fn key_at(&self, i: usize) -> (r: u64)
        requires
            self.wf(),
            i < self.keys().len(),
        ensures
            r == self.keys()[i as int],
            self@.contains_key(r),
    {
        proof {
            lemma_id_map_index(self.entries@, i as int);
        }
        self.entries[i].0
    }

    /// The value stored at position `i` of the listing order.
    pub fn value_at(&self, i: usize) -> (r: &V)
        requires
            self.wf(),
            i < self.keys().len(),
        ensures
            self@.contains_key(self.keys()[i as int]),
            *r == self@[self.keys()[i as int]],
    {
        proof {
            lemma_id_map_index(self.entries@, i as int);
        }
        &self.entries[i].1
    }
}

} // verus!
