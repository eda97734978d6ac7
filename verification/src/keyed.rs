//! Session-keyed stores: a row store holding the latest value per key, and a
//! channel store holding one FIFO channel per key.

use vstd::prelude::*;

use crate::channel::Channel;

verus! {

/// A key type whose spec-level equality can be decided in executable code.
pub trait ExecKey: Sized + Copy {
    /// Decide spec-level equality.
    fn key_eq(&self, other: &Self) -> (r: bool)
        ensures
            r == (*self == *other),
    ;
}

impl ExecKey for u32 {
    fn key_eq(&self, other: &Self) -> (r: bool)
        ensures
            r == (*self == *other),
    {
        *self == *other
    }
}

impl ExecKey for u64 {
    fn key_eq(&self, other: &Self) -> (r: bool)
        ensures
            r == (*self == *other),
    {
        *self == *other
    }
}

/// Look a key up in an association list, taking the first match.
pub open spec fn assoc_lookup<K, T>(s: Seq<(K, T)>, k: K) -> Option<T>
    decreases s.len(),
{
    if s.len() == 0 {
        None
    } else if s[0].0 == k {
        Some(s[0].1)
    } else {
        assoc_lookup(s.skip(1), k)
    }
}

/// No two entries of the list share a key.
pub open spec fn assoc_unique<K, T>(s: Seq<(K, T)>) -> bool {
    forall|i: int, j: int| 0 <= i < j < s.len() ==> s[i].0 != s[j].0
}

/// A match at an index behind no earlier match is what lookup returns.
proof fn lemma_lookup_at<K, T>(s: Seq<(K, T)>, k: K, i: int)
    requires
        0 <= i < s.len(),
        s[i].0 == k,
        forall|j: int| 0 <= j < i ==> s[j].0 != k,
    ensures
        assoc_lookup(s, k) == Some(s[i].1),
    decreases i,
{
    if i > 0 {
        lemma_lookup_at(s.skip(1), k, i - 1);
    }
}

/// A key matching no entry is not found.
proof fn lemma_lookup_absent<K, T>(s: Seq<(K, T)>, k: K)
    requires
        forall|j: int| 0 <= j < s.len() ==> s[j].0 != k,
    ensures
        assoc_lookup(s, k) == None::<T>,
    decreases s.len(),
{
    if s.len() > 0 {
        lemma_lookup_absent(s.skip(1), k);
    }
}

/// Uniqueness of keys carries over to the tail of the list.
proof fn lemma_unique_skip<K, T>(s: Seq<(K, T)>)
    requires
        assoc_unique(s),
        s.len() > 0,
    ensures
        assoc_unique(s.skip(1)),
{
    assert forall|i: int, j: int| 0 <= i < j < s.skip(1).len() implies s.skip(1)[i].0 != s.skip(
        1,
    )[j].0 by {
        assert(s.skip(1)[i] == s[i + 1]);
        assert(s.skip(1)[j] == s[j + 1]);
    }
}

/// Updating the entry at an index rebinds its key and leaves every other key
/// bound as before.
proof fn lemma_lookup_update<K, T>(s: Seq<(K, T)>, i: int, v: T)
    requires
        assoc_unique(s),
        0 <= i < s.len(),
    ensures
        assoc_lookup(s.update(i, (s[i].0, v)), s[i].0) == Some(v),
        forall|k2: K|
            k2 != s[i].0 ==> assoc_lookup(s.update(i, (s[i].0, v)), k2) == assoc_lookup(s, k2),
    decreases s.len(),
{
    let t = s.update(i, (s[i].0, v));
    assert(t.len() == s.len());
    if i == 0 {
        assert(t[0] == (s[0].0, v));
        assert(t.skip(1) =~= s.skip(1));
        assert(assoc_lookup(t, s[0].0) == Some(v));
        assert forall|k2: K| k2 != s[0].0 implies assoc_lookup(t, k2) == assoc_lookup(
            s,
            k2,
        ) by {
            assert(assoc_lookup(t, k2) == assoc_lookup(t.skip(1), k2));
            assert(assoc_lookup(s, k2) == assoc_lookup(s.skip(1), k2));
        }
    } else {
        lemma_unique_skip(s);
        assert(s.skip(1)[i - 1] == s[i]);
        lemma_lookup_update(s.skip(1), i - 1, v);
        assert(t[0] == s[0]);
        assert(t.skip(1) =~= s.skip(1).update(i - 1, (s[i].0, v)));
        assert(s[0].0 != s[i].0);
        assert(assoc_lookup(t, s[i].0) == assoc_lookup(t.skip(1), s[i].0));
        assert forall|k2: K| k2 != s[i].0 implies assoc_lookup(t, k2) == assoc_lookup(
            s,
            k2,
        ) by {
            if k2 == s[0].0 {
                assert(assoc_lookup(t, k2) == Some(t[0].1));
                assert(assoc_lookup(s, k2) == Some(s[0].1));
            } else {
                assert(assoc_lookup(t, k2) == assoc_lookup(t.skip(1), k2));
                assert(assoc_lookup(s, k2) == assoc_lookup(s.skip(1), k2));
            }
        }
    }
}

/// Appending an entry for a fresh key binds it and leaves every other key
/// bound as before.
proof fn lemma_lookup_push<K, T>(s: Seq<(K, T)>, k: K, v: T)
    requires
        forall|j: int| 0 <= j < s.len() ==> s[j].0 != k,
    ensures
        assoc_lookup(s.push((k, v)), k) == Some(v),
        forall|k2: K| k2 != k ==> assoc_lookup(s.push((k, v)), k2) == assoc_lookup(s, k2),
    decreases s.len(),
{
    let t = s.push((k, v));
    assert(t.len() == s.len() + 1);
    if s.len() == 0 {
        assert(t[0] == (k, v));
        assert(assoc_lookup(t, k) == Some(v));
        assert forall|k2: K| k2 != k implies assoc_lookup(t, k2) == assoc_lookup(s, k2) by {
            assert(t.skip(1) =~= Seq::<(K, T)>::empty());
            assert(assoc_lookup(t, k2) == assoc_lookup(t.skip(1), k2));
        }
    } else {
        assert forall|j: int| 0 <= j < s.skip(1).len() implies s.skip(1)[j].0 != k by {
            assert(s.skip(1)[j] == s[j + 1]);
        }
        lemma_lookup_push(s.skip(1), k, v);
        assert(t[0] == s[0]);
        assert(t.skip(1) =~= s.skip(1).push((k, v)));
        assert(s[0].0 != k);
        assert(assoc_lookup(t, k) == assoc_lookup(t.skip(1), k));
        assert forall|k2: K| k2 != k implies assoc_lookup(t, k2) == assoc_lookup(s, k2) by {
            if k2 == s[0].0 {
                assert(assoc_lookup(t, k2) == Some(t[0].1));
                assert(assoc_lookup(s, k2) == Some(s[0].1));
            } else {
                assert(assoc_lookup(t, k2) == assoc_lookup(t.skip(1), k2));
                assert(assoc_lookup(s, k2) == assoc_lookup(s.skip(1), k2));
            }
        }
    }
}

/// Removing the entry at an index unbinds its key and leaves every other key
/// bound as before.
proof fn lemma_lookup_remove<K, T>(s: Seq<(K, T)>, i: int)
    requires
        assoc_unique(s),
        0 <= i < s.len(),
    ensures
        assoc_lookup(s.remove(i), s[i].0) == None::<T>,
        forall|k2: K| k2 != s[i].0 ==> assoc_lookup(s.remove(i), k2) == assoc_lookup(s, k2),
    decreases s.len(),
{
    let t = s.remove(i);
    if i == 0 {
        assert(t =~= s.skip(1));
        assert forall|j: int| 0 <= j < t.len() implies t[j].0 != s[0].0 by {
            assert(t[j] == s[j + 1]);
        }
        lemma_lookup_absent(t, s[0].0);
        assert forall|k2: K| k2 != s[0].0 implies assoc_lookup(t, k2) == assoc_lookup(
            s,
            k2,
        ) by {
            assert(assoc_lookup(s, k2) == assoc_lookup(s.skip(1), k2));
        }
    } else {
        lemma_unique_skip(s);
        assert(s.skip(1)[i - 1] == s[i]);
        lemma_lookup_remove(s.skip(1), i - 1);
        assert(t[0] == s[0]);
        assert(t.skip(1) =~= s.skip(1).remove(i - 1));
        assert(s[0].0 != s[i].0);
        assert(assoc_lookup(t, s[i].0) == assoc_lookup(t.skip(1), s[i].0));
        assert forall|k2: K| k2 != s[i].0 implies assoc_lookup(t, k2) == assoc_lookup(
            s,
            k2,
        ) by {
            if k2 == s[0].0 {
                assert(assoc_lookup(t, k2) == Some(t[0].1));
                assert(assoc_lookup(s, k2) == Some(s[0].1));
            } else {
                assert(assoc_lookup(t, k2) == assoc_lookup(t.skip(1), k2));
                assert(assoc_lookup(s, k2) == assoc_lookup(s.skip(1), k2));
            }
        }
    }
}

/// A row store: at most one value per key, the latest written.
pub struct KeyedStore<K, T> {
    entries: Vec<(K, T)>,
}

impl<K: ExecKey, T> KeyedStore<K, T> {
    /// Keys are bound at most once.
    pub closed spec fn wf(self) -> bool {
        assoc_unique(self.entries@)
    }

    /// The value bound to a key, if any.
    pub closed spec fn spec_get(self, k: K) -> Option<T> {
        assoc_lookup(self.entries@, k)
    }

    /// Create an empty store.
    pub fn new() -> (r: KeyedStore<K, T>)
        ensures
            r.wf(),
            forall|k: K| r.spec_get(k) == None::<T>,
    {
        let r = KeyedStore { entries: Vec::new() };
        proof {
            assert forall|k: K| r.spec_get(k) == None::<T> by {
                lemma_lookup_absent(r.entries@, k);
            }
        }
        r
    }

    /// Find the index holding a key.
    fn index_of(&self, k: K) -> (r: Option<usize>)
        requires
            self.wf(),
        ensures
            match r {
                Some(i) => i < self.entries@.len() && self.entries@[i as int].0 == k
                    && self.spec_get(k) == Some(self.entries@[i as int].1),
                None => self.spec_get(k) == None::<T>,
            },
    {
        let mut i: usize = 0;
        while i < self.entries.len()
            invariant
                self.wf(),
                i <= self.entries@.len(),
                forall|j: int| 0 <= j < i ==> self.entries@[j].0 != k,
            decreases self.entries@.len() - i,
        {
            if self.entries[i].0.key_eq(&k) {
                proof {
                    lemma_lookup_at(self.entries@, k, i as int);
                }
                return Some(i);
            }
            i += 1;
        }
        proof {
            lemma_lookup_absent(self.entries@, k);
        }
        None
    }

    /// Whether a key is bound.
    pub fn contains(&self, k: K) -> (r: bool)
        requires
            self.wf(),
        ensures
            r == (self.spec_get(k) is Some),
    {
        self.index_of(k).is_some()
    }

    /// Bind a key to a value, replacing any earlier binding.
    pub fn set(&mut self, k: K, v: T)
        requires
            old(self).wf(),
        ensures
            final(self).wf(),
            final(self).spec_get(k) == Some(v),
            forall|k2: K| k2 != k ==> final(self).spec_get(k2) == old(self).spec_get(k2),
    {
        let idx = self.index_of(k);
        match idx {
            Some(i) => {
                proof {
                    lemma_lookup_update(self.entries@, i as int, v);
                }
                let slot = &mut self.entries[i];
                slot.1 = v;
                proof {
                    assert(self.entries@ =~= old(self).entries@.update(i as int, (k, v)));
                }
            }
            None => {
                proof {
                    assert forall|j: int| 0 <= j < self.entries@.len() implies self.entries@[j].0
                        != k by {
                        if self.entries@[j].0 == k {
                            lemma_lookup_at(self.entries@, k, j);
                        }
                    }
                    lemma_lookup_push(self.entries@, k, v);
                }
                self.entries.push((k, v));
            }
        }
    }

    /// Unbind a key, returning the value it held.
    pub fn remove(&mut self, k: K) -> (r: Option<T>)
        requires
            old(self).wf(),
        ensures
            final(self).wf(),
            r == old(self).spec_get(k),
            final(self).spec_get(k) == None::<T>,
            forall|k2: K| k2 != k ==> final(self).spec_get(k2) == old(self).spec_get(k2),
    {
        let idx = self.index_of(k);
        match idx {
            Some(i) => {
                proof {
                    lemma_lookup_remove(self.entries@, i as int);
                }
                let (_, v) = self.entries.remove(i);
                Some(v)
            }
            None => None,
        }
    }

    /// Read the value bound to a key.
    pub fn get(&self, k: K) -> (r: Option<&T>)
        requires
            self.wf(),
        ensures
            match r {
                Some(v) => self.spec_get(k) == Some(*v),
                None => self.spec_get(k) == None::<T>,
            },
    {
        match self.index_of(k) {
            Some(i) => Some(&self.entries[i].1),
            None => None,
        }
    }
}

/// A channel store: one FIFO channel per key, created on first use. A key
/// that was never sent to behaves as an empty channel.
pub struct KeyedChannel<K, T> {
    entries: Vec<(K, Channel<T>)>,
}

impl<K: ExecKey, T> KeyedChannel<K, T> {
    /// Keys are bound at most once.
    pub closed spec fn wf(self) -> bool {
        assoc_unique(self.entries@)
    }

    /// Everything ever sent on a key's channel, in send order.
    pub closed spec fn sent_of(self, k: K) -> Seq<T> {
        match assoc_lookup(self.entries@, k) {
            Some(c) => c.sent_seq(),
            None => Seq::empty(),
        }
    }

    /// The values received on a key's channel so far.
    pub closed spec fn received_of(self, k: K) -> Seq<T> {
        match assoc_lookup(self.entries@, k) {
            Some(c) => c.received_seq(),
            None => Seq::empty(),
        }
    }

    /// The values sent and not yet received on a key's channel.
    pub closed spec fn pending_of(self, k: K) -> Seq<T> {
        match assoc_lookup(self.entries@, k) {
            Some(c) => c.pending_seq(),
            None => Seq::empty(),
        }
    }

    /// Create a store of empty channels.
    pub fn new() -> (r: KeyedChannel<K, T>)
        ensures
            r.wf(),
            forall|k: K| r.sent_of(k) == Seq::<T>::empty(),
            forall|k: K| r.received_of(k) == Seq::<T>::empty(),
            forall|k: K| r.pending_of(k) == Seq::<T>::empty(),
    {
        let r = KeyedChannel { entries: Vec::new() };
        proof {
            assert forall|k: K|
                r.sent_of(k) == Seq::<T>::empty() && r.received_of(k) == Seq::<T>::empty()
                    && r.pending_of(k) == Seq::<T>::empty() by {
                lemma_lookup_absent(r.entries@, k);
            }
        }
        r
    }

    /// Find the index holding a key.
    fn index_of(&self, k: K) -> (r: Option<usize>)
        requires
            self.wf(),
        ensures
            match r {
                Some(i) => i < self.entries@.len() && self.entries@[i as int].0 == k
                    && assoc_lookup(self.entries@, k) == Some(self.entries@[i as int].1),
                None => assoc_lookup(self.entries@, k) == None::<Channel<T>>,
            },
    {
        let mut i: usize = 0;
        while i < self.entries.len()
            invariant
                self.wf(),
                i <= self.entries@.len(),
                forall|j: int| 0 <= j < i ==> self.entries@[j].0 != k,
            decreases self.entries@.len() - i,
        {
            if self.entries[i].0.key_eq(&k) {
                proof {
                    lemma_lookup_at(self.entries@, k, i as int);
                }
                return Some(i);
            }
            i += 1;
        }
        proof {
            lemma_lookup_absent(self.entries@, k);
        }
        None
    }

    /// Append a value to a key's channel.
    pub fn send(&mut self, k: K, v: T)
        requires
            old(self).wf(),
        ensures
            final(self).wf(),
            final(self).sent_of(k) == old(self).sent_of(k).push(v),
            final(self).received_of(k) == old(self).received_of(k),
            final(self).pending_of(k) == old(self).pending_of(k).push(v),
            forall|k2: K| #![auto]
                k2 != k ==> {
                    &&& final(self).sent_of(k2) == old(self).sent_of(k2)
                    &&& final(self).received_of(k2) == old(self).received_of(k2)
                    &&& final(self).pending_of(k2) == old(self).pending_of(k2)
                },
    {
        let idx = self.index_of(k);
        match idx {
            Some(i) => {
                let slot = &mut self.entries[i];
                slot.1.send(v);
                proof {
                    lemma_lookup_update(
                        old(self).entries@,
                        i as int,
                        self.entries@[i as int].1,
                    );
                    assert(self.entries@ =~= old(self).entries@.update(
                        i as int,
                        (k, self.entries@[i as int].1),
                    ));
                }
            }
            None => {
                let mut c: Channel<T> = Channel::new();
                c.send(v);
                proof {
                    assert forall|j: int| 0 <= j < self.entries@.len() implies self.entries@[j].0
                        != k by {
                        if self.entries@[j].0 == k {
                            lemma_lookup_at(self.entries@, k, j);
                        }
                    }
                    lemma_lookup_push(self.entries@, k, c);
                }
                self.entries.push((k, c));
                proof {
                    assert(self.sent_of(k) =~= old(self).sent_of(k).push(v));
                }
            }
        }
    }

    /// Receive the next value on a key's channel, in send order.
    pub fn try_recv(&mut self, k: K) -> (r: Option<T>)
        requires
            old(self).wf(),
        ensures
            final(self).wf(),
            final(self).sent_of(k) == old(self).sent_of(k),
            match r {
                Some(v) => {
                    &&& old(self).pending_of(k).len() > 0
                    &&& v == old(self).pending_of(k)[0]
                    &&& v == old(self).sent_of(k)[old(self).received_of(k).len() as int]
                    &&& final(self).received_of(k) == old(self).received_of(k).push(v)
                    &&& final(self).pending_of(k) == old(self).pending_of(k).skip(1)
                },
                None => {
                    &&& old(self).pending_of(k).len() == 0
                    &&& final(self).received_of(k) == old(self).received_of(k)
                    &&& final(self).pending_of(k) == old(self).pending_of(k)
                },
            },
            forall|k2: K| #![auto]
                k2 != k ==> {
                    &&& final(self).sent_of(k2) == old(self).sent_of(k2)
                    &&& final(self).received_of(k2) == old(self).received_of(k2)
                    &&& final(self).pending_of(k2) == old(self).pending_of(k2)
                },
    {
        let idx = self.index_of(k);
        match idx {
            Some(i) => {
                let slot = &mut self.entries[i];
                let r = slot.1.try_recv();
                proof {
                    lemma_lookup_update(
                        old(self).entries@,
                        i as int,
                        self.entries@[i as int].1,
                    );
                    assert(self.entries@ =~= old(self).entries@.update(
                        i as int,
                        (k, self.entries@[i as int].1),
                    ));
                }
                r
            }
            None => None,
        }
    }

    /// Drop everything a key's channel holds.
    pub fn drain(&mut self, k: K)
        requires
            old(self).wf(),
        ensures
            final(self).wf(),
            final(self).sent_of(k) == Seq::<T>::empty(),
            final(self).received_of(k) == Seq::<T>::empty(),
            final(self).pending_of(k) == Seq::<T>::empty(),
            forall|k2: K| #![auto]
                k2 != k ==> {
                    &&& final(self).sent_of(k2) == old(self).sent_of(k2)
                    &&& final(self).received_of(k2) == old(self).received_of(k2)
                    &&& final(self).pending_of(k2) == old(self).pending_of(k2)
                },
    {
        let idx = self.index_of(k);
        match idx {
            Some(i) => {
                let slot = &mut self.entries[i];
                slot.1.drain();
                proof {
                    lemma_lookup_update(
                        old(self).entries@,
                        i as int,
                        self.entries@[i as int].1,
                    );
                    assert(self.entries@ =~= old(self).entries@.update(
                        i as int,
                        (k, self.entries@[i as int].1),
                    ));
                }
            }
            None => {}
        }
    }
}

} // verus!
