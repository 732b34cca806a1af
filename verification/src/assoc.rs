//! A small association list with a `Map` view: the shared shape of the
//! service registry and the connection pool, both read-mostly maps with few
//! entries. Later insertions of the same key win, and lookups see them at
//! once.

use vstd::prelude::*;

verus! {

/// A key whose mathematical identity is `key()`, decidable by `key_eq`.
pub trait AssocKey: Sized {
    type SpecKey;

    spec fn key(&self) -> Self::SpecKey;

    fn key_eq(&self, other: &Self) -> (r: bool)
        ensures
            r == (self.key() == other.key()),
    ;
}

impl AssocKey for u64 {
    type SpecKey = u64;

    open spec fn key(&self) -> u64 {
        *self
    }

    fn key_eq(&self, other: &u64) -> (r: bool) {
        *self == *other
    }
}

impl AssocKey for String {
    type SpecKey = Seq<char>;

    open spec fn key(&self) -> Seq<char> {
        self@
    }

    fn key_eq(&self, other: &String) -> (r: bool) {
        self.eq(other)
    }
}

/// The map an entry sequence stands for, later entries shadowing earlier ones.
pub open spec fn assoc_map<K: AssocKey, V>(s: Seq<(K, V)>) -> Map<K::SpecKey, V>
    decreases s.len(),
{
    if s.len() == 0 {
        Map::empty()
    } else {
        assoc_map(s.drop_last()).insert(s.last().0.key(), s.last().1)
    }
}

/// No two entries share a key.
pub open spec fn keys_unique<K: AssocKey, V>(s: Seq<(K, V)>) -> bool {
    forall|i: int, j: int|
        0 <= i < j < s.len() ==> (#[trigger] s[i]).0.key() != (#[trigger] s[j]).0.key()
}

/// The domain of the map is exactly the set of keys in the sequence.
pub proof fn lemma_assoc_dom<K: AssocKey, V>(s: Seq<(K, V)>, k: K::SpecKey)
    ensures
        assoc_map(s).dom().contains(k) <==> exists|i: int|
            0 <= i < s.len() && (#[trigger] s[i]).0.key() == k,
    decreases s.len(),
{
    if s.len() > 0 {
        lemma_assoc_dom(s.drop_last(), k);
        if s.last().0.key() == k {
            assert(s[s.len() - 1].0.key() == k);
        } else {
            if assoc_map(s).dom().contains(k) {
                let i = choose|i: int| 0 <= i < s.drop_last().len() && (#[trigger] s.drop_last()[i]).0.key() == k;
                assert(s[i].0.key() == k);
            }
            if exists|i: int| 0 <= i < s.len() && (#[trigger] s[i]).0.key() == k {
                let i = choose|i: int| 0 <= i < s.len() && (#[trigger] s[i]).0.key() == k;
                assert(s.drop_last()[i].0.key() == k);
            }
        }
    }
}

/// With unique keys, an entry's position determines the map's value at its key.
pub proof fn lemma_assoc_index<K: AssocKey, V>(s: Seq<(K, V)>, i: int)
    requires
        keys_unique(s),
        0 <= i < s.len(),
    ensures
        assoc_map(s).dom().contains(s[i].0.key()),
        assoc_map(s)[s[i].0.key()] == s[i].1,
    decreases s.len(),
{
    if i == s.len() - 1 {
        lemma_assoc_dom(s, s[i].0.key());
    } else {
        lemma_assoc_index(s.drop_last(), i);
        assert(s.drop_last()[i] == s[i]);
        assert(s[i].0.key() != s.last().0.key());
    }
}

/// Removing the entry at a position removes its key from the map.
pub proof fn lemma_assoc_remove<K: AssocKey, V>(s: Seq<(K, V)>, i: int)
    requires
        keys_unique(s),
        0 <= i < s.len(),
    ensures
        assoc_map(s.remove(i)) == assoc_map(s).remove(s[i].0.key()),
    decreases s.len(),
{
    if i == s.len() - 1 {
        assert(s.remove(i) =~= s.drop_last());
        lemma_assoc_dom(s.drop_last(), s[i].0.key());
        assert(!assoc_map(s.drop_last()).dom().contains(s[i].0.key()));
        assert(assoc_map(s.drop_last()).insert(s[i].0.key(), s[i].1).remove(s[i].0.key())
            =~= assoc_map(s.drop_last()));
    } else {
        assert(s.remove(i).drop_last() =~= s.drop_last().remove(i));
        assert(s.remove(i).last() == s.last());
        lemma_assoc_remove(s.drop_last(), i);
        assert(s.drop_last()[i] == s[i]);
        assert(s[i].0.key() != s.last().0.key());
        assert(assoc_map(s.drop_last()).remove(s[i].0.key()).insert(s.last().0.key(), s.last().1)
            =~= assoc_map(s.drop_last()).insert(s.last().0.key(), s.last().1).remove(
            s[i].0.key(),
        ));
    }
}

/// An association list whose view is the map its entries stand for.
pub struct AssocList<K, V> {
    entries: Vec<(K, V)>,
}

impl<K: AssocKey, V> AssocList<K, V> {
    pub closed spec fn view(&self) -> Map<K::SpecKey, V> {
        assoc_map(self.entries@)
    }

    pub closed spec fn wf(&self) -> bool {
        keys_unique(self.entries@)
    }

    pub fn new() -> (r: AssocList<K, V>)
        ensures
            r.wf(),
            r.view() == Map::<K::SpecKey, V>::empty(),
    {
        AssocList { entries: Vec::new() }
    }

    /// The position of the entry holding `k`, if any.
    fn find(&self, k: &K) -> (r: Option<usize>)
        requires
            self.wf(),
        ensures
            match r {
                Some(i) => i < self.entries@.len() && self.entries@[i as int].0.key() == k.key()
                    && self.view().dom().contains(k.key()) && self.view()[k.key()]
                    == self.entries@[i as int].1,
                None => !self.view().dom().contains(k.key()),
            },
    {
        let n = self.entries.len();
        let mut i: usize = 0;
        while i < n
            invariant
                self.wf(),
                n == self.entries@.len(),
                i <= n,
                forall|j: int| 0 <= j < i ==> (#[trigger] self.entries@[j]).0.key() != k.key(),
            decreases n - i,
        {
            if self.entries[i].0.key_eq(k) {
                proof {
                    lemma_assoc_index(self.entries@, i as int);
                }
                return Some(i);
            }
            i = i + 1;
        }
        proof {
            lemma_assoc_dom(self.entries@, k.key());
        }
        None
    }

    pub fn contains_key(&self, k: &K) -> (r: bool)
        requires
            self.wf(),
        ensures
            r == self.view().dom().contains(k.key()),
    {
        self.find(k).is_some()
    }

    /// A shared borrow of the value at `k`, if any.
    pub fn get<'a>(&'a self, k: &K) -> (r: Option<&'a V>)
        requires
            self.wf(),
        ensures
            match r {
                Some(v) => self.view().dom().contains(k.key()) && *v == self.view()[k.key()],
                None => !self.view().dom().contains(k.key()),
            },
    {
        match self.find(k) {
            Some(i) => Some(&self.entries[i].1),
            None => None,
        }
    }

    /// Binds `k` to `v`; an earlier binding of `k` is replaced.
    pub fn insert(&mut self, k: K, v: V)
        requires
            old(self).wf(),
        ensures
            final(self).wf(),
            final(self).view() == old(self).view().insert(k.key(), v),
    {
        let found = self.find(&k);
        match found {
            Some(i) => {
                proof {
                    lemma_assoc_remove(self.entries@, i as int);
                }
                let _old_entry = self.entries.remove(i);
                proof {
                    assert(keys_unique(self.entries@));
                    lemma_assoc_dom(self.entries@, k.key());
                    assert(forall|j: int|
                        0 <= j < self.entries@.len() ==> (#[trigger] self.entries@[j]).0.key()
                            != k.key());
                }
                self.entries.push((k, v));
                proof {
                    assert(self.entries@.drop_last() =~= old(self).entries@.remove(i as int));
                    assert(self.view() =~= old(self).view().insert(
                        self.entries@.last().0.key(),
                        self.entries@.last().1,
                    ));
                }
            },
            None => {
                proof {
                    lemma_assoc_dom(self.entries@, k.key());
                }
                self.entries.push((k, v));
                proof {
                    assert(self.entries@.drop_last() =~= old(self).entries@);
                }
            },
        }
    }

    /// Drops the binding of `k`, if any; absent keys are left as they are.
    pub fn remove(&mut self, k: &K)
        requires
            old(self).wf(),
        ensures
            final(self).wf(),
            final(self).view() == old(self).view().remove(k.key()),
    {
        let found = self.find(k);
        match found {
            Some(i) => {
                proof {
                    lemma_assoc_remove(self.entries@, i as int);
                }
                let _old_entry = self.entries.remove(i);
                proof {
                    assert(keys_unique(self.entries@));
                }
            },
            None => {
                proof {
                    assert(old(self).view().remove(k.key()) =~= old(self).view());
                }
            },
        }
    }

    /// Takes the entry holding `k` out of the list, for in-place use.
    pub fn take_out(&mut self, k: &K) -> (r: Option<(K, V)>)
        requires
            old(self).wf(),
        ensures
            final(self).wf(),
            match r {
                Some(e) => e.0.key() == k.key() && old(self).view().dom().contains(k.key())
                    && e.1 == old(self).view()[k.key()] && final(self).view() == old(
                    self,
                ).view().remove(k.key()),
                None => !old(self).view().dom().contains(k.key()) && final(self).view() == old(
                    self,
                ).view(),
            },
    {
        let found = self.find(k);
        match found {
            Some(i) => {
                proof {
                    lemma_assoc_remove(self.entries@, i as int);
                }
                let e = self.entries.remove(i);
                proof {
                    assert(keys_unique(self.entries@));
                }
                Some(e)
            },
            None => None,
        }
    }

    /// Puts back an entry taken out with `take_out`.
    pub fn put_back(&mut self, k: K, v: V)
        requires
            old(self).wf(),
            !old(self).view().dom().contains(k.key()),
        ensures
            final(self).wf(),
            final(self).view() == old(self).view().insert(k.key(), v),
    {
        proof {
            lemma_assoc_dom(self.entries@, k.key());
        }
        self.entries.push((k, v));
        proof {
            assert(self.entries@.drop_last() =~= old(self).entries@);
        }
    }
}

} // verus!
