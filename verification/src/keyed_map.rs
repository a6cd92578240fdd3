//! A map from strings to values that keeps its keys in insertion order.
use vstd::prelude::*;
use crate::paths::string_views;
use crate::text::str_equal;

verus! {

/// Keys and values side by side; no key occurs twice.
pub struct StringKeyedMap<V> {
    keys: Vec<String>,
    values: Vec<V>,
}

impl<V> StringKeyedMap<V> {
    /// The keys, in the order they were first inserted.
    pub closed spec fn key_seq(&self) -> Seq<Seq<char>> {
        string_views(self.keys@)
    }

    /// The values, each at the position of its key.
    pub closed spec fn value_seq(&self) -> Seq<V> {
        self.values@
    }

    pub open spec fn wf(&self) -> bool {
        &&& self.key_seq().len() == self.value_seq().len()
        &&& self.key_seq().no_duplicates()
    }

    pub open spec fn contains_key(&self, k: Seq<char>) -> bool {
        self.key_seq().contains(k)
    }

    /// The value of key `k`, if it is present.
    pub open spec fn lookup(&self, k: Seq<char>) -> Option<V> {
        if self.contains_key(k) {
            Some(self.value_seq()[self.key_seq().index_of(k)])
        } else {
            None
        }
    }

    /// The map's keys as a set.
    pub open spec fn key_set(&self) -> Set<Seq<char>> {
        self.key_seq().to_set()
    }

    /// In a map without repeated keys, a key's position is where it is found.
    pub proof fn lemma_index_of(&self, i: int)
        requires
            self.wf(),
            0 <= i < self.key_seq().len(),
        ensures
            self.contains_key(self.key_seq()[i]),
            self.key_seq().index_of(self.key_seq()[i]) == i,
            self.lookup(self.key_seq()[i]) == Some(self.value_seq()[i]),
    {
        let k = self.key_seq()[i];
        assert(self.key_seq().contains(k));
        let j = self.key_seq().index_of(k);
        assert(0 <= j < self.key_seq().len() && self.key_seq()[j] == k);
    }

    /// An empty map.
    pub fn new() -> (r: Self)
        ensures
            r.wf(),
            r.key_seq() == Seq::<Seq<char>>::empty(),
            r.value_seq() == Seq::<V>::empty(),
    {
        let r = StringKeyedMap { keys: Vec::new(), values: Vec::new() };
        proof {
            assert(r.key_seq() =~= Seq::<Seq<char>>::empty());
        }
        r
    }

    pub fn len(&self) -> (r: usize)
        requires
            self.wf(),
        ensures
            r == self.key_seq().len(),
    {
        self.keys.len()
    }

    pub fn key_at(&self, i: usize) -> (r: &String)
        requires
            self.wf(),
            i < self.key_seq().len(),
        ensures
            r@ == self.key_seq()[i as int],
    {
        &self.keys[i]
    }

    pub fn value_at(&self, i: usize) -> (r: &V)
        requires
            self.wf(),
            i < self.key_seq().len(),
        ensures
            *r == self.value_seq()[i as int],
    {
        &self.values[i]
    }

    /// The keys, in order.
    pub fn keys(&self) -> (r: Vec<String>)
        ensures
            string_views(r@) == self.key_seq(),
    {
        let r = crate::text::copy_strings(&self.keys);
        r
    }

    /// The position of `key`, if present.
    pub fn find(&self, key: &str) -> (r: Option<usize>)
        requires
            self.wf(),
        ensures
            match r {
                Some(i) => i < self.key_seq().len() && self.key_seq()[i as int] == key@,
                None => !self.contains_key(key@),
            },
    {
        let n = self.keys.len();
        let mut i: usize = 0;
        while i < n
            invariant
                n == self.key_seq().len(),
                self.wf(),
                i <= n,
                forall|j: int| 0 <= j < i ==> self.key_seq()[j] != key@,
            decreases n - i,
        {
            proof {
                assert(self.key_seq()[i as int] == self.keys@[i as int]@);
            }
            if str_equal(self.keys[i].as_str(), key) {
                return Some(i);
            }
            i = i + 1;
        }
        None
    }

    /// The value of `key`, if present.
    pub fn get(&self, key: &str) -> (r: Option<&V>)
        requires
            self.wf(),
        ensures
            match r {
                Some(v) => self.lookup(key@) == Some(*v),
                None => self.lookup(key@) is None,
            },
    {
        match self.find(key) {
            Some(i) => {
                proof {
                    self.lemma_index_of(i as int);
                }
                Some(&self.values[i])
            },
            None => None,
        }
    }

    /// Sets the value of `key`, returning the value it replaced. A new key is put last.
    pub fn insert(&mut self, key: String, value: V) -> (r: Option<V>)
        requires
            old(self).wf(),
        ensures
            final(self).wf(),
            r == old(self).lookup(key@),
            forall|k: Seq<char>| #[trigger]
                final(self).lookup(k) == if k == key@ {
                    Some(value)
                } else {
                    old(self).lookup(k)
                },
            final(self).key_seq() == if old(self).contains_key(key@) {
                old(self).key_seq()
            } else {
                old(self).key_seq().push(key@)
            },
    {
        match self.find(key.as_str()) {
            Some(i) => {
                proof {
                    old(self).lemma_index_of(i as int);
                }
                let mut v = value;
                self.values.set_and_swap(i, &mut v);
                proof {
                    assert(self.key_seq() == old(self).key_seq());
                    assert forall|k: Seq<char>|
                        #[trigger] self.lookup(k) == if k == key@ {
                            Some(value)
                        } else {
                            old(self).lookup(k)
                        } by {
                        if self.contains_key(k) {
                            let j = self.key_seq().index_of(k);
                            self.lemma_index_of(j);
                        }
                    }
                }
                Some(v)
            },
            None => {
                self.keys.push(key);
                self.values.push(value);
                proof {
                    let ok = old(self).key_seq();
                    assert(self.key_seq() =~= ok.push(key@));
                    assert forall|a: int, b: int|
                        0 <= a < b < self.key_seq().len() implies self.key_seq()[a]
                        != self.key_seq()[b] by {
                        if b == ok.len() {
                            assert(self.key_seq()[b] == key@);
                            assert(self.key_seq()[a] == ok[a]);
                            if ok[a] == key@ {
                                assert(ok.contains(key@));
                            }
                        } else {
                            assert(ok[a] != ok[b]);
                        }
                    }
                    assert forall|k: Seq<char>|
                        #[trigger] self.lookup(k) == if k == key@ {
                            Some(value)
                        } else {
                            old(self).lookup(k)
                        } by {
                        if k == key@ {
                            self.lemma_index_of(ok.len() as int);
                        } else if self.contains_key(k) {
                            let j = self.key_seq().index_of(k);
                            self.lemma_index_of(j);
                            assert(j < ok.len());
                            old(self).lemma_index_of(j);
                        } else {
                            if old(self).contains_key(k) {
                                let j = ok.index_of(k);
                                assert(self.key_seq()[j] == k);
                            }
                        }
                    }
                }
                None
            },
        }
    }

    /// Where `key` is, or will be put when it is absent.
    pub open spec fn entry_index(&self, key: Seq<char>) -> int {
        if self.contains_key(key) {
            self.key_seq().index_of(key)
        } else {
            self.key_seq().len() as int
        }
    }

    /// Replacing the value at one position changes the lookup of that position's key only.
    pub proof fn lemma_lookup_after_update(m1: Self, m2: Self, i: int, w: V)
        requires
            m1.wf(),
            0 <= i < m1.key_seq().len(),
            m2.key_seq() == m1.key_seq(),
            m2.value_seq() == m1.value_seq().update(i, w),
        ensures
            m2.wf(),
            forall|k: Seq<char>| #[trigger]
                m2.lookup(k) == if k == m1.key_seq()[i] {
                    Some(w)
                } else {
                    m1.lookup(k)
                },
    {
        m1.lemma_index_of(i);
        assert forall|k: Seq<char>| #[trigger]
            m2.lookup(k) == if k == m1.key_seq()[i] {
                Some(w)
            } else {
                m1.lookup(k)
            } by {
            if m1.contains_key(k) {
                let j = m1.key_seq().index_of(k);
                m1.lemma_index_of(j);
            }
        }
    }

    /// What a map holds after `entry_or_insert` once the value it handed out is `w`.
    pub proof fn lemma_lookup_after_entry(m1: Self, m2: Self, key: Seq<char>, default: V, w: V)
        requires
            m1.wf(),
            m2.key_seq() == if m1.contains_key(key) {
                m1.key_seq()
            } else {
                m1.key_seq().push(key)
            },
            m2.value_seq() == (if m1.contains_key(key) {
                m1.value_seq()
            } else {
                m1.value_seq().push(default)
            }).update(m1.entry_index(key), w),
        ensures
            m2.wf(),
            forall|k: Seq<char>| #[trigger]
                m2.lookup(k) == if k == key {
                    Some(w)
                } else {
                    m1.lookup(k)
                },
    {
        if m1.contains_key(key) {
            m1.lemma_index_of(m1.key_seq().index_of(key));
            Self::lemma_lookup_after_update(m1, m2, m1.key_seq().index_of(key), w);
        } else {
            let ok = m1.key_seq();
            let nk = ok.push(key);
            assert forall|a: int, b: int| 0 <= a < b < nk.len() implies nk[a] != nk[b] by {
                if b == ok.len() {
                    if ok[a] == key {
                        assert(ok.contains(key));
                    }
                } else {
                    assert(ok[a] != ok[b]);
                }
            }
            assert forall|k: Seq<char>| #[trigger]
                m2.lookup(k) == if k == key {
                    Some(w)
                } else {
                    m1.lookup(k)
                } by {
                if k == key {
                    m2.lemma_index_of(ok.len() as int);
                } else if m2.contains_key(k) {
                    let j = m2.key_seq().index_of(k);
                    m2.lemma_index_of(j);
                    assert(j < ok.len());
                    m1.lemma_index_of(j);
                } else if m1.contains_key(k) {
                    let j = ok.index_of(k);
                    assert(m2.key_seq()[j] == k);
                }
            }
        }
    }

    /// The value of `key`, inserting `default` (last) when `key` is absent.
    /// `lemma_lookup_after_entry` tells what the map holds once the reference is dropped.
    pub fn entry_or_insert(&mut self, key: String, default: V) -> (r: &mut V)
        requires
            old(self).wf(),
        ensures
            *r == match old(self).lookup(key@) {
                Some(v) => v,
                None => default,
            },
            final(self).key_seq() == if old(self).contains_key(key@) {
                old(self).key_seq()
            } else {
                old(self).key_seq().push(key@)
            },
            final(self).value_seq() == (if old(self).contains_key(key@) {
                old(self).value_seq()
            } else {
                old(self).value_seq().push(default)
            }).update(old(self).entry_index(key@), *final(r)),
    {
        let i = match self.find(key.as_str()) {
            Some(i) => {
                proof {
                    old(self).lemma_index_of(i as int);
                }
                i
            },
            None => {
                let i = self.keys.len();
                self.keys.push(key);
                self.values.push(default);
                proof {
                    assert(self.key_seq() =~= old(self).key_seq().push(key@));
                }
                i
            },
        };
        &mut self.values[i]
    }
}

} // verus!
