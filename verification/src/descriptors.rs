//! The in-memory image of the durable descriptor store: an association of
//! plugin id to persisted record, one entry per id, in insertion order.  The
//! embedding application mirrors every change into its durable map, whose
//! only job is to survive restarts.

use vstd::prelude::*;

verus! {

/// The pairs held by a vector of owned strings, as mathematical values.
pub open spec fn pairs_of(v: Seq<(String, String)>) -> Seq<(Seq<char>, Seq<char>)> {
    v.map_values(|p: (String, String)| (p.0@, p.1@))
}

/// Whether the association holds an entry under `k`.
pub open spec fn store_has<V>(s: Seq<(Seq<char>, V)>, k: Seq<char>) -> bool {
    exists|i: int| 0 <= i < s.len() && (#[trigger] s[i]).0 == k
}

/// No key occurs twice.
pub open spec fn store_distinct<V>(s: Seq<(Seq<char>, V)>) -> bool {
    forall|i: int, j: int| 0 <= i < j < s.len() ==> (#[trigger] s[i]).0 != (#[trigger] s[j]).0
}

/// The index of the entry under `k`; meaningful when `store_has`.
pub open spec fn store_at<V>(s: Seq<(Seq<char>, V)>, k: Seq<char>) -> int {
    choose|i: int| 0 <= i < s.len() && (#[trigger] s[i]).0 == k
}

/// The value stored under `k`; meaningful when `store_has`.
pub open spec fn store_val<V>(s: Seq<(Seq<char>, V)>, k: Seq<char>) -> V {
    s[store_at(s, k)].1
}

/// The association after setting `k` to `v`: in place where `k` is present,
/// appended otherwise.
pub open spec fn store_insert<V>(s: Seq<(Seq<char>, V)>, k: Seq<char>, v: V) -> Seq<
    (Seq<char>, V),
> {
    if store_has(s, k) {
        s.update(store_at(s, k), (k, v))
    } else {
        s.push((k, v))
    }
}

/// The association after deleting `k`; unchanged where `k` is absent.
pub open spec fn store_remove<V>(s: Seq<(Seq<char>, V)>, k: Seq<char>) -> Seq<(Seq<char>, V)> {
    if store_has(s, k) {
        s.remove(store_at(s, k))
    } else {
        s
    }
}

/// Deleting a key just inserted over a fresh slot restores the association.
pub proof fn lemma_insert_then_remove<V>(s: Seq<(Seq<char>, V)>, k: Seq<char>, v: V)
    requires
        !store_has(s, k),
    ensures
        store_remove(store_insert(s, k, v), k) == s,
{
    let s1 = s.push((k, v));
    assert(s1[s.len() as int].0 == k);
    assert(store_has(s1, k));
    let w = store_at(s1, k);
    assert(0 <= w < s1.len() && s1[w].0 == k);
    assert(w == s.len() as int) by {
        if w < s.len() {
            assert(s[w] == s1[w]);
            assert(store_has(s, k));
        }
    }
    assert(s1.remove(w) =~= s);
}

/// The id-to-record association.
pub struct Descriptors {
    entries: Vec<(String, String)>,
}

impl View for Descriptors {
    type V = Seq<(Seq<char>, Seq<char>)>;

    closed spec fn view(&self) -> Seq<(Seq<char>, Seq<char>)> {
        pairs_of(self.entries@)
    }
}

impl Descriptors {
    /// Well-formed: one entry per id.
    pub open spec fn wf(&self) -> bool {
        store_distinct(self@)
    }

    /// An empty association.
    pub fn new() -> (r: Descriptors)
        ensures
            r.wf(),
            r@ == Seq::<(Seq<char>, Seq<char>)>::empty(),
    {
        let r = Descriptors { entries: Vec::new() };
        proof {
            assert(r@ =~= Seq::<(Seq<char>, Seq<char>)>::empty());
        }
        r
    }

    /// How many descriptors are stored.
    pub fn len(&self) -> (r: usize)
        ensures
            r == self@.len(),
    {
        self.entries.len()
    }

    /// The entry at a position, in insertion order.
    pub fn entry(&self, i: usize) -> (r: &(String, String))
        requires
            i < self@.len(),
        ensures
            r.0@ == self@[i as int].0,
            r.1@ == self@[i as int].1,
    {
        &self.entries[i]
    }

    /// The index of the entry under this key, if any.
    fn find(&self, key: &String) -> (r: Option<usize>)
        ensures
            match r {
                Some(j) => j < self@.len() && self@[j as int].0 == key@,
                None => !store_has(self@, key@),
            },
    {
        let mut i: usize = 0;
        while i < self.entries.len()
            invariant
                i <= self.entries@.len(),
                forall|j: int| 0 <= j < i ==> (#[trigger] self.entries@[j]).0@ != key@,
            decreases self.entries@.len() - i,
        {
            if self.entries[i].0 == *key {
                return Some(i);
            }
            i = i + 1;
        }
        proof {
            assert forall|j: int| 0 <= j < self@.len() implies (#[trigger] self@[j]).0
                != key@ by {
                assert(self@[j].0 == self.entries@[j].0@);
            }
        }
        None
    }

    /// The value stored under this key, if any.
    pub fn get(&self, key: &String) -> (r: Option<&String>)
        requires
            self.wf(),
        ensures
            match r {
                Some(v) => store_has(self@, key@) && v@ == store_val(self@, key@),
                None => !store_has(self@, key@),
            },
    {
        match self.find(key) {
            Some(j) => {
                proof {
                    lemma_store_at_unique(self@, key@, j as int);
                }
                Some(&self.entries[j].1)
            },
            None => None,
        }
    }

    /// Sets `key` to `value`: in place where the key is present, appended
    /// otherwise.
    pub fn insert(&mut self, key: String, value: String)
        requires
            old(self).wf(),
        ensures
            final(self).wf(),
            final(self)@ == store_insert(old(self)@, key@, value@),
    {
        match self.find(&key) {
            Some(j) => {
                proof {
                    lemma_store_at_unique(self@, key@, j as int);
                }
                self.entries.set(j, (key, value));
                proof {
                    assert(self@ =~= store_insert(old(self)@, key@, value@));
                }
            },
            None => {
                self.entries.push((key, value));
                proof {
                    assert(self@ =~= store_insert(old(self)@, key@, value@));
                }
            },
        }
    }

    /// Deletes the entry under `key`, handing its value back; an absent key
    /// changes nothing.
    pub fn remove(&mut self, key: &String) -> (r: Option<String>)
        requires
            old(self).wf(),
        ensures
            final(self).wf(),
            match r {
                Some(v) => {
                    &&& store_has(old(self)@, key@)
                    &&& v@ == store_val(old(self)@, key@)
                    &&& final(self)@ == store_remove(old(self)@, key@)
                },
                None => {
                    &&& !store_has(old(self)@, key@)
                    &&& final(self)@ == old(self)@
                },
            },
    {
        match self.find(key) {
            Some(j) => {
                proof {
                    lemma_store_at_unique(self@, key@, j as int);
                }
                let entry = self.entries.remove(j);
                proof {
                    assert(self@ =~= old(self)@.remove(j as int));
                }
                Some(entry.1)
            },
            None => None,
        }
    }
}

/// In a well-formed association, any index whose key matches is the index
/// `store_at` picks.
pub proof fn lemma_store_at_unique<V>(s: Seq<(Seq<char>, V)>, k: Seq<char>, j: int)
    requires
        store_distinct(s),
        0 <= j < s.len(),
        s[j].0 == k,
    ensures
        store_has(s, k),
        store_at(s, k) == j,
{
    assert(store_has(s, k));
    let w = store_at(s, k);
    assert(0 <= w < s.len() && s[w].0 == k);
    if w != j {
        if w < j {
            assert(s[w].0 != s[j].0);
        } else {
            assert(s[j].0 != s[w].0);
        }
    }
}

} // verus!
