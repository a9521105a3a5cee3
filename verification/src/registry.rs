//! Owned-data stores keyed by stable opaque identifiers.
//!
//! A `Registry` hands out a fresh key for every value added to it. Keys are
//! plain indices that stay valid for the whole life of the registry: removing
//! a value leaves a hole instead of shifting later entries, so a key is never
//! reused for a different value.

use vstd::prelude::*;

verus! {

pub struct Registry<V> {
    slots: Vec<Option<V>>,
}

impl<V> Registry<V> {
    /// The raw slot sequence: one entry per key ever handed out.
    pub closed spec fn slots(&self) -> Seq<Option<V>> {
        self.slots@
    }

    /// Number of keys ever handed out (including removed ones).
    pub open spec fn key_space(&self) -> nat {
        self.slots().len()
    }

    pub open spec fn contains_key(&self, k: int) -> bool {
        0 <= k < self.slots().len() && self.slots()[k] is Some
    }

    /// The value stored under key `k`.
    pub open spec fn spec_get(&self, k: int) -> V
        recommends
            self.contains_key(k),
    {
        self.slots()[k]->Some_0
    }

    /// Number of live (not removed) values, as counted over the first
    /// `upto` slots.
    pub open spec fn live_count(s: Seq<Option<V>>, upto: int) -> nat
        decreases upto,
    {
        if upto <= 0 {
            0
        } else {
            Self::live_count(s, upto - 1) + (if s[upto - 1] is Some {
                1nat
            } else {
                0nat
            })
        }
    }

    /// Number of live values in the whole registry.
    pub open spec fn spec_len(&self) -> nat {
        Self::live_count(self.slots(), self.slots().len() as int)
    }

    pub fn new() -> (r: Self)
        ensures
            r.slots() == Seq::<Option<V>>::empty(),
    {
        Registry { slots: Vec::new() }
    }

    /// Store a value and return its fresh key.
    pub fn add(&mut self, v: V) -> (k: usize)
        ensures
            k == old(self).slots().len(),
            final(self).slots() == old(self).slots().push(Some(v)),
            final(self).contains_key(k as int),
            final(self).spec_get(k as int) == v,
            final(self).spec_len() == old(self).spec_len() + 1,
    {
        let k = self.slots.len();
        self.slots.push(Some(v));
        proof {
            Self::lemma_live_count_grow(old(self).slots(), self.slots@, k as int);
        }
        k
    }

    pub fn get(&self, k: usize) -> (r: Option<&V>)
        ensures
            self.contains_key(k as int) ==> (r matches Some(v) && *v == self.spec_get(
                k as int,
            )),
            !self.contains_key(k as int) ==> r is None,
    {
        if k < self.slots.len() {
            self.slots[k].as_ref()
        } else {
            None
        }
    }

    /// Overwrite the value under a live key; reports whether the key was live.
    pub fn set(&mut self, k: usize, v: V) -> (r: bool)
        ensures
            r == old(self).contains_key(k as int),
            r ==> final(self).slots() == old(self).slots().update(k as int, Some(v)),
            !r ==> final(self).slots() == old(self).slots(),
            final(self).spec_len() == old(self).spec_len(),
    {
        if k < self.slots.len() {
            if self.slots[k].is_some() {
                self.slots.set(k, Some(v));
                proof {
                    Self::lemma_live_count_update(old(self).slots(), k as int, v);
                }
                return true;
            }
        }
        false
    }

    /// Remove the value under a key; its slot is never reused.
    pub fn remove(&mut self, k: usize) -> (r: bool)
        ensures
            r == old(self).contains_key(k as int),
            r ==> final(self).slots() == old(self).slots().update(k as int, None),
            !r ==> final(self).slots() == old(self).slots(),
            r ==> final(self).spec_len() + 1 == old(self).spec_len(),
            !r ==> final(self).spec_len() == old(self).spec_len(),
    {
        if k < self.slots.len() {
            if self.slots[k].is_some() {
                self.slots.set(k, None);
                proof {
                    Self::lemma_live_count_clear(old(self).slots(), k as int);
                }
                return true;
            }
        }
        false
    }

    /// Number of live values.
    pub fn len(&self) -> (r: usize)
        ensures
            r == self.spec_len(),
    {
        let mut count: usize = 0;
        let mut i: usize = 0;
        while i < self.slots.len()
            invariant
                i <= self.slots@.len(),
                count == Self::live_count(self.slots@, i as int),
                count <= i,
            decreases self.slots@.len() - i,
        {
            if self.slots[i].is_some() {
                count = count + 1;
            }
            i = i + 1;
        }
        count
    }

    /// Overwriting a live slot does not change the number of live values.
    pub proof fn lemma_live_count_update(s: Seq<Option<V>>, k: int, v: V)
        requires
            0 <= k < s.len(),
            s[k] is Some,
        ensures
            Self::live_count(s.update(k, Some(v)), s.len() as int) == Self::live_count(
                s,
                s.len() as int,
            ),
    {
        Self::lemma_live_count_update_upto(s, k, v, s.len() as int);
    }

    /// Appending a live slot raises the number of live values by one.
    pub proof fn lemma_live_count_grow(s: Seq<Option<V>>, t: Seq<Option<V>>, k: int)
        requires
            k == s.len(),
            t.len() == s.len() + 1,
            forall|j: int| 0 <= j < s.len() ==> t[j] == s[j],
            t[k] is Some,
        ensures
            Self::live_count(t, t.len() as int) == Self::live_count(s, s.len() as int) + 1,
    {
        Self::lemma_live_count_agree(s, t, s.len() as int);
    }

    /// Clearing a live slot lowers the number of live values by one.
    proof fn lemma_live_count_clear(s: Seq<Option<V>>, k: int)
        requires
            0 <= k < s.len(),
            s[k] is Some,
        ensures
            Self::live_count(s.update(k, None), s.len() as int) + 1 == Self::live_count(
                s,
                s.len() as int,
            ),
    {
        Self::lemma_live_count_clear_upto(s, k, s.len() as int);
    }

    proof fn lemma_live_count_clear_upto(s: Seq<Option<V>>, k: int, upto: int)
        requires
            0 <= k < s.len(),
            s[k] is Some,
            upto <= s.len(),
        ensures
            k < upto ==> Self::live_count(s.update(k, None), upto) + 1 == Self::live_count(
                s,
                upto,
            ),
            k >= upto ==> Self::live_count(s.update(k, None), upto) == Self::live_count(s, upto),
        decreases upto,
    {
        if upto > 0 {
            Self::lemma_live_count_clear_upto(s, k, upto - 1);
        }
    }

    /// Two slot sequences that agree on a prefix count the same live values
    /// over it.
    proof fn lemma_live_count_agree(s: Seq<Option<V>>, t: Seq<Option<V>>, upto: int)
        requires
            upto <= s.len(),
            upto <= t.len(),
            forall|j: int| 0 <= j < upto ==> t[j] == s[j],
        ensures
            Self::live_count(t, upto) == Self::live_count(s, upto),
        decreases upto,
    {
        if upto > 0 {
            Self::lemma_live_count_agree(s, t, upto - 1);
        }
    }

    proof fn lemma_live_count_update_upto(s: Seq<Option<V>>, k: int, v: V, upto: int)
        requires
            0 <= k < s.len(),
            s[k] is Some,
            upto <= s.len(),
        ensures
            Self::live_count(s.update(k, Some(v)), upto) == Self::live_count(s, upto),
        decreases upto,
    {
        if upto > 0 {
            Self::lemma_live_count_update_upto(s, k, v, upto - 1);
        }
    }

    /// All live keys, in increasing order.
    pub fn keys(&self) -> (r: Vec<usize>)
        ensures
            forall|j: int|
                0 <= j < r@.len() ==> self.contains_key(#[trigger] r@[j] as int),
            forall|k: int| self.contains_key(k) ==> r@.contains(k as usize),
            forall|j1: int, j2: int| 0 <= j1 < j2 < r@.len() ==> r@[j1] < r@[j2],
    {
        let mut r: Vec<usize> = Vec::new();
        let mut i: usize = 0;
        while i < self.slots.len()
            invariant
                i <= self.slots@.len(),
                forall|j: int|
                    0 <= j < r@.len() ==> self.contains_key(#[trigger] r@[j] as int),
                forall|k: int| 0 <= k < i && self.contains_key(k) ==> r@.contains(k as usize),
                forall|j: int| 0 <= j < r@.len() ==> r@[j] < i,
                forall|j1: int, j2: int| 0 <= j1 < j2 < r@.len() ==> r@[j1] < r@[j2],
            decreases self.slots@.len() - i,
        {
            let ghost r_before = r@;
            if self.slots[i].is_some() {
                r.push(i);
            }
            proof {
                assert forall|k: int| 0 <= k < i + 1 && self.contains_key(k) implies r@.contains(
                    k as usize,
                ) by {
                    if k < i {
                        let j = choose|j: int| 0 <= j < r_before.len() && r_before[j] == k as usize;
                        assert(r@[j] == k as usize);
                    } else {
                        assert(r@[r@.len() - 1] == k as usize);
                    }
                }
            }
            i = i + 1;
        }
        r
    }
}

} // verus!
