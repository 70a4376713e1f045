//! User learning: how often the user picked each (reading, surface) pair.
//!
//! Counts are keyed by `reading|surface`. The logarithmic score built on
//! these counts, and saving and loading them, live with the caller.
use vstd::prelude::*;
use crate::text::{append_chars, chars_eq, chars_of, string_of};

verus! {

/// The key under which a (reading, surface) pair is counted.
pub open spec fn score_key(reading: Seq<char>, surface: Seq<char>) -> Seq<char> {
    reading + seq!['|'] + surface
}

pub struct UserScorer {
    /// ("reading|surface", selection count) pairs; no key occurs twice.
    counts: Vec<(String, u32)>,
    /// Whether there are unsaved changes.
    dirty: bool,
}

impl UserScorer {
    /// No key occurs twice.
    pub closed spec fn wf(&self) -> bool {
        forall|i: int, j: int| 0 <= i < j < self.counts@.len() ==> (#[trigger] self.counts@[i]).0@ != (#[trigger] self.counts@[j]).0@
    }

    /// Whether key `k` has been counted.
    pub closed spec fn has(&self, k: Seq<char>) -> bool {
        exists|i: int| 0 <= i < self.counts@.len() && (#[trigger] self.counts@[i]).0@ == k
    }

    /// How often key `k` was selected (0 if never).
    pub closed spec fn count_of(&self, k: Seq<char>) -> u32 {
        if self.has(k) {
            self.counts@[choose|i: int| 0 <= i < self.counts@.len() && (#[trigger] self.counts@[i]).0@ == k].1
        } else {
            0
        }
    }

    /// Number of distinct keys counted.
    pub closed spec fn key_count(&self) -> nat {
        self.counts@.len()
    }

    /// Whether there are changes not yet saved.
    pub closed spec fn is_dirty_spec(&self) -> bool {
        self.dirty
    }

    proof fn lemma_count_at(&self, i: int)
        requires
            self.wf(),
            0 <= i < self.counts@.len(),
        ensures
            self.has(self.counts@[i].0@),
            self.count_of(self.counts@[i].0@) == self.counts@[i].1,
    {
        let k = self.counts@[i].0@;
        assert(self.has(k));
        let j = choose|j: int| 0 <= j < self.counts@.len() && (#[trigger] self.counts@[j]).0@ == k;
        if j != i {
            if i < j {
                assert(self.counts@[i].0@ != self.counts@[j].0@);
            } else {
                assert(self.counts@[j].0@ != self.counts@[i].0@);
            }
        }
    }

    /// An empty scorer.
    pub fn new() -> (r: Self)
        ensures
            r.wf(),
            forall|k: Seq<char>| !(#[trigger] r.has(k)) && r.count_of(k) == 0,
            r.key_count() == 0,
            !r.is_dirty_spec(),
    {
        UserScorer { counts: Vec::new(), dirty: false }
    }

    /// The key `reading|surface`.
    fn key(reading: &str, surface: &str) -> (r: Vec<char>)
        ensures
            r@ == score_key(reading@, surface@),
    {
        let mut k = chars_of(reading);
        k.push('|');
        let s = chars_of(surface);
        append_chars(&mut k, &s);
        k
    }

    /// The position of key `k`, if it has been counted.
    fn find(&self, k: &Vec<char>) -> (r: Option<usize>)
        requires
            self.wf(),
        ensures
            r is None ==> !self.has(k@),
            r matches Some(i) ==> i < self.counts@.len() && self.counts@[i as int].0@ == k@,
    {
        let mut i: usize = 0;
        while i < self.counts.len()
            invariant
                i <= self.counts@.len(),
                forall|j: int| 0 <= j < i ==> (#[trigger] self.counts@[j]).0@ != k@,
            decreases self.counts.len() - i,
        {
            let have = chars_of(self.counts[i].0.as_str());
            if chars_eq(&have, k) {
                return Some(i);
            }
            i += 1;
        }
        None
    }

    /// How often the user selected `surface` for `reading`.
    pub fn count(&self, reading: &str, surface: &str) -> (r: u32)
        requires
            self.wf(),
        ensures
            r == self.count_of(score_key(reading@, surface@)),
    {
        let k = Self::key(reading, surface);
        match self.find(&k) {
            Some(i) => {
                proof { self.lemma_count_at(i as int); }
                self.counts[i].1
            },
            None => 0,
        }
    }

    /// Records a user selection for the given (reading, surface) pair:
    /// its count goes up by one and every other count stays.
    pub fn record(&mut self, reading: &str, surface: &str)
        requires
            old(self).wf(),
            old(self).count_of(score_key(reading@, surface@)) < u32::MAX,
        ensures
            final(self).wf(),
            final(self).has(score_key(reading@, surface@)),
            final(self).count_of(score_key(reading@, surface@)) == old(self).count_of(score_key(reading@, surface@)) + 1,
            forall|k: Seq<char>| k != score_key(reading@, surface@) ==> #[trigger] final(self).count_of(k) == old(self).count_of(k)
                && final(self).has(k) == old(self).has(k),
            final(self).is_dirty_spec(),
    {
        let k = Self::key(reading, surface);
        let ghost old_self = *self;
        match self.find(&k) {
            Some(i) => {
                proof { old_self.lemma_count_at(i as int); }
                let key = self.counts[i].0.clone();
                let c = self.counts[i].1;
                self.counts.set(i, (key, c + 1));
                self.dirty = true;
                proof {
                    assert(self.wf()) by {
                        assert forall|a: int, b: int| 0 <= a < b < self.counts@.len() implies (#[trigger] self.counts@[a]).0@ != (#[trigger] self.counts@[b]).0@ by {
                            assert(old_self.counts@[a].0@ != old_self.counts@[b].0@);
                        }
                    }
                    self.lemma_count_at(i as int);
                    assert forall|kk: Seq<char>| kk != k@ implies #[trigger] self.count_of(kk) == old_self.count_of(kk)
                        && self.has(kk) == old_self.has(kk) by {
                        if old_self.has(kk) {
                            let j = choose|j: int| 0 <= j < old_self.counts@.len() && (#[trigger] old_self.counts@[j]).0@ == kk;
                            old_self.lemma_count_at(j);
                            assert(self.counts@[j] == old_self.counts@[j]);
                            self.lemma_count_at(j);
                        }
                        if self.has(kk) {
                            let j = choose|j: int| 0 <= j < self.counts@.len() && (#[trigger] self.counts@[j]).0@ == kk;
                            assert(self.counts@[j] == old_self.counts@[j]);
                        }
                    }
                }
            },
            None => {
                let key = string_of(&k);
                self.counts.push((key, 1));
                self.dirty = true;
                proof {
                    let n = old_self.counts@.len() as int;
                    assert(self.wf()) by {
                        assert forall|a: int, b: int| 0 <= a < b < self.counts@.len() implies (#[trigger] self.counts@[a]).0@ != (#[trigger] self.counts@[b]).0@ by {
                            if b == n {
                                assert(self.counts@[a] == old_self.counts@[a]);
                            } else {
                                assert(old_self.counts@[a].0@ != old_self.counts@[b].0@);
                            }
                        }
                    }
                    self.lemma_count_at(n);
                    assert forall|kk: Seq<char>| kk != k@ implies #[trigger] self.count_of(kk) == old_self.count_of(kk)
                        && self.has(kk) == old_self.has(kk) by {
                        if old_self.has(kk) {
                            let j = choose|j: int| 0 <= j < old_self.counts@.len() && (#[trigger] old_self.counts@[j]).0@ == kk;
                            old_self.lemma_count_at(j);
                            assert(self.counts@[j] == old_self.counts@[j]);
                            self.lemma_count_at(j);
                        }
                        if self.has(kk) {
                            let j = choose|j: int| 0 <= j < self.counts@.len() && (#[trigger] self.counts@[j]).0@ == kk;
                            if j < n {
                                assert(self.counts@[j] == old_self.counts@[j]);
                            }
                        }
                    }
                }
            },
        }
    }

    /// Sets the count of a raw key (as read back from storage); later
    /// settings of the same key replace earlier ones.
    pub fn set_count(&mut self, key: &str, count: u32)
        requires
            old(self).wf(),
        ensures
            final(self).wf(),
            final(self).has(key@),
            final(self).count_of(key@) == count,
            forall|k: Seq<char>| k != key@ ==> #[trigger] final(self).count_of(k) == old(self).count_of(k)
                && final(self).has(k) == old(self).has(k),
            final(self).is_dirty_spec() == old(self).is_dirty_spec(),
    {
        let k = chars_of(key);
        let ghost old_self = *self;
        match self.find(&k) {
            Some(i) => {
                let name = self.counts[i].0.clone();
                self.counts.set(i, (name, count));
                proof {
                    assert(self.wf()) by {
                        assert forall|a: int, b: int| 0 <= a < b < self.counts@.len() implies (#[trigger] self.counts@[a]).0@ != (#[trigger] self.counts@[b]).0@ by {
                            assert(old_self.counts@[a].0@ != old_self.counts@[b].0@);
                        }
                    }
                    self.lemma_count_at(i as int);
                    assert forall|kk: Seq<char>| kk != k@ implies #[trigger] self.count_of(kk) == old_self.count_of(kk)
                        && self.has(kk) == old_self.has(kk) by {
                        if old_self.has(kk) {
                            let j = choose|j: int| 0 <= j < old_self.counts@.len() && (#[trigger] old_self.counts@[j]).0@ == kk;
                            old_self.lemma_count_at(j);
                            assert(self.counts@[j] == old_self.counts@[j]);
                            self.lemma_count_at(j);
                        }
                        if self.has(kk) {
                            let j = choose|j: int| 0 <= j < self.counts@.len() && (#[trigger] self.counts@[j]).0@ == kk;
                            assert(self.counts@[j] == old_self.counts@[j]);
                        }
                    }
                }
            },
            None => {
                let name = string_of(&k);
                self.counts.push((name, count));
                proof {
                    let n = old_self.counts@.len() as int;
                    assert(self.wf()) by {
                        assert forall|a: int, b: int| 0 <= a < b < self.counts@.len() implies (#[trigger] self.counts@[a]).0@ != (#[trigger] self.counts@[b]).0@ by {
                            if b == n {
                                assert(self.counts@[a] == old_self.counts@[a]);
                            } else {
                                assert(old_self.counts@[a].0@ != old_self.counts@[b].0@);
                            }
                        }
                    }
                    self.lemma_count_at(n);
                    assert forall|kk: Seq<char>| kk != k@ implies #[trigger] self.count_of(kk) == old_self.count_of(kk)
                        && self.has(kk) == old_self.has(kk) by {
                        if old_self.has(kk) {
                            let j = choose|j: int| 0 <= j < old_self.counts@.len() && (#[trigger] old_self.counts@[j]).0@ == kk;
                            old_self.lemma_count_at(j);
                            assert(self.counts@[j] == old_self.counts@[j]);
                            self.lemma_count_at(j);
                        }
                        if self.has(kk) {
                            let j = choose|j: int| 0 <= j < self.counts@.len() && (#[trigger] self.counts@[j]).0@ == kk;
                            if j < n {
                                assert(self.counts@[j] == old_self.counts@[j]);
                            }
                        }
                    }
                }
            },
        }
    }

    /// All (key, count) pairs, each key once.
    pub fn counts(&self) -> (r: Vec<(String, u32)>)
        requires
            self.wf(),
        ensures
            r@.len() == self.key_count(),
            forall|i: int| 0 <= i < r@.len() ==> #[trigger] self.has(r@[i].0@) && self.count_of(r@[i].0@) == r@[i].1,
            forall|k: Seq<char>| #[trigger] self.has(k) ==> exists|i: int| 0 <= i < r@.len() && r@[i].0@ == k,
    {
        let mut r: Vec<(String, u32)> = Vec::new();
        let mut i: usize = 0;
        while i < self.counts.len()
            invariant
                self.wf(),
                i <= self.counts@.len(),
                r@.len() == i,
                forall|j: int| 0 <= j < i ==> (#[trigger] r@[j]).0@ == self.counts@[j].0@ && r@[j].1 == self.counts@[j].1,
            decreases self.counts.len() - i,
        {
            let name = self.counts[i].0.clone();
            r.push((name, self.counts[i].1));
            i += 1;
        }
        proof {
            assert forall|j: int| 0 <= j < r@.len() implies #[trigger] self.has(r@[j].0@) && self.count_of(r@[j].0@) == r@[j].1 by {
                self.lemma_count_at(j);
            }
            assert forall|k: Seq<char>| #[trigger] self.has(k) implies exists|j: int| 0 <= j < r@.len() && r@[j].0@ == k by {
                let j = choose|j: int| 0 <= j < self.counts@.len() && (#[trigger] self.counts@[j]).0@ == k;
                assert(r@[j].0@ == k);
            }
        }
        r
    }

    /// Whether there are unsaved changes.
    pub fn is_dirty(&self) -> (r: bool)
        ensures
            r == self.is_dirty_spec(),
    {
        self.dirty
    }

    /// Marks the counts as saved; they are unchanged.
    pub fn mark_saved(&mut self)
        ensures
            final(self).wf() == old(self).wf(),
            forall|k: Seq<char>| #[trigger] final(self).count_of(k) == old(self).count_of(k) && final(self).has(k) == old(self).has(k),
            final(self).key_count() == old(self).key_count(),
            !final(self).is_dirty_spec(),
    {
        self.dirty = false;
        assert(self.counts@ =~= old(self).counts@);
    }
}

} // verus!
