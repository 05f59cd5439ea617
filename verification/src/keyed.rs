//! A map from string keys to clock readings and a set of string keys, each
//! kept in a small vector.

use vstd::prelude::*;
use vstd::string::*;
use crate::clock::{elapsed_secs, seconds_between};
use crate::text::str_eq;

verus! {

/// One key with the clock reading stored for it.
pub struct StampEntry {
    pub key: String,
    pub stamp: u64,
}

/// A map from keys to clock readings.
pub struct StampMap {
    entries: Vec<StampEntry>,
}

/// The stamps of a map that are younger than `cutoff_secs` at the reading
/// `now`.
pub open spec fn fresh_stamps(stamps: Map<Seq<char>, nat>, now: nat, cutoff_secs: nat) -> Map<
    Seq<char>,
    nat,
> {
    Map::new(
        |k: Seq<char>| stamps.contains_key(k) && elapsed_secs(now, stamps[k]) < cutoff_secs,
        |k: Seq<char>| stamps[k],
    )
}

impl StampMap {
    spec fn has_key_at(self, key: Seq<char>, i: int) -> bool {
        0 <= i < self.entries@.len() && self.entries@[i].key@ == key
    }

    /// No key is stored twice.
    pub closed spec fn wf(self) -> bool {
        forall|i: int, j: int|
            0 <= i < j < self.entries@.len() ==> (#[trigger] self.entries@[i]).key@ != (
            #[trigger] self.entries@[j]).key@
    }

    /// The map holds every stored key with its reading.
    proof fn lemma_lookup(self, i: int)
        requires
            self.wf(),
            0 <= i < self.entries@.len(),
        ensures
            self@.contains_key(self.entries@[i].key@),
            self@[self.entries@[i].key@] == self.entries@[i].stamp as nat,
    {
        let key = self.entries@[i].key@;
        assert(self.has_key_at(key, i));
        let j = choose|j: int| self.has_key_at(key, j);
        assert(self.has_key_at(key, j));
        assert(i == j);
    }

    /// An empty map.
    pub fn new() -> (m: StampMap)
        ensures
            m@ == Map::<Seq<char>, nat>::empty(),
            m.wf(),
    {
        let m = StampMap { entries: Vec::new() };
        assert(m@ =~= Map::<Seq<char>, nat>::empty());
        m
    }

    /// Where a key is stored.
    fn position(&self, key: &str) -> (r: Option<usize>)
        ensures
            match r {
                Some(i) => self.has_key_at(key@, i as int),
                None => forall|i: int| !self.has_key_at(key@, i),
            },
    {
        let mut i: usize = 0;
        while i < self.entries.len()
            invariant
                i <= self.entries@.len(),
                forall|j: int| 0 <= j < i ==> !self.has_key_at(key@, j),
            decreases self.entries@.len() - i,
        {
            if str_eq(self.entries[i].key.as_str(), key) {
                return Some(i);
            }
            i += 1;
        }
        None
    }

    /// The reading stored for a key.
    pub fn get(&self, key: &str) -> (r: Option<u64>)
        requires
            self.wf(),
        ensures
            match r {
                Some(stamp) => self@.contains_key(key@) && self@[key@] == stamp as nat,
                None => !self@.contains_key(key@),
            },
    {
        match self.position(key) {
            Some(i) => {
                proof {
                    self.lemma_lookup(i as int);
                }
                Some(self.entries[i].stamp)
            },
            None => None,
        }
    }

    /// Stores a reading for a key, in place of the one stored before.
    pub fn insert(&mut self, key: &str, stamp: u64)
        requires
            old(self).wf(),
        ensures
            final(self).wf(),
            final(self)@ == old(self)@.insert(key@, stamp as nat),
    {
        let ghost before = *self;
        match self.position(key) {
            Some(i) => {
                let entry = StampEntry { key: String::from_str(key), stamp };
                self.entries.set(i, entry);
                proof {
                    assert(self.wf()) by {
                        assert forall|a: int, b: int|
                            0 <= a < b < self.entries@.len() implies (
                        #[trigger] self.entries@[a]).key@ != (#[trigger] self.entries@[b]).key@ by {
                            assert(self.entries@[a].key@ == before.entries@[a].key@);
                            assert(self.entries@[b].key@ == before.entries@[b].key@);
                        }
                    }
                    assert forall|k: Seq<char>| #[trigger]
                        self@.contains_key(k) <==> before@.insert(
                            key@,
                            stamp as nat,
                        ).contains_key(k) by {
                        if self@.contains_key(k) {
                            let j = choose|j: int| self.has_key_at(k, j);
                            assert(self.has_key_at(k, j));
                            assert(before.has_key_at(k, j));
                        }
                        if before@.contains_key(k) {
                            let j = choose|j: int| before.has_key_at(k, j);
                            assert(before.has_key_at(k, j));
                            assert(self.has_key_at(k, j));
                        }
                        if k == key@ {
                            assert(self.has_key_at(k, i as int));
                        }
                    }
                    assert forall|k: Seq<char>| #[trigger] self@.contains_key(k) implies self@[k]
                        == before@.insert(key@, stamp as nat)[k] by {
                        let j = choose|j: int| self.has_key_at(k, j);
                        assert(self.has_key_at(k, j));
                        self.lemma_lookup(j);
                        if j != i {
                            assert(before.has_key_at(k, j));
                            before.lemma_lookup(j);
                        }
                    }
                    assert(self@ =~= before@.insert(key@, stamp as nat));
                }
            },
            None => {
                let entry = StampEntry { key: String::from_str(key), stamp };
                self.entries.push(entry);
                proof {
                    let last = self.entries@.len() - 1;
                    assert(self.wf()) by {
                        assert forall|a: int, b: int|
                            0 <= a < b < self.entries@.len() implies (
                        #[trigger] self.entries@[a]).key@ != (#[trigger] self.entries@[b]).key@ by {
                            assert(self.entries@[a] == before.entries@[a]);
                            if b < last {
                                assert(self.entries@[b] == before.entries@[b]);
                            } else {
                                assert(!before.has_key_at(key@, a));
                            }
                        }
                    }
                    assert forall|k: Seq<char>| #[trigger]
                        self@.contains_key(k) <==> before@.insert(
                            key@,
                            stamp as nat,
                        ).contains_key(k) by {
                        if self@.contains_key(k) {
                            let j = choose|j: int| self.has_key_at(k, j);
                            assert(self.has_key_at(k, j));
                            if j < last {
                                assert(before.has_key_at(k, j));
                            }
                        }
                        if before@.contains_key(k) {
                            let j = choose|j: int| before.has_key_at(k, j);
                            assert(before.has_key_at(k, j));
                            assert(self.has_key_at(k, j));
                        }
                        if k == key@ {
                            assert(self.has_key_at(k, last));
                        }
                    }
                    assert forall|k: Seq<char>| #[trigger] self@.contains_key(k) implies self@[k]
                        == before@.insert(key@, stamp as nat)[k] by {
                        let j = choose|j: int| self.has_key_at(k, j);
                        assert(self.has_key_at(k, j));
                        self.lemma_lookup(j);
                        if j < last {
                            assert(before.has_key_at(k, j));
                            before.lemma_lookup(j);
                        }
                    }
                    assert(self@ =~= before@.insert(key@, stamp as nat));
                }
            },
        }
    }

    /// Drops the reading stored for a key, where there is one.
    pub fn remove(&mut self, key: &str)
        requires
            old(self).wf(),
        ensures
            final(self).wf(),
            final(self)@ == old(self)@.remove(key@),
    {
        let ghost before = *self;
        match self.position(key) {
            Some(i) => {
                self.entries.remove(i);
                proof {
                    assert forall|a: int| 0 <= a < self.entries@.len() implies (
                    #[trigger] self.entries@[a]) == before.entries@[if a < i {
                        a
                    } else {
                        a + 1
                    }] by {}
                    assert forall|a: int, b: int|
                        0 <= a < b < self.entries@.len() implies (#[trigger] self.entries@[a]).key@
                        != (#[trigger] self.entries@[b]).key@ by {
                        let sa = if a < i { a } else { a + 1 };
                        let sb = if b < i { b } else { b + 1 };
                        assert(self.entries@[a] == before.entries@[sa]);
                        assert(self.entries@[b] == before.entries@[sb]);
                    }
                    let target = before@.remove(key@);
                    assert forall|k: Seq<char>| #[trigger] self@.contains_key(k) implies target.contains_key(
                        k,
                    ) && target[k] == self@[k] by {
                        let j = choose|j: int| self.has_key_at(k, j);
                        assert(self.has_key_at(k, j));
                        self.lemma_lookup(j);
                        let sj = if j < i { j } else { j + 1 };
                        assert(self.entries@[j] == before.entries@[sj]);
                        assert(before.has_key_at(k, sj));
                        before.lemma_lookup(sj);
                        assert(before.has_key_at(key@, i as int));
                        assert(sj != i);
                    }
                    assert forall|k: Seq<char>| #[trigger] target.contains_key(k) implies self@.contains_key(
                        k,
                    ) by {
                        let s = choose|s: int| before.has_key_at(k, s);
                        assert(before.has_key_at(k, s));
                        assert(s != i);
                        let j = if s < i { s } else { s - 1 };
                        assert(self.entries@[j] == before.entries@[s]);
                        assert(self.has_key_at(k, j));
                    }
                    assert(self@ =~= target);
                }
            },
            None => {
                proof {
                    assert(self@ =~= before@.remove(key@));
                }
            },
        }
    }

    /// Drops every reading that is `cutoff_secs` old or older at the reading
    /// `now`.
    pub fn retain_fresh(&mut self, now: u64, cutoff_secs: u64)
        requires
            old(self).wf(),
        ensures
            final(self).wf(),
            final(self)@ == fresh_stamps(old(self)@, now as nat, cutoff_secs as nat),
    {
        let ghost before = *self;
        let mut kept: Vec<StampEntry> = Vec::new();
        let mut i: usize = 0;
        while i < self.entries.len()
            invariant
                i <= self.entries@.len(),
                *self == before,
                before.wf(),
                forall|j: int|
                    0 <= j < kept@.len() ==> exists|s: int|
                        0 <= s < i && (#[trigger] kept@[j]).key@ == before.entries@[s].key@
                            && kept@[j].stamp == before.entries@[s].stamp && elapsed_secs(
                            now as nat,
                            kept@[j].stamp as nat,
                        ) < cutoff_secs,
                forall|s: int|
                    0 <= s < i && elapsed_secs(now as nat, (#[trigger] before.entries@[s]).stamp as nat)
                        < cutoff_secs ==> exists|j: int|
                        0 <= j < kept@.len() && kept@[j].key@ == before.entries@[s].key@,
                forall|a: int, b: int|
                    0 <= a < b < kept@.len() ==> (#[trigger] kept@[a]).key@ != (
                    #[trigger] kept@[b]).key@,
            decreases self.entries@.len() - i,
        {
            let entry = &self.entries[i];
            if seconds_between(now, entry.stamp) < cutoff_secs {
                let ghost old_kept = kept@;
                kept.push(StampEntry { key: entry.key.clone(), stamp: entry.stamp });
                proof {
                    let last = kept@.len() - 1;
                    assert forall|j: int| 0 <= j < kept@.len() implies exists|s: int|
                        0 <= s < i + 1 && (#[trigger] kept@[j]).key@ == before.entries@[s].key@
                            && kept@[j].stamp == before.entries@[s].stamp && elapsed_secs(
                            now as nat,
                            kept@[j].stamp as nat,
                        ) < cutoff_secs by {
                        if j < last {
                            assert(kept@[j] == old_kept[j]);
                            let s = choose|s: int|
                                0 <= s < i && old_kept[j].key@ == before.entries@[s].key@
                                    && old_kept[j].stamp == before.entries@[s].stamp
                                    && elapsed_secs(now as nat, old_kept[j].stamp as nat)
                                    < cutoff_secs;
                            assert(0 <= s < i + 1 && kept@[j].key@ == before.entries@[s].key@);
                        } else {
                            assert(kept@[j].key@ == before.entries@[i as int].key@);
                        }
                    }
                    assert forall|s: int|
                        0 <= s < i + 1 && elapsed_secs(
                            now as nat,
                            (#[trigger] before.entries@[s]).stamp as nat,
                        ) < cutoff_secs implies exists|j: int|
                        0 <= j < kept@.len() && kept@[j].key@ == before.entries@[s].key@ by {
                        if s < i {
                            let j = choose|j: int|
                                0 <= j < old_kept.len() && old_kept[j].key@
                                    == before.entries@[s].key@;
                            assert(kept@[j] == old_kept[j]);
                        } else {
                            assert(kept@[last].key@ == before.entries@[s].key@);
                        }
                    }
                    assert forall|a: int, b: int| 0 <= a < b < kept@.len() implies (
                    #[trigger] kept@[a]).key@ != (#[trigger] kept@[b]).key@ by {
                        assert(kept@[a] == old_kept[a]);
                        if b < last {
                            assert(kept@[b] == old_kept[b]);
                        } else {
                            let s = choose|s: int|
                                0 <= s < i && old_kept[a].key@ == before.entries@[s].key@
                                    && old_kept[a].stamp == before.entries@[s].stamp
                                    && elapsed_secs(now as nat, old_kept[a].stamp as nat)
                                    < cutoff_secs;
                            assert(before.entries@[s].key@ != before.entries@[i as int].key@);
                        }
                    }
                }
            }
            i += 1;
        }
        self.entries = kept;
        proof {
            let target = fresh_stamps(before@, now as nat, cutoff_secs as nat);
            assert forall|k: Seq<char>| #[trigger] self@.contains_key(k) implies target.contains_key(
                k,
            ) && target[k] == self@[k] by {
                let j = choose|j: int| self.has_key_at(k, j);
                assert(self.has_key_at(k, j));
                self.lemma_lookup(j);
                let s = choose|s: int|
                    0 <= s < before.entries@.len() && kept@[j].key@ == before.entries@[s].key@
                        && kept@[j].stamp == before.entries@[s].stamp && elapsed_secs(
                        now as nat,
                        kept@[j].stamp as nat,
                    ) < cutoff_secs;
                before.lemma_lookup(s);
            }
            assert forall|k: Seq<char>| #[trigger] target.contains_key(k) implies self@.contains_key(
                k,
            ) by {
                let s = choose|s: int| before.has_key_at(k, s);
                assert(before.has_key_at(k, s));
                before.lemma_lookup(s);
                let j = choose|j: int|
                    0 <= j < kept@.len() && kept@[j].key@ == before.entries@[s].key@;
                assert(self.has_key_at(k, j));
            }
            assert(self@ =~= target);
        }
    }
}

impl View for StampMap {
    type V = Map<Seq<char>, nat>;

    closed spec fn view(&self) -> Map<Seq<char>, nat> {
        Map::new(
            |k: Seq<char>| exists|i: int| self.has_key_at(k, i),
            |k: Seq<char>| self.entries@[choose|i: int| self.has_key_at(k, i)].stamp as nat,
        )
    }
}

/// A set of keys.
pub struct KeySet {
    keys: Vec<String>,
}

impl View for KeySet {
    type V = Set<Seq<char>>;

    closed spec fn view(&self) -> Set<Seq<char>> {
        Set::new(|k: Seq<char>| exists|i: int| 0 <= i < self.keys@.len() && self.keys@[i]@ == k)
    }
}

impl KeySet {
    /// An empty set.
    pub fn new() -> (s: KeySet)
        ensures
            s@ == Set::<Seq<char>>::empty(),
    {
        let s = KeySet { keys: Vec::new() };
        assert(s@ =~= Set::<Seq<char>>::empty());
        s
    }

    /// Whether a key is in the set.
    pub fn contains(&self, key: &str) -> (r: bool)
        ensures
            r == self@.contains(key@),
    {
        let mut i: usize = 0;
        while i < self.keys.len()
            invariant
                i <= self.keys@.len(),
                forall|j: int| 0 <= j < i ==> self.keys@[j]@ != key@,
            decreases self.keys@.len() - i,
        {
            if str_eq(self.keys[i].as_str(), key) {
                return true;
            }
            i += 1;
        }
        false
    }

    /// Puts a key into the set.
    pub fn insert(&mut self, key: &str)
        ensures
            final(self)@ == old(self)@.insert(key@),
    {
        let ghost before = *self;
        if !self.contains(key) {
            self.keys.push(String::from_str(key));
            proof {
                let last = self.keys@.len() - 1;
                assert forall|k: Seq<char>| self@.contains(k) <==> before@.insert(key@).contains(
                    k,
                ) by {
                    if self@.contains(k) {
                        let i = choose|i: int| 0 <= i < self.keys@.len() && self.keys@[i]@ == k;
                        if i < last {
                            assert(before.keys@[i]@ == k);
                        }
                    }
                    if before@.contains(k) {
                        let i = choose|i: int| 0 <= i < before.keys@.len() && before.keys@[i]@ == k;
                        assert(self.keys@[i]@ == k);
                    }
                    if k == key@ {
                        assert(self.keys@[last]@ == k);
                    }
                }
            }
        }
        assert(self@ =~= before@.insert(key@));
    }

    /// Empties the set.
    pub fn clear(&mut self)
        ensures
            final(self)@ == Set::<Seq<char>>::empty(),
    {
        self.keys.clear();
        assert(self@ =~= Set::<Seq<char>>::empty());
    }
}

} // verus!
