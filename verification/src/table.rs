//! An ordered table from string keys to values: the entries are kept in
//! ascending key order, so a scan visits them in key order.
use vstd::prelude::*;
use crate::text::{key_lt, str_eq, str_lt, lemma_key_lt_transitive, lemma_key_lt_irreflexive,
    lemma_key_lt_asymmetric, lemma_key_lt_total};

verus! {

/// Entries in strictly ascending key order (so no key occurs twice).
pub open spec fn keys_sorted<V>(s: Seq<(String, V)>) -> bool {
    forall|i: int, j: int| 0 <= i < j < s.len() ==> key_lt(#[trigger] s[i].0@, #[trigger] s[j].0@)
}

/// No key occurs twice.
pub open spec fn keys_unique<V>(s: Seq<(String, V)>) -> bool {
    forall|i: int, j: int| 0 <= i < s.len() && 0 <= j < s.len() && i != j ==> #[trigger] s[i].0@
        != #[trigger] s[j].0@
}

/// The map that a sequence of entries denotes.
pub open spec fn map_of<V: View>(s: Seq<(String, V)>) -> Map<Seq<char>, V::V>
    decreases s.len(),
{
    if s.len() == 0 {
        Map::empty()
    } else {
        map_of(s.drop_last()).insert(s.last().0@, s.last().1@)
    }
}

/// Sorted entries have unique keys.
pub proof fn lemma_sorted_unique<V>(s: Seq<(String, V)>)
    requires
        keys_sorted(s),
    ensures
        keys_unique(s),
{
    assert forall|i: int, j: int| 0 <= i < s.len() && 0 <= j < s.len() && i != j implies #[trigger] s[i].0@
        != #[trigger] s[j].0@ by {
        if i < j {
            assert(key_lt(s[i].0@, s[j].0@));
            lemma_key_lt_irreflexive(s[i].0@);
        } else {
            assert(key_lt(s[j].0@, s[i].0@));
            lemma_key_lt_irreflexive(s[i].0@);
        }
    }
}

/// What the map of a sequence with unique keys holds: exactly its keys,
/// each with its value, and as many keys as entries.
pub proof fn lemma_map_of<V: View>(s: Seq<(String, V)>)
    requires
        keys_unique(s),
    ensures
        forall|i: int| 0 <= i < s.len() ==> #[trigger] map_of(s).contains_key(s[i].0@) && map_of(
            s,
        )[s[i].0@] == s[i].1@,
        forall|k: Seq<char>| #[trigger] map_of(s).contains_key(k) ==> exists|i: int|
            0 <= i < s.len() && s[i].0@ == k,
        map_of(s).dom().finite(),
        map_of(s).dom().len() == s.len(),
    decreases s.len(),
{
    if s.len() > 0 {
        let t = s.drop_last();
        assert(keys_unique(t)) by {
            assert forall|i: int, j: int| 0 <= i < t.len() && 0 <= j < t.len() && i != j implies #[trigger] t[i].0@
                != #[trigger] t[j].0@ by {
                assert(t[i] == s[i] && t[j] == s[j]);
            }
        }
        lemma_map_of(t);
        let last = s.last();
        assert forall|i: int| 0 <= i < s.len() implies #[trigger] map_of(s).contains_key(s[i].0@)
            && map_of(s)[s[i].0@] == s[i].1@ by {
            if i < s.len() - 1 {
                assert(t[i] == s[i]);
                assert(s[i].0@ != s[s.len() - 1].0@);
            }
        }
        assert forall|k: Seq<char>| #[trigger] map_of(s).contains_key(k) implies exists|i: int|
            0 <= i < s.len() && s[i].0@ == k by {
            if k != last.0@ {
                assert(map_of(t).contains_key(k));
                let i = choose|i: int| 0 <= i < t.len() && t[i].0@ == k;
                assert(s[i] == t[i]);
            } else {
                assert(s[s.len() - 1].0@ == k);
            }
        }
        if map_of(t).contains_key(last.0@) {
            let i = choose|i: int| 0 <= i < t.len() && t[i].0@ == last.0@;
            assert(s[i] == t[i]);
            assert(false);
        }
    }
}

/// An ordered table from string keys to values.
#[derive(Debug, PartialEq)]
pub struct Table<V> {
    entries: Vec<(String, V)>,
}

impl<V> Table<V> {
    /// The entries are in strictly ascending key order.
    #[verifier::type_invariant]
    closed spec fn wf(&self) -> bool {
        keys_sorted(self.entries@)
    }
}

impl<V: View> Table<V> {
    /// The keys in ascending order.
    pub closed spec fn keys(&self) -> Seq<Seq<char>> {
        self.entries@.map_values(|e: (String, V)| e.0@)
    }

    /// The values in ascending order of their keys.
    pub closed spec fn values(&self) -> Seq<V::V> {
        self.entries@.map_values(|e: (String, V)| e.1@)
    }

    /// The map from keys to values.
    pub closed spec fn view(&self) -> Map<Seq<char>, V::V> {
        map_of(self.entries@)
    }


    /// Facts that hold of a table whose entries are sorted: the keys in
    /// order are strictly ascending, and they are exactly the keys of the
    /// map, each with the value at the same position.
    proof fn lemma_wf(&self)
        requires
            self.wf(),
        ensures
            self.keys().len() == self.values().len(),
            self.view().dom().finite(),
            self.view().dom().len() == self.keys().len(),
            forall|i: int, j: int|
                0 <= i < j < self.keys().len() ==> key_lt(
                    #[trigger] self.keys()[i],
                    #[trigger] self.keys()[j],
                ),
            forall|i: int|
                0 <= i < self.keys().len() ==> #[trigger] self.view().contains_key(self.keys()[i])
                    && self.view()[self.keys()[i]] == self.values()[i],
            forall|k: Seq<char>| #[trigger]
                self.view().contains_key(k) ==> self.keys().contains(k),
    {
        lemma_sorted_unique(self.entries@);
        lemma_map_of(self.entries@);
        assert forall|i: int| 0 <= i < self.keys().len() implies #[trigger] self.view().contains_key(
            self.keys()[i],
        ) && self.view()[self.keys()[i]] == self.values()[i] by {
            assert(self.keys()[i] == self.entries@[i].0@);
            assert(self.values()[i] == self.entries@[i].1@);
        }
        assert forall|k: Seq<char>| #[trigger] self.view().contains_key(k) implies self.keys().contains(
            k,
        ) by {
            let i = choose|i: int| 0 <= i < self.entries@.len() && self.entries@[i].0@ == k;
            assert(self.keys()[i] == k);
        }
    }

    /// An empty table.
    pub fn new() -> (t: Self)
        ensures
            t.view() == Map::<Seq<char>, V::V>::empty(),
            t.keys() == Seq::<Seq<char>>::empty(),
    {
        let t = Table { entries: Vec::new() };
        assert(t.keys() =~= Seq::<Seq<char>>::empty());
        t
    }

    /// The number of entries.
    pub fn len(&self) -> (n: usize)
        ensures
            n == self.view().dom().len(),
            n == self.keys().len(),
            n == self.values().len(),
            self.view().dom().finite(),
            forall|i: int, j: int|
                0 <= i < j < n ==> key_lt(#[trigger] self.keys()[i], #[trigger] self.keys()[j]),
            forall|i: int|
                0 <= i < n ==> #[trigger] self.view().contains_key(self.keys()[i])
                    && self.view()[self.keys()[i]] == self.values()[i],
            forall|k: Seq<char>| #[trigger] self.view().contains_key(k) ==> self.keys().contains(k),
    {
        proof {
            use_type_invariant(&*self);
            self.lemma_wf();
        }
        self.entries.len()
    }

    /// The key at position `i` in key order.
    pub fn key_at(&self, i: usize) -> (k: &String)
        requires
            i < self.keys().len(),
        ensures
            k@ == self.keys()[i as int],
    {
        &self.entries[i].0
    }

    /// The value at position `i` in key order.
    pub fn value_at(&self, i: usize) -> (v: &V)
        requires
            i < self.keys().len(),
        ensures
            v@ == self.values()[i as int],
    {
        &self.entries[i].1
    }

    /// Where `key` is (`Ok`), or where it would be inserted (`Err`).
    fn find(&self, key: &str) -> (r: Result<usize, usize>)
        ensures
            match r {
                Ok(i) => i < self.entries@.len() && self.entries@[i as int].0@ == key@,
                Err(p) => p <= self.entries@.len() && (forall|i: int|
                    0 <= i < p ==> key_lt(#[trigger] self.entries@[i].0@, key@)) && (forall|i: int|
                    p <= i < self.entries@.len() ==> key_lt(key@, #[trigger] self.entries@[i].0@)),
            },
    {
        proof {
            use_type_invariant(&*self);
        }
        let n = self.entries.len();
        let mut i: usize = 0;
        while i < n
            invariant
                i <= n == self.entries@.len(),
                self.wf(),
                forall|j: int| 0 <= j < i ==> key_lt(#[trigger] self.entries@[j].0@, key@),
            decreases n - i,
        {
            let k = self.entries[i].0.as_str();
            if str_eq(k, key) {
                return Ok(i);
            }
            if str_lt(key, k) {
                assert forall|j: int| i <= j < n implies key_lt(key@, #[trigger] self.entries@[j].0@) by {
                    if j > i {
                        assert(key_lt(self.entries@[i as int].0@, self.entries@[j].0@));
                        lemma_key_lt_transitive(key@, self.entries@[i as int].0@, self.entries@[j].0@);
                    }
                }
                return Err(i);
            }
            proof { lemma_key_lt_total(k@, key@); }
            i += 1;
        }
        Err(n)
    }

    /// Whether the table has an entry for `key`.
    pub fn contains_key(&self, key: &str) -> (r: bool)
        ensures
            r == self.view().contains_key(key@),
    {
        proof {
            use_type_invariant(&*self);
            self.lemma_wf();
        }
        match self.find(key) {
            Ok(i) => {
                assert(self.keys()[i as int] == key@);
                true
            },
            Err(p) => {
                proof {
                    if self.view().contains_key(key@) {
                        let i = choose|i: int| 0 <= i < self.keys().len() && self.keys()[i] == key@;
                        assert(self.entries@[i].0@ == key@);
                        lemma_key_lt_irreflexive(key@);
                    }
                }
                false
            },
        }
    }

    /// The value stored under `key`, if any.
    pub fn get(&self, key: &str) -> (r: Option<&V>)
        ensures
            match r {
                Some(v) => self.view().contains_key(key@) && v@ == self.view()[key@],
                None => !self.view().contains_key(key@),
            },
    {
        proof {
            use_type_invariant(&*self);
            self.lemma_wf();
        }
        match self.find(key) {
            Ok(i) => {
                assert(self.keys()[i as int] == key@);
                assert(self.view().contains_key(self.keys()[i as int]));
                assert(self.values()[i as int] == self.entries@[i as int].1@);
                Some(&self.entries[i].1)
            },
            Err(p) => {
                proof {
                    if self.view().contains_key(key@) {
                        let i = choose|i: int| 0 <= i < self.keys().len() && self.keys()[i] == key@;
                        assert(self.entries@[i].0@ == key@);
                        lemma_key_lt_irreflexive(key@);
                    }
                }
                None
            },
        }
    }

    /// Stores `value` under `key`, replacing and returning the value that
    /// was there.
    pub fn insert(&mut self, key: String, value: V) -> (r: Option<V>)
        ensures
            final(self).view() == old(self).view().insert(key@, value@),
            match r {
                Some(v) => old(self).view().contains_key(key@) && v@ == old(self).view()[key@],
                None => !old(self).view().contains_key(key@),
            },
    {
        proof {
            use_type_invariant(&*self);
            self.lemma_wf();
        }
        let ghost k = key@;
        let ghost vv = value@;
        let ghost s0 = self.entries@;
        let found = self.find(key.as_str());
        let mut entries: Vec<(String, V)> = Vec::new();
        std::mem::swap(&mut entries, &mut self.entries);
        match found {
            Ok(i) => {
                let (_, old_value) = entries.remove(i);
                entries.insert(i, (key, value));
                let ghost s1 = entries@;
                assert(s1 =~= s0.update(i as int, s1[i as int]));
                assert(keys_sorted(s1)) by {
                    assert forall|a: int, b: int| 0 <= a < b < s1.len() implies key_lt(
                        #[trigger] s1[a].0@,
                        #[trigger] s1[b].0@,
                    ) by {
                        assert(s0[a].0@ == s1[a].0@ || a == i);
                        assert(key_lt(s0[a].0@, s0[b].0@));
                    }
                }
                proof {
                    lemma_sorted_unique(s0);
                    lemma_map_of(s0);
                    lemma_map_of(s1);
                    assert(old(self).keys()[i as int] == k);
                    assert(map_of(s1) =~= map_of(s0).insert(k, vv)) by {
                        assert forall|q: Seq<char>| #[trigger] map_of(s1).contains_key(q) implies map_of(
                            s0,
                        ).insert(k, vv).contains_key(q) by {
                            let j = choose|j: int| 0 <= j < s1.len() && s1[j].0@ == q;
                            if j != i {
                                assert(s1[j] == s0[j]);
                            }
                        }
                        assert forall|q: Seq<char>| #[trigger] map_of(s0).insert(k, vv).contains_key(q)
                            implies map_of(s1).contains_key(q) && map_of(s1)[q] == map_of(s0).insert(
                            k,
                            vv,
                        )[q] by {
                            if q != k {
                                let j = choose|j: int| 0 <= j < s0.len() && s0[j].0@ == q;
                                assert(s1[j] == s0[j]);
                            } else {
                                assert(s1[i as int].0@ == k);
                            }
                        }
                    }
                }
                self.entries = entries;
                Some(old_value)
            },
            Err(p) => {
                entries.insert(p, (key, value));
                let ghost s1 = entries@;
                assert(s1 =~= s0.subrange(0, p as int).push((s1[p as int])) + s0.subrange(
                    p as int,
                    s0.len() as int,
                ));
                assert(keys_sorted(s1)) by {
                    assert forall|a: int, b: int| 0 <= a < b < s1.len() implies key_lt(
                        #[trigger] s1[a].0@,
                        #[trigger] s1[b].0@,
                    ) by {
                        if a < p && b < p {
                            assert(s1[a] == s0[a] && s1[b] == s0[b]);
                        } else if a < p && b == p {
                            assert(s1[a] == s0[a]);
                        } else if a < p {
                            assert(s1[a] == s0[a] && s1[b] == s0[b - 1]);
                            assert(key_lt(s0[a].0@, k));
                            lemma_key_lt_transitive(s0[a].0@, k, s0[b - 1].0@);
                        } else if a == p {
                            assert(s1[b] == s0[b - 1]);
                        } else {
                            assert(s1[a] == s0[a - 1] && s1[b] == s0[b - 1]);
                        }
                    }
                }
                proof {
                    lemma_sorted_unique(s0);
                    lemma_sorted_unique(s1);
                    lemma_map_of(s0);
                    lemma_map_of(s1);
                    if map_of(s0).contains_key(k) {
                        let j = choose|j: int| 0 <= j < s0.len() && s0[j].0@ == k;
                        lemma_key_lt_irreflexive(k);
                    }
                    assert(map_of(s1) =~= map_of(s0).insert(k, vv)) by {
                        assert forall|q: Seq<char>| #[trigger] map_of(s1).contains_key(q) implies map_of(
                            s0,
                        ).insert(k, vv).contains_key(q) by {
                            let j = choose|j: int| 0 <= j < s1.len() && s1[j].0@ == q;
                            if j < p {
                                assert(s1[j] == s0[j]);
                            } else if j > p {
                                assert(s1[j] == s0[j - 1]);
                            }
                        }
                        assert forall|q: Seq<char>| #[trigger] map_of(s0).insert(k, vv).contains_key(q)
                            implies map_of(s1).contains_key(q) && map_of(s1)[q] == map_of(s0).insert(
                            k,
                            vv,
                        )[q] by {
                            if q != k {
                                let j = choose|j: int| 0 <= j < s0.len() && s0[j].0@ == q;
                                assert(map_of(s0).contains_key(s0[j].0@));
                                if j < p {
                                    assert(s1[j] == s0[j]);
                                    assert(map_of(s1).contains_key(s1[j].0@));
                                } else {
                                    assert(s1[j + 1] == s0[j]);
                                    assert(map_of(s1).contains_key(s1[j + 1].0@));
                                }
                            } else {
                                assert(s1[p as int].0@ == k);
                                assert(map_of(s1).contains_key(s1[p as int].0@));
                            }
                        }
                    }
                }
                self.entries = entries;
                None
            },
        }
    }

    /// Removes the entry for `key`, returning its value.
    pub fn remove(&mut self, key: &str) -> (r: Option<V>)
        ensures
            final(self).view() == old(self).view().remove(key@),
            match r {
                Some(v) => old(self).view().contains_key(key@) && v@ == old(self).view()[key@],
                None => !old(self).view().contains_key(key@),
            },
    {
        proof {
            use_type_invariant(&*self);
            self.lemma_wf();
        }
        let ghost k = key@;
        let ghost s0 = self.entries@;
        match self.find(key) {
            Ok(i) => {
                let mut entries: Vec<(String, V)> = Vec::new();
                std::mem::swap(&mut entries, &mut self.entries);
                let (_, old_value) = entries.remove(i);
                let ghost s1 = entries@;
                assert(s1 =~= s0.remove(i as int));
                assert(keys_sorted(s1)) by {
                    assert forall|a: int, b: int| 0 <= a < b < s1.len() implies key_lt(
                        #[trigger] s1[a].0@,
                        #[trigger] s1[b].0@,
                    ) by {
                        if b < i {
                            assert(s1[a] == s0[a] && s1[b] == s0[b]);
                        } else if a < i {
                            assert(s1[a] == s0[a] && s1[b] == s0[b + 1]);
                        } else {
                            assert(s1[a] == s0[a + 1] && s1[b] == s0[b + 1]);
                        }
                    }
                }
                proof {
                    lemma_sorted_unique(s0);
                    lemma_sorted_unique(s1);
                    lemma_map_of(s0);
                    lemma_map_of(s1);
                    assert(old(self).keys()[i as int] == k);
                    assert(map_of(s1) =~= map_of(s0).remove(k)) by {
                        assert forall|q: Seq<char>| #[trigger] map_of(s1).contains_key(q) implies map_of(
                            s0,
                        ).remove(k).contains_key(q) && map_of(s1)[q] == map_of(s0)[q] by {
                            let j = choose|j: int| 0 <= j < s1.len() && s1[j].0@ == q;
                            assert(map_of(s1).contains_key(s1[j].0@));
                            if j < i {
                                assert(s1[j] == s0[j]);
                                assert(s0[j].0@ != s0[i as int].0@);
                                assert(map_of(s0).contains_key(s0[j].0@));
                            } else {
                                assert(s1[j] == s0[j + 1]);
                                assert(s0[j + 1].0@ != s0[i as int].0@);
                                assert(map_of(s0).contains_key(s0[j + 1].0@));
                            }
                        }
                        assert forall|q: Seq<char>| #[trigger] map_of(s0).remove(k).contains_key(q)
                            implies map_of(s1).contains_key(q) by {
                            let j = choose|j: int| 0 <= j < s0.len() && s0[j].0@ == q;
                            if j < i {
                                assert(s1[j] == s0[j]);
                                assert(map_of(s1).contains_key(s1[j].0@));
                            } else {
                                assert(j != i);
                                assert(s1[j - 1] == s0[j]);
                                assert(map_of(s1).contains_key(s1[j - 1].0@));
                            }
                        }
                    }
                }
                self.entries = entries;
                Some(old_value)
            },
            Err(p) => {
                proof {
                    lemma_sorted_unique(s0);
                    lemma_map_of(s0);
                    if map_of(s0).contains_key(k) {
                        let j = choose|j: int| 0 <= j < s0.len() && s0[j].0@ == k;
                        lemma_key_lt_irreflexive(k);
                    }
                    assert(map_of(s0) =~= map_of(s0).remove(k));
                }
                None
            },
        }
    }
}

} // verus!

verus! {

impl Clone for Table<String> {
    fn clone(&self) -> (t: Self)
        ensures
            t.view() == self.view(),
            t.keys() == self.keys(),
            t.values() == self.values(),
    {
        self.copy()
    }
}

impl Table<String> {
    /// A copy of this table.
    pub fn copy(&self) -> (t: Self)
        ensures
            t.view() == self.view(),
            t.keys() == self.keys(),
            t.values() == self.values(),
    {
        proof {
            use_type_invariant(self);
        }
        let mut entries: Vec<(String, String)> = Vec::new();
        let n = self.entries.len();
        let mut i: usize = 0;
        while i < n
            invariant
                n == self.entries@.len(),
                i <= n,
                entries@.len() == i,
                forall|j: int| 0 <= j < i ==> (#[trigger] entries@[j]).0@ == self.entries@[j].0@
                    && entries@[j].1@ == self.entries@[j].1@,
            decreases n - i,
        {
            let e = &self.entries[i];
            entries.push((e.0.clone(), e.1.clone()));
            i += 1;
        }
        let t = Table { entries };
        assert(t.keys() =~= self.keys());
        assert(t.values() =~= self.values());
        assert(keys_sorted(t.entries@)) by {
            assert forall|a: int, b: int| 0 <= a < b < t.entries@.len() implies key_lt(
                #[trigger] t.entries@[a].0@,
                #[trigger] t.entries@[b].0@,
            ) by {
                assert(key_lt(self.entries@[a].0@, self.entries@[b].0@));
            }
        }
        proof {
            lemma_same_map(t.entries@, self.entries@);
        }
        t
    }
}

/// Two entry sequences with the same keys and values denote the same map.
proof fn lemma_same_map<V: View>(s: Seq<(String, V)>, t: Seq<(String, V)>)
    requires
        s.len() == t.len(),
        forall|j: int| 0 <= j < s.len() ==> (#[trigger] s[j]).0@ == t[j].0@ && s[j].1@ == t[j].1@,
    ensures
        map_of(s) == map_of(t),
    decreases s.len(),
{
    if s.len() > 0 {
        lemma_same_map(s.drop_last(), t.drop_last());
    }
}

} // verus!
