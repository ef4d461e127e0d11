use vstd::prelude::*;

use crate::text::str_eq;

verus! {

/// The keys of a sequence of pairs are pairwise distinct.
pub open spec fn keys_distinct<V>(ps: Seq<(Seq<char>, V)>) -> bool {
    forall|i: int, j: int|
        0 <= i < ps.len() && 0 <= j < ps.len() && i != j ==> #[trigger] ps[i].0 != #[trigger] ps[j].0
}

/// Whether some pair of `ps` has the key `k`.
pub open spec fn has_key<V>(ps: Seq<(Seq<char>, V)>, k: Seq<char>) -> bool {
    exists|i: int| 0 <= i < ps.len() && #[trigger] ps[i].0 == k
}

/// The finite map that a sequence of pairs with distinct keys stands for.
pub open spec fn pairs_to_map<V>(ps: Seq<(Seq<char>, V)>) -> Map<Seq<char>, V> {
    Map::new(
        |k: Seq<char>| has_key(ps, k),
        |k: Seq<char>| ps[choose|i: int| 0 <= i < ps.len() && #[trigger] ps[i].0 == k].1,
    )
}

/// The keys of a sequence of pairs, in order.
pub open spec fn pair_keys<V>(ps: Seq<(Seq<char>, V)>) -> Seq<Seq<char>> {
    ps.map_values(|p: (Seq<char>, V)| p.0)
}

/// Looking a key up in the map of distinct-keyed pairs finds the pair that holds it.
pub proof fn lemma_pairs_to_map_index<V>(ps: Seq<(Seq<char>, V)>, i: int)
    requires
        keys_distinct(ps),
        0 <= i < ps.len(),
    ensures
        pairs_to_map(ps).contains_key(ps[i].0),
        pairs_to_map(ps)[ps[i].0] == ps[i].1,
{
    let k = ps[i].0;
    assert(has_key(ps, k));
    let j = choose|j: int| 0 <= j < ps.len() && #[trigger] ps[j].0 == k;
    assert(j == i);
}

/// Every key of the map comes from some pair.
pub proof fn lemma_pairs_to_map_all<V>(ps: Seq<(Seq<char>, V)>)
    requires
        keys_distinct(ps),
    ensures
        forall|i: int| 0 <= i < ps.len() ==> #[trigger] pairs_to_map(ps).contains_key(ps[i].0)
            && pairs_to_map(ps)[ps[i].0] == ps[i].1,
{
    assert forall|i: int| 0 <= i < ps.len() implies #[trigger] pairs_to_map(ps).contains_key(
        ps[i].0,
    ) && pairs_to_map(ps)[ps[i].0] == ps[i].1 by {
        lemma_pairs_to_map_index(ps, i);
    }
}

/// Appending a pair with a new key adds that key to the map.
pub proof fn lemma_pairs_push<V>(ps: Seq<(Seq<char>, V)>, k: Seq<char>, v: V)
    requires
        keys_distinct(ps),
        !has_key(ps, k),
    ensures
        keys_distinct(ps.push((k, v))),
        pairs_to_map(ps.push((k, v))) =~= pairs_to_map(ps).insert(k, v),
{
    let qs = ps.push((k, v));
    assert(keys_distinct(qs));
    lemma_pairs_to_map_all(ps);
    lemma_pairs_to_map_all(qs);
    assert forall|key: Seq<char>| #[trigger]
        pairs_to_map(qs).contains_key(key) implies pairs_to_map(ps).insert(k, v).contains_key(
        key,
    ) by {
        let j = choose|j: int| 0 <= j < qs.len() && #[trigger] qs[j].0 == key;
        if j < ps.len() {
            assert(ps[j].0 == key);
        }
    }
    assert forall|key: Seq<char>| #[trigger]
        pairs_to_map(ps).insert(k, v).contains_key(key) implies pairs_to_map(qs).contains_key(
        key,
    ) && pairs_to_map(qs)[key] == pairs_to_map(ps).insert(k, v)[key] by {
        if key == k {
            assert(qs[ps.len() as int].0 == k);
        } else {
            let j = choose|j: int| 0 <= j < ps.len() && #[trigger] ps[j].0 == key;
            assert(qs[j].0 == key);
        }
    }
}

/// Replacing the value of the pair at `i` changes only that key's value.
pub proof fn lemma_pairs_update<V>(ps: Seq<(Seq<char>, V)>, i: int, v: V)
    requires
        keys_distinct(ps),
        0 <= i < ps.len(),
    ensures
        keys_distinct(ps.update(i, (ps[i].0, v))),
        pairs_to_map(ps.update(i, (ps[i].0, v))) =~= pairs_to_map(ps).insert(ps[i].0, v),
{
    let k = ps[i].0;
    let qs = ps.update(i, (k, v));
    assert(keys_distinct(qs));
    lemma_pairs_to_map_all(ps);
    lemma_pairs_to_map_all(qs);
    assert forall|key: Seq<char>| #[trigger]
        pairs_to_map(qs).contains_key(key) implies pairs_to_map(ps).insert(k, v).contains_key(
        key,
    ) by {
        let j = choose|j: int| 0 <= j < qs.len() && #[trigger] qs[j].0 == key;
        assert(ps[j].0 == key);
    }
    assert forall|key: Seq<char>| #[trigger]
        pairs_to_map(ps).insert(k, v).contains_key(key) implies pairs_to_map(qs).contains_key(
        key,
    ) && pairs_to_map(qs)[key] == pairs_to_map(ps).insert(k, v)[key] by {
        if key == k {
            assert(qs[i].0 == k);
        } else {
            let j = choose|j: int| 0 <= j < ps.len() && #[trigger] ps[j].0 == key;
            assert(qs[j].0 == key);
        }
    }
}

/// Removing the pair at `i` removes its key from the map.
pub proof fn lemma_pairs_remove<V>(ps: Seq<(Seq<char>, V)>, i: int)
    requires
        keys_distinct(ps),
        0 <= i < ps.len(),
    ensures
        keys_distinct(ps.remove(i)),
        pairs_to_map(ps.remove(i)) =~= pairs_to_map(ps).remove(ps[i].0),
{
    let k = ps[i].0;
    let qs = ps.remove(i);
    assert forall|a: int, b: int|
        0 <= a < qs.len() && 0 <= b < qs.len() && a != b implies #[trigger] qs[a].0
        != #[trigger] qs[b].0 by {
        let a2 = if a < i { a } else { a + 1 };
        let b2 = if b < i { b } else { b + 1 };
        assert(qs[a] == ps[a2]);
        assert(qs[b] == ps[b2]);
    }
    lemma_pairs_to_map_all(ps);
    lemma_pairs_to_map_all(qs);
    assert forall|key: Seq<char>| #[trigger]
        pairs_to_map(qs).contains_key(key) implies pairs_to_map(ps).remove(k).contains_key(key)
        && pairs_to_map(qs)[key] == pairs_to_map(ps).remove(k)[key] by {
        let j = choose|j: int| 0 <= j < qs.len() && #[trigger] qs[j].0 == key;
        let j2 = if j < i { j } else { j + 1 };
        assert(qs[j] == ps[j2]);
        assert(j2 != i);
    }
    assert forall|key: Seq<char>| #[trigger]
        pairs_to_map(ps).remove(k).contains_key(key) implies pairs_to_map(qs).contains_key(key) by {
        let j = choose|j: int| 0 <= j < ps.len() && #[trigger] ps[j].0 == key;
        assert(j != i);
        let j2 = if j < i { j } else { j - 1 };
        assert(qs[j2] == ps[j]);
    }
}

/// Shared extended properties of an event: a map from property key to value, with
/// each key at most once, kept in the order in which keys were first added.
#[derive(Debug)]
pub struct PropertyMap {
    entries: Vec<(String, String)>,
}

impl PropertyMap {
    /// The key/value pairs, in order, as character sequences.
    pub closed spec fn pairs(self) -> Seq<(Seq<char>, Seq<char>)> {
        self.entries@.map_values(|p: (String, String)| (p.0@, p.1@))
    }

    #[verifier::type_invariant]
    spec fn inv(self) -> bool {
        keys_distinct(self.pairs())
    }

    /// The keys of the map, in order.
    pub open spec fn key_seq(self) -> Seq<Seq<char>> {
        pair_keys(self.pairs())
    }

    /// An empty map.
    pub fn new() -> (r: Self)
        ensures
            r.pairs().len() == 0,
            r@ == Map::<Seq<char>, Seq<char>>::empty(),
    {
        let r = PropertyMap { entries: Vec::new() };
        assert(r.pairs() =~= Seq::<(Seq<char>, Seq<char>)>::empty());
        assert(pairs_to_map(r.pairs()) =~= Map::<Seq<char>, Seq<char>>::empty());
        r
    }

    /// The number of properties.
    pub fn len(&self) -> (r: usize)
        ensures
            r == self.pairs().len(),
            r == self@.len(),
    {
        proof {
            use_type_invariant(self);
            lemma_map_len(self.pairs());
        }
        self.entries.len()
    }

    /// Whether the map holds no property.
    pub fn is_empty(&self) -> (r: bool)
        ensures
            r == (self@.len() == 0),
            r == (self@ == Map::<Seq<char>, Seq<char>>::empty()),
    {
        proof {
            use_type_invariant(self);
            lemma_map_len(self.pairs());
            if self.pairs().len() > 0 {
                lemma_pairs_to_map_index(self.pairs(), 0);
            } else {
                assert(pairs_to_map(self.pairs()) =~= Map::<Seq<char>, Seq<char>>::empty());
            }
        }
        self.entries.len() == 0
    }

    fn find(&self, key: &str) -> (r: Option<usize>)
        ensures
            match r {
                Some(i) => i < self.pairs().len() && self.pairs()[i as int].0 == key@,
                None => !has_key(self.pairs(), key@),
            },
    {
        let n = self.entries.len();
        let mut i: usize = 0;
        while i < n
            invariant
                n == self.entries.len(),
                i <= n,
                forall|j: int| 0 <= j < i ==> self.pairs()[j].0 != key@,
            decreases n - i,
        {
            if str_eq(self.entries[i].0.as_str(), key) {
                return Some(i);
            }
            i = i + 1;
        }
        None
    }

    /// The value of `key`, if the map has it.
    pub fn get(&self, key: &str) -> (r: Option<&String>)
        ensures
            match r {
                Some(v) => self@.contains_key(key@) && v@ == self@[key@],
                None => !self@.contains_key(key@),
            },
    {
        proof {
            use_type_invariant(self);
        }
        match self.find(key) {
            Some(i) => {
                proof {
                    lemma_pairs_to_map_index(self.pairs(), i as int);
                }
                Some(&self.entries[i].1)
            },
            None => None,
        }
    }

    /// Whether the map has `key`.
    pub fn contains_key(&self, key: &str) -> (r: bool)
        ensures
            r == self@.contains_key(key@),
    {
        proof {
            use_type_invariant(self);
        }
        self.find(key).is_some()
    }

    /// Sets `key` to `value`; a key already present keeps its place, a new one comes last.
    pub fn insert(&mut self, key: String, value: String)
        ensures
            final(self)@ == old(self)@.insert(key@, value@),
            old(self)@.contains_key(key@) ==> final(self).key_seq() == old(self).key_seq(),
            !old(self)@.contains_key(key@) ==> final(self).key_seq() == old(self).key_seq().push(key@),
    {
        proof {
            use_type_invariant(&*self);
        }
        let ghost kv = key@;
        let ghost vv = value@;
        let ghost old_pairs = self.pairs();
        let found = self.find(key.as_str());
        let mut entries: Vec<(String, String)> = Vec::new();
        std::mem::swap(&mut entries, &mut self.entries);
        match found {
            Some(i) => {
                entries.set(i, (key, value));
                let ghost new_pairs = entries@.map_values(|p: (String, String)| (p.0@, p.1@));
                proof {
                    assert(new_pairs =~= old_pairs.update(i as int, (old_pairs[i as int].0, vv)));
                    lemma_pairs_update(old_pairs, i as int, vv);
                    lemma_pairs_to_map_index(old_pairs, i as int);
                    assert(pair_keys(new_pairs) =~= pair_keys(old_pairs));
                }
            },
            None => {
                entries.push((key, value));
                let ghost new_pairs = entries@.map_values(|p: (String, String)| (p.0@, p.1@));
                proof {
                    assert(new_pairs =~= old_pairs.push((kv, vv)));
                    lemma_pairs_push(old_pairs, kv, vv);
                    assert(pair_keys(new_pairs) =~= pair_keys(old_pairs).push(kv));
                }
            },
        }
        self.entries = entries;
    }

    /// Removes `key`, giving back its value if it was present.
    pub fn remove(&mut self, key: &str) -> (r: Option<String>)
        ensures
            final(self)@ == old(self)@.remove(key@),
            match r {
                Some(v) => old(self)@.contains_key(key@) && v@ == old(self)@[key@],
                None => !old(self)@.contains_key(key@),
            },
    {
        proof {
            use_type_invariant(&*self);
        }
        let ghost old_pairs = self.pairs();
        match self.find(key) {
            Some(i) => {
                let mut entries: Vec<(String, String)> = Vec::new();
                std::mem::swap(&mut entries, &mut self.entries);
                let (_k, v) = entries.remove(i);
                let ghost new_pairs = entries@.map_values(|p: (String, String)| (p.0@, p.1@));
                proof {
                    assert(new_pairs =~= old_pairs.remove(i as int));
                    lemma_pairs_remove(old_pairs, i as int);
                    lemma_pairs_to_map_index(old_pairs, i as int);
                }
                self.entries = entries;
                Some(v)
            },
            None => {
                proof {
                    assert(pairs_to_map(old_pairs).remove(key@) =~= pairs_to_map(old_pairs));
                }
                None
            },
        }
    }

    /// The keys, in the map's order.
    pub fn keys(&self) -> (r: Vec<String>)
        ensures
            r@.map_values(|s: String| s@) == self.key_seq(),
            crate::text::distinct_seqs(self.key_seq()),
            forall|x: Seq<char>| #[trigger] self@.contains_key(x) <==> self.key_seq().contains(x),
    {
        proof {
            use_type_invariant(self);
            assert forall|x: Seq<char>| #[trigger] self@.contains_key(x) <==> self.key_seq().contains(x) by {
                if self@.contains_key(x) {
                    let j = choose|j: int| 0 <= j < self.pairs().len() && #[trigger] self.pairs()[j].0 == x;
                    assert(self.key_seq()[j] == x);
                }
                if self.key_seq().contains(x) {
                    let j = choose|j: int| 0 <= j < self.key_seq().len() && self.key_seq()[j] == x;
                    assert(self.pairs()[j].0 == x);
                }
            }
            assert forall|i: int, j: int|
                0 <= i < self.key_seq().len() && 0 <= j < self.key_seq().len() && i != j implies
                #[trigger] self.key_seq()[i] != #[trigger] self.key_seq()[j] by {
                assert(self.key_seq()[i] == self.pairs()[i].0);
                assert(self.key_seq()[j] == self.pairs()[j].0);
            }
        }
        let n = self.entries.len();
        let mut out: Vec<String> = Vec::new();
        let mut i: usize = 0;
        while i < n
            invariant
                n == self.entries.len(),
                i <= n,
                out@.len() == i,
                forall|j: int| 0 <= j < i ==> #[trigger] out@[j]@ == self.pairs()[j].0,
            decreases n - i,
        {
            out.push(self.entries[i].0.clone());
            i = i + 1;
        }
        assert(out@.map_values(|s: String| s@) =~= self.key_seq());
        out
    }

    /// The key/value pairs, in the map's order.
    pub fn to_pairs(&self) -> (r: Vec<(String, String)>)
        ensures
            r@.map_values(|p: (String, String)| (p.0@, p.1@)) == self.pairs(),
            keys_distinct(self.pairs()),
            self@ == pairs_to_map(self.pairs()),
    {
        proof {
            use_type_invariant(self);
        }
        let n = self.entries.len();
        let mut out: Vec<(String, String)> = Vec::new();
        let mut i: usize = 0;
        while i < n
            invariant
                n == self.entries.len(),
                i <= n,
                out@.len() == i,
                forall|j: int| 0 <= j < i ==> (#[trigger] out@[j]).0@ == self.pairs()[j].0 && out@[j].1@ == self.pairs()[j].1,
            decreases n - i,
        {
            out.push((self.entries[i].0.clone(), self.entries[i].1.clone()));
            i = i + 1;
        }
        assert(out@.map_values(|p: (String, String)| (p.0@, p.1@)) =~= self.pairs());
        out
    }

    /// The pair at position `i`.
    pub fn entry_at(&self, i: usize) -> (r: (&String, &String))
        requires
            i < self.pairs().len(),
        ensures
            r.0@ == self.pairs()[i as int].0,
            r.1@ == self.pairs()[i as int].1,
    {
        let e = &self.entries[i];
        (&e.0, &e.1)
    }

    /// A copy of the map with the same pairs in the same order.
    pub fn duplicate(&self) -> (r: Self)
        ensures
            r.pairs() == self.pairs(),
            r@ == self@,
    {
        proof {
            use_type_invariant(self);
        }
        let entries = self.to_pairs();
        PropertyMap { entries }
    }
}


/// A table from a name to a list of strings, each name at most once, kept in the order
/// in which names were first added (the `[properties]` and `[check]` tables of the config).
#[derive(Debug)]
pub struct StringListMap {
    entries: Vec<(String, Vec<String>)>,
}

impl StringListMap {
    /// The key/value pairs, in order, as character sequences.
    pub closed spec fn pairs(self) -> Seq<(Seq<char>, Seq<Seq<char>>)> {
        self.entries@.map_values(|p: (String, Vec<String>)| (p.0@, strings_view(p.1@)))
    }

    #[verifier::type_invariant]
    spec fn inv(self) -> bool {
        keys_distinct(self.pairs())
    }

    /// The keys of the map, in order.
    pub open spec fn key_seq(self) -> Seq<Seq<char>> {
        pair_keys(self.pairs())
    }

    /// An empty map.
    pub fn new() -> (r: Self)
        ensures
            r.pairs().len() == 0,
            r@ == Map::<Seq<char>, Seq<Seq<char>>>::empty(),
    {
        let r = StringListMap { entries: Vec::new() };
        assert(r.pairs() =~= Seq::<(Seq<char>, Seq<Seq<char>>)>::empty());
        assert(pairs_to_map(r.pairs()) =~= Map::<Seq<char>, Seq<Seq<char>>>::empty());
        r
    }

    /// The number of properties.
    pub fn len(&self) -> (r: usize)
        ensures
            r == self.pairs().len(),
            r == self@.len(),
    {
        proof {
            use_type_invariant(self);
            lemma_map_len(self.pairs());
        }
        self.entries.len()
    }

    /// Whether the map holds no property.
    pub fn is_empty(&self) -> (r: bool)
        ensures
            r == (self@.len() == 0),
            r == (self@ == Map::<Seq<char>, Seq<Seq<char>>>::empty()),
    {
        proof {
            use_type_invariant(self);
            lemma_map_len(self.pairs());
            if self.pairs().len() > 0 {
                lemma_pairs_to_map_index(self.pairs(), 0);
            } else {
                assert(pairs_to_map(self.pairs()) =~= Map::<Seq<char>, Seq<Seq<char>>>::empty());
            }
        }
        self.entries.len() == 0
    }

    fn find(&self, key: &str) -> (r: Option<usize>)
        ensures
            match r {
                Some(i) => i < self.pairs().len() && self.pairs()[i as int].0 == key@,
                None => !has_key(self.pairs(), key@),
            },
    {
        let n = self.entries.len();
        let mut i: usize = 0;
        while i < n
            invariant
                n == self.entries.len(),
                i <= n,
                forall|j: int| 0 <= j < i ==> self.pairs()[j].0 != key@,
            decreases n - i,
        {
            if str_eq(self.entries[i].0.as_str(), key) {
                return Some(i);
            }
            i = i + 1;
        }
        None
    }

    /// The value of `key`, if the map has it.
    pub fn get(&self, key: &str) -> (r: Option<&Vec<String>>)
        ensures
            match r {
                Some(v) => self@.contains_key(key@) && strings_view(v@) == self@[key@],
                None => !self@.contains_key(key@),
            },
    {
        proof {
            use_type_invariant(self);
        }
        match self.find(key) {
            Some(i) => {
                proof {
                    lemma_pairs_to_map_index(self.pairs(), i as int);
                }
                Some(&self.entries[i].1)
            },
            None => None,
        }
    }

    /// Whether the map has `key`.
    pub fn contains_key(&self, key: &str) -> (r: bool)
        ensures
            r == self@.contains_key(key@),
    {
        proof {
            use_type_invariant(self);
        }
        self.find(key).is_some()
    }

    /// Sets `key` to `value`; a key already present keeps its place, a new one comes last.
    pub fn insert(&mut self, key: String, value: Vec<String>)
        ensures
            final(self)@ == old(self)@.insert(key@, strings_view(value@)),
            old(self)@.contains_key(key@) ==> final(self).key_seq() == old(self).key_seq(),
            !old(self)@.contains_key(key@) ==> final(self).key_seq() == old(self).key_seq().push(key@),
    {
        proof {
            use_type_invariant(&*self);
        }
        let ghost kv = key@;
        let ghost vv = strings_view(value@);
        let ghost old_pairs = self.pairs();
        let found = self.find(key.as_str());
        let mut entries: Vec<(String, Vec<String>)> = Vec::new();
        std::mem::swap(&mut entries, &mut self.entries);
        match found {
            Some(i) => {
                entries.set(i, (key, value));
                let ghost new_pairs = entries@.map_values(|p: (String, Vec<String>)| (p.0@, strings_view(p.1@)));
                proof {
                    assert(new_pairs =~= old_pairs.update(i as int, (old_pairs[i as int].0, vv)));
                    lemma_pairs_update(old_pairs, i as int, vv);
                    lemma_pairs_to_map_index(old_pairs, i as int);
                    assert(pair_keys(new_pairs) =~= pair_keys(old_pairs));
                }
            },
            None => {
                entries.push((key, value));
                let ghost new_pairs = entries@.map_values(|p: (String, Vec<String>)| (p.0@, strings_view(p.1@)));
                proof {
                    assert(new_pairs =~= old_pairs.push((kv, vv)));
                    lemma_pairs_push(old_pairs, kv, vv);
                    assert(pair_keys(new_pairs) =~= pair_keys(old_pairs).push(kv));
                }
            },
        }
        self.entries = entries;
    }

    /// Removes `key`, giving back its value if it was present.
    pub fn remove(&mut self, key: &str) -> (r: Option<Vec<String>>)
        ensures
            final(self)@ == old(self)@.remove(key@),
            match r {
                Some(v) => old(self)@.contains_key(key@) && strings_view(v@) == old(self)@[key@],
                None => !old(self)@.contains_key(key@),
            },
    {
        proof {
            use_type_invariant(&*self);
        }
        let ghost old_pairs = self.pairs();
        match self.find(key) {
            Some(i) => {
                let mut entries: Vec<(String, Vec<String>)> = Vec::new();
                std::mem::swap(&mut entries, &mut self.entries);
                let (_k, v) = entries.remove(i);
                let ghost new_pairs = entries@.map_values(|p: (String, Vec<String>)| (p.0@, strings_view(p.1@)));
                proof {
                    assert(new_pairs =~= old_pairs.remove(i as int));
                    lemma_pairs_remove(old_pairs, i as int);
                    lemma_pairs_to_map_index(old_pairs, i as int);
                }
                self.entries = entries;
                Some(v)
            },
            None => {
                proof {
                    assert(pairs_to_map(old_pairs).remove(key@) =~= pairs_to_map(old_pairs));
                }
                None
            },
        }
    }

    /// The keys, in the map's order.
    pub fn keys(&self) -> (r: Vec<String>)
        ensures
            r@.map_values(|s: String| s@) == self.key_seq(),
            crate::text::distinct_seqs(self.key_seq()),
            forall|x: Seq<char>| #[trigger] self@.contains_key(x) <==> self.key_seq().contains(x),
    {
        proof {
            use_type_invariant(self);
            assert forall|x: Seq<char>| #[trigger] self@.contains_key(x) <==> self.key_seq().contains(x) by {
                if self@.contains_key(x) {
                    let j = choose|j: int| 0 <= j < self.pairs().len() && #[trigger] self.pairs()[j].0 == x;
                    assert(self.key_seq()[j] == x);
                }
                if self.key_seq().contains(x) {
                    let j = choose|j: int| 0 <= j < self.key_seq().len() && self.key_seq()[j] == x;
                    assert(self.pairs()[j].0 == x);
                }
            }
            assert forall|i: int, j: int|
                0 <= i < self.key_seq().len() && 0 <= j < self.key_seq().len() && i != j implies
                #[trigger] self.key_seq()[i] != #[trigger] self.key_seq()[j] by {
                assert(self.key_seq()[i] == self.pairs()[i].0);
                assert(self.key_seq()[j] == self.pairs()[j].0);
            }
        }
        let n = self.entries.len();
        let mut out: Vec<String> = Vec::new();
        let mut i: usize = 0;
        while i < n
            invariant
                n == self.entries.len(),
                i <= n,
                out@.len() == i,
                forall|j: int| 0 <= j < i ==> #[trigger] out@[j]@ == self.pairs()[j].0,
            decreases n - i,
        {
            out.push(self.entries[i].0.clone());
            i = i + 1;
        }
        assert(out@.map_values(|s: String| s@) =~= self.key_seq());
        out
    }

    /// The key/value pairs, in the map's order.
    pub fn to_pairs(&self) -> (r: Vec<(String, Vec<String>)>)
        ensures
            r@.map_values(|p: (String, Vec<String>)| (p.0@, strings_view(p.1@))) == self.pairs(),
    {
        let n = self.entries.len();
        let mut out: Vec<(String, Vec<String>)> = Vec::new();
        let mut i: usize = 0;
        while i < n
            invariant
                n == self.entries.len(),
                i <= n,
                out@.len() == i,
                forall|j: int| 0 <= j < i ==> (#[trigger] out@[j]).0@ == self.pairs()[j].0 && strings_view(out@[j].1@) == self.pairs()[j].1,
            decreases n - i,
        {
            out.push((self.entries[i].0.clone(), clone_strings(&self.entries[i].1)));
            i = i + 1;
        }
        assert(out@.map_values(|p: (String, Vec<String>)| (p.0@, strings_view(p.1@))) =~= self.pairs());
        out
    }

    /// The pair at position `i`.
    pub fn entry_at(&self, i: usize) -> (r: (&String, &Vec<String>))
        requires
            i < self.pairs().len(),
        ensures
            r.0@ == self.pairs()[i as int].0,
            strings_view(r.1@) == self.pairs()[i as int].1,
    {
        let e = &self.entries[i];
        (&e.0, &e.1)
    }

    /// A copy of the map with the same pairs in the same order.
    pub fn duplicate(&self) -> (r: Self)
        ensures
            r.pairs() == self.pairs(),
            r@ == self@,
    {
        proof {
            use_type_invariant(self);
        }
        let entries = self.to_pairs();
        StringListMap { entries }
    }
}

impl View for StringListMap {
    type V = Map<Seq<char>, Seq<Seq<char>>>;

    closed spec fn view(&self) -> Map<Seq<char>, Seq<Seq<char>>> {
        pairs_to_map(self.pairs())
    }
}

/// The character sequences of a list of strings.
pub open spec fn strings_view(v: Seq<String>) -> Seq<Seq<char>> {
    v.map_values(|s: String| s@)
}

/// A copy of a list of strings.
pub fn clone_strings(v: &Vec<String>) -> (r: Vec<String>)
    ensures
        strings_view(r@) == strings_view(v@),
{
    let n = v.len();
    let mut out: Vec<String> = Vec::new();
    let mut i: usize = 0;
    while i < n
        invariant
            n == v.len(),
            i <= n,
            out@.len() == i,
            forall|j: int| 0 <= j < i ==> #[trigger] out@[j]@ == v@[j]@,
        decreases n - i,
    {
        out.push(v[i].clone());
        i = i + 1;
    }
    assert(strings_view(out@) =~= strings_view(v@));
    out
}

impl View for PropertyMap {
    type V = Map<Seq<char>, Seq<char>>;

    closed spec fn view(&self) -> Map<Seq<char>, Seq<char>> {
        pairs_to_map(self.pairs())
    }
}

/// A map built from distinct-keyed pairs has one entry per pair.
pub proof fn lemma_map_len<V>(ps: Seq<(Seq<char>, V)>)
    requires
        keys_distinct(ps),
    ensures
        pairs_to_map(ps).dom().finite(),
        pairs_to_map(ps).len() == ps.len(),
    decreases ps.len(),
{
    if ps.len() == 0 {
        assert(pairs_to_map(ps).dom() =~= Set::<Seq<char>>::empty());
    } else {
        let qs = ps.drop_last();
        let last = ps.last();
        assert(keys_distinct(qs));
        assert(!has_key(qs, last.0)) by {
            if has_key(qs, last.0) {
                let j = choose|j: int| 0 <= j < qs.len() && #[trigger] qs[j].0 == last.0;
                assert(ps[j].0 == ps[ps.len() - 1].0);
            }
        }
        lemma_map_len(qs);
        lemma_pairs_push(qs, last.0, last.1);
        assert(qs.push((last.0, last.1)) =~= ps);
    }
}

} // verus!

verus! {

/// A property map holds exactly the keys of its key sequence.
pub proof fn lemma_key_seq_is_domain(m: PropertyMap)
    ensures
        forall|k: Seq<char>| #[trigger] m@.contains_key(k) <==> m.key_seq().contains(k),
{
    assert forall|k: Seq<char>| #[trigger] m@.contains_key(k) <==> m.key_seq().contains(k) by {
        if m@.contains_key(k) {
            let i = choose|i: int| 0 <= i < m.pairs().len() && #[trigger] m.pairs()[i].0 == k;
            assert(m.key_seq()[i] == k);
        }
        if m.key_seq().contains(k) {
            let i = choose|i: int| 0 <= i < m.key_seq().len() && m.key_seq()[i] == k;
            assert(m.pairs()[i].0 == k);
        }
    }
}

/// A table of string lists holds exactly the keys of its pairs.
pub proof fn lemma_string_list_domain(m: StringListMap)
    ensures
        forall|k: Seq<char>| #[trigger] m@.contains_key(k) <==> has_key(m.pairs(), k),
{
}

} // verus!
