//! A map keyed by strings, kept as a list of entries with distinct keys.
//!
//! Entries keep the order in which their keys were first inserted; a later
//! insert under an existing key replaces the value in place.
use vstd::prelude::*;

use crate::text::str_equal;

verus! {

/// The map that a list of key-value pairs stands for (a later pair wins).
pub open spec fn pairs_map<K, V>(s: Seq<(K, V)>) -> Map<K, V>
    decreases s.len(),
{
    if s.len() == 0 {
        Map::empty()
    } else {
        pairs_map(s.drop_last()).insert(s.last().0, s.last().1)
    }
}

/// No two pairs share a key.
pub open spec fn distinct_keys<K, V>(s: Seq<(K, V)>) -> bool {
    forall|i: int, j: int|
        0 <= i < s.len() && 0 <= j < s.len() && i != j ==> #[trigger] s[i].0 != #[trigger] s[j].0
}

proof fn lemma_distinct_prefix<K, V>(s: Seq<(K, V)>)
    requires
        s.len() > 0,
        distinct_keys(s),
    ensures
        distinct_keys(s.drop_last()),
{
    let t = s.drop_last();
    assert forall|a: int, b: int| 0 <= a < t.len() && 0 <= b < t.len() && a != b implies #[trigger] t[a].0
        != #[trigger] t[b].0 by {
        assert(t[a] == s[a] && t[b] == s[b]);
    }
}

/// A key is in the map exactly when some pair has it.
pub proof fn lemma_pairs_map_dom<K, V>(s: Seq<(K, V)>, k: K)
    ensures
        pairs_map(s).contains_key(k) <==> exists|i: int| 0 <= i < s.len() && #[trigger] s[i].0 == k,
    decreases s.len(),
{
    if s.len() > 0 {
        let t = s.drop_last();
        lemma_pairs_map_dom(t, k);
        if pairs_map(s).contains_key(k) && k != s.last().0 {
            let i = choose|i: int| 0 <= i < t.len() && #[trigger] t[i].0 == k;
            assert(s[i].0 == k);
        }
        if exists|i: int| 0 <= i < s.len() && #[trigger] s[i].0 == k {
            let i = choose|i: int| 0 <= i < s.len() && #[trigger] s[i].0 == k;
            if i < t.len() {
                assert(t[i].0 == k);
            }
        }
    }
}

/// With distinct keys, each pair is what the map holds for its key.
pub proof fn lemma_pairs_map_lookup<K, V>(s: Seq<(K, V)>, i: int)
    requires
        distinct_keys(s),
        0 <= i < s.len(),
    ensures
        pairs_map(s).contains_key(s[i].0),
        pairs_map(s)[s[i].0] == s[i].1,
    decreases s.len(),
{
    if i < s.len() - 1 {
        let t = s.drop_last();
        lemma_distinct_prefix(s);
        lemma_pairs_map_lookup(t, i);
        assert(t[i] == s[i]);
        assert(s[s.len() - 1].0 != s[i].0);
    }
}

/// With distinct keys, the map has one key per pair.
pub proof fn lemma_pairs_map_len<K, V>(s: Seq<(K, V)>)
    requires
        distinct_keys(s),
    ensures
        pairs_map(s).len() == s.len(),
        pairs_map(s).dom().finite(),
    decreases s.len(),
{
    if s.len() > 0 {
        let t = s.drop_last();
        lemma_distinct_prefix(s);
        lemma_pairs_map_len(t);
        lemma_pairs_map_dom(t, s.last().0);
        assert(!pairs_map(t).contains_key(s.last().0)) by {
            if pairs_map(t).contains_key(s.last().0) {
                let i = choose|i: int| 0 <= i < t.len() && #[trigger] t[i].0 == s.last().0;
                assert(s[i].0 == s[s.len() - 1].0);
            }
        }
    }
}

/// Replacing the pair of a key updates that key of the map.
pub proof fn lemma_pairs_map_update<K, V>(s: Seq<(K, V)>, j: int, e: (K, V))
    requires
        0 <= j < s.len(),
        distinct_keys(s),
        s[j].0 == e.0,
    ensures
        pairs_map(s.update(j, e)) == pairs_map(s).insert(e.0, e.1),
        distinct_keys(s.update(j, e)),
    decreases s.len(),
{
    let u = s.update(j, e);
    assert forall|a: int, b: int| 0 <= a < u.len() && 0 <= b < u.len() && a != b implies #[trigger] u[a].0
        != #[trigger] u[b].0 by {
        assert(u[a].0 == s[a].0 && u[b].0 == s[b].0);
    }
    if j == s.len() - 1 {
        assert(u.drop_last() =~= s.drop_last());
        assert(pairs_map(u) =~= pairs_map(s).insert(e.0, e.1));
    } else {
        let t = s.drop_last();
        lemma_distinct_prefix(s);
        lemma_pairs_map_update(t, j, e);
        assert(u.drop_last() =~= t.update(j, e));
        assert(s.last().0 != e.0) by {
            assert(s[s.len() - 1].0 != s[j].0);
        }
        assert(pairs_map(u) =~= pairs_map(s).insert(e.0, e.1));
    }
}

/// Appending a pair with a new key inserts that key into the map.
pub proof fn lemma_pairs_map_push<K, V>(s: Seq<(K, V)>, e: (K, V))
    requires
        distinct_keys(s),
        forall|i: int| 0 <= i < s.len() ==> #[trigger] s[i].0 != e.0,
    ensures
        pairs_map(s.push(e)) == pairs_map(s).insert(e.0, e.1),
        distinct_keys(s.push(e)),
{
    let u = s.push(e);
    assert(u.drop_last() =~= s);
    assert forall|a: int, b: int| 0 <= a < u.len() && 0 <= b < u.len() && a != b implies #[trigger] u[a].0
        != #[trigger] u[b].0 by {
        if a < s.len() && b < s.len() {
            assert(u[a] == s[a] && u[b] == s[b]);
        } else if a < s.len() {
            assert(u[a] == s[a]);
        } else {
            assert(u[b] == s[b]);
        }
    }
}

/// Dropping the pair of a key removes that key from the map.
pub proof fn lemma_pairs_map_remove<K, V>(s: Seq<(K, V)>, j: int)
    requires
        0 <= j < s.len(),
        distinct_keys(s),
    ensures
        pairs_map(s.remove(j)) == pairs_map(s).remove(s[j].0),
        distinct_keys(s.remove(j)),
    decreases s.len(),
{
    let u = s.remove(j);
    assert forall|a: int, b: int| 0 <= a < u.len() && 0 <= b < u.len() && a != b implies #[trigger] u[a].0
        != #[trigger] u[b].0 by {
        let a2 = if a < j { a } else { a + 1 };
        let b2 = if b < j { b } else { b + 1 };
        assert(u[a] == s[a2] && u[b] == s[b2]);
    }
    let t = s.drop_last();
    if j == s.len() - 1 {
        assert(u =~= t);
        lemma_pairs_map_dom(t, s[j].0);
        assert(!pairs_map(t).contains_key(s[j].0)) by {
            if pairs_map(t).contains_key(s[j].0) {
                let i = choose|i: int| 0 <= i < t.len() && #[trigger] t[i].0 == s[j].0;
                assert(s[i].0 == s[j].0);
            }
        }
        assert(pairs_map(u) =~= pairs_map(s).remove(s[j].0));
    } else {
        lemma_distinct_prefix(s);
        lemma_pairs_map_remove(t, j);
        assert(u.drop_last() =~= t.remove(j));
        assert(u.last() == s.last());
        assert(s.last().0 != s[j].0) by {
            assert(s[s.len() - 1].0 != s[j].0);
        }
        assert(t[j] == s[j]);
        assert(pairs_map(u) =~= pairs_map(s).remove(s[j].0));
    }
}

/// A list of string-keyed entries with distinct keys.
#[derive(Debug)]
pub struct StringMap<V> {
    entries: Vec<(String, V)>,
}

/// The entries with their keys taken as character sequences.
pub open spec fn key_views<V>(e: Seq<(String, V)>) -> Seq<(Seq<char>, V)> {
    e.map_values(|p: (String, V)| (p.0@, p.1))
}

impl<V> View for StringMap<V> {
    type V = Map<Seq<char>, V>;

    open spec fn view(&self) -> Map<Seq<char>, V> {
        pairs_map(self.pairs())
    }
}

impl<V> StringMap<V> {
    /// The entries, in order.
    pub closed spec fn pairs(&self) -> Seq<(Seq<char>, V)> {
        key_views(self.entries@)
    }

    /// The keys are distinct.
    #[verifier::type_invariant]
    closed spec fn wf(self) -> bool {
        distinct_keys(key_views(self.entries@))
    }

    /// An empty map.
    pub fn new() -> (m: Self)
        ensures
            m.pairs() == Seq::<(Seq<char>, V)>::empty(),
            m@ == Map::<Seq<char>, V>::empty(),
            distinct_keys(m.pairs()),
    {
        let m = StringMap { entries: Vec::new() };
        assert(m.pairs() =~= Seq::<(Seq<char>, V)>::empty());
        m
    }

    /// The position of the entry with key `key`, if any.
    fn position(&self, key: &str) -> (r: Option<usize>)
        ensures
            match r {
                Some(j) => j < self.pairs().len() && self.pairs()[j as int].0 == key@,
                None => forall|i: int|
                    0 <= i < self.pairs().len() ==> #[trigger] self.pairs()[i].0 != key@,
            },
    {
        let n = self.entries.len();
        let mut i: usize = 0;
        while i < n
            invariant
                n == self.entries@.len(),
                i <= n,
                forall|k: int| 0 <= k < i ==> #[trigger] self.pairs()[k].0 != key@,
            decreases n - i,
        {
            assert(self.pairs()[i as int].0 == self.entries@[i as int].0@);
            if str_equal(self.entries[i].0.as_str(), key) {
                return Some(i);
            }
            i = i + 1;
        }
        None
    }

    /// The number of entries.
    pub fn len(&self) -> (n: usize)
        ensures
            n == self.pairs().len(),
            n == self@.len(),
    {
        proof {
            use_type_invariant(self);
            lemma_pairs_map_len(self.pairs());
        }
        self.entries.len()
    }

    /// The entries, in order.
    pub fn entries(&self) -> (r: &Vec<(String, V)>)
        ensures
            key_views(r@) == self.pairs(),
            distinct_keys(self.pairs()),
    {
        proof {
            use_type_invariant(self);
        }
        &self.entries
    }

    /// Replaces the value of the entry at position `i`, keeping its key.
    pub fn update_value(&mut self, i: usize, value: V)
        requires
            i < old(self).pairs().len(),
        ensures
            final(self).pairs() == old(self).pairs().update(i as int, (old(self).pairs()[i as int].0, value)),
            distinct_keys(final(self).pairs()),
    {
        proof {
            use_type_invariant(&*self);
        }
        let ghost old_pairs = self.pairs();
        let mut entries = Vec::new();
        std::mem::swap(&mut entries, &mut self.entries);
        assert(key_views(entries@) == old_pairs);
        let key = entries[i].0.clone();
        assert(key@ == old_pairs[i as int].0);
        proof {
            lemma_pairs_map_update(old_pairs, i as int, (key@, value));
        }
        entries.set(i, (key, value));
        assert(key_views(entries@) =~= old_pairs.update(i as int, (old_pairs[i as int].0, value)));
        self.entries = entries;
    }

    /// The value under `key`, if any.
    pub fn get(&self, key: &str) -> (r: Option<&V>)
        ensures
            match r {
                Some(v) => self@.contains_key(key@) && self@[key@] == *v,
                None => !self@.contains_key(key@),
            },
    {
        proof {
            use_type_invariant(self);
        }
        match self.position(key) {
            Some(j) => {
                proof {
                    lemma_pairs_map_lookup(self.pairs(), j as int);
                }
                Some(&self.entries[j].1)
            },
            None => {
                proof {
                    lemma_pairs_map_dom(self.pairs(), key@);
                }
                None
            },
        }
    }

    /// Puts `value` under `key`: in place of the value there, or as a new
    /// last entry.
    pub fn insert(&mut self, key: String, value: V)
        ensures
            final(self)@ == old(self)@.insert(key@, value),
            distinct_keys(old(self).pairs()),
            distinct_keys(final(self).pairs()),
            (exists|j: int|
                0 <= j < old(self).pairs().len() && old(self).pairs()[j].0 == key@ && final(self).pairs()
                    == old(self).pairs().update(j, (key@, value))) || ((forall|i: int|
                0 <= i < old(self).pairs().len() ==> #[trigger] old(self).pairs()[i].0 != key@)
                && final(self).pairs() == old(self).pairs().push((key@, value))),
    {
        proof {
            use_type_invariant(&*self);
        }
        let ghost old_pairs = self.pairs();
        let ghost kv = key@;
        let pos = self.position(key.as_str());
        let mut entries = Vec::new();
        std::mem::swap(&mut entries, &mut self.entries);
        assert(key_views(entries@) == old_pairs);
        match pos {
            Some(j) => {
                proof {
                    lemma_pairs_map_update(old_pairs, j as int, (kv, value));
                }
                entries.set(j, (key, value));
                assert(key_views(entries@) =~= old_pairs.update(j as int, (kv, value)));
            },
            None => {
                proof {
                    lemma_pairs_map_push(old_pairs, (kv, value));
                }
                entries.push((key, value));
                assert(key_views(entries@) =~= old_pairs.push((kv, value)));
            },
        }
        self.entries = entries;
    }

    /// Takes out the value under `key`, if any.
    pub fn remove(&mut self, key: &str) -> (r: Option<V>)
        ensures
            final(self)@ == old(self)@.remove(key@),
            distinct_keys(final(self).pairs()),
            match r {
                Some(v) => old(self)@.contains_key(key@) && old(self)@[key@] == v,
                None => !old(self)@.contains_key(key@),
            },
    {
        proof {
            use_type_invariant(&*self);
        }
        let ghost old_pairs = self.pairs();
        match self.position(key) {
            Some(j) => {
                proof {
                    lemma_pairs_map_remove(old_pairs, j as int);
                    lemma_pairs_map_lookup(old_pairs, j as int);
                }
                let mut entries = Vec::new();
                std::mem::swap(&mut entries, &mut self.entries);
                assert(key_views(entries@) == old_pairs);
                let (_k, v) = entries.remove(j);
                assert(key_views(entries@) =~= old_pairs.remove(j as int));
                self.entries = entries;
                Some(v)
            },
            None => {
                proof {
                    lemma_pairs_map_dom(old_pairs, key@);
                }
                assert(old_pairs == self.pairs());
                assert(pairs_map(self.pairs()) =~= pairs_map(old_pairs).remove(key@));
                None
            },
        }
    }

    /// Takes out every entry, in order, leaving the map empty.
    pub fn drain(&mut self) -> (r: Vec<(String, V)>)
        ensures
            key_views(r@) == old(self).pairs(),
            final(self)@ == Map::<Seq<char>, V>::empty(),
            final(self).pairs() == Seq::<(Seq<char>, V)>::empty(),
            distinct_keys(old(self).pairs()),
    {
        proof {
            use_type_invariant(&*self);
        }
        let mut entries = Vec::new();
        std::mem::swap(&mut entries, &mut self.entries);
        assert(self.pairs() =~= Seq::<(Seq<char>, V)>::empty());
        entries
    }
}

impl<V: Clone> Clone for StringMap<V> {
    /// A copy with the same keys in the same order (values cloned).
    fn clone(&self) -> (r: Self)
        ensures
            r.pairs().len() == self.pairs().len(),
            forall|i: int| 0 <= i < self.pairs().len() ==> #[trigger] r.pairs()[i].0 == self.pairs()[i].0,
    {
        proof {
            use_type_invariant(self);
        }
        let mut entries: Vec<(String, V)> = Vec::new();
        let n = self.entries.len();
        let mut i: usize = 0;
        while i < n
            invariant
                n == self.entries@.len(),
                distinct_keys(key_views(self.entries@)),
                i <= n,
                entries@.len() == i,
                forall|k: int| 0 <= k < i ==> #[trigger] entries@[k].0@ == self.entries@[k].0@,
            decreases n - i,
        {
            let k = self.entries[i].0.clone();
            let v = self.entries[i].1.clone();
            entries.push((k, v));
            i = i + 1;
        }
        let ghost kv = key_views(entries@);
        assert forall|a: int, b: int|
            0 <= a < kv.len() && 0 <= b < kv.len() && a != b implies #[trigger] kv[a].0
            != #[trigger] kv[b].0 by {
            assert(kv[a].0 == entries@[a].0@ && kv[b].0 == entries@[b].0@);
            assert(self.pairs()[a].0 == self.entries@[a].0@ && self.pairs()[b].0 == self.entries@[b].0@);
        }
        let r = StringMap { entries };
        assert forall|k: int| 0 <= k < self.pairs().len() implies #[trigger] r.pairs()[k].0 == self.pairs()[k].0 by {
            assert(r.pairs()[k].0 == r.entries@[k].0@);
            assert(self.pairs()[k].0 == self.entries@[k].0@);
        }
        r
    }
}

impl StringMap<String> {
    /// A copy of this map, entry for entry.
    pub fn duplicate(&self) -> (r: Self)
        ensures
            r.pairs() == self.pairs(),
            distinct_keys(r.pairs()),
    {
        proof {
            use_type_invariant(self);
        }
        let mut entries: Vec<(String, String)> = Vec::new();
        let n = self.entries.len();
        let mut i: usize = 0;
        while i < n
            invariant
                n == self.entries@.len(),
                i <= n,
                key_views(entries@) == self.pairs().take(i as int),
            decreases n - i,
        {
            let k = self.entries[i].0.clone();
            let v = self.entries[i].1.clone();
            let ghost old_entries = entries@;
            assert(self.pairs()[i as int] == (self.entries@[i as int].0@, self.entries@[i as int].1));
            entries.push((k, v));
            assert(key_views(entries@) =~= key_views(old_entries).push((k@, v)));
            assert(self.pairs().take(i + 1) =~= self.pairs().take(i as int).push(self.pairs()[i as int]));
            i = i + 1;
        }
        assert(self.pairs().take(n as int) =~= self.pairs());
        StringMap { entries }
    }
}

} // verus!
