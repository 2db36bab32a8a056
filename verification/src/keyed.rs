//! A small map keyed by strings, kept as a vector of distinct keys.
use vstd::prelude::*;
use vstd::string::*;
use crate::strs::str_eq;

verus! {

/// A map from string keys to values, in insertion order, each key at most once.
#[derive(Debug)]
pub struct StrKeyMap<V> {
    entries: Vec<(String, V)>,
}

impl<V> StrKeyMap<V> {
    /// No key occurs twice.
    #[verifier::type_invariant]
    closed spec fn wf(&self) -> bool {
        keys_distinct(self.entries_spec())
    }

    /// The entries as key texts and values, in order.
    pub closed spec fn entries_spec(&self) -> Seq<(Seq<char>, V)> {
        entries_of(self.entries@)
    }

    /// The map that the entries describe.
    pub open spec fn view(&self) -> Map<Seq<char>, V> {
        entries_map(self.entries_spec())
    }

    pub open spec fn spec_len(&self) -> nat {
        self.entries_spec().len()
    }

    /// An empty map.
    pub fn new() -> (r: Self)
        ensures
            r.entries_spec() == Seq::<(Seq<char>, V)>::empty(),
            r@ == Map::<Seq<char>, V>::empty(),
    {
        let r = StrKeyMap { entries: Vec::new() };
        proof {
            assert(r.entries_spec() =~= Seq::<(Seq<char>, V)>::empty());
            assert(entries_map(r.entries_spec()) =~= Map::<Seq<char>, V>::empty());
        }
        r
    }

    /// The number of entries.
    pub fn len(&self) -> (n: usize)
        ensures
            n == self.spec_len(),
            n == self@.dom().len(),
            self@.dom().finite(),
            keys_distinct(self.entries_spec()),
            entries_map(self.entries_spec()) == self@,
    {
        proof {
            use_type_invariant(&*self);
        }
        proof {
            lemma_entries_map_len(self.entries_spec());
        }
        self.entries.len()
    }

    /// The position of `key` among the entries.
    pub fn index_of(&self, key: &str) -> (r: Option<usize>)
        ensures
            match r {
                Some(i) => i < self.spec_len() && self.entries_spec()[i as int].0 == key@,
                None => !self@.dom().contains(key@),
            },
            r is Some <==> self@.dom().contains(key@),
    {
        proof {
            use_type_invariant(&*self);
        }
        proof {
            lemma_entries_map(self.entries_spec());
        }
        let n = self.entries.len();
        let mut i: usize = 0;
        while i < n
            invariant
                n == self.entries@.len(),
                i <= n,
                forall|j: int| 0 <= j < i ==> self.entries@[j].0@ != key@,
            decreases n - i,
        {
            if str_eq(self.entries[i].0.as_str(), key) {
                proof {
                    assert(self.entries_spec()[i as int].0 == key@);
                }
                return Some(i);
            }
            i = i + 1;
        }
        proof {
            if self@.dom().contains(key@) {
                let j = choose|j: int| 0 <= j < self.entries_spec().len() && self.entries_spec()[j].0 == key@;
                assert(self.entries@[j].0@ == key@);
            }
        }
        None
    }

    /// The value stored under `key`.
    pub fn get(&self, key: &str) -> (r: Option<&V>)
        ensures
            match r {
                Some(v) => self@.dom().contains(key@) && self@[key@] == *v,
                None => !self@.dom().contains(key@),
            },
    {
        proof {
            use_type_invariant(&*self);
        }
        match self.index_of(key) {
            Some(i) => {
                proof {
                    lemma_entries_map(self.entries_spec());
                    lemma_entries_map_at(self.entries_spec(), i as int);
                }
                Some(&self.entries[i].1)
            },
            None => None,
        }
    }

    /// The key at position `i`.
    pub fn key_at(&self, i: usize) -> (r: &str)
        requires
            i < self.spec_len(),
        ensures
            r@ == self.entries_spec()[i as int].0,
    {
        self.entries[i].0.as_str()
    }

    /// The value at position `i`.
    pub fn value_at(&self, i: usize) -> (r: &V)
        requires
            i < self.spec_len(),
        ensures
            *r == self.entries_spec()[i as int].1,
    {
        &self.entries[i].1
    }

    /// Stores `value` under `key`, replacing a value stored there before.
    pub fn insert(&mut self, key: String, value: V)
        ensures
            final(self)@ == old(self)@.insert(key@, value),
    {
        proof {
            use_type_invariant(&*self);
        }
        let ghost old_entries = self.entries_spec();
        proof {
            lemma_entries_map(old_entries);
        }
        match self.index_of(key.as_str()) {
            Some(i) => {
                let ghost k = key@;
                let mut entries = Vec::new();
                std::mem::swap(&mut entries, &mut self.entries);
                entries.set(i, (key, value));
                proof {
                    lemma_entries_map_update(old_entries, i as int, k, value);
                    assert(entries_of(entries@) =~= old_entries.update(i as int, (k, value)));
                }
                self.entries = entries;
                proof {
                    assert(self.entries_spec() =~= old_entries.update(i as int, (k, value)));
                }
            },
            None => {
                let ghost k = key@;
                let mut entries = Vec::new();
                std::mem::swap(&mut entries, &mut self.entries);
                entries.push((key, value));
                proof {
                    lemma_entries_map_push(old_entries, k, value);
                    assert(entries_of(entries@) =~= old_entries.push((k, value)));
                }
                self.entries = entries;
                proof {
                    assert(self.entries_spec() =~= old_entries.push((k, value)));
                }
            },
        }
    }

    /// Removes the entry stored under `key` and returns its value.
    pub fn remove(&mut self, key: &str) -> (r: Option<V>)
        ensures
            final(self)@ == old(self)@.remove(key@),
            match r {
                Some(v) => old(self)@.dom().contains(key@) && old(self)@[key@] == v,
                None => !old(self)@.dom().contains(key@),
            },
    {
        proof {
            use_type_invariant(&*self);
        }
        let ghost old_entries = self.entries_spec();
        proof {
            lemma_entries_map(old_entries);
        }
        match self.index_of(key) {
            Some(i) => {
                let mut entries = Vec::new();
                std::mem::swap(&mut entries, &mut self.entries);
                let (_, v) = entries.remove(i);
                proof {
                    lemma_entries_map_at(old_entries, i as int);
                    lemma_entries_map_remove(old_entries, i as int);
                    assert(entries_of(entries@) =~= old_entries.remove(i as int));
                }
                self.entries = entries;
                proof {
                    assert(self.entries_spec() =~= old_entries.remove(i as int));
                }
                Some(v)
            },
            None => {
                proof {
                    assert(old_entries == self.entries_spec());
                    assert(self@ =~= old(self)@.remove(key@));
                }
                None
            },
        }
    }

    /// Removes every entry.
    pub fn clear(&mut self)
        ensures
            final(self)@ == Map::<Seq<char>, V>::empty(),
    {
        self.entries = Vec::new();
        proof {
            assert(self.entries_spec() =~= Seq::<(Seq<char>, V)>::empty());
            assert(entries_map(self.entries_spec()) =~= Map::<Seq<char>, V>::empty());
        }
    }
}

/// Adding the next entry of a list with distinct keys to the map of the
/// entries before it gives the map of the entries up to it.
pub proof fn lemma_entries_map_prefix<V>(s: Seq<(Seq<char>, V)>, i: int)
    requires
        keys_distinct(s),
        0 <= i < s.len(),
    ensures
        entries_map(s.take(i + 1)) == entries_map(s.take(i)).insert(s[i].0, s[i].1),
{
    let t = s.take(i);
    assert(keys_distinct(t)) by {
        assert forall|a: int, b: int| 0 <= a < t.len() && 0 <= b < t.len() && a != b
            implies #[trigger] t[a].0 != #[trigger] t[b].0 by {
            assert(t[a] == s[a] && t[b] == s[b]);
        }
    }
    assert(!entries_map(t).dom().contains(s[i].0)) by {
        if entries_map(t).dom().contains(s[i].0) {
            let j = choose|j: int| 0 <= j < t.len() && t[j].0 == s[i].0;
            assert(s[j].0 == s[i].0);
        }
    }
    lemma_entries_map_push(t, s[i].0, s[i].1);
    assert(s.take(i + 1) =~= t.push(s[i]));
}

/// Entries with their keys taken as texts.
pub open spec fn entries_of<V>(e: Seq<(String, V)>) -> Seq<(Seq<char>, V)> {
    Seq::new(e.len(), |i: int| (e[i].0@, e[i].1))
}

/// Keys occur at most once in `s`.
pub open spec fn keys_distinct<V>(s: Seq<(Seq<char>, V)>) -> bool {
    forall|i: int, j: int| 0 <= i < s.len() && 0 <= j < s.len() && i != j ==> #[trigger] s[i].0 != #[trigger] s[j].0
}

/// The map of a list of entries with distinct keys.
pub open spec fn entries_map<V>(s: Seq<(Seq<char>, V)>) -> Map<Seq<char>, V> {
    Map::new(
        |k: Seq<char>| exists|i: int| 0 <= i < s.len() && s[i].0 == k,
        |k: Seq<char>| s[choose|i: int| 0 <= i < s.len() && s[i].0 == k].1,
    )
}

/// A key is in the map exactly when some entry holds it.
pub proof fn lemma_entries_map<V>(s: Seq<(Seq<char>, V)>)
    ensures
        forall|k: Seq<char>| #[trigger] entries_map(s).dom().contains(k)
            <==> exists|i: int| 0 <= i < s.len() && s[i].0 == k,
{
}

/// With distinct keys, each entry's key maps to its value.
pub proof fn lemma_entries_map_at<V>(s: Seq<(Seq<char>, V)>, i: int)
    requires
        keys_distinct(s),
        0 <= i < s.len(),
    ensures
        entries_map(s).dom().contains(s[i].0),
        entries_map(s)[s[i].0] == s[i].1,
{
    let k = s[i].0;
    assert(exists|j: int| 0 <= j < s.len() && s[j].0 == k);
    let c = choose|j: int| 0 <= j < s.len() && s[j].0 == k;
    assert(c == i);
}

/// With distinct keys, the map has one key per entry.
pub proof fn lemma_entries_map_len<V>(s: Seq<(Seq<char>, V)>)
    requires
        keys_distinct(s),
    ensures
        entries_map(s).dom().finite(),
        entries_map(s).dom().len() == s.len(),
    decreases s.len(),
{
    if s.len() == 0 {
        assert(entries_map(s).dom() =~= Set::<Seq<char>>::empty());
    } else {
        let t = s.drop_last();
        assert(keys_distinct(t)) by {
            assert forall|i: int, j: int| 0 <= i < t.len() && 0 <= j < t.len() && i != j
                implies #[trigger] t[i].0 != #[trigger] t[j].0 by {
                assert(t[i] == s[i] && t[j] == s[j]);
            }
        }
        lemma_entries_map_len(t);
        let k = s.last().0;
        assert(!entries_map(t).dom().contains(k)) by {
            if entries_map(t).dom().contains(k) {
                let j = choose|j: int| 0 <= j < t.len() && t[j].0 == k;
                assert(s[j].0 == s[s.len() - 1].0);
            }
        }
        assert(entries_map(s).dom() =~= entries_map(t).dom().insert(k)) by {
            assert forall|x: Seq<char>| entries_map(s).dom().contains(x)
                implies entries_map(t).dom().insert(k).contains(x) by {
                let j = choose|j: int| 0 <= j < s.len() && s[j].0 == x;
                if j < s.len() - 1 {
                    assert(t[j].0 == x);
                }
            }
            assert forall|x: Seq<char>| entries_map(t).dom().insert(k).contains(x)
                implies entries_map(s).dom().contains(x) by {
                if x != k {
                    let j = choose|j: int| 0 <= j < t.len() && t[j].0 == x;
                    assert(s[j].0 == x);
                } else {
                    assert(s[s.len() - 1].0 == x);
                }
            }
        }
    }
}

/// Replacing an entry replaces its key's mapping.
pub proof fn lemma_entries_map_update<V>(s: Seq<(Seq<char>, V)>, i: int, k: Seq<char>, v: V)
    requires
        keys_distinct(s),
        0 <= i < s.len(),
        s[i].0 == k,
    ensures
        keys_distinct(s.update(i, (k, v))),
        entries_map(s.update(i, (k, v))) == entries_map(s).insert(k, v),
{
    let t = s.update(i, (k, v));
    assert forall|a: int, b: int| 0 <= a < t.len() && 0 <= b < t.len() && a != b
        implies #[trigger] t[a].0 != #[trigger] t[b].0 by {
        assert(t[a].0 == s[a].0 && t[b].0 == s[b].0);
    }
    assert forall|x: Seq<char>| #[trigger] entries_map(t).dom().contains(x)
        <==> entries_map(s).insert(k, v).dom().contains(x) by {
        if entries_map(t).dom().contains(x) {
            let j = choose|j: int| 0 <= j < t.len() && t[j].0 == x;
            assert(s[j].0 == x);
        }
        if entries_map(s).dom().contains(x) {
            let j = choose|j: int| 0 <= j < s.len() && s[j].0 == x;
            assert(t[j].0 == x);
        }
        if x == k {
            assert(t[i].0 == x);
        }
    }
    assert forall|x: Seq<char>| #[trigger] entries_map(t).dom().contains(x)
        implies entries_map(t)[x] == entries_map(s).insert(k, v)[x] by {
        let j = choose|j: int| 0 <= j < t.len() && t[j].0 == x;
        lemma_entries_map_at(t, j);
        if x != k {
            assert(s[j].0 == x);
            lemma_entries_map_at(s, j);
        }
    }
    assert(entries_map(t) =~= entries_map(s).insert(k, v));
}

/// Appending an entry with a new key adds its mapping.
pub proof fn lemma_entries_map_push<V>(s: Seq<(Seq<char>, V)>, k: Seq<char>, v: V)
    requires
        keys_distinct(s),
        !entries_map(s).dom().contains(k),
    ensures
        keys_distinct(s.push((k, v))),
        entries_map(s.push((k, v))) == entries_map(s).insert(k, v),
{
    let t = s.push((k, v));
    assert forall|a: int, b: int| 0 <= a < t.len() && 0 <= b < t.len() && a != b
        implies #[trigger] t[a].0 != #[trigger] t[b].0 by {
        if a == s.len() {
            assert(s[b].0 == t[b].0);
        } else if b == s.len() {
            assert(s[a].0 == t[a].0);
        } else {
            assert(t[a] == s[a] && t[b] == s[b]);
        }
    }
    assert forall|x: Seq<char>| #[trigger] entries_map(t).dom().contains(x)
        <==> entries_map(s).insert(k, v).dom().contains(x) by {
        if entries_map(t).dom().contains(x) && x != k {
            let j = choose|j: int| 0 <= j < t.len() && t[j].0 == x;
            assert(s[j].0 == x);
        }
        if entries_map(s).dom().contains(x) {
            let j = choose|j: int| 0 <= j < s.len() && s[j].0 == x;
            assert(t[j].0 == x);
        }
        if x == k {
            assert(t[s.len() as int].0 == x);
        }
    }
    assert forall|x: Seq<char>| #[trigger] entries_map(t).dom().contains(x)
        implies entries_map(t)[x] == entries_map(s).insert(k, v)[x] by {
        let j = choose|j: int| 0 <= j < t.len() && t[j].0 == x;
        lemma_entries_map_at(t, j);
        if x != k {
            assert(s[j].0 == x);
            lemma_entries_map_at(s, j);
        }
    }
    assert(entries_map(t) =~= entries_map(s).insert(k, v));
}

/// Removing an entry removes its key's mapping.
pub proof fn lemma_entries_map_remove<V>(s: Seq<(Seq<char>, V)>, i: int)
    requires
        keys_distinct(s),
        0 <= i < s.len(),
    ensures
        keys_distinct(s.remove(i)),
        entries_map(s.remove(i)) == entries_map(s).remove(s[i].0),
{
    let t = s.remove(i);
    let k = s[i].0;
    assert forall|a: int, b: int| 0 <= a < t.len() && 0 <= b < t.len() && a != b
        implies #[trigger] t[a].0 != #[trigger] t[b].0 by {
        let a0 = if a < i { a } else { a + 1 };
        let b0 = if b < i { b } else { b + 1 };
        assert(t[a] == s[a0] && t[b] == s[b0]);
    }
    assert forall|x: Seq<char>| #[trigger] entries_map(t).dom().contains(x)
        <==> entries_map(s).remove(k).dom().contains(x) by {
        if entries_map(t).dom().contains(x) {
            let j = choose|j: int| 0 <= j < t.len() && t[j].0 == x;
            let j0 = if j < i { j } else { j + 1 };
            assert(s[j0].0 == x);
            assert(j0 != i);
        }
        if entries_map(s).dom().contains(x) && x != k {
            let j = choose|j: int| 0 <= j < s.len() && s[j].0 == x;
            assert(j != i);
            let j1 = if j < i { j } else { j - 1 };
            assert(t[j1].0 == x);
        }
    }
    assert forall|x: Seq<char>| #[trigger] entries_map(t).dom().contains(x)
        implies entries_map(t)[x] == entries_map(s).remove(k)[x] by {
        let j = choose|j: int| 0 <= j < t.len() && t[j].0 == x;
        lemma_entries_map_at(t, j);
        let j0 = if j < i { j } else { j + 1 };
        assert(s[j0] == t[j]);
        lemma_entries_map_at(s, j0);
    }
    assert(entries_map(t) =~= entries_map(s).remove(k));
}

} // verus!
