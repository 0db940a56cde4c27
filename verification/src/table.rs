//! A small map from names to values that keeps its entries in the order in
//! which they were first inserted.

use vstd::prelude::*;
use crate::text::same_text;

verus! {

/// `i` is the first index of `keys` that holds `key`.
pub open spec fn is_first_index(keys: Seq<Seq<char>>, key: Seq<char>, i: int) -> bool {
    &&& 0 <= i < keys.len()
    &&& keys[i] == key
    &&& forall|j: int| 0 <= j < i ==> #[trigger] keys[j] != key
}

/// The first index of `keys` that holds `key`; meaningful if `keys` contains `key`.
pub open spec fn first_index(keys: Seq<Seq<char>>, key: Seq<char>) -> int {
    choose|i: int| is_first_index(keys, key, i)
}

/// A key that occurs in `keys` has exactly one first index.
pub proof fn lemma_first_index(keys: Seq<Seq<char>>, key: Seq<char>, i: int)
    requires
        is_first_index(keys, key, i),
    ensures
        first_index(keys, key) == i,
        keys.contains(key),
{
    let j = first_index(keys, key);
    assert(is_first_index(keys, key, j));
    if j < i {
        assert(keys[j] != key);
    } else if i < j {
        assert(keys[i] != key);
    }
}

/// A key that occurs somewhere in `keys` has a first index.
pub proof fn lemma_first_index_exists(keys: Seq<Seq<char>>, key: Seq<char>, n: int)
    requires
        0 <= n < keys.len(),
        keys[n] == key,
    ensures
        is_first_index(keys, key, first_index(keys, key)),
        first_index(keys, key) <= n,
    decreases n,
{
    if forall|j: int| 0 <= j < n ==> #[trigger] keys[j] != key {
        assert(is_first_index(keys, key, n));
        lemma_first_index(keys, key, n);
    } else {
        let j = choose|j: int| 0 <= j < n && #[trigger] keys[j] == key;
        lemma_first_index_exists(keys, key, j);
    }
}

/// The elements of `keys` that differ from `key`, in their order.
pub open spec fn without(keys: Seq<Seq<char>>, key: Seq<char>) -> Seq<Seq<char>> {
    keys.filter(|k: Seq<char>| k != key)
}

/// A map from names to values, held as a list of entries.
#[derive(Debug, Clone, PartialEq)]
pub struct NameMap<V> {
    pub entries: Vec<(String, V)>,
}

impl<V> NameMap<V> {
    /// The names of the entries, in the order of the entries.
    pub open spec fn keys(&self) -> Seq<Seq<char>> {
        Seq::new(self.entries@.len(), |i: int| self.entries@[i].0@)
    }

    /// No name occurs twice.
    pub open spec fn wf(&self) -> bool {
        self.keys().no_duplicates()
    }

    /// The value that the map holds for `key`; meaningful if the map has `key`.
    pub open spec fn value_of(&self, key: Seq<char>) -> V {
        self.entries@[first_index(self.keys(), key)].1
    }

    /// Whether the map has an entry for `key`.
    pub open spec fn has(&self, key: Seq<char>) -> bool {
        self.keys().contains(key)
    }

    /// The map as a mathematical map; of two entries with one name the first counts.
    pub open spec fn view(&self) -> Map<Seq<char>, V> {
        Map::new(|k: Seq<char>| self.keys().contains(k), |k: Seq<char>| self.value_of(k))
    }

    /// An empty map.
    pub fn new() -> (r: Self)
        ensures
            r.wf(),
            r.keys() == Seq::<Seq<char>>::empty(),
            r@ == Map::<Seq<char>, V>::empty(),
    {
        let r = NameMap { entries: Vec::new() };
        assert(r.keys() =~= Seq::<Seq<char>>::empty());
        assert(r@ =~= Map::<Seq<char>, V>::empty());
        r
    }

    /// The number of entries.
    pub fn len(&self) -> (r: usize)
        ensures
            r == self.keys().len(),
    {
        self.entries.len()
    }

    /// Whether the map has no entry.
    pub fn is_empty(&self) -> (r: bool)
        ensures
            r == (self.keys().len() == 0),
    {
        self.entries.len() == 0
    }

    /// Whether no name occurs twice.
    pub fn has_unique_names(&self) -> (r: bool)
        ensures
            r == self.wf(),
    {
        let n = self.entries.len();
        let mut i: usize = 0;
        while i < n
            invariant
                n == self.keys().len(),
                i <= n,
                forall|a: int, b: int| 0 <= a < b < i ==> self.keys()[a] != self.keys()[b],
            decreases n - i,
        {
            let mut j: usize = 0;
            while j < i
                invariant
                    n == self.keys().len(),
                    i < n,
                    j <= i,
                    forall|a: int| 0 <= a < j ==> self.keys()[a] != self.keys()[i as int],
                decreases i - j,
            {
                if same_text(self.entries[j].0.as_str(), self.entries[i].0.as_str()) {
                    assert(self.keys()[j as int] == self.keys()[i as int]);
                    return false;
                }
                j += 1;
            }
            i += 1;
        }
        true
    }

    /// The index of the first entry named `key`.
    pub fn index_of(&self, key: &str) -> (r: Option<usize>)
        ensures
            match r {
                Some(i) => is_first_index(self.keys(), key@, i as int),
                None => !self.keys().contains(key@),
            },
            r is Some <==> self@.dom().contains(key@),
    {
        let mut i: usize = 0;
        while i < self.entries.len()
            invariant
                i <= self.entries.len(),
                forall|j: int| 0 <= j < i ==> #[trigger] self.keys()[j] != key@,
            decreases self.entries.len() - i,
        {
            if same_text(self.entries[i].0.as_str(), key) {
                proof {
                    lemma_first_index(self.keys(), key@, i as int);
                }
                return Some(i);
            }
            i += 1;
        }
        None
    }

    /// Whether the map has an entry for `key`.
    pub fn contains_key(&self, key: &str) -> (r: bool)
        ensures
            r == self@.dom().contains(key@),
    {
        self.index_of(key).is_some()
    }

    /// The value held for `key`, if there is one.
    pub fn get(&self, key: &str) -> (r: Option<&V>)
        ensures
            match r {
                Some(v) => self@.dom().contains(key@) && *v == self@[key@],
                None => !self@.dom().contains(key@),
            },
    {
        match self.index_of(key) {
            Some(i) => {
                proof {
                    lemma_first_index(self.keys(), key@, i as int);
                }
                Some(&self.entries[i].1)
            },
            None => None,
        }
    }

    /// The name of the entry at index `i`.
    pub fn key_at(&self, i: usize) -> (r: &String)
        requires
            i < self.keys().len(),
        ensures
            r@ == self.keys()[i as int],
    {
        &self.entries[i].0
    }

    /// The value of the entry at index `i`.
    pub fn value_at(&self, i: usize) -> (r: &V)
        requires
            i < self.keys().len(),
        ensures
            *r == self.entries@[i as int].1,
            self.wf() ==> *r == self@[self.keys()[i as int]],
    {
        proof {
            if self.wf() {
                lemma_first_index_exists(self.keys(), self.keys()[i as int], i as int);
            }
        }
        &self.entries[i].1
    }

    /// Sets the value held for `key`: in place if the map has an entry of
    /// that name, else as a new last entry.
    pub fn insert(&mut self, key: String, value: V)
        ensures
            final(self)@ == old(self)@.insert(key@, value),
            old(self).wf() ==> final(self).wf(),
            final(self).keys() == if old(self).keys().contains(key@) {
                old(self).keys()
            } else {
                old(self).keys().push(key@)
            },
            final(self).entries@ == if old(self).keys().contains(key@) {
                old(self).entries@.update(first_index(old(self).keys(), key@), (key, value))
            } else {
                old(self).entries@.push((key, value))
            },
    {
        let ghost before = *self;
        let ghost k = key@;
        match self.index_of(key.as_str()) {
            Some(i) => {
                self.entries.set(i, (key, value));
                proof {
                    assert(self.keys() =~= before.keys());
                    lemma_first_index(self.keys(), k, i as int);
                    assert forall|q: Seq<char>| self.keys().contains(q) implies #[trigger] self.value_of(
                        q,
                    ) == before@.insert(k, value)[q] by {
                        if q != k {
                            let j = first_index(self.keys(), q);
                            let n = choose|n: int| 0 <= n < self.keys().len() && self.keys()[n] == q;
                            lemma_first_index_exists(self.keys(), q, n);
                            assert(j != i);
                        }
                    }
                    assert(self@ =~= before@.insert(k, value));
                }
            },
            None => {
                self.entries.push((key, value));
                proof {
                    let n = before.keys().len() as int;
                    assert(self.keys() =~= before.keys().push(k));
                    assert(is_first_index(self.keys(), k, n));
                    lemma_first_index(self.keys(), k, n);
                    assert forall|q: Seq<char>| before.keys().contains(q) implies self.keys().contains(
                        q,
                    ) && #[trigger] self.value_of(q) == before.value_of(q) by {
                        let m = choose|m: int| 0 <= m < before.keys().len() && before.keys()[m] == q;
                        lemma_first_index_exists(before.keys(), q, m);
                        let j = first_index(before.keys(), q);
                        assert(is_first_index(self.keys(), q, j));
                        lemma_first_index(self.keys(), q, j);
                    }
                    assert forall|q: Seq<char>| self.keys().contains(q) implies q == k
                        || before.keys().contains(q) by {
                        let m = choose|m: int| 0 <= m < self.keys().len() && self.keys()[m] == q;
                        if m < n {
                            assert(before.keys()[m] == q);
                        }
                    }
                    assert forall|q: Seq<char>| #[trigger]
                        before.keys().contains(q) implies self.keys().contains(q) by {
                        let m = choose|m: int| 0 <= m < before.keys().len() && before.keys()[m] == q;
                        assert(self.keys()[m] == q);
                    }
                    assert(self.keys().contains(k));
                    assert(self.value_of(k) == value);
                    assert(self@.dom() =~= before@.insert(k, value).dom());
                    assert(self@ =~= before@.insert(k, value));
                }
            },
        }
    }

    /// Takes out the entry named `key`, if there is one; the other entries
    /// keep their order.
    pub fn remove(&mut self, key: &str) -> (r: Option<V>)
        requires
            old(self).wf(),
        ensures
            final(self).wf(),
            final(self)@ == old(self)@.remove(key@),
            match r {
                Some(v) => old(self)@.dom().contains(key@) && v == old(self)@[key@],
                None => !old(self)@.dom().contains(key@),
            },
            final(self).keys() == without(old(self).keys(), key@),
    {
        let ghost before = *self;
        match self.index_of(key) {
            Some(i) => {
                let entry = self.entries.remove(i);
                proof {
                    let bk = before.keys();
                    lemma_first_index(bk, key@, i as int);
                    assert(self.keys() =~= bk.remove(i as int));
                    lemma_remove_unique(bk, i as int);
                    assert forall|q: Seq<char>| self.keys().contains(q) implies #[trigger] self.value_of(
                        q,
                    ) == before.value_of(q) by {
                        let m = choose|m: int| 0 <= m < self.keys().len() && self.keys()[m] == q;
                        lemma_first_index_exists(self.keys(), q, m);
                        let j = first_index(self.keys(), q);
                        let b = if j < i { j } else { j + 1 };
                        assert(bk[b] == q);
                        lemma_first_index_exists(bk, q, b);
                        assert(first_index(bk, q) == b);
                    }
                    assert(self@ =~= before@.remove(key@));
                }
                Some(entry.1)
            },
            None => {
                proof {
                    lemma_without_absent(self.keys(), key@);
                }
                None
            },
        }
    }
}

/// Taking one element out of a list without duplicates leaves the elements
/// that differ from it, in their order.
pub proof fn lemma_remove_unique(keys: Seq<Seq<char>>, i: int)
    requires
        keys.no_duplicates(),
        0 <= i < keys.len(),
    ensures
        keys.remove(i).no_duplicates(),
        !keys.remove(i).contains(keys[i]),
        forall|q: Seq<char>| q != keys[i] && keys.contains(q) ==> #[trigger] keys.remove(i).contains(q),
        keys.remove(i) == without(keys, keys[i]),
    decreases keys.len(),
{
    let key = keys[i];
    let rest = keys.remove(i);
    assert forall|q: Seq<char>| q != key && keys.contains(q) implies #[trigger] rest.contains(q) by {
        let m = choose|m: int| 0 <= m < keys.len() && keys[m] == q;
        if m < i {
            assert(rest[m] == q);
        } else {
            assert(rest[m - 1] == q);
        }
    }
    let last = keys.len() - 1;
    reveal(Seq::filter);
    if i == last {
        assert(rest =~= keys.drop_last());
        lemma_without_absent(rest, key);
    } else {
        lemma_remove_unique(keys.drop_last(), i);
        assert(keys.drop_last().remove(i).push(keys[last]) =~= rest);
        assert(keys.drop_last()[i] == key);
    }
}

/// Leaving out a key that does not occur changes nothing.
pub proof fn lemma_without_absent(keys: Seq<Seq<char>>, key: Seq<char>)
    requires
        !keys.contains(key),
    ensures
        without(keys, key) == keys,
    decreases keys.len(),
{
    reveal(Seq::filter);
    if keys.len() > 0 {
        assert(keys.last() != key);
        assert forall|j: int| 0 <= j < keys.drop_last().len() implies keys.drop_last()[j] != key by {
            assert(keys[j] != key);
        }
        lemma_without_absent(keys.drop_last(), key);
        assert(keys.drop_last().push(keys.last()) =~= keys);
    }
}

} // verus!
