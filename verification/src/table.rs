//! A table keyed by 64-bit identifiers, backed by a vector of pairs with
//! pairwise-distinct keys.
//!
//! The world, the client scene and the subscription table are all mappings
//! from an identifier to a record; this one representation serves them all.
//! Its mathematical value is a [`Map`], and the entry order (insertion order,
//! with in-place overwrite) is exposed too, so a snapshot can walk the
//! entries deterministically.

use vstd::map::*;
use vstd::prelude::*;

verus! {

/// True when `s` holds an entry with key `k`.
pub open spec fn has_key<V>(s: Seq<(u64, V)>, k: u64) -> bool {
    exists|i: int| 0 <= i < s.len() && (#[trigger] s[i]).0 == k
}

/// The index of the entry with key `k`; meaningful when the keys of `s` are
/// unique and `k` occurs.
pub open spec fn key_index<V>(s: Seq<(u64, V)>, k: u64) -> int {
    choose|i: int| 0 <= i < s.len() && (#[trigger] s[i]).0 == k
}

/// No key occurs twice.
pub open spec fn unique_keys<V>(s: Seq<(u64, V)>) -> bool {
    forall|i: int, j: int|
        0 <= i < j < s.len() ==> (#[trigger] s[i]).0 != (#[trigger] s[j]).0
}

/// The mapping the entries denote.
pub open spec fn as_map<V>(s: Seq<(u64, V)>) -> Map<u64, V> {
    Map::new(|k: u64| has_key(s, k), |k: u64| s[key_index(s, k)].1)
}

/// With unique keys, the entry at any index is the one `as_map` yields for
/// its key.
pub proof fn lemma_key_at<V>(s: Seq<(u64, V)>, i: int)
    requires
        unique_keys(s),
        0 <= i < s.len(),
    ensures
        has_key(s, s[i].0),
        key_index(s, s[i].0) == i,
        as_map(s).contains_key(s[i].0),
        as_map(s)[s[i].0] == s[i].1,
{
    let k = s[i].0;
    assert(has_key(s, k));
    let j = key_index(s, k);
    assert(0 <= j < s.len() && s[j].0 == k);
    if j < i {
        assert(s[j].0 != s[i].0);
    } else if i < j {
        assert(s[i].0 != s[j].0);
    }
}

/// Overwriting the value at an occupied index is `Map::insert` on the
/// denoted mapping.
pub proof fn lemma_as_map_update<V>(s: Seq<(u64, V)>, i: int, v: V)
    requires
        unique_keys(s),
        0 <= i < s.len(),
    ensures
        unique_keys(s.update(i, (s[i].0, v))),
        as_map(s.update(i, (s[i].0, v))) == as_map(s).insert(s[i].0, v),
{
    let k = s[i].0;
    let s2 = s.update(i, (k, v));
    assert forall|a: int, b: int| 0 <= a < b < s2.len() implies (#[trigger] s2[a]).0 != (
    #[trigger] s2[b]).0 by {
        assert(s2[a].0 == s[a].0);
        assert(s2[b].0 == s[b].0);
    }
    assert forall|k2: u64| #[trigger] has_key(s2, k2) == has_key(s, k2) by {
        if has_key(s2, k2) {
            let j = choose|j: int| 0 <= j < s2.len() && (#[trigger] s2[j]).0 == k2;
            assert(s[j].0 == k2);
        }
        if has_key(s, k2) {
            let j = choose|j: int| 0 <= j < s.len() && (#[trigger] s[j]).0 == k2;
            assert(s2[j].0 == k2);
        }
    }
    assert forall|k2: u64| #[trigger] as_map(s2).contains_key(k2) implies as_map(s2)[k2]
        == as_map(s).insert(k, v)[k2] by {
        let j = key_index(s2, k2);
        lemma_key_at(s2, j);
        if k2 == k {
            lemma_key_at(s2, i);
        } else {
            assert(j != i);
            assert(s[j].0 == k2);
            lemma_key_at(s, j);
        }
    }
    assert(as_map(s2) =~= as_map(s).insert(k, v));
}

/// Appending an entry with a fresh key is `Map::insert` on the denoted
/// mapping.
pub proof fn lemma_as_map_push<V>(s: Seq<(u64, V)>, k: u64, v: V)
    requires
        unique_keys(s),
        !has_key(s, k),
    ensures
        unique_keys(s.push((k, v))),
        as_map(s.push((k, v))) == as_map(s).insert(k, v),
{
    let s2 = s.push((k, v));
    assert forall|a: int, b: int| 0 <= a < b < s2.len() implies (#[trigger] s2[a]).0 != (
    #[trigger] s2[b]).0 by {
        if b < s.len() {
            assert(s2[a].0 == s[a].0 && s2[b].0 == s[b].0);
        } else {
            assert(s2[b] == (k, v));
            assert(s2[a].0 == s[a].0);
            assert(s[a].0 != k) by {
                if s[a].0 == k {
                    assert(has_key(s, k));
                }
            }
        }
    }
    assert forall|k2: u64| #[trigger] as_map(s2).contains_key(k2) implies as_map(s2)[k2]
        == as_map(s).insert(k, v)[k2] by {
        let j = key_index(s2, k2);
        lemma_key_at(s2, j);
        if k2 == k {
            lemma_key_at(s2, s.len() as int);
        } else {
            assert(j < s.len());
            assert(s[j].0 == k2);
            lemma_key_at(s, j);
        }
    }
    assert forall|k2: u64| #[trigger] has_key(s, k2) implies has_key(s2, k2) by {
        let j = choose|j: int| 0 <= j < s.len() && (#[trigger] s[j]).0 == k2;
        assert(s2[j].0 == k2);
    }
    assert forall|k2: u64| #[trigger] has_key(s2, k2) && k2 != k implies has_key(s, k2) by {
        let j = key_index(s2, k2);
        lemma_key_at(s2, j);
        assert(j < s.len());
        assert(s[j].0 == k2);
    }
    assert(has_key(s2, k)) by {
        assert(s2[s.len() as int].0 == k);
    }
    assert(as_map(s2) =~= as_map(s).insert(k, v));
}

/// Removing an occupied index is `Map::remove` on the denoted mapping.
pub proof fn lemma_as_map_remove<V>(s: Seq<(u64, V)>, i: int)
    requires
        unique_keys(s),
        0 <= i < s.len(),
    ensures
        unique_keys(s.remove(i)),
        as_map(s.remove(i)) == as_map(s).remove(s[i].0),
{
    let k = s[i].0;
    let s2 = s.remove(i);
    assert forall|a: int, b: int| 0 <= a < b < s2.len() implies (#[trigger] s2[a]).0 != (
    #[trigger] s2[b]).0 by {
        let a0: int = if a < i { a } else { a + 1 };
        let b0: int = if b < i { b } else { b + 1 };
        assert(s2[a] == s[a0]);
        assert(s2[b] == s[b0]);
        assert(s[a0].0 != s[b0].0);
    }
    assert forall|k2: u64| #[trigger] as_map(s2).contains_key(k2) implies as_map(s2)[k2]
        == as_map(s).remove(k)[k2] by {
        let j = key_index(s2, k2);
        lemma_key_at(s2, j);
        let j0: int = if j < i { j } else { j + 1 };
        assert(s2[j] == s[j0]);
        lemma_key_at(s, j0);
        assert(k2 != k) by {
            if k2 == k {
                assert(s[j0].0 == s[i].0);
                lemma_key_at(s, i);
            }
        }
    }
    assert forall|k2: u64| #[trigger] has_key(s, k2) && k2 != k implies has_key(s2, k2) by {
        let j = choose|j: int| 0 <= j < s.len() && (#[trigger] s[j]).0 == k2;
        assert(j != i);
        let j2: int = if j < i { j } else { j - 1 };
        assert(s2[j2] == s[j]);
    }
    assert(!has_key(s2, k)) by {
        if has_key(s2, k) {
            let j = key_index(s2, k);
            lemma_key_at(s2, j);
            let j0: int = if j < i { j } else { j + 1 };
            assert(s2[j] == s[j0]);
            lemma_key_at(s, j0);
            lemma_key_at(s, i);
        }
    }
    assert(as_map(s2) =~= as_map(s).remove(k));
}

/// A table of records keyed by `u64` identifiers; keys are unique and entry
/// order is insertion order, overwrites in place.
pub struct Table<V> {
    entries: Vec<(u64, V)>,
}

impl<V> View for Table<V> {
    type V = Map<u64, V>;

    open spec fn view(&self) -> Map<u64, V> {
        as_map(self.entries())
    }
}

impl<V> Table<V> {
    /// The entries in order; the order snapshots walk.
    pub closed spec fn entries(&self) -> Seq<(u64, V)> {
        self.entries@
    }

    /// The table's invariant: no key occurs twice.
    pub open spec fn wf(&self) -> bool {
        unique_keys(self.entries())
    }

    /// An empty table.
    pub fn new() -> (t: Table<V>)
        ensures
            t.wf(),
            t@ == Map::<u64, V>::empty(),
            t.entries() == Seq::<(u64, V)>::empty(),
    {
        let t = Table { entries: Vec::new() };
        proof {
            assert forall|k: u64| !(#[trigger] has_key(t.entries@, k)) by {}
            assert(t@ =~= Map::<u64, V>::empty());
        }
        t
    }

    /// How many entries the table holds.
    pub fn len(&self) -> (n: usize)
        ensures
            n == self.entries().len(),
    {
        self.entries.len()
    }

    /// The entry at a position, in entry order.
    pub fn entry_at(&self, i: usize) -> (e: &(u64, V))
        requires
            i < self.entries().len(),
        ensures
            *e == self.entries()[i as int],
    {
        &self.entries[i]
    }

    /// The record under a key, if the key is present.
    pub fn get(&self, k: u64) -> (r: Option<&V>)
        requires
            self.wf(),
        ensures
            match r {
                Some(v) => self@.contains_key(k) && *v == self@[k],
                None => !self@.contains_key(k),
            },
    {
        let n = self.entries.len();
        let mut i: usize = 0;
        while i < n
            invariant
                i <= n,
                n == self.entries@.len(),
                self.wf(),
                forall|j: int| 0 <= j < i ==> (#[trigger] self.entries@[j]).0 != k,
            decreases n - i,
        {
            let e = &self.entries[i];
            if e.0 == k {
                proof {
                    lemma_key_at(self.entries@, i as int);
                }
                return Some(&e.1);
            }
            i = i + 1;
        }
        proof {
            assert(!has_key(self.entries@, k));
        }
        None
    }

    /// Insert or overwrite: afterwards the key maps to exactly this record.
    /// A fresh key appends; a present key is overwritten in place, so entry
    /// order is untouched.
    pub fn insert(&mut self, k: u64, v: V)
        requires
            old(self).wf(),
        ensures
            final(self).wf(),
            final(self)@ == old(self)@.insert(k, v),
            has_key(old(self).entries(), k) ==> final(self).entries() == old(self).entries().update(
                key_index(old(self).entries(), k),
                (k, v),
            ),
            !has_key(old(self).entries(), k) ==> final(self).entries() == old(
                self,
            ).entries().push((k, v)),
            final(self).entries().len() == old(self).entries().len() + (
            if has_key(old(self).entries(), k) {
                0int
            } else {
                1int
            }),
    {
        let n = self.entries.len();
        let mut i: usize = 0;
        while i < n
            invariant
                i <= n,
                n == self.entries@.len(),
                self.wf(),
                self.entries@ == old(self).entries@,
                forall|j: int| 0 <= j < i ==> (#[trigger] self.entries@[j]).0 != k,
            decreases n - i,
        {
            if self.entries[i].0 == k {
                proof {
                    lemma_key_at(self.entries@, i as int);
                    lemma_as_map_update(self.entries@, i as int, v);
                }
                self.entries[i] = (k, v);
                return ;
            }
            i = i + 1;
        }
        proof {
            assert(!has_key(self.entries@, k));
            lemma_as_map_push(self.entries@, k, v);
        }
        self.entries.push((k, v));
    }

    /// Remove a key; afterwards the key is absent. Removing an absent key is
    /// a no-op.
    pub fn remove(&mut self, k: u64)
        requires
            old(self).wf(),
        ensures
            final(self).wf(),
            final(self)@ == old(self)@.remove(k),
            has_key(old(self).entries(), k) ==> final(self).entries() == old(self).entries().remove(
                key_index(old(self).entries(), k),
            ),
            !has_key(old(self).entries(), k) ==> final(self).entries() == old(self).entries(),
    {
        let n = self.entries.len();
        let mut i: usize = 0;
        while i < n
            invariant
                i <= n,
                n == self.entries@.len(),
                self.wf(),
                self.entries@ == old(self).entries@,
                forall|j: int| 0 <= j < i ==> (#[trigger] self.entries@[j]).0 != k,
            decreases n - i,
        {
            if self.entries[i].0 == k {
                proof {
                    lemma_key_at(self.entries@, i as int);
                    lemma_as_map_remove(self.entries@, i as int);
                }
                self.entries.remove(i);
                return ;
            }
            i = i + 1;
        }
        proof {
            assert(!has_key(self.entries@, k));
            assert(self@ =~= old(self)@.remove(k));
        }
    }
}

} // verus!
