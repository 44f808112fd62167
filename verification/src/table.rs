//! A table from names to values, in ascending order of the names.

use vstd::prelude::*;

use crate::text::{
    comes_before, index_of, lemma_index_of, lemma_order_irreflexive, lemma_order_total,
    lemma_order_transitive, str_before, str_eq,
};

verus! {

/// The names of a table, in order.
pub open spec fn keys<T>(t: Seq<(Seq<char>, T)>) -> Seq<Seq<char>> {
    Seq::new(t.len(), |i: int| t[i].0)
}

/// The value that `t` holds under `key`, if any: the first, should the name
/// occur twice.
pub open spec fn find<T>(t: Seq<(Seq<char>, T)>, key: Seq<char>) -> Option<T> {
    let i = index_of(keys(t), key) as int;
    if i < t.len() {
        Some(t[i].1)
    } else {
        None
    }
}

/// The names stand in ascending order, each before the next.
pub open spec fn ascending(names: Seq<Seq<char>>) -> bool {
    forall|i: int, j: int| 0 <= i < j < names.len() ==> comes_before(names[i], names[j])
}

/// How many entries stand at the head of `t` with a name that comes before
/// `key`. In a table in ascending order these are all such entries, so it
/// is the place of `key`.
pub open spec fn rank<T>(t: Seq<(Seq<char>, T)>, key: Seq<char>) -> nat
    decreases t.len(),
{
    if t.len() == 0 || !comes_before(t[0].0, key) {
        0
    } else {
        1 + rank(t.skip(1), key)
    }
}

/// `t` with `value` under `key`: in place of the value that `key` had at
/// its place, or else inserted at its place.
pub open spec fn put<T>(t: Seq<(Seq<char>, T)>, key: Seq<char>, value: T) -> Seq<(Seq<char>, T)> {
    let i = rank(t, key) as int;
    if i < t.len() && t[i].0 == key {
        t.update(i, (key, value))
    } else {
        t.insert(i, (key, value))
    }
}

/// `rank` is `k` exactly when the names before `k` come before `key` and
/// the name at `k` does not, or `k` is the end.
pub proof fn lemma_rank<T>(t: Seq<(Seq<char>, T)>, key: Seq<char>, k: int)
    requires
        0 <= k <= t.len(),
        forall|j: int| 0 <= j < k ==> comes_before(t[j].0, key),
        k == t.len() || !comes_before(t[k].0, key),
    ensures
        rank(t, key) == k,
    decreases t.len(),
{
    if t.len() == 0 || !comes_before(t[0].0, key) {
    } else {
        lemma_rank(t.skip(1), key, k - 1);
    }
}

/// What `rank` returns is in range, the names before it come before `key`,
/// and the name at it does not.
pub proof fn lemma_rank_found<T>(t: Seq<(Seq<char>, T)>, key: Seq<char>)
    ensures
        rank(t, key) <= t.len(),
        forall|j: int| 0 <= j < rank(t, key) ==> comes_before(#[trigger] t[j].0, key),
        rank(t, key) < t.len() ==> !comes_before(t[rank(t, key) as int].0, key),
    decreases t.len(),
{
    if t.len() == 0 || !comes_before(t[0].0, key) {
    } else {
        let rest = t.skip(1);
        lemma_rank_found(rest, key);
        let k = rank(rest, key) as int;
        assert forall|j: int| 0 <= j < k + 1 implies comes_before(#[trigger] t[j].0, key) by {
            if j > 0 {
                assert(t[j] == rest[j - 1]);
            }
        }
        if k < rest.len() {
            assert(t[k + 1] == rest[k]);
        }
    }
}

/// Names in ascending order are all different.
pub proof fn lemma_ascending_distinct(names: Seq<Seq<char>>)
    requires
        ascending(names),
    ensures
        names.no_duplicates(),
{
    assert forall|i: int, j: int| 0 <= i < names.len() && 0 <= j < names.len() && i != j implies names[i]
        != names[j] by {
        lemma_order_irreflexive(names[i]);
        if i < j {
            assert(comes_before(names[i], names[j]));
        } else {
            assert(comes_before(names[j], names[i]));
        }
    }
}

/// Putting a value under a name keeps the names in ascending order, and
/// the value is then found under the name.
pub proof fn lemma_put_keeps_order<T>(t: Seq<(Seq<char>, T)>, key: Seq<char>, value: T)
    requires
        ascending(keys(t)),
    ensures
        ascending(keys(put(t, key, value))),
        find(put(t, key, value), key) == Some(value),
{
    lemma_rank_found(t, key);
    let i = rank(t, key) as int;
    let after = put(t, key, value);
    let names = keys(after);
    if i < t.len() && t[i].0 == key {
        assert(names =~= keys(t));
    } else {
        t.insert_ensures(i, (key, value));
        assert forall|a: int, b: int| 0 <= a < b < names.len() implies comes_before(
            names[a],
            names[b],
        ) by {
            let na = if a < i {
                t[a].0
            } else if a == i {
                key
            } else {
                t[a - 1].0
            };
            let nb = if b < i {
                t[b].0
            } else if b == i {
                key
            } else {
                t[b - 1].0
            };
            assert(names[a] == na);
            assert(names[b] == nb);
            if b == i {
                assert(comes_before(t[a].0, key));
            } else if a == i {
                lemma_order_total(t[i].0, key);
                if b - 1 > i {
                    assert(comes_before(keys(t)[i], keys(t)[b - 1]));
                    lemma_order_transitive(key, t[i].0, t[b - 1].0);
                }
            } else if a < i {
                if b < i {
                    assert(comes_before(keys(t)[a], keys(t)[b]));
                } else {
                    assert(comes_before(keys(t)[a], keys(t)[b - 1]));
                }
            } else {
                assert(comes_before(keys(t)[a - 1], keys(t)[b - 1]));
            }
        }
    }
    lemma_ascending_distinct(names);
    assert(names[i] == key);
    assert forall|j: int| 0 <= j < i implies names[j] != key by {
        assert(names[j] != names[i]);
    }
    lemma_index_of(names, key, i);
}

/// A table from names to values, in ascending order of the names. Its view
/// is the sequence of its entries.
///
/// The order of the entries is the order in which the slots of a palette
/// are visited: it decides which of several failing slots is reported and
/// in which order a summary lists the colours.
#[derive(Debug, Clone)]
pub struct Table<V> {
    entries: Vec<(String, V)>,
}

impl<V: View> View for Table<V> {
    type V = Seq<(Seq<char>, V::V)>;

    closed spec fn view(&self) -> Self::V {
        Seq::new(self.entries@.len(), |i: int| (self.entries@[i].0@, self.entries@[i].1@))
    }
}

impl<V: View> Table<V> {
    /// A table is well formed when its names stand in ascending order, so
    /// that no name occurs twice. `new` makes such a table and `insert`
    /// keeps it so.
    pub open spec fn wf(&self) -> bool {
        ascending(keys(self@))
    }

    /// The empty table.
    pub fn new() -> (t: Self)
        ensures
            t@ == Seq::<(Seq<char>, V::V)>::empty(),
            t.wf(),
    {
        let t = Table { entries: Vec::new() };
        assert(t@ =~= Seq::<(Seq<char>, V::V)>::empty());
        t
    }

    /// The number of entries.
    pub fn len(&self) -> (n: usize)
        ensures
            n == self@.len(),
    {
        self.entries.len()
    }

    /// The name of the entry at `i`.
    pub fn key(&self, i: usize) -> (k: &str)
        requires
            i < self@.len(),
        ensures
            k@ == self@[i as int].0,
    {
        self.entries[i].0.as_str()
    }

    /// The value of the entry at `i`.
    pub fn value(&self, i: usize) -> (v: &V)
        requires
            i < self@.len(),
        ensures
            v@ == self@[i as int].1,
    {
        &self.entries[i].1
    }

    fn position(&self, key: &str) -> (i: usize)
        ensures
            i == index_of(keys(self@), key@),
            i <= self@.len(),
    {
        let mut i: usize = 0;
        while i < self.entries.len()
            invariant
                i <= self.entries@.len(),
                forall|j: int| 0 <= j < i ==> keys(self@)[j] != key@,
            decreases self.entries@.len() - i,
        {
            if str_eq(self.entries[i].0.as_str(), key) {
                proof {
                    lemma_index_of(keys(self@), key@, i as int);
                }
                return i;
            }
            i = i + 1;
        }
        proof {
            lemma_index_of(keys(self@), key@, i as int);
        }
        i
    }

    /// The value under `key`, if the table has one.
    pub fn get(&self, key: &str) -> (v: Option<&V>)
        ensures
            match v {
                Some(v) => find(self@, key@) == Some(v@),
                None => find(self@, key@) is None,
            },
    {
        let i = self.position(key);
        if i < self.entries.len() {
            Some(&self.entries[i].1)
        } else {
            None
        }
    }

    fn place(&self, key: &str) -> (i: usize)
        ensures
            i == rank(self@, key@),
            i <= self@.len(),
    {
        let mut i: usize = 0;
        while i < self.entries.len() && str_before(self.entries[i].0.as_str(), key)
            invariant
                i <= self.entries@.len(),
                forall|j: int| 0 <= j < i ==> comes_before(self@[j].0, key@),
            decreases self.entries@.len() - i,
        {
            i = i + 1;
        }
        proof {
            lemma_rank(self@, key@, i as int);
        }
        i
    }

    /// Puts `value` under `key`: in place of an earlier value if there is
    /// one, else at the place of `key` in the order of the names.
    pub fn insert(&mut self, key: String, value: V)
        ensures
            final(self)@ == put(old(self)@, key@, value@),
            old(self).wf() ==> final(self).wf(),
    {
        let i = self.place(key.as_str());
        proof {
            if old(self).wf() {
                lemma_put_keeps_order(old(self)@, key@, value@);
            }
        }
        if i < self.entries.len() && str_eq(self.entries[i].0.as_str(), key.as_str()) {
            self.entries.set(i, (key, value));
        } else {
            self.entries.insert(i, (key, value));
        }
        proof {
            old(self)@.insert_ensures(i as int, (key@, value@));
            assert(self@ =~= put(old(self)@, key@, value@));
        }
    }

    /// Adds an entry at the end, whatever its name.
    pub(crate) fn push_entry(&mut self, key: String, value: V)
        ensures
            final(self)@ == old(self)@.push((key@, value@)),
    {
        self.entries.push((key, value));
        proof {
            assert(self@ =~= old(self)@.push((key@, value@)));
        }
    }
}

} // verus!
