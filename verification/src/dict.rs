//! Ordered string-keyed association lists.
//!
//! Declarations carry their mappings (inputs, outputs, environments, read
//! blocks) as ordered lists of key/value pairs with distinct keys.  The
//! declaration order is kept: it drives the order of environment variables
//! and the declaration-order tie-breaks of the planner.

use vstd::prelude::*;

use crate::value::Value;

verus! {

/// An ordered mapping from string keys to values, with distinct keys.
#[derive(Debug, Clone)]
pub struct Dict<V> {
    pub entries: Vec<(String, V)>,
}

impl<V: View> View for Dict<V> {
    type V = Seq<(Seq<char>, V::V)>;

    open spec fn view(&self) -> Seq<(Seq<char>, V::V)> {
        self.entries@.map_values(|e: (String, V)| (e.0@, e.1@))
    }
}

/// Whether `m` has an entry for key `k`.
pub open spec fn dict_contains<T>(m: Seq<(Seq<char>, T)>, k: Seq<char>) -> bool {
    exists|i: int| 0 <= i < m.len() && m[i].0 == k
}

/// The value bound to key `k`.
pub open spec fn dict_value<T>(m: Seq<(Seq<char>, T)>, k: Seq<char>) -> T
    recommends
        dict_contains(m, k),
{
    m[choose|i: int| 0 <= i < m.len() && m[i].0 == k].1
}

/// The keys of `m`, as a set.
pub open spec fn dict_keys<T>(m: Seq<(Seq<char>, T)>) -> Set<Seq<char>> {
    Set::new(|k: Seq<char>| dict_contains(m, k))
}

/// Whether the keys of `m` are pairwise distinct.
pub open spec fn dict_wf<T>(m: Seq<(Seq<char>, T)>) -> bool {
    forall|i: int, j: int| 0 <= i < j < m.len() ==> m[i].0 != m[j].0
}

/// The mapping `m` denotes.
pub open spec fn dict_map<T>(m: Seq<(Seq<char>, T)>) -> Map<Seq<char>, T> {
    Map::new(|k: Seq<char>| dict_contains(m, k), |k: Seq<char>| dict_value(m, k))
}

/// In a well-formed dictionary, the entry at any index agrees with `dict_value`.
pub proof fn lemma_dict_value_at<T>(m: Seq<(Seq<char>, T)>, i: int)
    requires
        dict_wf(m),
        0 <= i < m.len(),
    ensures
        dict_contains(m, m[i].0),
        dict_value(m, m[i].0) == m[i].1,
{
    let k = m[i].0;
    let j = choose|j: int| 0 <= j < m.len() && m[j].0 == k;
    assert(j == i);
}

impl<V: View> Dict<V> {
    /// An empty dictionary.
    pub fn empty() -> (r: Self)
        ensures
            r@ =~= Seq::<(Seq<char>, V::V)>::empty(),
            dict_wf(r@),
    {
        let entries: Vec<(String, V)> = Vec::new();
        let r = Dict { entries };
        proof {
            assert(r.entries@.map_values(|e: (String, V)| (e.0@, e.1@)).len() == 0);
        }
        r
    }

    /// The number of entries.
    pub fn len(&self) -> (r: usize)
        ensures
            r == self@.len(),
    {
        self.entries.len()
    }

    /// The index of the entry for `k`, if any.
    pub fn index_of(&self, k: &String) -> (r: Option<usize>)
        ensures
            match r {
                Some(i) => i < self@.len() && self@[i as int].0 == k@,
                None => !dict_contains(self@, k@),
            },
    {
        let n = self.entries.len();
        let mut i: usize = 0;
        while i < n
            invariant
                n == self@.len(),
                i <= n,
                forall|j: int| 0 <= j < i ==> self@[j].0 != k@,
            decreases n - i,
        {
            if self.entries[i].0 == *k {
                return Some(i);
            }
            i = i + 1;
        }
        None
    }

    /// Borrow the value bound to `k`, if any.
    pub fn get(&self, k: &String) -> (r: Option<&V>)
        requires
            dict_wf(self@),
        ensures
            match r {
                Some(v) => dict_contains(self@, k@) && v@ == dict_value(self@, k@),
                None => !dict_contains(self@, k@),
            },
    {
        match self.index_of(k) {
            Some(i) => {
                proof {
                    lemma_dict_value_at(self@, i as int);
                }
                Some(&self.entries[i].1)
            },
            None => None,
        }
    }

    /// Append an entry for a key not yet present.
    pub fn push(&mut self, k: String, v: V)
        requires
            !dict_contains(old(self)@, k@),
        ensures
            final(self)@ =~= old(self)@.push((k@, v@)),
    {
        self.entries.push((k, v));
        proof {
            assert(final(self).entries@ == old(self).entries@.push((k, v)));
        }
    }

    /// Bind `k` to `v`: replace the existing entry's value in place, or
    /// append a new entry.
    pub fn set(&mut self, k: String, v: V)
        requires
            dict_wf(old(self)@),
        ensures
            dict_wf(final(self)@),
            dict_map(final(self)@) =~= dict_map(old(self)@).insert(k@, v@),
    {
        match self.index_of(&k) {
            Some(i) => {
                proof {
                    lemma_dict_map_update(self@, i as int, v@);
                    lemma_dict_update_wf(self@, i as int, v@);
                }
                self.set_value_at(i, v);
            },
            None => {
                proof {
                    lemma_dict_map_push(self@, k@, v@);
                    lemma_dict_push_wf(self@, k@, v@);
                }
                self.push(k, v);
            },
        }
    }

    /// Replace the value of the entry at index `i`.
    pub fn set_value_at(&mut self, i: usize, v: V)
        requires
            i < old(self)@.len(),
        ensures
            final(self)@ =~= old(self)@.update(i as int, (old(self)@[i as int].0, v@)),
    {
        let k = self.entries[i].0.clone();
        self.entries[i] = (k, v);
    }
}

/// Updating a value in place re-binds that key and nothing else.
pub proof fn lemma_dict_map_update<T>(m: Seq<(Seq<char>, T)>, i: int, v: T)
    requires
        dict_wf(m),
        0 <= i < m.len(),
    ensures
        dict_map(m.update(i, (m[i].0, v))) =~= dict_map(m).insert(m[i].0, v),
{
    let m2 = m.update(i, (m[i].0, v));
    lemma_dict_update_wf(m, i, v);
    assert forall|k: Seq<char>| #![auto] dict_contains(m2, k) == dict_contains(m, k) by {
        if dict_contains(m2, k) {
            let j = choose|j: int| 0 <= j < m2.len() && m2[j].0 == k;
            assert(m[j].0 == k);
        }
        if dict_contains(m, k) {
            let j = choose|j: int| 0 <= j < m.len() && m[j].0 == k;
            assert(m2[j].0 == k);
        }
    }
    assert forall|k: Seq<char>| #[trigger]
        dict_contains(m2, k) implies dict_value(m2, k) == dict_map(m).insert(m[i].0, v)[k] by {
        let j = choose|j: int| 0 <= j < m2.len() && m2[j].0 == k;
        lemma_dict_value_at(m2, j);
        if k == m[i].0 {
            assert(j == i);
        } else {
            assert(j != i);
            lemma_dict_value_at(m, j);
        }
    }
}

/// Appending a fresh key binds it and nothing else.
pub proof fn lemma_dict_map_push<T>(m: Seq<(Seq<char>, T)>, k: Seq<char>, v: T)
    requires
        dict_wf(m),
        !dict_contains(m, k),
    ensures
        dict_map(m.push((k, v))) =~= dict_map(m).insert(k, v),
{
    let m2 = m.push((k, v));
    lemma_dict_push_wf(m, k, v);
    assert forall|kk: Seq<char>| #![auto]
        dict_contains(m2, kk) == (dict_contains(m, kk) || kk == k) by {
        if dict_contains(m2, kk) {
            let j = choose|j: int| 0 <= j < m2.len() && m2[j].0 == kk;
            if j < m.len() {
                assert(m[j].0 == kk);
            }
        }
        if dict_contains(m, kk) {
            let j = choose|j: int| 0 <= j < m.len() && m[j].0 == kk;
            assert(m2[j].0 == kk);
        }
        assert(m2[m.len() as int].0 == k);
    }
    assert forall|kk: Seq<char>| #[trigger]
        dict_contains(m2, kk) implies dict_value(m2, kk) == dict_map(m).insert(k, v)[kk] by {
        let j = choose|j: int| 0 <= j < m2.len() && m2[j].0 == kk;
        lemma_dict_value_at(m2, j);
        if kk == k {
            assert(j == m.len());
        } else {
            assert(j < m.len());
            lemma_dict_value_at(m, j);
        }
    }
}

impl Dict<Value<String>> {
    /// A copy with the same entries.
    pub fn duplicate(&self) -> (r: Self)
        ensures
            r@ == self@,
    {
        let n = self.entries.len();
        let mut entries: Vec<(String, Value<String>)> = Vec::new();
        let mut i: usize = 0;
        while i < n
            invariant
                n == self.entries@.len(),
                i <= n,
                entries@.len() == i,
                forall|j: int| #![auto]
                    0 <= j < i ==> entries@[j].0@ == self.entries@[j].0@ && entries@[j].1@
                        == self.entries@[j].1@,
            decreases n - i,
        {
            let k = self.entries[i].0.clone();
            let v = self.entries[i].1.dup();
            entries.push((k, v));
            i = i + 1;
        }
        let r = Dict { entries };
        proof {
            assert(r@ =~= self@);
        }
        r
    }
}

/// Well-formedness is kept by `push`.
pub proof fn lemma_dict_push_wf<T>(m: Seq<(Seq<char>, T)>, k: Seq<char>, v: T)
    requires
        dict_wf(m),
        !dict_contains(m, k),
    ensures
        dict_wf(m.push((k, v))),
{
    let m2 = m.push((k, v));
    assert forall|i: int, j: int| 0 <= i < j < m2.len() implies m2[i].0 != m2[j].0 by {
        if j == m.len() {
            assert(m2[i].0 == m[i].0);
            assert(dict_contains(m, m[i].0));
        }
    }
}

/// Well-formedness is kept by updating a value in place.
pub proof fn lemma_dict_update_wf<T>(m: Seq<(Seq<char>, T)>, i: int, v: T)
    requires
        dict_wf(m),
        0 <= i < m.len(),
    ensures
        dict_wf(m.update(i, (m[i].0, v))),
{
}

} // verus!
