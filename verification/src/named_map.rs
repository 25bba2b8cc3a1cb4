//! The canonical container: an associative map from name strings to values.
//!
//! `NamedMap<T>` is a value type with map semantics, backed by a vector of
//! key/value pairs whose keys are pairwise distinct. Its mathematical view is
//! a `Map<Seq<char>, T>`.

use vstd::prelude::*;

verus! {

broadcast use vstd::std_specs::vec::group_vec_axioms;

/// Whether some entry of `s` has key `k`.
pub open spec fn has_key<T>(s: Seq<(String, T)>, k: Seq<char>) -> bool {
    exists|i: int| 0 <= i < s.len() && s[i].0@ == k
}

/// Whether the keys of the entry list are pairwise distinct.
pub open spec fn keys_unique<T>(s: Seq<(String, T)>) -> bool {
    forall|i: int, j: int|
        #![trigger s[i], s[j]]
        0 <= i < j < s.len() ==> s[i].0@ != s[j].0@
}

/// The association map an entry list denotes; a later entry wins over an
/// earlier one with the same key.
pub open spec fn entries_map<T>(s: Seq<(String, T)>) -> Map<Seq<char>, T>
    decreases s.len(),
{
    if s.len() == 0 {
        Map::empty()
    } else {
        entries_map(s.drop_last()).insert(s.last().0@, s.last().1)
    }
}

pub proof fn lemma_keys_unique_drop_last<T>(s: Seq<(String, T)>)
    requires
        keys_unique(s),
        s.len() > 0,
    ensures
        keys_unique(s.drop_last()),
{
    assert forall|a: int, b: int|
        #![trigger s.drop_last()[a], s.drop_last()[b]]
        0 <= a < b < s.drop_last().len() implies s.drop_last()[a].0@ != s.drop_last()[b].0@ by {
        assert(s.drop_last()[a] == s[a]);
        assert(s.drop_last()[b] == s[b]);
    }
}

/// A key is in the denoted map exactly when some entry carries it.
pub proof fn lemma_entries_map_dom<T>(s: Seq<(String, T)>, k: Seq<char>)
    ensures
        entries_map(s).contains_key(k) <==> has_key(s, k),
    decreases s.len(),
{
    if s.len() == 0 {
    } else {
        lemma_entries_map_dom(s.drop_last(), k);
        if s.last().0@ == k {
            assert(s[s.len() - 1] == s.last());
            assert(has_key(s, k));
        } else {
            if has_key(s, k) {
                let i = choose|i: int| 0 <= i < s.len() && s[i].0@ == k;
                assert(i != s.len() - 1);
                assert(s.drop_last()[i] == s[i]);
                assert(has_key(s.drop_last(), k));
            }
            if has_key(s.drop_last(), k) {
                let i = choose|i: int| 0 <= i < s.drop_last().len() && s.drop_last()[i].0@ == k;
                assert(s[i] == s.drop_last()[i]);
                assert(has_key(s, k));
            }
        }
    }
}

/// With distinct keys, the denoted map sends each entry's key to its value.
pub proof fn lemma_entries_map_at<T>(s: Seq<(String, T)>, i: int)
    requires
        keys_unique(s),
        0 <= i < s.len(),
    ensures
        entries_map(s).contains_key(s[i].0@),
        entries_map(s)[s[i].0@] == s[i].1,
    decreases s.len(),
{
    if i == s.len() - 1 {
        assert(s.last() == s[i]);
    } else {
        lemma_keys_unique_drop_last(s);
        assert(s.drop_last()[i] == s[i]);
        lemma_entries_map_at(s.drop_last(), i);
        assert(s.last() == s[s.len() - 1]);
        assert(s.last().0@ != s[i].0@);
    }
}

/// Overwriting the entry that carries a key denotes a plain map insert.
proof fn lemma_entries_map_update<T>(s: Seq<(String, T)>, j: int, p: (String, T))
    requires
        keys_unique(s),
        0 <= j < s.len(),
        p.0@ == s[j].0@,
    ensures
        entries_map(s.update(j, p)) == entries_map(s).insert(p.0@, p.1),
    decreases s.len(),
{
    let s2 = s.update(j, p);
    if j == s.len() - 1 {
        assert(s2.drop_last() =~= s.drop_last());
        assert(s2.last() == p);
        assert(entries_map(s2) =~= entries_map(s).insert(p.0@, p.1));
    } else {
        lemma_keys_unique_drop_last(s);
        assert(s.drop_last()[j] == s[j]);
        lemma_entries_map_update(s.drop_last(), j, p);
        assert(s2.drop_last() =~= s.drop_last().update(j, p));
        assert(s2.last() == s.last());
        assert(s.last() == s[s.len() - 1]);
        assert(s.last().0@ != p.0@);
        assert(entries_map(s2) =~= entries_map(s).insert(p.0@, p.1));
    }
}

/// Removing the entry that carries a key denotes a plain map removal.
proof fn lemma_entries_map_remove<T>(s: Seq<(String, T)>, j: int)
    requires
        keys_unique(s),
        0 <= j < s.len(),
    ensures
        entries_map(s.remove(j)) == entries_map(s).remove(s[j].0@),
        keys_unique(s.remove(j)),
    decreases s.len(),
{
    let k = s[j].0@;
    let s2 = s.remove(j);
    assert forall|a: int, b: int|
        #![trigger s2[a], s2[b]]
        0 <= a < b < s2.len() implies s2[a].0@ != s2[b].0@ by {
        if a < j {
            assert(s2[a] == s[a]);
        } else {
            assert(s2[a] == s[a + 1]);
        }
        if b < j {
            assert(s2[b] == s[b]);
        } else {
            assert(s2[b] == s[b + 1]);
        }
    }
    if j == s.len() - 1 {
        assert(s2 =~= s.drop_last());
        lemma_keys_unique_drop_last(s);
        lemma_entries_map_dom(s.drop_last(), k);
        if has_key(s.drop_last(), k) {
            let i = choose|i: int| 0 <= i < s.drop_last().len() && s.drop_last()[i].0@ == k;
            assert(s[i].0@ == k);
            assert(s[s.len() - 1].0@ == k);
            assert(false);
        }
        assert(entries_map(s.remove(j)) =~= entries_map(s).remove(k));
    } else {
        lemma_keys_unique_drop_last(s);
        assert(s.drop_last()[j] == s[j]);
        lemma_entries_map_remove(s.drop_last(), j);
        assert(s2.drop_last() =~= s.drop_last().remove(j));
        assert(s2.last() == s.last());
        assert(s.last() == s[s.len() - 1]);
        assert(s.last().0@ != k);
        assert(entries_map(s2) =~= entries_map(s).remove(k));
    }
}

/// The association map denoted by a list of already-abstracted entries;
/// a later entry wins over an earlier one with the same key.
pub open spec fn views_map<V>(es: Seq<(Seq<char>, V)>) -> Map<Seq<char>, V>
    decreases es.len(),
{
    if es.len() == 0 {
        Map::empty()
    } else {
        views_map(es.drop_last()).insert(es.last().0, es.last().1)
    }
}

/// Mapping the values of a map commutes with inserting.
pub proof fn lemma_map_values_insert<K, V, W>(m: Map<K, V>, k: K, v: V, f: spec_fn(V) -> W)
    ensures
        m.insert(k, v).map_values(f) == m.map_values(f).insert(k, f(v)),
{
    assert(m.insert(k, v).map_values(f) =~= m.map_values(f).insert(k, f(v)));
}

/// A map of named items: unique name strings associated with values of `T`.
///
/// Created empty, populated by `insert` or by a decode, and always encoded
/// back out in the detailed mapping shape.
///
/// The derived `==` compares the entry list, insertion order included, so
/// two maps holding the same associations built in different orders are
/// distinguishable through it. The associations themselves are compared by
/// the view (`@`, a `Map`), which every contract here speaks of; order is
/// not semantic.
#[derive(Debug, PartialEq, Eq)]
pub struct NamedMap<T> {
    entries: Vec<(String, T)>,
}

impl<T> View for NamedMap<T> {
    type V = Map<Seq<char>, T>;

    open spec fn view(&self) -> Map<Seq<char>, T> {
        entries_map(self.entries_seq())
    }
}

impl<T: DeepView> DeepView for NamedMap<T> {
    type V = Map<Seq<char>, T::V>;

    open spec fn deep_view(&self) -> Map<Seq<char>, T::V> {
        self.view().map_values(|t: T| t.deep_view())
    }
}

impl<T: DeepView> NamedMap<T> {
    /// The entry list with keys and values abstracted to their views.
    pub open spec fn deep_entries(&self) -> Seq<(Seq<char>, T::V)> {
        self.entries_seq().map_values(|e: (String, T)| (e.0@, e.1.deep_view()))
    }
}

/// The abstracted entry list denotes the deep view of the map.
pub proof fn lemma_views_map_entries<T: DeepView>(s: Seq<(String, T)>)
    ensures
        views_map(s.map_values(|e: (String, T)| (e.0@, e.1.deep_view()))) == entries_map(
            s,
        ).map_values(|t: T| t.deep_view()),
    decreases s.len(),
{
    let f = |e: (String, T)| (e.0@, e.1.deep_view());
    let g = |t: T| t.deep_view();
    if s.len() == 0 {
        assert(s.map_values(f) =~= Seq::<(Seq<char>, T::V)>::empty());
        assert(entries_map(s).map_values(g) =~= Map::<Seq<char>, T::V>::empty());
    } else {
        lemma_views_map_entries::<T>(s.drop_last());
        let ds = s.map_values(f);
        assert(ds.drop_last() =~= s.drop_last().map_values(f));
        assert(ds.last() == f(s.last()));
        lemma_map_values_insert(entries_map(s.drop_last()), s.last().0@, s.last().1, g);
    }
}

/// `views_map` of a map's abstracted entries is its deep view.
pub proof fn lemma_deep_view_entries<T: DeepView>(m: &NamedMap<T>)
    ensures
        views_map(m.deep_entries()) == m.deep_view(),
{
    lemma_views_map_entries::<T>(m.entries_seq());
}

impl<T> NamedMap<T> {
    /// The underlying entry list, in insertion order.
    pub closed spec fn entries_seq(&self) -> Seq<(String, T)> {
        self.entries@
    }

    /// Well-formed: no two entries carry the same name.
    pub open spec fn wf(&self) -> bool {
        keys_unique(self.entries_seq())
    }

    /// Creates an empty `NamedMap`.
    pub fn new() -> (r: Self)
        ensures
            r.wf(),
            r@ == Map::<Seq<char>, T>::empty(),
            r.entries_seq() == Seq::<(String, T)>::empty(),
    {
        NamedMap { entries: Vec::new() }
    }

    /// The position of the entry carrying `key`, if any.
    fn find_index(&self, key: &String) -> (r: Option<usize>)
        ensures
            match r {
                Some(j) => j < self.entries_seq().len() && self.entries_seq()[j as int].0@
                    == key@,
                None => !has_key(self.entries_seq(), key@),
            },
    {
        let mut j: usize = 0;
        while j < self.entries.len()
            invariant
                j <= self.entries@.len(),
                forall|i: int| 0 <= i < j ==> self.entries@[i].0@ != key@,
            decreases self.entries@.len() - j,
        {
            if self.entries[j].0 == *key {
                return Some(j);
            }
            j = j + 1;
        }
        None
    }

    /// Inserts or overwrites the association for `key`.
    pub fn insert(&mut self, key: String, value: T)
        requires
            old(self).wf(),
        ensures
            final(self).wf(),
            final(self)@ == old(self)@.insert(key@, value),
    {
        let found = self.find_index(&key);
        let ghost s0 = self.entries@;
        let ghost k = key@;
        let ghost vv = value;
        match found {
            Some(j) => {
                self.entries[j] = (key, value);
                proof {
                    let p = self.entries@[j as int];
                    assert(p.0@ == k && p.1 == vv);
                    assert(self.entries@ =~= s0.update(j as int, p));
                    lemma_entries_map_update(s0, j as int, p);
                    assert forall|a: int, b: int|
                        #![trigger self.entries@[a], self.entries@[b]]
                        0 <= a < b < self.entries@.len() implies self.entries@[a].0@
                        != self.entries@[b].0@ by {
                        if a != j && b != j {
                            assert(self.entries@[a] == s0[a]);
                            assert(self.entries@[b] == s0[b]);
                        } else if a == j {
                            assert(self.entries@[b] == s0[b]);
                            assert(s0[j as int].0@ != s0[b].0@);
                        } else {
                            assert(self.entries@[a] == s0[a]);
                            assert(s0[a].0@ != s0[j as int].0@);
                        }
                    }
                }
            },
            None => {
                self.entries.push((key, value));
                proof {
                    let s1 = self.entries@;
                    assert(s1.drop_last() =~= s0);
                    assert(s1.last().0@ == k && s1.last().1 == vv);
                    assert(entries_map(s1) =~= entries_map(s0).insert(k, vv));
                    assert forall|a: int, b: int|
                        #![trigger s1[a], s1[b]]
                        0 <= a < b < s1.len() implies s1[a].0@ != s1[b].0@ by {
                        if b == s1.len() - 1 {
                            assert(s1[a] == s0[a]);
                            assert(!(0 <= a < s0.len() && s0[a].0@ == k));
                        } else {
                            assert(s1[a] == s0[a]);
                            assert(s1[b] == s0[b]);
                        }
                    }
                }
            },
        }
    }

    /// Looks up the value associated with `name`.
    pub fn get(&self, name: &String) -> (r: Option<&T>)
        requires
            self.wf(),
        ensures
            match r {
                Some(v) => self@.contains_key(name@) && *v == self@[name@],
                None => !self@.contains_key(name@),
            },
    {
        let found = self.find_index(name);
        match found {
            Some(j) => {
                proof {
                    lemma_entries_map_at(self.entries@, j as int);
                }
                Some(&self.entries[j].1)
            },
            None => {
                proof {
                    lemma_entries_map_dom(self.entries@, name@);
                }
                None
            },
        }
    }

    /// Removes the association for `name`, returning its value if present.
    pub fn remove(&mut self, name: &String) -> (r: Option<T>)
        requires
            old(self).wf(),
        ensures
            final(self).wf(),
            final(self)@ == old(self)@.remove(name@),
            match r {
                Some(v) => old(self)@.contains_key(name@) && v == old(self)@[name@],
                None => !old(self)@.contains_key(name@),
            },
    {
        let found = self.find_index(name);
        let ghost s0 = self.entries@;
        match found {
            Some(j) => {
                proof {
                    lemma_entries_map_remove(s0, j as int);
                    lemma_entries_map_at(s0, j as int);
                }
                let p = self.entries.remove(j);
                Some(p.1)
            },
            None => {
                proof {
                    lemma_entries_map_dom(s0, name@);
                    assert(entries_map(s0).remove(name@) =~= entries_map(s0));
                }
                None
            },
        }
    }

    /// Returns `true` if the map contains no elements.
    pub fn is_empty(&self) -> (r: bool)
        ensures
            r == (self@ == Map::<Seq<char>, T>::empty()),
    {
        let r = self.entries.is_empty();
        proof {
            let s = self.entries@;
            if s.len() == 0 {
                assert(entries_map(s) == Map::<Seq<char>, T>::empty());
            } else {
                assert(entries_map(s).contains_key(s.last().0@));
                assert(!Map::<Seq<char>, T>::empty().contains_key(s.last().0@));
            }
        }
        r
    }

    /// The number of entries.
    pub fn len(&self) -> (r: usize)
        requires
            self.wf(),
        ensures
            r == self.entries_seq().len(),
    {
        self.entries.len()
    }

    /// Consumes the map and returns the inner entry list.
    pub fn into_inner(self) -> (r: Vec<(String, T)>)
        ensures
            r@ == self.entries_seq(),
    {
        self.entries
    }

    /// Returns a reference to the inner entry list.
    pub fn as_inner(&self) -> (r: &Vec<(String, T)>)
        ensures
            r@ == self.entries_seq(),
    {
        &self.entries
    }

    /// Returns a mutable reference to the inner entry list.
    ///
    /// Direct mutation bypasses the distinct-keys invariant that `insert`
    /// maintains; this is an explicit trust boundary for interoperability,
    /// and well-formedness must be re-established by the caller.
    pub fn as_inner_mut(&mut self) -> (r: &mut Vec<(String, T)>)
        ensures
            r@ == old(self).entries_seq(),
            final(self).entries_seq() == final(r)@,
    {
        &mut self.entries
    }
}

impl<T> Default for NamedMap<T> {
    /// An empty `NamedMap`.
    fn default() -> (r: Self)
        ensures
            r.wf(),
            r@ == Map::<Seq<char>, T>::empty(),
    {
        NamedMap::new()
    }
}

} // verus!
