//! A name-keyed map stored as a vector of entries in first-insertion order,
//! with unique keys. It stands in for an ordered map of strings, viewed as a
//! `Map<Seq<char>, _>`.

use vstd::prelude::*;
use vstd::map::*;

use crate::text::chars_of;
use crate::text::eq_chars;

verus! {

/// No two entries share a key.
pub open spec fn unique_keys<T>(s: Seq<(Seq<char>, T)>) -> bool {
    forall|i: int, j: int| 0 <= i < j < s.len() ==> s[i].0 != s[j].0
}

/// The map holding exactly the entries of `s`, later entries overriding.
pub open spec fn map_of<T>(s: Seq<(Seq<char>, T)>) -> Map<Seq<char>, T>
    decreases s.len(),
{
    if s.len() == 0 {
        Map::empty()
    } else {
        map_of(s.drop_last()).insert(s.last().0, s.last().1)
    }
}

/// A key is in `map_of(s)` exactly when some entry holds it.
pub proof fn lemma_map_of_key<T>(s: Seq<(Seq<char>, T)>, k: Seq<char>)
    ensures
        map_of(s).contains_key(k) <==> exists|i: int| 0 <= i < s.len() && s[i].0 == k,
    decreases s.len(),
{
    if s.len() > 0 {
        lemma_map_of_key(s.drop_last(), k);
        if s.last().0 == k {
            assert(s[s.len() - 1].0 == k);
        } else if map_of(s).contains_key(k) {
            let i = choose|i: int| 0 <= i < s.drop_last().len() && s.drop_last()[i].0 == k;
            assert(s[i].0 == k);
        } else {
            assert(forall|i: int|
                0 <= i < s.drop_last().len() ==> s.drop_last()[i] == s[i]);
        }
    }
}

/// With unique keys, `map_of` maps each entry's key to its value.
pub proof fn lemma_map_of_get<T>(s: Seq<(Seq<char>, T)>, i: int)
    requires
        unique_keys(s),
        0 <= i < s.len(),
    ensures
        map_of(s).contains_key(s[i].0),
        map_of(s)[s[i].0] == s[i].1,
    decreases s.len(),
{
    if i == s.len() - 1 {
    } else {
        assert(unique_keys(s.drop_last())) by {
            assert(forall|a: int, b: int|
                0 <= a < b < s.drop_last().len() ==> s.drop_last()[a].0 == s[a].0
                    && s.drop_last()[b].0 == s[b].0);
        }
        assert(s.drop_last()[i] == s[i]);
        lemma_map_of_get(s.drop_last(), i);
        assert(s[i].0 != s.last().0);
    }
}

/// Appending an entry inserts its key.
pub proof fn lemma_map_of_push<T>(s: Seq<(Seq<char>, T)>, k: Seq<char>, v: T)
    ensures
        map_of(s.push((k, v))) == map_of(s).insert(k, v),
{
    assert(s.push((k, v)).drop_last() =~= s);
    assert(s.push((k, v)).last() == (k, v));
}

/// Replacing the entry that holds key `k` re-inserts that key.
pub proof fn lemma_map_of_update<T>(s: Seq<(Seq<char>, T)>, i: int, k: Seq<char>, v: T)
    requires
        unique_keys(s),
        0 <= i < s.len(),
        s[i].0 == k,
    ensures
        map_of(s.update(i, (k, v))) == map_of(s).insert(k, v),
    decreases s.len(),
{
    let t = s.update(i, (k, v));
    if i == s.len() - 1 {
        assert(t.drop_last() =~= s.drop_last());
        assert(t.last() == (k, v));
        assert(map_of(s.drop_last()).insert(s.last().0, s.last().1).insert(k, v)
            =~= map_of(s.drop_last()).insert(k, v));
    } else {
        assert(unique_keys(s.drop_last())) by {
            assert(forall|a: int, b: int|
                0 <= a < b < s.drop_last().len() ==> s.drop_last()[a].0 == s[a].0
                    && s.drop_last()[b].0 == s[b].0);
        }
        assert(s.drop_last()[i] == s[i]);
        lemma_map_of_update(s.drop_last(), i, k, v);
        assert(t.drop_last() =~= s.drop_last().update(i, (k, v)));
        assert(t.last() == s.last());
        assert(s.last().0 != k);
        assert(map_of(s.drop_last()).insert(k, v).insert(s.last().0, s.last().1)
            =~= map_of(s.drop_last()).insert(s.last().0, s.last().1).insert(k, v));
    }
}

/// Removing the entry that holds key `k` removes that key.
pub proof fn lemma_map_of_remove<T>(s: Seq<(Seq<char>, T)>, i: int, k: Seq<char>)
    requires
        unique_keys(s),
        0 <= i < s.len(),
        s[i].0 == k,
    ensures
        map_of(s.remove(i)) == map_of(s).remove(k),
    decreases s.len(),
{
    if i == s.len() - 1 {
        assert(s.remove(i) =~= s.drop_last());
        lemma_map_of_key(s.drop_last(), k);
        assert(forall|a: int|
            0 <= a < s.drop_last().len() ==> s.drop_last()[a].0 == s[a].0);
        assert(!map_of(s.drop_last()).contains_key(k));
        assert(map_of(s.drop_last()).insert(k, s.last().1).remove(k) =~= map_of(s.drop_last()));
    } else {
        assert(unique_keys(s.drop_last())) by {
            assert(forall|a: int, b: int|
                0 <= a < b < s.drop_last().len() ==> s.drop_last()[a].0 == s[a].0
                    && s.drop_last()[b].0 == s[b].0);
        }
        assert(s.drop_last()[i] == s[i]);
        lemma_map_of_remove(s.drop_last(), i, k);
        assert(s.remove(i).drop_last() =~= s.drop_last().remove(i));
        assert(s.remove(i).last() == s.last());
        assert(s.last().0 != k);
        assert(map_of(s.drop_last()).remove(k).insert(s.last().0, s.last().1) =~= map_of(
            s.drop_last(),
        ).insert(s.last().0, s.last().1).remove(k));
    }
}

/// A name-keyed map with unique keys, kept in first-insertion order.
#[derive(Debug)]
pub struct NameMap<V> {
    pub entries: Vec<(String, V)>,
}

impl<V: View> View for NameMap<V> {
    type V = Map<Seq<char>, V::V>;

    open spec fn view(&self) -> Map<Seq<char>, V::V> {
        map_of(self.entries_view())
    }
}

impl<V: View> NameMap<V> {
    /// The entries, with both keys and values viewed.
    pub open spec fn entries_view(&self) -> Seq<(Seq<char>, V::V)> {
        Seq::new(self.entries@.len(), |i: int| (self.entries@[i].0@, self.entries@[i].1@))
    }

    /// Keys are unique.
    pub open spec fn wf(&self) -> bool {
        unique_keys(self.entries_view())
    }

    /// An empty map.
    pub fn new() -> (r: Self)
        ensures
            r@ == Map::<Seq<char>, V::V>::empty(),
            r.wf(),
            r.entries_view() == Seq::<(Seq<char>, V::V)>::empty(),
    {
        let r = NameMap { entries: Vec::new() };
        proof {
            assert(r.entries_view() =~= Seq::<(Seq<char>, V::V)>::empty());
        }
        r
    }

    /// The number of entries.
    pub fn len(&self) -> (n: usize)
        ensures
            n == self.entries_view().len(),
    {
        self.entries.len()
    }

    /// The name of the entry at `i`.
    pub fn key_at(&self, i: usize) -> (k: &String)
        requires
            i < self.entries_view().len(),
        ensures
            k@ == self.entries_view()[i as int].0,
    {
        &self.entries[i].0
    }

    /// The value of the entry at `i`.
    pub fn val_at(&self, i: usize) -> (v: &V)
        requires
            i < self.entries_view().len(),
        ensures
            v@ == self.entries_view()[i as int].1,
    {
        &self.entries[i].1
    }

    /// The position of the entry named `name`, if any.
    pub(crate) fn index_of(&self, name: &str) -> (r: Option<usize>)
        ensures
            r matches Some(i) ==> 0 <= i < self.entries_view().len()
                && self.entries_view()[i as int].0 == name@,
            r is None ==> forall|j: int|
                0 <= j < self.entries_view().len() ==> self.entries_view()[j].0 != name@,
    {
        let nc = chars_of(name);
        let n = self.entries.len();
        for i in 0..n
            invariant
                n == self.entries.len(),
                nc@ == name@,
                forall|j: int| 0 <= j < i ==> self.entries_view()[j].0 != name@,
        {
            let kc = chars_of(self.entries[i].0.as_str());
            if eq_chars(&kc, &nc) {
                proof {
                    assert(self.entries_view()[i as int].0 == self.entries@[i as int].0@);
                }
                return Some(i);
            }
            proof {
                assert(self.entries_view()[i as int].0 == self.entries@[i as int].0@);
            }
        }
        None
    }

    /// Whether an entry named `name` exists.
    pub fn contains_key(&self, name: &str) -> (r: bool)
        ensures
            r == self@.contains_key(name@),
    {
        proof {
            lemma_map_of_key(self.entries_view(), name@);
        }
        match self.index_of(name) {
            Some(_) => true,
            None => false,
        }
    }

    /// The value stored under `name`, if any.
    pub fn get(&self, name: &str) -> (r: Option<&V>)
        requires
            self.wf(),
        ensures
            r is Some <==> self@.contains_key(name@),
            r matches Some(v) ==> self@.contains_key(name@) && v@ == self@[name@],
    {
        proof {
            lemma_map_of_key(self.entries_view(), name@);
        }
        match self.index_of(name) {
            Some(i) => {
                proof {
                    lemma_map_of_get(self.entries_view(), i as int);
                }
                Some(&self.entries[i].1)
            },
            None => None,
        }
    }

    /// Stores `val` under `name`; a later insert of the same name overwrites,
    /// keeping the entry's original position.
    pub fn insert(&mut self, name: String, val: V)
        requires
            old(self).wf(),
        ensures
            final(self).wf(),
            final(self)@ == old(self)@.insert(name@, val@),
    {
        match self.index_of(name.as_str()) {
            Some(i) => {
                let ghost s0 = self.entries_view();
                self.entries.remove(i);
                self.entries.insert(i, (name, val));
                proof {
                    assert(self.entries_view() =~= s0.update(i as int, (name@, val@)));
                    lemma_map_of_update(s0, i as int, name@, val@);
                    assert(unique_keys(self.entries_view())) by {
                        assert(forall|a: int|
                            0 <= a < s0.len() && a != i ==> self.entries_view()[a].0 == s0[a].0);
                    }
                }
            },
            None => {
                let ghost s0 = self.entries_view();
                self.entries.push((name, val));
                proof {
                    assert(self.entries_view() =~= s0.push((name@, val@)));
                    lemma_map_of_push(s0, name@, val@);
                    assert(unique_keys(self.entries_view())) by {
                        assert(forall|a: int|
                            0 <= a < s0.len() ==> self.entries_view()[a].0 == s0[a].0);
                        assert(self.entries_view()[s0.len() as int].0 == name@);
                    }
                }
            },
        }
    }

    /// Removes the entry named `name`, if present.
    pub fn remove_key(&mut self, name: &str)
        requires
            old(self).wf(),
        ensures
            final(self).wf(),
            final(self)@ == old(self)@.remove(name@),
    {
        match self.index_of(name) {
            Some(i) => {
                let ghost s0 = self.entries_view();
                self.entries.remove(i);
                proof {
                    assert(self.entries_view() =~= s0.remove(i as int));
                    lemma_map_of_remove(s0, i as int, name@);
                    assert(unique_keys(self.entries_view())) by {
                        assert(forall|a: int|
                            0 <= a < self.entries_view().len() ==> (if a < i {
                                self.entries_view()[a].0 == s0[a].0
                            } else {
                                self.entries_view()[a].0 == s0[a + 1].0
                            }));
                    }
                }
            },
            None => {
                proof {
                    lemma_map_of_key(self.entries_view(), name@);
                    assert(!self@.contains_key(name@));
                    assert(self@ =~= self@.remove(name@));
                }
            },
        }
    }
}

} // verus!
