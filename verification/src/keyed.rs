//! A map from text keys to values, held in the order of its keys.

use crate::text::{
    compare_text, lemma_order_facts, lemma_text_lt_transitive, strictly_ascending, text_lt, Order,
};
use vstd::prelude::*;
use vstd::string::StringExecFns;

verus! {

/// The keys of a list of entries.
pub open spec fn keys_of<W>(m: Seq<(Seq<char>, W)>) -> Seq<Seq<char>> {
    m.map_values(|e: (Seq<char>, W)| e.0)
}

/// Whether some entry has the key.
pub open spec fn has_key<W>(m: Seq<(Seq<char>, W)>, key: Seq<char>) -> bool {
    exists|i: int| 0 <= i < m.len() && (#[trigger] m[i]).0 == key
}

/// The place of an entry with the key, where there is one.
pub open spec fn key_index<W>(m: Seq<(Seq<char>, W)>, key: Seq<char>) -> int {
    choose|i: int| 0 <= i < m.len() && (#[trigger] m[i]).0 == key
}

/// The value under a key.
pub open spec fn lookup<W>(m: Seq<(Seq<char>, W)>, key: Seq<char>) -> Option<W> {
    if has_key(m, key) {
        Some(m[key_index(m, key)].1)
    } else {
        None
    }
}

/// Whether `i` parts the entries into those whose key stands before `key`
/// and the others.
pub open spec fn is_rank<W>(m: Seq<(Seq<char>, W)>, key: Seq<char>, i: int) -> bool {
    &&& 0 <= i <= m.len()
    &&& forall|j: int| 0 <= j < i ==> text_lt((#[trigger] m[j]).0, key)
    &&& forall|j: int| i <= j < m.len() ==> !text_lt((#[trigger] m[j]).0, key)
}

/// The number of entries whose key stands before `key`.
pub open spec fn rank<W>(m: Seq<(Seq<char>, W)>, key: Seq<char>) -> int {
    choose|i: int| is_rank(m, key, i)
}

/// The entries after `key` was given the value `value`: the entry of the
/// key is replaced, or a new entry takes its place in the order.
pub open spec fn insert_model<W>(m: Seq<(Seq<char>, W)>, key: Seq<char>, value: W) -> Seq<
    (Seq<char>, W),
> {
    if has_key(m, key) {
        m.update(key_index(m, key), (key, value))
    } else {
        m.insert(rank(m, key), (key, value))
    }
}

/// The entries after `item` was added to the list under `key`.
pub open spec fn append_model<T>(m: Seq<(Seq<char>, Seq<T>)>, key: Seq<char>, item: T) -> Seq<
    (Seq<char>, Seq<T>),
> {
    if has_key(m, key) {
        insert_model(m, key, m[key_index(m, key)].1.push(item))
    } else {
        insert_model(m, key, seq![item])
    }
}

/// Only one place parts the entries.
pub proof fn lemma_rank_unique<W>(m: Seq<(Seq<char>, W)>, key: Seq<char>, i: int)
    requires
        is_rank(m, key, i),
    ensures
        rank(m, key) == i,
{
    let r = rank(m, key);
    if r < i {
        assert(text_lt(m[r].0, key));
    } else if i < r {
        assert(text_lt(m[i].0, key));
    }
}

/// In ascending entries a key stands at one place only.
pub proof fn lemma_key_index_unique<W>(m: Seq<(Seq<char>, W)>, key: Seq<char>, i: int)
    requires
        strictly_ascending(keys_of(m)),
        0 <= i < m.len(),
        m[i].0 == key,
    ensures
        has_key(m, key),
        key_index(m, key) == i,
{
    let k = key_index(m, key);
    lemma_order_facts(key, key);
    if k < i {
        assert(text_lt(keys_of(m)[k], keys_of(m)[i]));
    } else if i < k {
        assert(text_lt(keys_of(m)[i], keys_of(m)[k]));
    }
}

/// In ascending entries some place parts the entries at any key.
pub proof fn lemma_rank_exists<W>(m: Seq<(Seq<char>, W)>, key: Seq<char>)
    requires
        strictly_ascending(keys_of(m)),
    ensures
        is_rank(m, key, rank(m, key)),
    decreases m.len(),
{
    if m.len() == 0 {
        assert(is_rank(m, key, 0));
    } else {
        let rest = m.drop_last();
        assert forall|i: int, j: int| 0 <= i < j < rest.len() implies text_lt(
            keys_of(rest)[i],
            keys_of(rest)[j],
        ) by {
            assert(text_lt(keys_of(m)[i], keys_of(m)[j]));
        }
        lemma_rank_exists(rest, key);
        let r = rank(rest, key);
        if text_lt(m.last().0, key) {
            assert forall|j: int| 0 <= j < m.len() implies text_lt((#[trigger] m[j]).0, key) by {
                if j < m.len() - 1 {
                    assert(text_lt(keys_of(m)[j], keys_of(m)[m.len() - 1]));
                    lemma_text_lt_transitive(m[j].0, m.last().0, key);
                }
            }
            assert(is_rank(m, key, m.len() as int));
        } else {
            assert forall|j: int| 0 <= j < r implies text_lt((#[trigger] m[j]).0, key) by {
                assert(text_lt(rest[j].0, key));
            }
            assert forall|j: int| r <= j < m.len() implies !text_lt((#[trigger] m[j]).0, key) by {
                if j < m.len() - 1 {
                    assert(!text_lt(rest[j].0, key));
                }
            }
            assert(is_rank(m, key, r));
        }
    }
}

/// Giving a key a value keeps the entries ascending, and changes the value
/// under that key alone.
pub proof fn lemma_insert_model<W>(m: Seq<(Seq<char>, W)>, key: Seq<char>, value: W)
    requires
        strictly_ascending(keys_of(m)),
    ensures
        strictly_ascending(keys_of(insert_model(m, key, value))),
        lookup(insert_model(m, key, value), key) == Some(value),
        forall|other: Seq<char>|
            other != key ==> #[trigger] lookup(insert_model(m, key, value), other) == lookup(
                m,
                other,
            ),
        forall|other: Seq<char>|
            #[trigger] has_key(insert_model(m, key, value), other) <==> has_key(m, other)
                || other == key,
{
    lemma_rank_exists(m, key);
    lemma_insert_model_lookup(m, key, value);
    let n = insert_model(m, key, value);
    assert forall|other: Seq<char>| has_key(n, other) <==> has_key(m, other) || other
        == key by {
        if other != key {
            assert(lookup(n, other) == lookup(m, other));
        }
    }
}

proof fn lemma_insert_model_lookup<W>(m: Seq<(Seq<char>, W)>, key: Seq<char>, value: W)
    requires
        strictly_ascending(keys_of(m)),
        exists|i: int| is_rank(m, key, i),
    ensures
        strictly_ascending(keys_of(insert_model(m, key, value))),
        lookup(insert_model(m, key, value), key) == Some(value),
        forall|other: Seq<char>|
            other != key ==> lookup(insert_model(m, key, value), other) == lookup(m, other),
{
    let n = insert_model(m, key, value);
    if has_key(m, key) {
        let i = key_index(m, key);
        assert(keys_of(n) =~= keys_of(m));
        lemma_key_index_unique(n, key, i);
        assert forall|other: Seq<char>| other != key implies lookup(n, other) == lookup(
            m,
            other,
        ) by {
            if has_key(m, other) {
                let j = key_index(m, other);
                assert(n[j] == m[j]);
                lemma_key_index_unique(n, other, j);
            } else if has_key(n, other) {
                let j = key_index(n, other);
                assert(m[j].0 == other);
            }
        }
    } else {
        let r = rank(m, key);
        assert(is_rank(m, key, r));
        assert forall|i: int, j: int| 0 <= i < j < n.len() implies text_lt(
            keys_of(n)[i],
            keys_of(n)[j],
        ) by {
            if j < r {
                assert(text_lt(keys_of(m)[i], keys_of(m)[j]));
            } else if j == r {
                assert(text_lt(m[i].0, key));
            } else if i == r {
                assert(!text_lt(m[j - 1].0, key));
                assert(m[j - 1].0 != key);
                lemma_order_facts(m[j - 1].0, key);
            } else if i < r {
                assert(text_lt(keys_of(m)[i], keys_of(m)[j - 1]));
            } else {
                assert(text_lt(keys_of(m)[i - 1], keys_of(m)[j - 1]));
            }
        }
        assert(n[r] == (key, value));
        lemma_key_index_unique(n, key, r);
        assert forall|other: Seq<char>| other != key implies lookup(n, other) == lookup(
            m,
            other,
        ) by {
            if has_key(m, other) {
                let j = key_index(m, other);
                let j2 = if j < r {
                    j
                } else {
                    j + 1
                };
                assert(n[j2] == m[j]);
                lemma_key_index_unique(n, other, j2);
            } else if has_key(n, other) {
                let j = key_index(n, other);
                if j < r {
                    assert(m[j].0 == other);
                } else {
                    assert(m[j - 1].0 == other);
                }
            }
        }
    }
}

/// A map from text keys to values. Its entries stand in the ascending
/// order of their keys, so no key occurs twice.
#[derive(Debug, PartialEq, Eq)]
pub struct KeyedList<V> {
    entries: Vec<(String, V)>,
}

impl<V> KeyedList<V> {
    #[verifier::type_invariant]
    spec fn ordered(self) -> bool {
        strictly_ascending(self.key_texts())
    }

    /// The keys in their order.
    pub closed spec fn key_texts(&self) -> Seq<Seq<char>> {
        self.entries@.map_values(|e: (String, V)| e.0@)
    }
}

impl<V: DeepView> KeyedList<V> {
    /// The keys of the model are the keys.
    pub proof fn lemma_keys(&self)
        ensures
            keys_of(self.model()) == self.key_texts(),
    {
        assert(keys_of(self.model()) =~= self.key_texts());
    }

    /// The entries as mathematics: each key with the deep view of its value.
    pub closed spec fn model(&self) -> Seq<(Seq<char>, V::V)> {
        self.entries@.map_values(|e: (String, V)| (e.0@, e.1.deep_view()))
    }

    /// The map without entries.
    pub fn new() -> (r: Self)
        ensures
            r.model() == Seq::<(Seq<char>, V::V)>::empty(),
    {
        let r = KeyedList { entries: Vec::new() };
        assert(r.model() =~= Seq::<(Seq<char>, V::V)>::empty());
        r
    }

    /// The number of entries.
    pub fn len(&self) -> (n: usize)
        ensures
            n == self.model().len(),
            strictly_ascending(keys_of(self.model())),
    {
        proof {
            use_type_invariant(self);
            self.lemma_keys();
        }
        self.entries.len()
    }

    /// Whether there is no entry.
    pub fn is_empty(&self) -> (b: bool)
        ensures
            b == (self.model().len() == 0),
    {
        self.entries.len() == 0
    }

    /// The key of the entry at place `i`.
    pub fn key_at(&self, i: usize) -> (k: &String)
        requires
            i < self.model().len(),
        ensures
            k@ == self.model()[i as int].0,
    {
        &self.entries[i].0
    }

    /// The value of the entry at place `i`.
    pub fn value_at(&self, i: usize) -> (v: &V)
        requires
            i < self.model().len(),
        ensures
            v.deep_view() == self.model()[i as int].1,
    {
        &self.entries[i].1
    }

    /// Where `key` stands or would stand: the number of entries whose key
    /// stands before it, and whether the entry at that place has the key.
    pub fn position(&self, key: &str) -> (r: (usize, bool))
        ensures
            is_rank(self.model(), key@, r.0 as int),
            r.0 as int == rank(self.model(), key@),
            r.1 == has_key(self.model(), key@),
            r.1 ==> r.0 < self.model().len() && key_index(self.model(), key@) == r.0,
            strictly_ascending(keys_of(self.model())),
    {
        proof {
            use_type_invariant(self);
            self.lemma_keys();
        }
        let ghost m = self.model();
        let mut i: usize = 0;
        while i < self.entries.len()
            invariant_except_break
                forall|j: int| 0 <= j < i ==> text_lt((#[trigger] m[j]).0, key@),
            invariant
                m == self.model(),
                strictly_ascending(keys_of(m)),
                i <= self.entries.len(),
            ensures
                is_rank(m, key@, i as int),
            decreases self.entries.len() - i,
        {
            match compare_text(self.entries[i].0.as_str(), key) {
                Order::Before => {
                    i += 1;
                },
                _ => {
                    proof {
                        assert(m[i as int].0 == self.entries[i as int].0@);
                        assert forall|j: int| i <= j < m.len() implies !text_lt(
                            (#[trigger] m[j]).0,
                            key@,
                        ) by {
                            lemma_order_facts(m[i as int].0, key@);
                            if j > i {
                                assert(text_lt(keys_of(m)[i as int], keys_of(m)[j]));
                                if text_lt(m[j].0, key@) {
                                    lemma_text_lt_transitive(m[i as int].0, m[j].0, key@);
                                }
                            }
                        }
                    }
                    break ;
                },
            }
        }
        let found = i < self.entries.len() && compare_text(self.entries[i].0.as_str(), key)
            == Order::Same;
        proof {
            lemma_rank_unique(m, key@, i as int);
            if found {
                assert(m[i as int].0 == self.entries[i as int].0@);
                lemma_key_index_unique(m, key@, i as int);
            } else {
                assert forall|j: int| 0 <= j < m.len() implies (#[trigger] m[j]).0 != key@ by {
                    lemma_order_facts(m[j].0, key@);
                    if j > i {
                        assert(text_lt(keys_of(m)[i as int], keys_of(m)[j]));
                        lemma_order_facts(m[i as int].0, key@);
                        if m[j].0 == key@ {
                            assert(m[i as int].0 == self.entries[i as int].0@);
                            lemma_order_facts(m[i as int].0, m[j].0);
                        }
                    } else if j == i {
                        assert(m[i as int].0 == self.entries[i as int].0@);
                    }
                }
            }
        }
        (i, found)
    }

    /// The value under `key`, if there is one.
    pub fn get(&self, key: &str) -> (r: Option<&V>)
        ensures
            match r {
                Some(v) => lookup(self.model(), key@) == Some(v.deep_view()),
                None => lookup(self.model(), key@).is_none(),
            },
    {
        let (i, found) = self.position(key);
        if found {
            Some(&self.entries[i].1)
        } else {
            None
        }
    }

    /// Whether there is an entry under `key`.
    pub fn contains_key(&self, key: &str) -> (b: bool)
        ensures
            b == has_key(self.model(), key@),
    {
        let (_, found) = self.position(key);
        found
    }

    /// Replaces the value of the entry at place `i`.
    pub fn set_value_at(&mut self, i: usize, value: V)
        requires
            i < old(self).model().len(),
        ensures
            final(self).model() == old(self).model().update(
                i as int,
                (old(self).model()[i as int].0, value.deep_view()),
            ),
            keys_of(final(self).model()) == keys_of(old(self).model()),
    {
        proof {
            use_type_invariant(&*self);
            self.lemma_keys();
        }
        let ghost m = self.model();
        let ghost v = value.deep_view();
        let mut entries: Vec<(String, V)> = Vec::new();
        assert(Seq::<(String, V)>::empty().map_values(|e: (String, V)| e.0@)
            =~= Seq::<Seq<char>>::empty());
        std::mem::swap(&mut self.entries, &mut entries);
        let (key, _) = entries.remove(i);
        entries.insert(i, (key, value));
        assert(entries@.map_values(|e: (String, V)| (e.0@, e.1.deep_view())) =~= m.update(
            i as int,
            (m[i as int].0, v),
        ));
        assert(entries@.map_values(|e: (String, V)| e.0@) =~= keys_of(m));
        assert(keys_of(m.update(i as int, (m[i as int].0, v))) =~= keys_of(m));
        std::mem::swap(&mut self.entries, &mut entries);
    }

    /// Replaces the value of the entry at place `i`, and gives the value
    /// that was there.
    pub fn replace_value_at(&mut self, i: usize, value: V) -> (was: V)
        requires
            i < old(self).model().len(),
        ensures
            was.deep_view() == old(self).model()[i as int].1,
            final(self).model() == old(self).model().update(
                i as int,
                (old(self).model()[i as int].0, value.deep_view()),
            ),
            keys_of(final(self).model()) == keys_of(old(self).model()),
    {
        proof {
            use_type_invariant(&*self);
            self.lemma_keys();
        }
        let ghost m = self.model();
        let ghost v = value.deep_view();
        let mut entries: Vec<(String, V)> = Vec::new();
        assert(Seq::<(String, V)>::empty().map_values(|e: (String, V)| e.0@)
            =~= Seq::<Seq<char>>::empty());
        std::mem::swap(&mut self.entries, &mut entries);
        let (key, was) = entries.remove(i);
        entries.insert(i, (key, value));
        assert(entries@.map_values(|e: (String, V)| (e.0@, e.1.deep_view())) =~= m.update(
            i as int,
            (m[i as int].0, v),
        ));
        assert(entries@.map_values(|e: (String, V)| e.0@) =~= keys_of(m));
        assert(keys_of(m.update(i as int, (m[i as int].0, v))) =~= keys_of(m));
        std::mem::swap(&mut self.entries, &mut entries);
        was
    }

    /// Gives `key` the value `value`.
    pub fn insert(&mut self, key: String, value: V)
        ensures
            final(self).model() == insert_model(old(self).model(), key@, value.deep_view()),
            strictly_ascending(keys_of(final(self).model())),
    {
        let (i, found) = self.position(key.as_str());
        let ghost m = self.model();
        proof {
            lemma_insert_model(m, key@, value.deep_view());
        }
        let ghost k = key@;
        let ghost v = value.deep_view();
        let mut entries: Vec<(String, V)> = Vec::new();
        assert(Seq::<(String, V)>::empty().map_values(|e: (String, V)| e.0@)
            =~= Seq::<Seq<char>>::empty());
        std::mem::swap(&mut self.entries, &mut entries);
        if found {
            entries.set(i, (key, value));
        } else {
            entries.insert(i, (key, value));
        }
        assert(entries@.map_values(|e: (String, V)| (e.0@, e.1.deep_view())) =~= insert_model(
            m,
            k,
            v,
        ));
        assert(entries@.map_values(|e: (String, V)| e.0@) =~= keys_of(insert_model(m, k, v)));
        std::mem::swap(&mut self.entries, &mut entries);
    }
}

impl<V: DeepView> DeepView for KeyedList<V> {
    type V = Seq<(Seq<char>, V::V)>;

    open spec fn deep_view(&self) -> Seq<(Seq<char>, V::V)> {
        self.model()
    }
}

impl<T: DeepView> KeyedList<Vec<T>> {
    /// Adds `item` to the end of the list under `key`; a key that is new
    /// gets the list of that one item.
    pub fn append(&mut self, key: &str, item: T)
        ensures
            final(self).model() == append_model(old(self).model(), key@, item.deep_view()),
            strictly_ascending(keys_of(final(self).model())),
    {
        let (i, found) = self.position(key);
        let ghost m = self.model();
        let ghost x = item.deep_view();
        let mut entries: Vec<(String, Vec<T>)> = Vec::new();
        assert(Seq::<(String, Vec<T>)>::empty().map_values(|e: (String, Vec<T>)| e.0@)
            =~= Seq::<Seq<char>>::empty());
        std::mem::swap(&mut self.entries, &mut entries);
        if found {
            let (k, mut list) = entries.remove(i);
            let ghost before = list.deep_view();
            assert(before == m[i as int].1);
            list.push(item);
            assert(list.deep_view() =~= before.push(x));
            proof {
                lemma_insert_model(m, key@, before.push(x));
            }
            entries.insert(i, (k, list));
        } else {
            let mut list: Vec<T> = Vec::new();
            list.push(item);
            assert(list.deep_view() =~= seq![x]);
            proof {
                lemma_insert_model(m, key@, seq![x]);
            }
            entries.insert(i, (String::from_str(key), list));
        }
        assert(entries@.map_values(|e: (String, Vec<T>)| (e.0@, e.1.deep_view())) =~= append_model(
            m,
            key@,
            x,
        ));
        assert(entries@.map_values(|e: (String, Vec<T>)| e.0@) =~= keys_of(
            append_model(m, key@, x),
        ));
        std::mem::swap(&mut self.entries, &mut entries);
    }
}

} // verus!
