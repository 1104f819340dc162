//! Maps whose keys are texts, kept in the order in which the keys first came in.

use vstd::prelude::*;

use crate::text;

verus! {

/// Some entry has the key `k`.
pub open spec fn has_key<V>(entries: Seq<(Seq<char>, V)>, k: Seq<char>) -> bool {
    exists|i: int| 0 <= i < entries.len() && (#[trigger] entries[i]).0 == k
}

/// The position of the entry with the key `k`.
pub open spec fn key_index<V>(entries: Seq<(Seq<char>, V)>, k: Seq<char>) -> int {
    choose|i: int| 0 <= i < entries.len() && (#[trigger] entries[i]).0 == k
}

/// The value kept under the key `k`.
pub open spec fn lookup<V>(entries: Seq<(Seq<char>, V)>, k: Seq<char>) -> Option<V> {
    if has_key(entries, k) {
        Some(entries[key_index(entries, k)].1)
    } else {
        None
    }
}

/// No key occurs twice.
pub open spec fn distinct_keys<V>(entries: Seq<(Seq<char>, V)>) -> bool {
    forall|i: int, j: int|
        0 <= i < j < entries.len() ==> (#[trigger] entries[i]).0 != (#[trigger] entries[j]).0
}

/// The entries after `v` has been put under `k`: in place where `k` is there already.
pub open spec fn put<V>(entries: Seq<(Seq<char>, V)>, k: Seq<char>, v: V) -> Seq<
    (Seq<char>, V),
> {
    if has_key(entries, k) {
        entries.update(key_index(entries, k), (k, v))
    } else {
        entries.push((k, v))
    }
}

/// The entries after `v` has been put under `k`, unless `k` is there already.
pub open spec fn put_absent<V>(entries: Seq<(Seq<char>, V)>, k: Seq<char>, v: V) -> Seq<
    (Seq<char>, V),
> {
    if has_key(entries, k) {
        entries
    } else {
        entries.push((k, v))
    }
}

/// An entry is what its key is looked up as.
pub proof fn lemma_lookup_entry<V>(entries: Seq<(Seq<char>, V)>, i: int)
    requires
        distinct_keys(entries),
        0 <= i < entries.len(),
    ensures
        key_index(entries, entries[i].0) == i,
        lookup(entries, entries[i].0) == Some(entries[i].1),
{
    let j = key_index(entries, entries[i].0);
    assert(has_key(entries, entries[i].0));
    assert(0 <= j < entries.len() && entries[j].0 == entries[i].0);
}

/// What a map holds after a value has been put into it: the new value under its key, and
/// everything else as before.
pub proof fn law_put_then_lookup<V>(entries: Seq<(Seq<char>, V)>, k: Seq<char>, v: V, q: Seq<char>)
    requires
        distinct_keys(entries),
    ensures
        distinct_keys(put(entries, k, v)),
        lookup(put(entries, k, v), q) == if q == k {
            Some(v)
        } else {
            lookup(entries, q)
        },
{
    let after = put(entries, k, v);
    let at = if has_key(entries, k) {
        key_index(entries, k)
    } else {
        entries.len() as int
    };
    assert(after[at] == (k, v));
    assert(distinct_keys(after)) by {
        assert forall|i: int, j: int| 0 <= i < j < after.len() implies (#[trigger] after[i]).0 != (
        #[trigger] after[j]).0 by {
            if i < entries.len() && j < entries.len() {
                assert(entries[i].0 == after[i].0 && entries[j].0 == after[j].0);
            } else {
                assert(!has_key(entries, k));
                assert(entries[i].0 != k);
            }
        }
    }
    if q == k {
        lemma_lookup_entry(after, at);
    } else if has_key(entries, q) {
        let i = key_index(entries, q);
        assert(0 <= i < entries.len() && entries[i].0 == q);
        assert(after[i] == entries[i]);
        lemma_lookup_entry(after, i);
    } else {
        if has_key(after, q) {
            let i = key_index(after, q);
            assert(0 <= i < after.len() && after[i].0 == q);
            assert(i != at);
            assert(entries[i].0 == q);
        }
    }
}

/// A value that is put only where its key is absent never replaces another.
pub proof fn law_put_absent_then_lookup<V>(
    entries: Seq<(Seq<char>, V)>,
    k: Seq<char>,
    v: V,
    q: Seq<char>,
)
    requires
        distinct_keys(entries),
    ensures
        distinct_keys(put_absent(entries, k, v)),
        lookup(put_absent(entries, k, v), q) == if q == k && !has_key(entries, k) {
            Some(v)
        } else {
            lookup(entries, q)
        },
{
    if !has_key(entries, k) {
        law_put_then_lookup(entries, k, v, q);
    }
}

/// The key is there once a value has been put under it, and keys that were there stay.
pub proof fn lemma_put_absent_keeps<V>(
    entries: Seq<(Seq<char>, V)>,
    k: Seq<char>,
    v: V,
    q: Seq<char>,
)
    ensures
        has_key(put_absent(entries, k, v), q) == (has_key(entries, q) || q == k),
{
    let after = put_absent(entries, k, v);
    if has_key(entries, q) {
        let i = key_index(entries, q);
        assert(0 <= i < entries.len() && entries[i].0 == q);
        assert(after[i].0 == q);
    } else if q == k {
        assert(after[entries.len() as int].0 == k);
    } else if has_key(after, q) {
        let i = key_index(after, q);
        assert(0 <= i < after.len() && after[i].0 == q);
        assert(i < entries.len() ==> entries[i].0 == q);
    }
}

/// A map from texts to values. No key occurs twice.
#[derive(Debug)]
pub struct StringMap<V> {
    entries: Vec<(String, V)>,
}

/// System properties: names and their values.
pub type PropertyMap = StringMap<String>;

impl<V> StringMap<V> {
    /// The entries in the order in which their keys came in.
    pub closed spec fn entries(&self) -> Seq<(Seq<char>, V)> {
        Seq::new(self.entries@.len(), |i: int| (self.entries@[i].0@, self.entries@[i].1))
    }

    /// No key occurs twice.
    #[verifier::type_invariant]
    pub open spec fn wf(self) -> bool {
        distinct_keys(self.entries())
    }

    /// An empty map.
    pub fn new() -> (out: Self)
        ensures
            out.entries() == Seq::<(Seq<char>, V)>::empty(),
    {
        let out = StringMap { entries: Vec::new() };
        assert(out.entries() =~= Seq::<(Seq<char>, V)>::empty());
        out
    }

    /// The number of entries.
    pub fn len(&self) -> (n: usize)
        ensures
            n == self.entries().len(),
    {
        self.entries.len()
    }

    /// Whether there is no entry.
    pub fn is_empty(&self) -> (yes: bool)
        ensures
            yes == (self.entries().len() == 0),
    {
        self.entries.len() == 0
    }

    /// The key of the entry at position `i`.
    pub fn key_at(&self, i: usize) -> (key: &String)
        requires
            i < self.entries().len(),
        ensures
            key@ == self.entries()[i as int].0,
    {
        &self.entries[i].0
    }

    /// The value of the entry at position `i`.
    pub fn value_at(&self, i: usize) -> (value: &V)
        requires
            i < self.entries().len(),
        ensures
            *value == self.entries()[i as int].1,
    {
        &self.entries[i].1
    }

    fn index_of(&self, key: &str) -> (at: Option<usize>)
        ensures
            match at {
                Some(i) => i < self.entries().len() && self.entries()[i as int].0 == key@,
                None => !has_key(self.entries(), key@),
            },
    {
        let mut i: usize = 0;
        while i < self.entries.len()
            invariant
                i <= self.entries@.len(),
                forall|j: int| 0 <= j < i ==> (#[trigger] self.entries()[j]).0 != key@,
            decreases self.entries@.len() - i,
        {
            if text::same(&self.entries[i].0, key) {
                return Some(i);
            }
            assert(self.entries()[i as int].0 != key@);
            i = i + 1;
        }
        None
    }

    /// Whether the map has the key.
    pub fn contains_key(&self, key: &str) -> (yes: bool)
        ensures
            yes == has_key(self.entries(), key@),
    {
        self.index_of(key).is_some()
    }

    /// The value under a key.
    pub fn get(&self, key: &str) -> (value: Option<&V>)
        ensures
            match value {
                Some(v) => lookup(self.entries(), key@) == Some(*v),
                None => lookup(self.entries(), key@) is None,
            },
    {
        match self.index_of(key) {
            Some(i) => {
                proof {
                    use_type_invariant(self);
                    lemma_lookup_entry(self.entries(), i as int);
                }
                Some(&self.entries[i].1)
            },
            None => None,
        }
    }

    /// Puts a value under a key, in place of the one that was there.
    pub fn insert(&mut self, key: String, value: V)
        ensures
            final(self).entries() == put(old(self).entries(), key@, value),
    {
        proof {
            use_type_invariant(&*self);
            law_put_then_lookup(self.entries(), key@, value, key@);
        }
        let at = self.index_of(&key);
        let ghost before = self.entries();
        let ghost after = put(before, key@, value);
        let mut entries: Vec<(String, V)> = Vec::new();
        std::mem::swap(&mut entries, &mut self.entries);
        match at {
            Some(i) => {
                proof {
                    lemma_lookup_entry(before, i as int);
                }
                entries.set(i, (key, value));
            },
            None => {
                entries.push((key, value));
            },
        }
        assert(Seq::new(entries@.len(), |i: int| (entries@[i].0@, entries@[i].1)) =~= after);
        self.entries = entries;
    }
}

/// The entries of a property map, names and values as sequences of characters.
pub open spec fn text_entries(entries: Seq<(Seq<char>, String)>) -> Seq<(Seq<char>, Seq<char>)> {
    entries.map_values(|e: (Seq<char>, String)| (e.0, e.1@))
}

/// Looking a text up in a property map does not depend on which of its two views is taken.
pub proof fn lemma_text_entries(entries: Seq<(Seq<char>, String)>, k: Seq<char>)
    requires
        distinct_keys(entries),
    ensures
        distinct_keys(text_entries(entries)),
        has_key(text_entries(entries), k) == has_key(entries, k),
        has_key(entries, k) ==> key_index(text_entries(entries), k) == key_index(entries, k),
        lookup(text_entries(entries), k) == text::opt_view(lookup(entries, k)),
{
    let texts = text_entries(entries);
    assert(forall|i: int| 0 <= i < entries.len() ==> (#[trigger] texts[i]).0 == entries[i].0);
    if has_key(entries, k) {
        let i = key_index(entries, k);
        assert(0 <= i < entries.len() && entries[i].0 == k);
        assert(texts[i].0 == k);
        lemma_lookup_entry(texts, i);
    }
    if has_key(texts, k) {
        let i = key_index(texts, k);
        assert(0 <= i < texts.len() && texts[i].0 == k);
        assert(entries[i].0 == k);
    }
}

impl StringMap<String> {
    /// The properties in the order in which their names came in.
    pub open spec fn pairs(&self) -> Seq<(Seq<char>, Seq<char>)> {
        text_entries(self.entries())
    }

    /// Puts a property value under a name.
    pub fn set(&mut self, name: &str, value: &str)
        ensures
            final(self).pairs() == put(old(self).pairs(), name@, value@),
    {
        proof {
            use_type_invariant(&*self);
            lemma_text_entries(self.entries(), name@);
        }
        let ghost before = self.entries();
        let v = value.to_string();
        let ghost text = v;
        self.insert(name.to_string(), v);
        assert(text_entries(put(before, name@, text)) =~= put(
            text_entries(before),
            name@,
            value@,
        ));
    }

    /// Puts a property value under a name that is not there yet.
    pub fn set_absent(&mut self, name: &str, value: &str)
        ensures
            final(self).pairs() == put_absent(old(self).pairs(), name@, value@),
    {
        proof {
            use_type_invariant(&*self);
            lemma_text_entries(self.entries(), name@);
        }
        if !self.contains_key(name) {
            self.set(name, value);
        }
    }

    /// The value of a property.
    pub fn value_of(&self, name: &str) -> (value: Option<&String>)
        ensures
            match value {
                Some(v) => lookup(self.pairs(), name@) == Some(v@),
                None => lookup(self.pairs(), name@) is None,
            },
    {
        proof {
            use_type_invariant(self);
            lemma_text_entries(self.entries(), name@);
        }
        self.get(name)
    }
}

impl Clone for StringMap<String> {
    /// The copy holds the same properties in the same order.
    fn clone(&self) -> (out: Self)
        ensures
            out.pairs() == self.pairs(),
    {
        proof {
            use_type_invariant(self);
        }
        let mut entries: Vec<(String, String)> = Vec::new();
        let mut i: usize = 0;
        while i < self.entries.len()
            invariant
                i <= self.entries@.len(),
                entries@.len() == i,
                forall|j: int|
                    0 <= j < i ==> (#[trigger] entries@[j]).0@ == self.entries@[j].0@
                        && entries@[j].1@ == self.entries@[j].1@,
            decreases self.entries@.len() - i,
        {
            entries.push((self.entries[i].0.clone(), self.entries[i].1.clone()));
            i = i + 1;
        }
        assert(distinct_keys(
            Seq::new(entries@.len(), |i: int| (entries@[i].0@, entries@[i].1)),
        )) by {
            assert forall|i: int, j: int| 0 <= i < j < entries@.len() implies entries@[i].0@
                != entries@[j].0@ by {
                assert(self.entries()[i].0 != self.entries()[j].0);
            }
        }
        let out = StringMap { entries };
        assert(out.pairs() =~= self.pairs());
        out
    }
}


/// Setting a key that is there changes nothing but its value, and a new key comes last.
pub proof fn law_put_keeps_the_order<V>(entries: Seq<(Seq<char>, V)>, k: Seq<char>, v: V)
    ensures
        forall|i: int|
            0 <= i < entries.len() ==> (#[trigger] put(entries, k, v)[i]).0 == entries[i].0,
        has_key(entries, k) ==> put(entries, k, v).len() == entries.len(),
        !has_key(entries, k) ==> put(entries, k, v) == entries.push((k, v)),
        has_key(entries, k) ==> put_absent(entries, k, v) == entries,
        !has_key(entries, k) ==> put_absent(entries, k, v) == entries.push((k, v)),
{
    if has_key(entries, k) {
        let j = key_index(entries, k);
        assert(0 <= j < entries.len() && entries[j].0 == k);
    }
}

/// A key is looked up as the value that stands beside it, and a key that stands nowhere as none.
pub proof fn law_lookup<V>(entries: Seq<(Seq<char>, V)>, i: int, k: Seq<char>)
    requires
        distinct_keys(entries),
    ensures
        0 <= i < entries.len() ==> lookup(entries, entries[i].0) == Some(entries[i].1),
        (forall|j: int| 0 <= j < entries.len() ==> (#[trigger] entries[j]).0 != k) ==> lookup(
            entries,
            k,
        ) is None,
{
    if 0 <= i < entries.len() {
        lemma_lookup_entry(entries, i);
    }
}

} // verus!
