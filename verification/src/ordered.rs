//! A map from indices to values that is walked in the order of its keys.

use vstd::prelude::*;

use crate::deep::models;
use crate::text::same_text;

verus! {

broadcast use crate::deep::group_models;

/// The first position, from `start` on, whose key is not below `key`.
pub open spec fn position_from<T>(entries: Seq<(usize, T)>, key: usize, start: int) -> int
    decreases entries.len() - start,
{
    if start >= entries.len() || entries[start].0 >= key {
        start
    } else {
        position_from(entries, key, start + 1)
    }
}

/// Where `key` stands or belongs in entries that are sorted by key.
pub open spec fn position<T>(entries: Seq<(usize, T)>, key: usize) -> int {
    position_from(entries, key, 0)
}

/// The value of `key`.
#[verifier::opaque]
pub open spec fn find<T>(entries: Seq<(usize, T)>, key: usize) -> Option<T> {
    let at = position(entries, key);
    if at < entries.len() && entries[at].0 == key {
        Some(entries[at].1)
    } else {
        None
    }
}

/// The entries with `value` as the value of `key`.
#[verifier::opaque]
pub open spec fn put<T>(entries: Seq<(usize, T)>, key: usize, value: T) -> Seq<(usize, T)> {
    let at = position(entries, key);
    if at < entries.len() && entries[at].0 == key {
        entries.update(at, (key, value))
    } else {
        entries.insert(at, (key, value))
    }
}

/// The entries without `key`.
#[verifier::opaque]
pub open spec fn without<T>(entries: Seq<(usize, T)>, key: usize) -> Seq<(usize, T)> {
    let at = position(entries, key);
    if at < entries.len() && entries[at].0 == key {
        entries.remove(at)
    } else {
        entries
    }
}

/// Whether the keys increase from entry to entry.
pub open spec fn sorted<T>(entries: Seq<(usize, T)>) -> bool {
    forall|i: int, j: int| 0 <= i < j < entries.len() ==> entries[i].0 < entries[j].0
}

pub proof fn lemma_position_from<T>(entries: Seq<(usize, T)>, key: usize, start: int)
    requires
        0 <= start <= entries.len(),
    ensures
        start <= position_from(entries, key, start) <= entries.len(),
        forall|i: int| start <= i < position_from(entries, key, start) ==> entries[i].0 < key,
        position_from(entries, key, start) < entries.len() ==> entries[position_from(
            entries,
            key,
            start,
        )].0 >= key,
    decreases entries.len() - start,
{
    if start < entries.len() && entries[start].0 < key {
        lemma_position_from(entries, key, start + 1);
    }
}

/// Setting a key keeps the entries sorted.
pub proof fn put_keeps_order<T>(entries: Seq<(usize, T)>, key: usize, value: T)
    requires
        sorted(entries),
    ensures
        sorted(put(entries, key, value)),
{
    reveal(put);
    lemma_position_from(entries, key, 0);
    let at = position(entries, key);
    if at < entries.len() {
        assert forall|i: int| at < i < entries.len() implies entries[i].0 > entries[at].0 by {}
    }
}

/// Of two values that are set for a key, the last one stays.
pub proof fn put_twice<T>(entries: Seq<(usize, T)>, key: usize, first: T, second: T)
    ensures
        put(put(entries, key, first), key, second) == put(entries, key, second),
{
    reveal(put);
    lemma_position_from(entries, key, 0);
    let at = position(entries, key);
    let once = put(entries, key, first);
    assert(once[at] == (key, first));
    lemma_position_of(once, key, at, 0);
    assert(put(once, key, second) =~= put(entries, key, second));
}

proof fn lemma_position_of<T>(entries: Seq<(usize, T)>, key: usize, at: int, start: int)
    requires
        0 <= start <= at < entries.len(),
        entries[at].0 == key,
        forall|i: int| start <= i < at ==> (#[trigger] entries[i]).0 < key,
    ensures
        position_from(entries, key, start) == at,
    decreases at - start,
{
    if start < at {
        lemma_position_of(entries, key, at, start + 1);
    }
}

/// Removing a key keeps the entries sorted.
pub proof fn without_keeps_order<T>(entries: Seq<(usize, T)>, key: usize)
    requires
        sorted(entries),
    ensures
        sorted(without(entries, key)),
{
    reveal(without);
    lemma_position_from(entries, key, 0);
}

proof fn lemma_position_unique<T>(entries: Seq<(usize, T)>, key: usize, at: int)
    requires
        sorted(entries),
        0 <= at <= entries.len(),
        forall|i: int| 0 <= i < at ==> entries[i].0 < key,
        at < entries.len() ==> entries[at].0 >= key,
    ensures
        position(entries, key) == at,
{
    lemma_position_from(entries, key, 0);
    let found = position(entries, key);
    if found < at {
        assert(entries[found].0 < key);
    }
    if found > at {
        assert(entries[at].0 < key);
    }
}

/// A key that was set has the value that it was set to, and the others have theirs.
pub proof fn find_after_put<T>(entries: Seq<(usize, T)>, key: usize, value: T, other: usize)
    requires
        sorted(entries),
    ensures
        find(put(entries, key, value), other) == if other == key {
            Some(value)
        } else {
            find(entries, other)
        },
{
    reveal(find);
    reveal(put);
    put_keeps_order(entries, key, value);
    lemma_position_from(entries, key, 0);
    lemma_position_from(entries, other, 0);
    let next = put(entries, key, value);
    let at = position(entries, key);
    let was = position(entries, other);
    let replaced = at < entries.len() && entries[at].0 == key;
    if replaced {
        lemma_position_unique(next, other, was);
    } else if other == key {
        lemma_position_unique(next, other, at);
    } else if other < key {
        lemma_position_unique(next, other, was);
    } else {
        lemma_position_unique(next, other, was + 1);
    }
}

/// A removed key has no value, and the others have theirs.
pub proof fn find_after_without<T>(entries: Seq<(usize, T)>, key: usize, other: usize)
    requires
        sorted(entries),
    ensures
        find(without(entries, key), other) == if other == key {
            None
        } else {
            find(entries, other)
        },
{
    reveal(find);
    reveal(without);
    without_keeps_order(entries, key);
    lemma_position_from(entries, key, 0);
    lemma_position_from(entries, other, 0);
    let next = without(entries, key);
    let at = position(entries, key);
    let was = position(entries, other);
    if at < entries.len() && entries[at].0 == key {
        if other <= key {
            lemma_position_unique(next, other, was);
        } else {
            lemma_position_unique(next, other, was - 1);
        }
    }
}

/// A map from indices to values, sorted by index.
pub struct IndexMap<V> {
    entries: Vec<(usize, V)>,
}

impl<V: DeepView> DeepView for IndexMap<V> {
    type V = Seq<(usize, V::V)>;

    closed spec fn deep_view(&self) -> Seq<(usize, V::V)> {
        models(self.entries@)
    }
}

impl<V> IndexMap<V> {
    #[verifier::type_invariant]
    spec fn well_formed(self) -> bool {
        sorted(self.entries@)
    }
}

impl<V: DeepView> IndexMap<V> {
    pub fn new() -> (map: Self)
        ensures
            map.deep_view() == Seq::<(usize, V::V)>::empty(),
    {
        IndexMap { entries: Vec::new() }
    }

    fn seek(&self, key: usize) -> (at: usize)
        ensures
            at == position(models(self.entries@), key),
            at == position(self.entries@, key),
            at <= self.entries@.len(),
    {
        let mut at: usize = 0;
        while at < self.entries.len() && self.entries[at].0 < key
            invariant
                at <= self.entries@.len(),
                position(models(self.entries@), key) == position_from(
                    models(self.entries@),
                    key,
                    at as int,
                ),
                position(self.entries@, key) == position_from(self.entries@, key, at as int),
            decreases self.entries@.len() - at,
        {
            at += 1;
        }
        at
    }

    /// The number of entries. Their keys increase.
    pub fn len(&self) -> (n: usize)
        ensures
            n == self.deep_view().len(),
            sorted(self.deep_view()),
    {
        proof {
            use_type_invariant(self);
        }
        self.entries.len()
    }

    pub fn key_at(&self, at: usize) -> (key: usize)
        requires
            at < self.deep_view().len(),
        ensures
            key == self.deep_view()[at as int].0,
    {
        self.entries[at].0
    }

    pub fn value_at(&self, at: usize) -> (value: &V)
        requires
            at < self.deep_view().len(),
        ensures
            value.deep_view() == self.deep_view()[at as int].1,
    {
        &self.entries[at].1
    }

    pub fn get(&self, key: usize) -> (value: Option<&V>)
        ensures
            value.deep_view() == find(self.deep_view(), key),
    {
        reveal(find);
        let at = self.seek(key);
        if at < self.entries.len() && self.entries[at].0 == key {
            Some(&self.entries[at].1)
        } else {
            None
        }
    }

    pub fn contains_key(&self, key: usize) -> (yes: bool)
        ensures
            yes == find(self.deep_view(), key).is_some(),
    {
        self.get(key).is_some()
    }

    pub fn insert(&mut self, key: usize, value: V)
        ensures
            final(self).deep_view() == put(old(self).deep_view(), key, value.deep_view()),
    {
        reveal(put);
        proof {
            use_type_invariant(&*self);
            put_keeps_order(self.entries@, key, value);
        }
        let at = self.seek(key);
        let mut entries: Vec<(usize, V)> = Vec::new();
        std::mem::swap(&mut entries, &mut self.entries);
        if at < entries.len() && entries[at].0 == key {
            entries.set(at, (key, value));
        } else {
            entries.insert(at, (key, value));
        }
        self.entries = entries;
    }

    pub fn remove(&mut self, key: usize) -> (value: Option<V>)
        ensures
            value.deep_view() == find(old(self).deep_view(), key),
            final(self).deep_view() == without(old(self).deep_view(), key),
            value is None ==> final(self).deep_view() == old(self).deep_view(),
    {
        reveal(find);
        reveal(without);
        proof {
            use_type_invariant(&*self);
            without_keeps_order(self.entries@, key);
        }
        let at = self.seek(key);
        if at < self.entries.len() && self.entries[at].0 == key {
            let mut entries: Vec<(usize, V)> = Vec::new();
            std::mem::swap(&mut entries, &mut self.entries);
            let (_, value) = entries.remove(at);
            self.entries = entries;
            Some(value)
        } else {
            None
        }
    }

    pub fn clear(&mut self)
        ensures
            final(self).deep_view() == Seq::<(usize, V::V)>::empty(),
    {
        self.entries = Vec::new();
    }
}

/// A set of indices.
pub struct IndexSet {
    items: Vec<usize>,
}

impl View for IndexSet {
    type V = Set<usize>;

    closed spec fn view(&self) -> Set<usize> {
        self.items@.to_set()
    }
}

impl IndexSet {
    pub fn new() -> (set: Self)
        ensures
            set@ == Set::<usize>::empty(),
    {
        let set = IndexSet { items: Vec::new() };
        proof {
            assert(set@ =~= Set::<usize>::empty());
        }
        set
    }

    pub fn contains(&self, item: usize) -> (yes: bool)
        ensures
            yes == self@.contains(item),
    {
        let mut i: usize = 0;
        while i < self.items.len()
            invariant
                i <= self.items@.len(),
                forall|j: int| 0 <= j < i ==> self.items@[j] != item,
            decreases self.items@.len() - i,
        {
            if self.items[i] == item {
                return true;
            }
            i += 1;
        }
        false
    }

    pub fn insert(&mut self, item: usize)
        ensures
            final(self)@ == old(self)@.insert(item),
    {
        if !self.contains(item) {
            let ghost before = self.items@;
            self.items.push(item);
            proof {
                assert(self.items@.last() == item);
                assert forall|x: usize| self@.contains(x) == before.to_set().insert(item).contains(
                    x,
                ) by {
                    if before.contains(x) {
                        let j = choose|j: int| 0 <= j < before.len() && before[j] == x;
                        assert(self.items@[j] == x);
                    }
                }
                assert(self@ =~= old(self)@.insert(item));
            }
        } else {
            proof {
                assert(self@ =~= old(self)@.insert(item));
            }
        }
    }

    pub fn is_empty(&self) -> (yes: bool)
        ensures
            yes == (self@ == Set::<usize>::empty()),
    {
        proof {
            if self.items@.len() == 0 {
                assert(self@ =~= Set::<usize>::empty());
            } else {
                assert(self@.contains(self.items@[0]));
            }
        }
        self.items.len() == 0
    }
}

/// The first position, from `start` on, whose name is `name`.
pub open spec fn name_position(entries: Seq<(Seq<char>, usize)>, name: Seq<char>, start: int) -> int
    decreases entries.len() - start,
{
    if start >= entries.len() || entries[start].0 == name {
        start
    } else {
        name_position(entries, name, start + 1)
    }
}

/// The index that a name stands for.
#[verifier::opaque]
pub open spec fn index_named(entries: Seq<(Seq<char>, usize)>, name: Seq<char>) -> Option<usize> {
    let at = name_position(entries, name, 0);
    if at < entries.len() {
        Some(entries[at].1)
    } else {
        None
    }
}

/// The entries with `index` as what `name` stands for.
#[verifier::opaque]
pub open spec fn with_name(
    entries: Seq<(Seq<char>, usize)>,
    name: Seq<char>,
    index: usize,
) -> Seq<(Seq<char>, usize)> {
    let at = name_position(entries, name, 0);
    if at < entries.len() {
        entries.update(at, (name, index))
    } else {
        entries.push((name, index))
    }
}

proof fn lemma_name_position(entries: Seq<(Seq<char>, usize)>, name: Seq<char>, at: int, start: int)
    requires
        0 <= start <= at <= entries.len(),
        at < entries.len() ==> entries[at].0 == name,
        forall|i: int| start <= i < at ==> (#[trigger] entries[i]).0 != name,
    ensures
        name_position(entries, name, start) == at,
    decreases at - start,
{
    if start < at {
        lemma_name_position(entries, name, at, start + 1);
    }
}

proof fn lemma_named(entries: Seq<(Seq<char>, usize)>, name: Seq<char>, start: int)
    requires
        0 <= start <= entries.len(),
    ensures
        start <= name_position(entries, name, start) <= entries.len(),
        forall|i: int|
            start <= i < name_position(entries, name, start) ==> (#[trigger] entries[i]).0 != name,
        name_position(entries, name, start) < entries.len() ==> entries[name_position(
            entries,
            name,
            start,
        )].0 == name,
    decreases entries.len() - start,
{
    if start < entries.len() && entries[start].0 != name {
        lemma_named(entries, name, start + 1);
    }
}

/// A name that is not there has no index.
pub proof fn an_absent_name_has_no_index(entries: Seq<(Seq<char>, usize)>, name: Seq<char>)
    requires
        forall|k: int| 0 <= k < entries.len() ==> (#[trigger] entries[k]).0 != name,
    ensures
        index_named(entries, name) is None,
{
    reveal(index_named);
    lemma_named(entries, name, 0);
}

/// A name that was set has the index that it was set to, and the others have theirs.
pub proof fn index_after_with_name(
    entries: Seq<(Seq<char>, usize)>,
    name: Seq<char>,
    index: usize,
    other: Seq<char>,
)
    ensures
        index_named(with_name(entries, name, index), other) == if other == name {
            Some(index)
        } else {
            index_named(entries, other)
        },
{
    reveal(index_named);
    reveal(with_name);
    let next = with_name(entries, name, index);
    lemma_named(entries, name, 0);
    lemma_named(entries, other, 0);
    let at = name_position(entries, name, 0);
    let was = name_position(entries, other, 0);
    if other == name {
        lemma_name_position(next, name, at, 0);
    } else if was < entries.len() {
        lemma_name_position(next, other, was, 0);
    } else {
        lemma_name_position(next, other, next.len() as int, 0);
    }
}

/// Names that stand for indices.
pub struct NameMap {
    entries: Vec<(String, usize)>,
}

impl DeepView for NameMap {
    type V = Seq<(Seq<char>, usize)>;

    closed spec fn deep_view(&self) -> Seq<(Seq<char>, usize)> {
        models(self.entries@)
    }
}

impl NameMap {
    pub fn new() -> (map: Self)
        ensures
            map.deep_view() == Seq::<(Seq<char>, usize)>::empty(),
    {
        NameMap { entries: Vec::new() }
    }

    fn seek(&self, name: &str) -> (at: usize)
        ensures
            at == name_position(self.deep_view(), name@, 0),
            at <= self.entries@.len(),
    {
        let mut at: usize = 0;
        while at < self.entries.len() && !same_text(self.entries[at].0.as_str(), name)
            invariant
                at <= self.entries@.len(),
                name_position(models(self.entries@), name@, 0) == name_position(
                    models(self.entries@),
                    name@,
                    at as int,
                ),
            decreases self.entries@.len() - at,
        {
            at += 1;
        }
        at
    }

    pub fn get(&self, name: &str) -> (index: Option<usize>)
        ensures
            index == index_named(self.deep_view(), name@),
    {
        reveal(index_named);
        let at = self.seek(name);
        if at < self.entries.len() {
            Some(self.entries[at].1)
        } else {
            None
        }
    }

    pub fn insert(&mut self, name: &str, index: usize)
        ensures
            final(self).deep_view() == with_name(old(self).deep_view(), name@, index),
    {
        reveal(with_name);
        let at = self.seek(name);
        if at < self.entries.len() {
            self.entries.set(at, (name.to_owned(), index));
        } else {
            self.entries.push((name.to_owned(), index));
        }
    }
}

} // verus!
