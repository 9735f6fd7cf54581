//! An insertion-ordered table of values keyed by canonical (lowercase) name.

use vstd::prelude::*;

use crate::text::{str_equal, string_views};

verus! {

/// The index of the last entry of `entries` with key `k`, or -1.
pub open spec fn last_index_of<V>(entries: Seq<(Seq<char>, V)>, k: Seq<char>) -> int
    decreases entries.len(),
{
    if entries.len() == 0 {
        -1
    } else if entries.last().0 == k {
        entries.len() - 1
    } else {
        last_index_of(entries.drop_last(), k)
    }
}

/// The value stored under key `k`, if any.
pub open spec fn lookup<V>(entries: Seq<(Seq<char>, V)>, k: Seq<char>) -> Option<V> {
    let i = last_index_of(entries, k);
    if i >= 0 {
        Some(entries[i].1)
    } else {
        None
    }
}

/// No key occurs twice.
pub open spec fn keys_unique<V>(entries: Seq<(Seq<char>, V)>) -> bool {
    forall|i: int, j: int| 0 <= i < j < entries.len() ==> #[trigger] entries[i].0 != #[trigger] entries[j].0
}

/// The table after storing `v` under `k`: an existing entry with that key is
/// replaced where it stands, otherwise the entry is appended.
pub open spec fn assoc_insert<V>(entries: Seq<(Seq<char>, V)>, k: Seq<char>, v: V) -> Seq<(Seq<char>, V)> {
    let i = last_index_of(entries, k);
    if i >= 0 {
        entries.update(i, (k, v))
    } else {
        entries.push((k, v))
    }
}

pub proof fn lemma_last_index_of<V>(entries: Seq<(Seq<char>, V)>, k: Seq<char>)
    ensures
        -1 <= last_index_of(entries, k) < entries.len(),
        last_index_of(entries, k) >= 0 ==> entries[last_index_of(entries, k)].0 == k,
        last_index_of(entries, k) == -1 ==> forall|j: int| 0 <= j < entries.len() ==> #[trigger] entries[j].0 != k,
        forall|j: int| last_index_of(entries, k) < j < entries.len() ==> #[trigger] entries[j].0 != k,
    decreases entries.len(),
{
    if entries.len() > 0 {
        lemma_last_index_of(entries.drop_last(), k);
        if entries.last().0 != k {
            assert forall|j: int| last_index_of(entries, k) < j < entries.len() implies #[trigger] entries[j].0 != k by {
                if j < entries.len() - 1 {
                    assert(entries.drop_last()[j] == entries[j]);
                }
            }
        }
    }
}

/// With unique keys, the entry holding a key is found at its position.
pub proof fn lemma_last_index_of_unique<V>(entries: Seq<(Seq<char>, V)>, j: int)
    requires
        keys_unique(entries),
        0 <= j < entries.len(),
    ensures
        last_index_of(entries, entries[j].0) == j,
{
    lemma_last_index_of(entries, entries[j].0);
}

/// Storing under `k` changes the lookup of `k` only, and keeps keys unique.
pub proof fn lemma_assoc_insert<V>(entries: Seq<(Seq<char>, V)>, k: Seq<char>, v: V)
    requires
        keys_unique(entries),
    ensures
        keys_unique(assoc_insert(entries, k, v)),
        lookup(assoc_insert(entries, k, v), k) == Some(v),
        forall|k2: Seq<char>| k2 != k ==> #[trigger] lookup(assoc_insert(entries, k, v), k2) == lookup(entries, k2),
{
    lemma_last_index_of(entries, k);
    let e1 = assoc_insert(entries, k, v);
    let i = last_index_of(entries, k);
    if i >= 0 {
        assert forall|a: int, b: int| 0 <= a < b < e1.len() implies #[trigger] e1[a].0 != #[trigger] e1[b].0 by {
            assert(e1[a].0 == entries[a].0);
            assert(e1[b].0 == entries[b].0);
        }
        assert(e1[i].0 == k);
        lemma_last_index_of_unique(e1, i);
    } else {
        assert forall|a: int, b: int| 0 <= a < b < e1.len() implies #[trigger] e1[a].0 != #[trigger] e1[b].0 by {
            if b < entries.len() {
                assert(e1[a].0 == entries[a].0);
                assert(e1[b].0 == entries[b].0);
            } else {
                assert(e1[a].0 == entries[a].0);
            }
        }
        assert(e1.last().0 == k);
    }
    assert(keys_unique(e1));
    assert forall|k2: Seq<char>| k2 != k implies #[trigger] lookup(e1, k2) == lookup(entries, k2) by {
        lemma_last_index_of(entries, k2);
        lemma_last_index_of(e1, k2);
        if last_index_of(entries, k2) >= 0 {
            lemma_last_index_of_unique(e1, last_index_of(entries, k2));
        }
        if last_index_of(e1, k2) >= 0 {
            lemma_last_index_of_unique(entries, last_index_of(e1, k2));
        }
    }
}

/// Replacing a value keeps the keys unique.
pub proof fn lemma_keys_unique_update<V>(e: Seq<(Seq<char>, V)>)
    ensures
        forall|i: int, x: V| 0 <= i < e.len() && keys_unique(e) ==> #[trigger] keys_unique(e.update(i, (e[i].0, x))),
{
    assert forall|i: int, x: V| 0 <= i < e.len() && keys_unique(e) implies #[trigger] keys_unique(e.update(i, (e[i].0, x))) by {
        let e1 = e.update(i, (e[i].0, x));
        assert forall|a: int, b: int| 0 <= a < b < e1.len() implies #[trigger] e1[a].0 != #[trigger] e1[b].0 by {
            assert(e1[a].0 == e[a].0);
            assert(e1[b].0 == e[b].0);
        }
    }
}

/// The table after storing every entry of `b`, in order, into `a`.
pub open spec fn assoc_merge<V>(a: Seq<(Seq<char>, V)>, b: Seq<(Seq<char>, V)>) -> Seq<(Seq<char>, V)>
    decreases b.len(),
{
    if b.len() == 0 {
        a
    } else {
        assoc_insert(assoc_merge(a, b.drop_last()), b.last().0, b.last().1)
    }
}

/// Every key is `f` of its value.
pub open spec fn keyed_by<V>(e: Seq<(Seq<char>, V)>, f: spec_fn(V) -> Seq<char>) -> bool {
    forall|i: int| 0 <= i < e.len() ==> #[trigger] e[i].0 == f(e[i].1)
}

pub proof fn lemma_insert_keyed_by<V>(e: Seq<(Seq<char>, V)>, k: Seq<char>, v: V, f: spec_fn(V) -> Seq<char>)
    requires
        keyed_by(e, f),
        k == f(v),
    ensures
        keyed_by(assoc_insert(e, k, v), f),
{
    lemma_last_index_of(e, k);
}

pub proof fn lemma_merge_keyed_by<V>(a: Seq<(Seq<char>, V)>, b: Seq<(Seq<char>, V)>, f: spec_fn(V) -> Seq<char>)
    requires
        keyed_by(a, f),
        keyed_by(b, f),
    ensures
        keyed_by(assoc_merge(a, b), f),
    decreases b.len(),
{
    if b.len() > 0 {
        assert(keyed_by(b.drop_last(), f));
        lemma_merge_keyed_by(a, b.drop_last(), f);
        assert(b.last().0 == f(b.last().1));
        lemma_insert_keyed_by(assoc_merge(a, b.drop_last()), b.last().0, b.last().1, f);
    }
}

pub proof fn lemma_merge_unique<V>(a: Seq<(Seq<char>, V)>, b: Seq<(Seq<char>, V)>)
    requires
        keys_unique(a),
    ensures
        keys_unique(assoc_merge(a, b)),
    decreases b.len(),
{
    if b.len() > 0 {
        lemma_merge_unique(a, b.drop_last());
        lemma_assoc_insert(assoc_merge(a, b.drop_last()), b.last().0, b.last().1);
    }
}

/// Values that can be copied with an equal view.
pub trait DeepCopy: View + Sized {
    /// An independent copy with the same view.
    fn deep_copy(&self) -> (r: Self)
        ensures
            r@ == self@,
    ;
}

/// A copy of a list of strings.
pub fn copy_strings(v: &Vec<String>) -> (r: Vec<String>)
    ensures
        string_views(r@) == string_views(v@),
{
    let mut r: Vec<String> = Vec::new();
    let mut i: usize = 0;
    while i < v.len()
        invariant
            0 <= i <= v@.len(),
            r@.len() == i,
            string_views(r@) == string_views(v@).take(i as int),
        decreases v@.len() - i,
    {
        let ghost r0 = r@;
        let c = v[i].clone();
        assert(c@ == v@[i as int]@);
        r.push(c);
        proof {
            assert forall|j: int| 0 <= j <= i implies #[trigger] string_views(r@)[j] == string_views(v@).take(i + 1)[j] by {
                if j < i {
                    assert(r@[j] == r0[j]);
                    assert(string_views(r0)[j] == string_views(v@).take(i as int)[j]);
                }
            }
        }
        i += 1;
        assert(string_views(r@) =~= string_views(v@).take(i as int));
    }
    assert(string_views(v@).take(i as int) =~= string_views(v@));
    r
}

/// Values keyed by canonical name, in insertion order.
pub struct NameTable<T> {
    keys: Vec<String>,
    values: Vec<T>,
}

impl<T: View> NameTable<T> {
    /// The (key, value view) pairs in table order.
    pub closed spec fn entries(&self) -> Seq<(Seq<char>, T::V)> {
        Seq::new(self.values@.len(), |i: int| (self.keys@[i]@, self.values@[i]@))
    }

    /// Keys and values line up and no key occurs twice.
    pub closed spec fn wf(&self) -> bool {
        &&& self.keys@.len() == self.values@.len()
        &&& forall|a: int, b: int| 0 <= a < b < self.keys@.len() ==> #[trigger] self.keys@[a]@ != #[trigger] self.keys@[b]@
    }

    /// A well-formed table has unique keys.
    pub proof fn lemma_wf_keys_unique(&self)
        requires
            self.wf(),
        ensures
            keys_unique(self.entries()),
    {
        let e = self.entries();
        assert forall|a: int, b: int| 0 <= a < b < e.len() implies #[trigger] e[a].0 != #[trigger] e[b].0 by {
            assert(e[a].0 == self.keys@[a]@);
            assert(e[b].0 == self.keys@[b]@);
        }
    }

    proof fn lemma_unique_wf(&self)
        requires
            self.keys@.len() == self.values@.len(),
            keys_unique(self.entries()),
        ensures
            self.wf(),
    {
        let e = self.entries();
        assert forall|a: int, b: int| 0 <= a < b < self.keys@.len() implies #[trigger] self.keys@[a]@ != #[trigger] self.keys@[b]@ by {
            assert(e[a].0 == self.keys@[a]@);
            assert(e[b].0 == self.keys@[b]@);
        }
    }

    /// The value at position `i`.
    pub closed spec fn value_at(&self, i: int) -> T {
        self.values@[i]
    }

    pub fn new() -> (r: Self)
        ensures
            r.wf(),
            r.entries() == Seq::<(Seq<char>, T::V)>::empty(),
    {
        let r = NameTable { keys: Vec::new(), values: Vec::new() };
        assert(r.entries() =~= Seq::<(Seq<char>, T::V)>::empty());
        r
    }

    pub fn len(&self) -> (r: usize)
        requires
            self.wf(),
        ensures
            r == self.entries().len(),
    {
        self.values.len()
    }

    /// The position of the entry stored under `key`.
    pub fn find(&self, key: &str) -> (r: Option<usize>)
        requires
            self.wf(),
        ensures
            r matches Some(i) ==> i == last_index_of(self.entries(), key@) && i < self.entries().len(),
            r is None ==> last_index_of(self.entries(), key@) == -1,
    {
        let ghost e = self.entries();
        let mut i: usize = self.keys.len();
        proof {
            lemma_last_index_of(e, key@);
            self.lemma_wf_keys_unique();
        }
        while i > 0
            invariant
                0 <= i <= e.len(),
                e == self.entries(),
                self.wf(),
                keys_unique(e),
                forall|j: int| i <= j < e.len() ==> #[trigger] e[j].0 != key@,
            decreases i,
        {
            i -= 1;
            if str_equal(self.keys[i].as_str(), key) {
                assert(e[i as int].0 == key@);
                proof {
                    lemma_last_index_of_unique(e, i as int);
                }
                return Some(i);
            }
        }
        assert(last_index_of(e, key@) == -1) by {
            if last_index_of(e, key@) >= 0 {
                assert(e[last_index_of(e, key@)].0 == key@);
            }
        }
        None
    }

    /// The value at position `i`.
    pub fn get(&self, i: usize) -> (r: &T)
        requires
            self.wf(),
            i < self.entries().len(),
        ensures
            r@ == self.entries()[i as int].1,
            *r == self.value_at(i as int),
    {
        &self.values[i]
    }

    /// The key at position `i`.
    pub fn key(&self, i: usize) -> (r: &String)
        requires
            self.wf(),
            i < self.entries().len(),
        ensures
            r@ == self.entries()[i as int].0,
    {
        &self.keys[i]
    }

    /// Replace the value at position `i`.
    pub fn set(&mut self, i: usize, v: T)
        requires
            old(self).wf(),
            i < old(self).entries().len(),
        ensures
            final(self).wf(),
            final(self).entries() == old(self).entries().update(i as int, (old(self).entries()[i as int].0, v@)),
    {
        self.values.set(i, v);
        assert(self.entries() =~= old(self).entries().update(i as int, (old(self).entries()[i as int].0, v@)));
    }

    /// Mutable access to the value at position `i`.
    pub fn value_mut(&mut self, i: usize) -> (r: &mut T)
        requires
            old(self).wf(),
            i < old(self).entries().len(),
        ensures
            *r == old(self).value_at(i as int),
            r@ == old(self).entries()[i as int].1,
            final(self).wf(),
            final(self).entries() == old(self).entries().update(i as int, (old(self).entries()[i as int].0, final(r)@)),
    {
        &mut self.values[i]
    }

    /// Store every entry of `other`, in its order, into this table.
    pub fn merge_from(&mut self, other: &Self)
        where T: DeepCopy,
        requires
            old(self).wf(),
            other.wf(),
        ensures
            final(self).wf(),
            final(self).entries() == assoc_merge(old(self).entries(), other.entries()),
    {
        let ghost b = other.entries();
        let mut i: usize = 0;
        while i < other.values.len()
            invariant
                0 <= i <= b.len(),
                b == other.entries(),
                other.wf(),
                self.wf(),
                self.entries() == assoc_merge(old(self).entries(), b.take(i as int)),
            decreases b.len() - i,
        {
            let k = self.copy_key_of(other, i);
            let v = other.values[i].deep_copy();
            self.insert(k, v);
            proof {
                assert(b.take(i + 1).drop_last() =~= b.take(i as int));
            }
            i += 1;
        }
        assert(b.take(i as int) =~= b);
    }

    fn copy_key_of(&self, other: &Self, i: usize) -> (r: String)
        requires
            other.wf(),
            i < other.entries().len(),
        ensures
            r@ == other.entries()[i as int].0,
    {
        other.keys[i].clone()
    }

    /// An independent copy of the table.
    pub fn duplicate(&self) -> (r: Self)
        where T: DeepCopy,
        requires
            self.wf(),
        ensures
            r.wf(),
            r.entries() == self.entries(),
    {
        let mut keys: Vec<String> = Vec::new();
        let mut values: Vec<T> = Vec::new();
        let mut i: usize = 0;
        while i < self.values.len()
            invariant
                0 <= i <= self.values@.len(),
                self.wf(),
                keys@.len() == i,
                values@.len() == i,
                forall|j: int| 0 <= j < i ==> #[trigger] keys@[j]@ == self.keys@[j]@,
                forall|j: int| 0 <= j < i ==> #[trigger] values@[j]@ == self.values@[j]@,
            decreases self.values@.len() - i,
        {
            keys.push(self.keys[i].clone());
            values.push(self.values[i].deep_copy());
            i += 1;
        }
        let r = NameTable { keys, values };
        assert(r.entries() =~= self.entries());
        r
    }

    /// Store `v` under `key`, replacing an existing entry in place.
    pub fn insert(&mut self, key: String, v: T)
        requires
            old(self).wf(),
        ensures
            final(self).wf(),
            final(self).entries() == assoc_insert(old(self).entries(), key@, v@),
    {
        let ghost k = key@;
        let ghost vv = v@;
        proof {
            self.lemma_wf_keys_unique();
        }
        match self.find(key.as_str()) {
            Some(i) => {
                proof {
                    lemma_last_index_of(old(self).entries(), k);
                }
                self.values.set(i, v);
                assert(self.entries() =~= assoc_insert(old(self).entries(), k, vv));
            },
            None => {
                self.keys.push(key);
                self.values.push(v);
                assert(self.entries() =~= assoc_insert(old(self).entries(), k, vv));
            },
        }
        proof {
            lemma_assoc_insert(old(self).entries(), k, vv);
            self.lemma_unique_wf();
        }
    }
}

} // verus!
