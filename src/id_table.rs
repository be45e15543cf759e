//! A table keyed by remote identifier, each key present at most once.

use vstd::prelude::*;
use crate::drive_id::DriveId;

verus! {

/// The key at position `i` of a list of entries.
pub open spec fn key_at<V>(s: Seq<(DriveId, V)>, i: int) -> Seq<char> {
    s[i].0@
}

/// Whether a list of entries holds `k` as a key.
pub open spec fn has_key<V>(s: Seq<(DriveId, V)>, k: Seq<char>) -> bool {
    exists|i: int| 0 <= i < s.len() && key_at(s, i) == k
}

/// A position at which `k` stands, where there is one.
pub open spec fn index_of<V>(s: Seq<(DriveId, V)>, k: Seq<char>) -> int {
    choose|i: int| 0 <= i < s.len() && key_at(s, i) == k
}

/// Whether no key stands twice in a list of entries.
pub open spec fn keys_distinct<V>(s: Seq<(DriveId, V)>) -> bool {
    forall|i: int, j: int|
        0 <= i < s.len() && 0 <= j < s.len() && i != j ==> #[trigger] key_at(s, i) != #[trigger] key_at(
            s,
            j,
        )
}

/// The map that a list of entries with distinct keys stands for.
pub open spec fn entries_map<V: DeepView>(s: Seq<(DriveId, V)>) -> Map<Seq<char>, V::V> {
    Map::new(|k: Seq<char>| has_key(s, k), |k: Seq<char>| s[index_of(s, k)].1.deep_view())
}

proof fn lemma_entry<V: DeepView>(s: Seq<(DriveId, V)>, i: int)
    requires
        keys_distinct(s),
        0 <= i < s.len(),
    ensures
        entries_map(s).contains_key(key_at(s, i)),
        entries_map(s)[key_at(s, i)] == s[i].1.deep_view(),
{
    assert(has_key(s, key_at(s, i)));
    let j = index_of(s, key_at(s, i));
    assert(key_at(s, j) == key_at(s, i));
}

proof fn lemma_len<V: DeepView>(s: Seq<(DriveId, V)>)
    requires
        keys_distinct(s),
    ensures
        entries_map(s).dom().len() == s.len(),
        entries_map(s).dom().finite(),
{
    let n = s.len() as int;
    let keys = Seq::new(s.len(), |i: int| key_at(s, i));
    assert forall|i: int, j: int| 0 <= i < n && 0 <= j < n && i != j implies keys[i] != keys[j] by {
        assert(key_at(s, i) != key_at(s, j));
    }
    assert(keys.no_duplicates());
    assert forall|k: Seq<char>| #[trigger] entries_map(s).dom().contains(k) <==> keys.to_set().contains(
        k,
    ) by {
        if entries_map(s).dom().contains(k) {
            let i = index_of(s, k);
            assert(keys[i] == k);
        }
        if keys.to_set().contains(k) {
            let i = choose|i: int| 0 <= i < n && keys[i] == k;
            assert(key_at(s, i) == k);
        }
    }
    assert(entries_map(s).dom() =~= keys.to_set());
    keys.unique_seq_to_set();
}

proof fn lemma_update<V: DeepView>(s: Seq<(DriveId, V)>, i: int, e: (DriveId, V))
    requires
        keys_distinct(s),
        0 <= i < s.len(),
        e.0@ == key_at(s, i),
    ensures
        keys_distinct(s.update(i, e)),
        entries_map(s.update(i, e)) == entries_map(s).insert(e.0@, e.1.deep_view()),
{
    let t = s.update(i, e);
    let kv = e.0@;
    let vv = e.1.deep_view();
    assert forall|a: int, b: int| 0 <= a < t.len() && 0 <= b < t.len() && a != b implies #[trigger] key_at(
        t,
        a,
    ) != #[trigger] key_at(t, b) by {
        assert(key_at(s, a) != key_at(s, b));
    }
    lemma_entry(s, i);
    assert forall|key: Seq<char>| #[trigger] entries_map(t).contains_key(key) <==> entries_map(s).insert(
        kv,
        vv,
    ).contains_key(key) by {
        if entries_map(t).contains_key(key) {
            let j = index_of(t, key);
            if j != i {
                lemma_entry(s, j);
            }
        }
        if entries_map(s).contains_key(key) {
            let j = index_of(s, key);
            assert(key_at(t, j) == key);
        }
        if key == kv {
            assert(key_at(t, i) == key);
        }
    }
    assert forall|key: Seq<char>| #[trigger] entries_map(t).contains_key(key) implies entries_map(t)[key]
        == entries_map(s).insert(kv, vv)[key] by {
        let j = index_of(t, key);
        lemma_entry(t, j);
        if j != i {
            lemma_entry(s, j);
        }
    }
    assert(entries_map(t) =~= entries_map(s).insert(kv, vv));
}

proof fn lemma_push<V: DeepView>(s: Seq<(DriveId, V)>, e: (DriveId, V))
    requires
        keys_distinct(s),
        !entries_map(s).contains_key(e.0@),
    ensures
        keys_distinct(s.push(e)),
        entries_map(s.push(e)) == entries_map(s).insert(e.0@, e.1.deep_view()),
{
    let t = s.push(e);
    let n = s.len() as int;
    let kv = e.0@;
    let vv = e.1.deep_view();
    assert forall|a: int, b: int| 0 <= a < t.len() && 0 <= b < t.len() && a != b implies #[trigger] key_at(
        t,
        a,
    ) != #[trigger] key_at(t, b) by {
        if a < n && b < n {
            assert(key_at(s, a) != key_at(s, b));
        } else if a < n {
            assert(key_at(t, a) == key_at(s, a));
            assert(has_key(s, key_at(s, a)));
        } else if b < n {
            assert(key_at(t, b) == key_at(s, b));
            assert(has_key(s, key_at(s, b)));
        }
    }
    assert forall|key: Seq<char>| #[trigger] entries_map(t).contains_key(key) <==> entries_map(s).insert(
        kv,
        vv,
    ).contains_key(key) by {
        if entries_map(t).contains_key(key) {
            let j = index_of(t, key);
            if j < n {
                assert(key_at(s, j) == key);
            }
        }
        if entries_map(s).contains_key(key) {
            let j = index_of(s, key);
            assert(key_at(t, j) == key);
        }
        if key == kv {
            assert(key_at(t, n) == key);
        }
    }
    assert forall|key: Seq<char>| #[trigger] entries_map(t).contains_key(key) implies entries_map(t)[key]
        == entries_map(s).insert(kv, vv)[key] by {
        let j = index_of(t, key);
        lemma_entry(t, j);
        if j < n {
            lemma_entry(s, j);
        }
    }
    assert(entries_map(t) =~= entries_map(s).insert(kv, vv));
}

fn find_key<V: DeepView>(entries: &Vec<(DriveId, V)>, k: &DriveId) -> (r: Option<usize>)
    ensures
        match r {
            Some(i) => i < entries.len() && key_at(entries@, i as int) == k@,
            None => !has_key(entries@, k@),
        },
{
    let mut i: usize = 0;
    while i < entries.len()
        invariant
            i <= entries.len(),
            forall|j: int| 0 <= j < i ==> key_at(entries@, j) != k@,
        decreases entries.len() - i,
    {
        if entries[i].0.same(k) {
            return Some(i);
        }
        i = i + 1;
    }
    None
}

/// Entries keyed by identifier; the keys are pairwise distinct.
pub struct IdTable<V: DeepView> {
    entries: Vec<(DriveId, V)>,
}

impl<V: DeepView> View for IdTable<V> {
    type V = Map<Seq<char>, V::V>;

    closed spec fn view(&self) -> Map<Seq<char>, V::V> {
        entries_map(self.entries@)
    }
}

impl<V: DeepView> IdTable<V> {
    #[verifier::type_invariant]
    closed spec fn inv(&self) -> bool {
        keys_distinct(self.entries@)
    }

    /// The key stored at position `i`.
    pub closed spec fn key_at_index(&self, i: int) -> Seq<char> {
        key_at(self.entries@, i)
    }

    /// The number of stored entries.
    pub closed spec fn entry_count(&self) -> nat {
        self.entries@.len()
    }

    /// Every key stands at some position below the entry count.
    pub proof fn lemma_keys_listed(&self)
        ensures
            forall|k: Seq<char>|
                #[trigger] self@.contains_key(k) ==> exists|i: int|
                    0 <= i < self.entry_count() && #[trigger] self.key_at_index(i) == k,
    {
        assert forall|k: Seq<char>| #[trigger] self@.contains_key(k) implies exists|i: int|
            0 <= i < self.entry_count() && #[trigger] self.key_at_index(i) == k by {
            let i = index_of(self.entries@, k);
            assert(self.key_at_index(i) == k);
        }
    }

    /// An empty table.
    pub fn new() -> (r: Self)
        ensures
            r@ == Map::<Seq<char>, V::V>::empty(),
    {
        let r = IdTable { entries: Vec::new() };
        assert(r@ =~= Map::<Seq<char>, V::V>::empty());
        r
    }

    /// The number of keys.
    pub fn len(&self) -> (r: usize)
        ensures
            r == self@.len(),
            r == self.entry_count(),
            self@.dom().finite(),
    {
        proof {
            use_type_invariant(self);
            lemma_len(self.entries@);
        }
        self.entries.len()
    }

    /// The key and value stored at position `i`, for walking the table.
    pub fn entry_at(&self, i: usize) -> (r: (&DriveId, &V))
        requires
            i < self@.len(),
        ensures
            self@.contains_key(r.0@),
            self@[r.0@] == r.1.deep_view(),
            r.0@ == self.key_at_index(i as int),
    {
        proof {
            use_type_invariant(self);
            lemma_len(self.entries@);
            lemma_entry(self.entries@, i as int);
        }
        (&self.entries[i].0, &self.entries[i].1)
    }

    /// The value stored under `k`, if any.
    pub fn get(&self, k: &DriveId) -> (r: Option<&V>)
        ensures
            r.is_some() == self@.contains_key(k@),
            r.is_some() ==> r.unwrap().deep_view() == self@[k@],
    {
        proof {
            use_type_invariant(self);
        }
        match find_key(&self.entries, k) {
            Some(i) => {
                proof {
                    lemma_entry(self.entries@, i as int);
                }
                Some(&self.entries[i].1)
            },
            None => None,
        }
    }

    /// Stores `v` under `k` and hands back what was stored there before.
    pub fn replace(&mut self, k: DriveId, v: V) -> (r: Option<V>)
        ensures
            final(self)@ == old(self)@.insert(k@, v.deep_view()),
            r.is_some() == old(self)@.contains_key(k@),
            r.is_some() ==> r.unwrap().deep_view() == old(self)@[k@],
    {
        proof {
            use_type_invariant(&*self);
        }
        let mut entries: Vec<(DriveId, V)> = Vec::new();
        std::mem::swap(&mut entries, &mut self.entries);
        let ghost before = entries@;
        match find_key(&entries, &k) {
            Some(i) => {
                let mut slot = (k, v);
                proof {
                    lemma_entry(before, i as int);
                    lemma_update(before, i as int, slot);
                }
                entries.set_and_swap(i, &mut slot);
                self.entries = entries;
                Some(slot.1)
            },
            None => {
                proof {
                    lemma_push(before, (k, v));
                }
                entries.push((k, v));
                self.entries = entries;
                None
            },
        }
    }

    /// Removes every key.
    pub fn clear(&mut self)
        ensures
            final(self)@ == Map::<Seq<char>, V::V>::empty(),
    {
        self.entries = Vec::new();
        assert(self@ =~= Map::<Seq<char>, V::V>::empty());
    }
}

} // verus!
