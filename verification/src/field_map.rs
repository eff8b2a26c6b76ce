//! A map keyed by strings that keeps its entries in the order in which their
//! keys were first inserted. It stands where a `HashMap<String, _>` stood:
//! inserting a present key replaces its value, and each key occurs once.
use vstd::prelude::*;

verus! {

/// The entries of a map, in order: pairs of a key and a value.
pub type Entries<W> = Seq<(Seq<char>, W)>;

/// No key occurs twice among the entries.
pub open spec fn distinct_keys<W>(e: Entries<W>) -> bool {
    forall|i: int, j: int| 0 <= i < j < e.len() ==> e[i].0 != e[j].0
}

/// The index of the entry with key `k`, searching from the end.
pub open spec fn position<W>(e: Entries<W>, k: Seq<char>) -> Option<int>
    decreases e.len(),
{
    if e.len() == 0 {
        None
    } else if e.last().0 == k {
        Some(e.len() - 1)
    } else {
        position(e.drop_last(), k)
    }
}

/// The value stored under `k`: that of the last entry with key `k`.
pub open spec fn lookup<W>(e: Entries<W>, k: Seq<char>) -> Option<W> {
    match position(e, k) {
        Some(i) => Some(e[i].1),
        None => None,
    }
}

/// The entries after storing `w` under `k`: the entry of `k` gets the new
/// value in place, or a new entry is appended when `k` is absent.
pub open spec fn store<W>(e: Entries<W>, k: Seq<char>, w: W) -> Entries<W> {
    match position(e, k) {
        Some(i) => e.update(i, (k, w)),
        None => e.push((k, w)),
    }
}

/// `position` finds an entry with key `k` exactly when one exists, and the
/// last such entry.
pub proof fn lemma_position<W>(e: Entries<W>, k: Seq<char>)
    ensures
        match position(e, k) {
            Some(i) => 0 <= i < e.len() && e[i].0 == k
                && forall|j: int| i < j < e.len() ==> e[j].0 != k,
            None => forall|j: int| 0 <= j < e.len() ==> e[j].0 != k,
        },
    decreases e.len(),
{
    if e.len() > 0 && e.last().0 != k {
        let d = e.drop_last();
        lemma_position(d, k);
        assert forall|j: int| 0 <= j < d.len() implies d[j] == e[j] by {}
        assert(e[e.len() - 1].0 != k);
    }
}

/// Storing a value under a key: a read of that key gives the value back, a
/// read of any other key gives what it gave before, keys stay distinct, and
/// the entries already there keep their keys and their order.
pub proof fn law_store_lookup<W>(e: Entries<W>, k: Seq<char>, w: W, other: Seq<char>)
    requires
        distinct_keys(e),
    ensures
        lookup(store(e, k, w), k) == Some(w),
        other != k ==> lookup(store(e, k, w), other) == lookup(e, other),
        distinct_keys(store(e, k, w)),
        e.len() <= store(e, k, w).len() <= e.len() + 1,
        forall|i: int| 0 <= i < e.len() ==> #[trigger] store(e, k, w)[i].0 == e[i].0,
{
    let s = store(e, k, w);
    lemma_position(e, k);
    lemma_position(s, k);
    lemma_position(e, other);
    lemma_position(s, other);
    match position(e, k) {
        Some(i) => {
            assert(s[i].0 == k);
        },
        None => {
            assert(s[e.len() as int].0 == k);
        },
    }
    if other != k {
        match position(e, other) {
            Some(i) => {
                assert(s[i].0 == other);
            },
            None => {},
        }
    }
}

/// A string-keyed map whose entries keep their insertion order.
pub struct FieldMap<V: View> {
    entries: Vec<(String, V)>,
}

impl<V: View> View for FieldMap<V> {
    type V = Entries<V::V>;

    open spec fn view(&self) -> Entries<V::V> {
        self.entries_view()
    }
}

impl<V: View> FieldMap<V> {
    /// The entries, each key and value taken by its view.
    pub closed spec fn entries_view(&self) -> Entries<V::V> {
        self.entries@.map_values(|e: (String, V)| (e.0@, e.1@))
    }

    #[verifier::type_invariant]
    closed spec fn keys_are_distinct(&self) -> bool {
        distinct_keys(self.entries_view())
    }

    /// An empty map.
    pub fn new() -> (m: Self)
        ensures
            m@ == Seq::<(Seq<char>, V::V)>::empty(),
    {
        let m = FieldMap { entries: Vec::new() };
        assert(m.entries_view() =~= Seq::<(Seq<char>, V::V)>::empty());
        m
    }

    /// The number of entries.
    pub fn len(&self) -> (n: usize)
        ensures
            n == self@.len(),
            distinct_keys(self@),
    {
        proof {
            use_type_invariant(self);
        }
        self.entries.len()
    }

    /// The key of the entry at index `i`.
    pub fn key_at(&self, i: usize) -> (k: &String)
        requires
            i < self@.len(),
        ensures
            k@ == self@[i as int].0,
    {
        &self.entries[i].0
    }

    /// The value of the entry at index `i`.
    pub fn value_at(&self, i: usize) -> (v: &V)
        requires
            i < self@.len(),
        ensures
            v@ == self@[i as int].1,
    {
        &self.entries[i].1
    }

    /// The index of the entry whose key is `key`, if there is one.
    fn find_key(&self, key: &String) -> (r: Option<usize>)
        ensures
            match r {
                Some(i) => position(self@, key@) == Some(i as int),
                None => position(self@, key@) is None,
            },
    {
        proof {
            use_type_invariant(self);
            lemma_position(self@, key@);
        }
        let mut i: usize = 0;
        while i < self.entries.len()
            invariant
                i <= self.entries@.len(),
                self@.len() == self.entries@.len(),
                distinct_keys(self@),
                forall|j: int| 0 <= j < i ==> self@[j].0 != key@,
                match position(self@, key@) {
                    Some(p) => 0 <= p < self@.len() && self@[p].0 == key@
                        && forall|j: int| p < j < self@.len() ==> self@[j].0 != key@,
                    None => forall|j: int| 0 <= j < self@.len() ==> self@[j].0 != key@,
                },
            decreases self.entries.len() - i,
        {
            if self.entries[i].0 == *key {
                assert(self@[i as int].0 == key@);
                return Some(i);
            }
            i += 1;
        }
        None
    }

    /// The value stored under `key`, if any.
    pub fn get(&self, key: &str) -> (r: Option<&V>)
        ensures
            match r {
                Some(v) => lookup(self@, key@) == Some(v@),
                None => lookup(self@, key@) is None,
            },
    {
        let k = key.to_string();
        proof {
            lemma_position(self@, k@);
        }
        match self.find_key(&k) {
            Some(i) => Some(&self.entries[i].1),
            None => None,
        }
    }

    /// Stores `value` under `key`: replaces the value of an entry with that
    /// key in place, or appends a new entry.
    pub fn insert(&mut self, key: String, value: V)
        ensures
            final(self)@ == store(old(self)@, key@, value@),
            distinct_keys(final(self)@),
    {
        proof {
            use_type_invariant(&*self);
            lemma_position(self@, key@);
        }
        let ghost old_view = self@;
        let found = self.find_key(&key);
        let ghost kv = key@;
        let ghost vv = value@;
        let mut entries: Vec<(String, V)> = Vec::new();
        std::mem::swap(&mut entries, &mut self.entries);
        match found {
            Some(i) => {
                entries.set(i, (key, value));
            },
            None => {
                entries.push((key, value));
            },
        }
        let ghost new_view = entries@.map_values(|e: (String, V)| (e.0@, e.1@));
        proof {
            match found {
                Some(i) => {
                    assert(new_view =~= old_view.update(i as int, (kv, vv)));
                },
                None => {
                    assert(new_view =~= old_view.push((kv, vv)));
                },
            }
        }
        self.entries = entries;
    }
}

} // verus!
