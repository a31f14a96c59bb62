//! An ordered map from disk names to readings.
//!
//! It keeps its entries sorted by key in the order of `String`, without
//! duplicates, so that walking it gives the keys in ascending order, as a
//! `BTreeMap<String, T>` does.
use crate::text::{lemma_str_less_irreflexive, lemma_str_less_transitive, lemma_str_less_total, str_eq, str_less, str_lt};
use vstd::prelude::*;

verus! {

/// The keys of `s` ascend strictly.
pub open spec fn keys_sorted<T>(s: Seq<(Seq<char>, T)>) -> bool {
    forall|i: int, j: int| 0 <= i < j < s.len() ==> str_less(#[trigger] s[i].0, #[trigger] s[j].0)
}

/// Whether `k` is a key of `s`.
pub open spec fn has_key<T>(s: Seq<(Seq<char>, T)>, k: Seq<char>) -> bool {
    exists|i: int| 0 <= i < s.len() && #[trigger] s[i].0 == k
}

/// A position of key `k` in `s`, where it has one.
pub open spec fn key_index<T>(s: Seq<(Seq<char>, T)>, k: Seq<char>) -> int {
    choose|i: int| 0 <= i < s.len() && #[trigger] s[i].0 == k
}

/// The map that the association list `s` stands for.
pub open spec fn entries_to_map<T>(s: Seq<(Seq<char>, T)>) -> Map<Seq<char>, T> {
    Map::new(|k: Seq<char>| has_key(s, k), |k: Seq<char>| s[key_index(s, k)].1)
}

/// In a sorted association list a key occurs once.
pub proof fn lemma_sorted_unique<T>(s: Seq<(Seq<char>, T)>, i: int, j: int)
    requires
        keys_sorted(s),
        0 <= i < s.len(),
        0 <= j < s.len(),
        s[i].0 == s[j].0,
    ensures
        i == j,
{
    lemma_str_less_irreflexive(s[i].0);
    if i < j {
        assert(str_less(s[i].0, s[j].0));
    } else if j < i {
        assert(str_less(s[j].0, s[i].0));
    }
}

/// In a sorted association list, the map gives at a key the value stored with it.
pub proof fn lemma_map_at<T>(s: Seq<(Seq<char>, T)>, i: int)
    requires
        keys_sorted(s),
        0 <= i < s.len(),
    ensures
        entries_to_map(s).contains_key(s[i].0),
        entries_to_map(s)[s[i].0] == s[i].1,
{
    let k = s[i].0;
    assert(has_key(s, k));
    let c = key_index(s, k);
    lemma_sorted_unique(s, i, c);
}

/// Putting `(k, v)` at position `p`, between the keys below `k` and those above,
/// keeps the list sorted and inserts `k` into its map.
proof fn lemma_insert_at<T>(s: Seq<(Seq<char>, T)>, p: int, k: Seq<char>, v: T)
    requires
        keys_sorted(s),
        0 <= p <= s.len(),
        forall|j: int| 0 <= j < p ==> str_less(#[trigger] s[j].0, k),
        p < s.len() ==> str_less(k, s[p].0),
    ensures
        keys_sorted(s.insert(p, (k, v))),
        entries_to_map(s.insert(p, (k, v))) == entries_to_map(s).insert(k, v),
{
    let t = s.insert(p, (k, v));
    assert forall|i: int, j: int| 0 <= i < j < t.len() implies str_less(#[trigger] t[i].0, #[trigger] t[j].0) by {
        if j < p {
        } else if j == p {
        } else if i < p {
            lemma_str_less_transitive(s[i].0, k, s[p].0);
            if j - 1 > p {
                lemma_str_less_transitive(s[i].0, s[p].0, s[j - 1].0);
            }
        } else if i == p {
            if j - 1 > p {
                lemma_str_less_transitive(k, s[p].0, s[j - 1].0);
            }
        } else {
        }
    }
    let m = entries_to_map(s);
    let mt = entries_to_map(t);
    assert forall|q: Seq<char>| #[trigger] mt.contains_key(q) <==> m.insert(k, v).contains_key(q) by {
        if has_key(t, q) {
            let c = choose|c: int| 0 <= c < t.len() && #[trigger] t[c].0 == q;
            if c < p {
                assert(s[c].0 == q);
            } else if c > p {
                assert(s[c - 1].0 == q);
            }
        }
        if has_key(s, q) {
            let c = choose|c: int| 0 <= c < s.len() && #[trigger] s[c].0 == q;
            if c < p {
                assert(t[c].0 == q);
            } else {
                assert(t[c + 1].0 == q);
            }
        }
        if q == k {
            assert(t[p].0 == q);
        }
    }
    assert forall|q: Seq<char>| #[trigger] mt.contains_key(q) implies mt[q] == m.insert(k, v)[q] by {
        let c = choose|c: int| 0 <= c < t.len() && #[trigger] t[c].0 == q;
        lemma_map_at(t, c);
        if c < p {
            lemma_map_at(s, c);
            lemma_str_less_irreflexive(k);
        } else if c > p {
            lemma_map_at(s, c - 1);
            lemma_str_less_irreflexive(k);
            assert(str_less(t[p].0, t[c].0));
        }
    }
    assert(mt =~= m.insert(k, v));
}

/// Replacing the value at the position of key `k` keeps the list sorted and
/// inserts `k` into its map.
proof fn lemma_update_at<T>(s: Seq<(Seq<char>, T)>, p: int, k: Seq<char>, v: T)
    requires
        keys_sorted(s),
        0 <= p < s.len(),
        s[p].0 == k,
    ensures
        keys_sorted(s.update(p, (k, v))),
        entries_to_map(s.update(p, (k, v))) == entries_to_map(s).insert(k, v),
{
    let t = s.update(p, (k, v));
    assert forall|i: int, j: int| 0 <= i < j < t.len() implies str_less(#[trigger] t[i].0, #[trigger] t[j].0) by {
        assert(str_less(s[i].0, s[j].0));
    }
    let m = entries_to_map(s);
    let mt = entries_to_map(t);
    assert forall|q: Seq<char>| #[trigger] mt.contains_key(q) <==> m.insert(k, v).contains_key(q) by {
        if has_key(t, q) {
            let c = choose|c: int| 0 <= c < t.len() && #[trigger] t[c].0 == q;
            assert(s[c].0 == q);
        }
        if has_key(s, q) {
            let c = choose|c: int| 0 <= c < s.len() && #[trigger] s[c].0 == q;
            assert(t[c].0 == q);
        }
        if q == k {
            assert(t[p].0 == q);
        }
    }
    assert forall|q: Seq<char>| #[trigger] mt.contains_key(q) implies mt[q] == m.insert(k, v)[q] by {
        let c = choose|c: int| 0 <= c < t.len() && #[trigger] t[c].0 == q;
        lemma_map_at(t, c);
        if c != p {
            lemma_map_at(s, c);
            if q == k {
                lemma_sorted_unique(s, c, p);
            }
        }
    }
    assert(mt =~= m.insert(k, v));
}

/// Disk names mapped to readings of type `T`, in ascending order of name.
pub struct TempMap<T> {
    entries: Vec<(String, T)>,
}

impl<T> TempMap<T> {
    /// The entries in ascending order of key.
    pub closed spec fn entries(&self) -> Seq<(Seq<char>, T)> {
        self.entries@.map_values(|e: (String, T)| (e.0@, e.1))
    }

    #[verifier::type_invariant]
    closed spec fn sorted(&self) -> bool {
        keys_sorted(self.entries())
    }

    /// An empty map.
    pub fn new() -> (m: Self)
        ensures
            m.entries() == Seq::<(Seq<char>, T)>::empty(),
            m@ == Map::<Seq<char>, T>::empty(),
    {
        let m = TempMap { entries: Vec::new() };
        assert(m.entries() =~= Seq::<(Seq<char>, T)>::empty());
        assert(m@ =~= Map::<Seq<char>, T>::empty());
        m
    }

    /// The number of entries.
    pub fn len(&self) -> (n: usize)
        ensures
            n == self.entries().len(),
            keys_sorted(self.entries()),
    {
        proof {
            use_type_invariant(self);
        }
        self.entries.len()
    }

    /// Whether the map has no entry.
    pub fn is_empty(&self) -> (b: bool)
        ensures
            b == (self.entries().len() == 0),
            b == (self@ == Map::<Seq<char>, T>::empty()),
    {
        proof {
            if self.entries().len() > 0 {
                use_type_invariant(self);
                lemma_map_at(self.entries(), 0);
            } else {
                assert(self@ =~= Map::<Seq<char>, T>::empty());
            }
        }
        self.entries.len() == 0
    }

    /// The key at position `i`.
    pub fn key_at(&self, i: usize) -> (k: &String)
        requires
            i < self.entries().len(),
        ensures
            k@ == self.entries()[i as int].0,
    {
        &self.entries[i].0
    }

    /// The reading at position `i`.
    pub fn value_at(&self, i: usize) -> (v: &T)
        requires
            i < self.entries().len(),
        ensures
            *v == self.entries()[i as int].1,
    {
        &self.entries[i].1
    }

    /// Sets the reading of `key` to `value`, adding `key` where it is new.
    pub fn insert(&mut self, key: String, value: T)
        ensures
            final(self)@ == old(self)@.insert(key@, value),
            keys_sorted(final(self).entries()),
            old(self).entries().len() == 0 ==> final(self).entries() == seq![(key@, value)],
    {
        proof {
            use_type_invariant(&*self);
        }
        let mut entries: Vec<(String, T)> = Vec::new();
        std::mem::swap(&mut entries, &mut self.entries);
        let ghost s = entries@.map_values(|e: (String, T)| (e.0@, e.1));
        assert(keys_sorted(s));
        let n = entries.len();
        let mut i: usize = 0;
        while i < n
            invariant
                n == entries@.len(),
                s == entries@.map_values(|e: (String, T)| (e.0@, e.1)),
                i <= n,
                forall|j: int| 0 <= j < i ==> str_less(#[trigger] s[j].0, key@),
            ensures
                i <= n,
                forall|j: int| 0 <= j < i ==> str_less(#[trigger] s[j].0, key@),
                i < n ==> !str_less(s[i as int].0, key@),
            decreases n - i,
        {
            if !str_lt(entries[i].0.as_str(), key.as_str()) {
                break;
            }
            i = i + 1;
        }
        if i < n && str_eq(entries[i].0.as_str(), key.as_str()) {
            proof {
                lemma_update_at(s, i as int, key@, value);
            }
            entries.set(i, (key, value));
            assert(entries@.map_values(|e: (String, T)| (e.0@, e.1)) =~= s.update(i as int, (key@, value)));
        } else {
            proof {
                if i < n {
                    lemma_str_less_total(s[i as int].0, key@);
                }
                lemma_insert_at(s, i as int, key@, value);
            }
            entries.insert(i, (key, value));
            assert(entries@.map_values(|e: (String, T)| (e.0@, e.1)) =~= s.insert(i as int, (key@, value)));
            assert(n == 0 ==> s.insert(i as int, (key@, value)) =~= seq![(key@, value)]);
        }
        self.entries = entries;
    }

    /// Hands out the entries in ascending order of key.
    pub fn into_entries(self) -> (v: Vec<(String, T)>)
        ensures
            v@.map_values(|e: (String, T)| (e.0@, e.1)) == self.entries(),
    {
        self.entries
    }
}

impl<T: Copy> TempMap<T> {
    /// Gives every key the reading `value`.
    pub fn set_all(&mut self, value: T)
        ensures
            final(self).entries().len() == old(self).entries().len(),
            forall|i: int|
                0 <= i < old(self).entries().len() ==> #[trigger] final(self).entries()[i] == (
                old(self).entries()[i].0,
                value,
            ),
            final(self)@.dom() == old(self)@.dom(),
            forall|k: Seq<char>| #[trigger] final(self)@.contains_key(k) ==> final(self)@[k] == value,
    {
        proof {
            use_type_invariant(&*self);
        }
        let mut entries: Vec<(String, T)> = Vec::new();
        std::mem::swap(&mut entries, &mut self.entries);
        let ghost s = entries@.map_values(|e: (String, T)| (e.0@, e.1));
        let n = entries.len();
        let mut i: usize = 0;
        while i < n
            invariant
                n == entries@.len(),
                s.len() == n,
                keys_sorted(s),
                i <= n,
                forall|j: int|
                    #![trigger entries@[j]]
                    0 <= j < n ==> entries@[j].0@ == s[j].0 && entries@[j].1 == (if j < i {
                        value
                    } else {
                        s[j].1
                    }),
            decreases n - i,
        {
            let mut e: (String, T) = (String::new(), value);
            entries.set_and_swap(i, &mut e);
            entries.set(i, (e.0, value));
            i = i + 1;
        }
        let ghost t = entries@.map_values(|e: (String, T)| (e.0@, e.1));
        assert(t =~= s.map_values(|e: (Seq<char>, T)| (e.0, value)));
        assert(keys_sorted(t));
        proof {
            assert forall|k: Seq<char>| has_key(t, k) <==> has_key(s, k) by {
                if has_key(t, k) {
                    let c = key_index(t, k);
                    assert(s[c].0 == k);
                }
                if has_key(s, k) {
                    let c = key_index(s, k);
                    assert(t[c].0 == k);
                }
            }
            assert(entries_to_map(t).dom() =~= entries_to_map(s).dom());
            assert forall|k: Seq<char>| #[trigger] entries_to_map(t).contains_key(k) implies entries_to_map(t)[k] == value by {
                lemma_map_at(t, key_index(t, k));
            }
        }
        self.entries = entries;
    }
}

impl<T> View for TempMap<T> {
    type V = Map<Seq<char>, T>;

    /// The map from disk name to reading.
    open spec fn view(&self) -> Map<Seq<char>, T> {
        entries_to_map(self.entries())
    }
}

} // verus!
