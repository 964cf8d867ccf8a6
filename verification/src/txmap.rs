//! A map from transaction hashes, kept as a list in the order of the hashes.
use vstd::prelude::*;

use crate::hash::H256;

verus! {

/// Whether the entries stand in strictly increasing order of their hashes, so
/// that no hash occurs twice.
pub open spec fn in_order<V>(s: Seq<(H256, V)>) -> bool {
    forall|i: int, j: int| 0 <= i < j < s.len() ==> (#[trigger] s[i]).0.before((#[trigger] s[j]).0)
}

/// Whether some entry has the given hash.
pub open spec fn holds_key<V>(s: Seq<(H256, V)>, key: H256) -> bool {
    exists|i: int| 0 <= i < s.len() && (#[trigger] s[i]).0 == key
}

/// The position of an entry with the given hash.
pub open spec fn position<V>(s: Seq<(H256, V)>, key: H256) -> int {
    choose|i: int| 0 <= i < s.len() && (#[trigger] s[i]).0 == key
}

/// The map that a list of entries stands for.
pub open spec fn map_of<V>(s: Seq<(H256, V)>) -> Map<H256, V> {
    Map::new(|key: H256| holds_key(s, key), |key: H256| s[position(s, key)].1)
}

/// In an ordered list the map takes the value of the entry with the hash.
proof fn lemma_map_of_at<V>(s: Seq<(H256, V)>, i: int)
    requires
        in_order(s),
        0 <= i < s.len(),
    ensures
        map_of(s).dom().contains(s[i].0),
        map_of(s)[s[i].0] == s[i].1,
{
    assert(holds_key(s, s[i].0));
    let p = position(s, s[i].0);
    assert(p == i);
}

/// A map from hashes to values.
pub struct TxMap<V> {
    entries: Vec<(H256, V)>,
}

impl<V> View for TxMap<V> {
    type V = Map<H256, V>;

    closed spec fn view(&self) -> Map<H256, V> {
        map_of(self.entries@)
    }
}

impl<V> TxMap<V> {
    #[verifier::type_invariant]
    spec fn well_formed(self) -> bool {
        in_order(self.entries@)
    }

    /// An empty map.
    pub fn new() -> (r: Self)
        ensures
            r@ == Map::<H256, V>::empty(),
    {
        let r = TxMap { entries: Vec::new() };
        assert(r@ =~= Map::<H256, V>::empty());
        r
    }

    /// Where the hash stands, and whether an entry with it is there.
    fn search(entries: &Vec<(H256, V)>, key: &H256) -> (r: (usize, bool))
        requires
            in_order(entries@),
        ensures
            r.0 <= entries@.len(),
            forall|i: int| 0 <= i < r.0 ==> (#[trigger] entries@[i]).0.before(*key),
            r.1 ==> r.0 < entries@.len() && entries@[r.0 as int].0 == *key,
            !r.1 ==> forall|i: int|
                r.0 <= i < entries@.len() ==> key.before((#[trigger] entries@[i]).0),
            r.1 == holds_key(entries@, *key),
    {
        let mut low: usize = 0;
        let mut high: usize = entries.len();
        while low < high
            invariant
                in_order(entries@),
                low <= high <= entries@.len(),
                forall|i: int| 0 <= i < low ==> (#[trigger] entries@[i]).0.before(*key),
                forall|i: int|
                    high <= i < entries@.len() ==> !(#[trigger] entries@[i]).0.before(*key),
            decreases high - low,
        {
            let mid: usize = low + (high - low) / 2;
            if entries[mid].0.is_before(key) {
                low = mid + 1;
            } else {
                high = mid;
            }
        }
        let found = low < entries.len() && entries[low].0 == *key;
        (low, found)
    }

    /// The number of entries.
    pub fn len(&self) -> (r: usize)
        ensures
            r == self@.dom().len(),
            self@.dom().finite(),
    {
        proof {
            use_type_invariant(self);
            lemma_dom_len(self.entries@);
        }
        self.entries.len()
    }

    /// Whether an entry with the hash is there.
    pub fn contains_key(&self, key: &H256) -> (r: bool)
        ensures
            r == self@.contains_key(*key),
    {
        proof {
            use_type_invariant(self);
        }
        Self::search(&self.entries, key).1
    }

    /// The value under the hash.
    pub fn get(&self, key: &H256) -> (r: Option<&V>)
        ensures
            match r {
                Some(v) => self@.contains_key(*key) && self@[*key] == *v,
                None => !self@.contains_key(*key),
            },
    {
        proof {
            use_type_invariant(self);
        }
        let (at, found) = Self::search(&self.entries, key);
        if found {
            proof {
                lemma_map_of_at(self.entries@, at as int);
            }
            Some(&self.entries[at].1)
        } else {
            None
        }
    }

    /// Puts the value under the hash, in place of a value that stood there.
    pub fn insert(&mut self, key: H256, value: V)
        ensures
            final(self)@ == old(self)@.insert(key, value),
    {
        proof {
            use_type_invariant(&*self);
        }
        let mut entries: Vec<(H256, V)> = Vec::new();
        std::mem::swap(&mut entries, &mut self.entries);
        let ghost before = entries@;
        let (at, found) = Self::search(&entries, &key);
        if found {
            entries.set(at, (key, value));
        } else {
            entries.insert(at, (key, value));
        }
        proof {
            lemma_put(before, entries@, at as int, found, key, value);
        }
        self.entries = entries;
    }

    /// Takes the entry with the hash out.
    pub fn remove(&mut self, key: &H256)
        ensures
            final(self)@ == old(self)@.remove(*key),
    {
        proof {
            use_type_invariant(&*self);
        }
        let mut entries: Vec<(H256, V)> = Vec::new();
        std::mem::swap(&mut entries, &mut self.entries);
        let ghost before = entries@;
        let (at, found) = Self::search(&entries, key);
        if found {
            let _ = entries.remove(at);
            proof {
                lemma_take_out(before, entries@, at as int, *key);
            }
        } else {
            assert(map_of(before) =~= map_of(before).remove(*key));
        }
        self.entries = entries;
    }

    /// Puts every entry of the other map into this one; where both have a
    /// hash, the other map's value stands.
    pub fn extend(&mut self, other: TxMap<V>)
        ensures
            final(self)@ == old(self)@.union_prefer_right(other@),
    {
        proof {
            use_type_invariant(&other);
        }
        let mut entries = other.entries;
        let ghost all = entries@;
        assert(self@ =~= old(self)@.union_prefer_right(map_of(all.skip(all.len() as int))));
        while entries.len() > 0
            invariant
                in_order(all),
                entries@.len() <= all.len(),
                entries@ == all.take(entries@.len() as int),
                self@ == old(self)@.union_prefer_right(map_of(all.skip(entries@.len() as int))),
            decreases entries@.len(),
        {
            let ghost n = entries@.len() as int;
            let ghost rest = all.skip(n);
            if let Some((key, value)) = entries.pop() {
                self.insert(key, value);
                proof {
                    lemma_cons(all, n - 1);
                    assert(all[n - 1] == (key, value));
                    assert(self@ =~= old(self)@.union_prefer_right(map_of(all.skip(n - 1))));
                    assert(entries@ =~= all.take(n - 1));
                }
            }
        }
        assert(all.skip(0) =~= all);
    }

    /// The entries, in the order of their hashes.
    pub fn into_entries(self) -> (r: Vec<(H256, V)>)
        ensures
            in_order(r@),
            map_of(r@) == self@,
            forall|key: H256| #[trigger]
                self@.contains_key(key) <==> exists|i: int|
                    0 <= i < r@.len() && (#[trigger] r@[i]).0 == key,
            forall|i: int| 0 <= i < r@.len() ==> self@[(#[trigger] r@[i]).0] == r@[i].1,
    {
        proof {
            use_type_invariant(&self);
            assert forall|i: int| 0 <= i < self.entries@.len() implies self@[(
            #[trigger] self.entries@[i]).0] == self.entries@[i].1 by {
                lemma_map_of_at(self.entries@, i);
            }
        }
        self.entries
    }
}

/// An ordered list of entries stands for a map with as many keys.
proof fn lemma_dom_len<V>(s: Seq<(H256, V)>)
    requires
        in_order(s),
    ensures
        map_of(s).dom().finite(),
        map_of(s).dom().len() == s.len(),
    decreases s.len(),
{
    if s.len() == 0 {
        assert(map_of(s).dom() =~= Set::<H256>::empty());
    } else {
        let t = s.drop_last();
        lemma_dom_len(t);
        assert forall|key: H256| map_of(s).dom().contains(key) <==> map_of(t).dom().insert(
            s.last().0,
        ).contains(key) by {
            if holds_key(s, key) {
                let i = position(s, key);
                if i < t.len() {
                    assert(t[i].0 == key);
                }
            }
            if holds_key(t, key) {
                assert(s[position(t, key)].0 == key);
            }
            assert(s[s.len() - 1] == s.last());
        }
        assert(map_of(s).dom() =~= map_of(t).dom().insert(s.last().0));
        assert(!map_of(t).dom().contains(s.last().0)) by {
            if holds_key(t, s.last().0) {
                let i = position(t, s.last().0);
                assert(s[i].0.before(s[s.len() - 1].0));
            }
        }
    }
}

/// Writing an entry at its place keeps the order and puts it into the map.
proof fn lemma_put<V>(
    s: Seq<(H256, V)>,
    t: Seq<(H256, V)>,
    at: int,
    found: bool,
    key: H256,
    value: V,
)
    requires
        in_order(s),
        0 <= at <= s.len(),
        forall|i: int| 0 <= i < at ==> (#[trigger] s[i]).0.before(key),
        found ==> at < s.len() && s[at].0 == key && t == s.update(at, (key, value)),
        !found ==> t == s.insert(at, (key, value)) && forall|i: int|
            at <= i < s.len() ==> key.before((#[trigger] s[i]).0),
    ensures
        in_order(t),
        map_of(t) == map_of(s).insert(key, value),
{
    assert(in_order(t));
    assert(t[at] == (key, value));
    lemma_map_of_at(t, at);
    assert forall|k: H256| k != key implies holds_key(t, k) == holds_key(s, k) && (holds_key(s, k)
        ==> map_of(t)[k] == map_of(s)[k]) by {
        if holds_key(s, k) {
            let i = position(s, k);
            lemma_map_of_at(s, i);
            let j = if found || i < at {
                i
            } else {
                i + 1
            };
            assert(t[j] == s[i]);
            lemma_map_of_at(t, j);
        }
        if holds_key(t, k) {
            let j = position(t, k);
            let i = if found || j < at {
                j
            } else {
                j - 1
            };
            assert(t[j] == s[i]);
        }
    }
    assert(map_of(t) =~= map_of(s).insert(key, value));
}

/// Taking an entry out keeps the order and takes it out of the map.
proof fn lemma_take_out<V>(s: Seq<(H256, V)>, t: Seq<(H256, V)>, at: int, key: H256)
    requires
        in_order(s),
        0 <= at < s.len(),
        s[at].0 == key,
        t == s.remove(at),
    ensures
        in_order(t),
        map_of(t) == map_of(s).remove(key),
{
    assert forall|k: H256|
        holds_key(t, k) == (k != key && holds_key(s, k)) && (holds_key(t, k) ==> map_of(t)[k]
            == map_of(s)[k]) by {
        if k != key && holds_key(s, k) {
            let i = position(s, k);
            let j = if i < at {
                i
            } else {
                i - 1
            };
            assert(t[j] == s[i]);
        }
        if holds_key(t, k) {
            let j = position(t, k);
            let i = if j < at {
                j
            } else {
                j + 1
            };
            assert(t[j] == s[i]);
            assert(i != at && s[i].0 != s[at].0);
            lemma_map_of_at(s, i);
            lemma_map_of_at(t, j);
        }
    }
    assert(map_of(t) =~= map_of(s).remove(key));
}

/// The map of a list is the map of its tail with the first entry put in.
proof fn lemma_cons<V>(s: Seq<(H256, V)>, n: int)
    requires
        in_order(s),
        0 <= n < s.len(),
    ensures
        map_of(s.skip(n)) == map_of(s.skip(n + 1)).insert(s[n].0, s[n].1),
{
    let t = s.skip(n + 1);
    let u = s.skip(n);
    assert(u =~= t.insert(0, s[n]));
    assert(in_order(t));
    lemma_put(t, u, 0, false, s[n].0, s[n].1);
}

} // verus!
