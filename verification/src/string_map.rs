//! A map from strings to strings, kept as a list of entries with distinct keys.
//! Its model is a `Map<Seq<char>, Seq<char>>`; entries keep the order in which
//! their keys were first inserted.
use vstd::prelude::*;

verus! {

/// The key views of a list of entries, in order.
pub open spec fn entry_keys(e: Seq<(String, String)>) -> Seq<Seq<char>> {
    e.map_values(|p: (String, String)| p.0@)
}

/// The map a list of entries with distinct keys stands for.
pub open spec fn entries_map(e: Seq<(String, String)>) -> Map<Seq<char>, Seq<char>> {
    Map::new(
        |k: Seq<char>| entry_keys(e).contains(k),
        |k: Seq<char>| e[entry_keys(e).index_of(k)].1@,
    )
}

/// A string-to-string map.
#[derive(Debug)]
pub struct StringMap {
    entries: Vec<(String, String)>,
}

impl View for StringMap {
    type V = Map<Seq<char>, Seq<char>>;

    closed spec fn view(&self) -> Map<Seq<char>, Seq<char>> {
        entries_map(self.entries@)
    }
}

/// In a list without repeated keys, the entry at `i` is the one `index_of` finds.
proof fn lemma_index_of_unique(e: Seq<(String, String)>, i: int)
    requires
        entry_keys(e).no_duplicates(),
        0 <= i < e.len(),
    ensures
        entry_keys(e).index_of(e[i].0@) == i,
        entry_keys(e).contains(e[i].0@),
{
    let ks = entry_keys(e);
    assert(ks[i] == e[i].0@);
    let j = ks.index_of(e[i].0@);
    assert(0 <= j < ks.len() && ks[j] == e[i].0@);
}

impl StringMap {
    #[verifier::type_invariant]
    spec fn keys_distinct(self) -> bool {
        entry_keys(self.entries@).no_duplicates()
    }

    /// The keys of the map in the order in which the entries are kept.
    pub closed spec fn key_order(&self) -> Seq<Seq<char>> {
        entry_keys(self.entries@)
    }

    /// An empty map.
    pub fn new() -> (m: StringMap)
        ensures
            m@ == Map::<Seq<char>, Seq<char>>::empty(),
            m.key_order() == Seq::<Seq<char>>::empty(),
    {
        let m = StringMap { entries: Vec::new() };
        assert(m@ =~= Map::<Seq<char>, Seq<char>>::empty());
        assert(m.key_order() =~= Seq::<Seq<char>>::empty());
        m
    }

    /// Position of the entry whose key is `k`, if any.
    fn position(&self, k: &str) -> (r: Option<usize>)
        ensures
            match r {
                Some(i) => i < self.entries@.len() && self.entries@[i as int].0@ == k@
                    && self@.contains_key(k@),
                None => !self@.contains_key(k@),
            },
    {
        proof {
            use_type_invariant(self);
        }
        let n = self.entries.len();
        let mut i: usize = 0;
        while i < n
            invariant
                n == self.entries@.len(),
                i <= n,
                entry_keys(self.entries@).no_duplicates(),
                forall|j: int| 0 <= j < i ==> self.entries@[j].0@ != k@,
            decreases n - i,
        {
            if crate::text::str_equal(self.entries[i].0.as_str(), k) {
                proof {
                    lemma_index_of_unique(self.entries@, i as int);
                }
                return Some(i);
            }
            i = i + 1;
        }
        proof {
            let ks = entry_keys(self.entries@);
            if ks.contains(k@) {
                let j = choose|j: int| 0 <= j < ks.len() && ks[j] == k@;
                assert(self.entries@[j].0@ == k@);
            }
        }
        None
    }

    /// Number of entries. `key_order` lists each key of the map exactly once,
    /// so the entries `0..len()` are the whole map.
    pub fn len(&self) -> (r: usize)
        ensures
            r == self@.dom().len(),
            r == self.key_order().len(),
            self.key_order().no_duplicates(),
            forall|k: Seq<char>| self@.contains_key(k) <==> self.key_order().contains(k),
            self@.dom().finite(),
    {
        proof {
            use_type_invariant(self);
            let ks = self.key_order();
            assert(self@.dom() =~= ks.to_set());
            ks.unique_seq_to_set();
        }
        self.entries.len()
    }

    /// Whether `k` is a key of the map.
    pub fn contains_key(&self, k: &str) -> (r: bool)
        ensures
            r == self@.contains_key(k@),
    {
        self.position(k).is_some()
    }

    /// The value stored under `k`, if any.
    pub fn get(&self, k: &str) -> (r: Option<&String>)
        ensures
            match r {
                Some(v) => self@.contains_key(k@) && v@ == self@[k@],
                None => !self@.contains_key(k@),
            },
    {
        proof {
            use_type_invariant(self);
        }
        match self.position(k) {
            Some(i) => {
                proof {
                    lemma_index_of_unique(self.entries@, i as int);
                }
                Some(&self.entries[i].1)
            },
            None => None,
        }
    }

    /// The key and value of the entry at position `i` of `key_order`.
    pub fn entry(&self, i: usize) -> (r: (&String, &String))
        requires
            i < self.key_order().len(),
        ensures
            r.0@ == self.key_order()[i as int],
            self@.contains_key(r.0@),
            self@[r.0@] == r.1@,
    {
        proof {
            use_type_invariant(self);
            lemma_index_of_unique(self.entries@, i as int);
        }
        (&self.entries[i].0, &self.entries[i].1)
    }

    /// Stores `v` under `k`, replacing any value stored there before.
    pub fn insert(&mut self, k: String, v: String)
        ensures
            final(self)@ == old(self)@.insert(k@, v@),
    {
        proof {
            use_type_invariant(&*self);
        }
        let ghost e0 = self.entries@;
        match self.position(k.as_str()) {
            Some(i) => {
                let ghost kv = k@;
                let mut e: Vec<(String, String)> = Vec::new();
                std::mem::swap(&mut e, &mut self.entries);
                e.set(i, (k, v));
                proof {
                    let e1 = e@;
                    assert(entry_keys(e1) =~= entry_keys(e0)) by {
                        assert forall|j: int| 0 <= j < e1.len() implies entry_keys(e1)[j] == entry_keys(e0)[j] by {
                            if j == i {
                                assert(e0[j].0@ == kv);
                            }
                        }
                    }
                }
                self.entries = e;
                proof {
                    let e1 = self.entries@;
                    assert forall|key: Seq<char>| #[trigger] entries_map(e1).contains_key(key)
                        implies entries_map(e1)[key] == entries_map(e0).insert(kv, v@)[key] by {
                        let j = entry_keys(e1).index_of(key);
                        let w = choose|w: int| 0 <= w < entry_keys(e1).len() && entry_keys(e1)[w] == key;
                        lemma_index_of_unique(e1, w);
                        if key == kv {
                            lemma_index_of_unique(e1, i as int);
                        } else {
                            assert(j != i);
                        }
                    }
                    assert(entries_map(e1) =~= entries_map(e0).insert(kv, v@));
                }
            },
            None => {
                let ghost kv = k@;
                let mut e: Vec<(String, String)> = Vec::new();
                std::mem::swap(&mut e, &mut self.entries);
                e.push((k, v));
                proof {
                    assert(entry_keys(e@) =~= entry_keys(e0).push(kv));
                }
                self.entries = e;
                proof {
                    let e1 = self.entries@;
                    assert(entry_keys(e1) =~= entry_keys(e0).push(kv));
                    assert(!entry_keys(e0).contains(kv));
                    assert forall|key: Seq<char>| #[trigger] entries_map(e1).contains_key(key)
                        implies entries_map(e1)[key] == entries_map(e0).insert(kv, v@)[key] by {
                        let w = choose|w: int| 0 <= w < entry_keys(e1).len() && entry_keys(e1)[w] == key;
                        lemma_index_of_unique(e1, w);
                        if key == kv {
                            assert(w == e0.len());
                        } else {
                            assert(w < e0.len());
                            lemma_index_of_unique(e0, w);
                        }
                    }
                    assert forall|key: Seq<char>| entries_map(e0).insert(kv, v@).contains_key(key)
                        implies #[trigger] entries_map(e1).contains_key(key) by {
                        if key != kv {
                            let w = choose|w: int| 0 <= w < entry_keys(e0).len() && entry_keys(e0)[w] == key;
                            assert(entry_keys(e1)[w] == key);
                        } else {
                            assert(entry_keys(e1)[e0.len() as int] == key);
                        }
                    }
                    assert(entries_map(e1) =~= entries_map(e0).insert(kv, v@));
                }
            },
        }
    }

    /// Adds every entry of `other`; where both maps hold a key, the value of
    /// `other` wins.
    pub fn extend(&mut self, other: &StringMap)
        ensures
            final(self)@ == old(self)@.union_prefer_right(other@),
    {
        proof {
            use_type_invariant(other);
        }
        let n = other.entries.len();
        let ghost oe = other.entries@;
        let ghost start = self@;
        let mut j: usize = 0;
        while j < n
            invariant
                n == oe.len(),
                oe == other.entries@,
                entry_keys(oe).no_duplicates(),
                j <= n,
                self@ == start.union_prefer_right(
                    other@.restrict(entry_keys(oe).take(j as int).to_set()),
                ),
            decreases n - j,
        {
            let k = other.entries[j].0.clone();
            let v = other.entries[j].1.clone();
            proof {
                lemma_index_of_unique(oe, j as int);
            }
            self.insert(k, v);
            proof {
                let before = entry_keys(oe).take(j as int).to_set();
                let after = entry_keys(oe).take(j + 1).to_set();
                assert(entry_keys(oe).take(j + 1) =~= entry_keys(oe).take(j as int).push(oe[j as int].0@));
                let ks = entry_keys(oe);
                let kj = oe[j as int].0@;
                assert(ks[j as int] == kj);
                let t0 = ks.take(j as int);
                let t1 = ks.take(j + 1);
                assert forall|x: Seq<char>| after.contains(x) <==> #[trigger] before.insert(kj).contains(x) by {
                    if t1.contains(x) {
                        let w = choose|w: int| 0 <= w < t1.len() && t1[w] == x;
                        if w < j {
                            assert(t0[w] == x);
                        }
                    }
                    if t0.contains(x) {
                        let w = choose|w: int| 0 <= w < t0.len() && t0[w] == x;
                        assert(t1[w] == x);
                    }
                    if x == kj {
                        assert(t1[j as int] == x);
                    }
                }
                assert(after =~= before.insert(kj));
                assert(other@.restrict(after) =~= other@.restrict(before).insert(
                    oe[j as int].0@,
                    oe[j as int].1@,
                ));
                assert(self@ =~= start.union_prefer_right(other@.restrict(after)));
            }
            j = j + 1;
        }
        proof {
            assert(entry_keys(oe).take(n as int) =~= entry_keys(oe));
            assert(other@.restrict(entry_keys(oe).to_set()) =~= other@);
        }
    }
}

/// A lookup after `insert` gives the inserted value for its key and what was
/// there before for every other key; `extend` lets the added map win.
pub proof fn lemma_lookup_after_update(
    m: Map<Seq<char>, Seq<char>>,
    other: Map<Seq<char>, Seq<char>>,
    k: Seq<char>,
    v: Seq<char>,
    k2: Seq<char>,
)
    ensures
        m.insert(k, v).contains_key(k) && m.insert(k, v)[k] == v,
        k2 != k ==> m.insert(k, v).contains_key(k2) == m.contains_key(k2),
        k2 != k && m.contains_key(k2) ==> m.insert(k, v)[k2] == m[k2],
        other.contains_key(k2) ==> m.union_prefer_right(other)[k2] == other[k2],
        !other.contains_key(k2) && m.contains_key(k2) ==> m.union_prefer_right(other)[k2] == m[k2],
{
}

} // verus!
