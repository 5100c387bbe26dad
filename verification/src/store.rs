use vstd::prelude::*;

verus! {

/// An association of string keys to string values, with unique keys,
/// in insertion order. One instance models the configuration root
/// (name to stored text), another the process environment (variable
/// to value): both are handed to the engine as explicit values.
pub struct Store {
    entries: Vec<(String, String)>,
}

/// The key-value pairs of an entry sequence, as character sequences.
pub open spec fn pairs_of(entries: Seq<(String, String)>) -> Seq<(Seq<char>, Seq<char>)> {
    Seq::new(entries.len(), |i: int| (entries[i].0@, entries[i].1@))
}

/// The map an ordered pair sequence denotes: later pairs win.
pub open spec fn map_of_pairs(s: Seq<(Seq<char>, Seq<char>)>) -> Map<Seq<char>, Seq<char>>
    decreases s.len(),
{
    if s.len() == 0 {
        Map::empty()
    } else {
        map_of_pairs(s.drop_last()).insert(s.last().0, s.last().1)
    }
}

/// Whether the keys of a pair sequence are pairwise distinct.
pub open spec fn pair_keys_unique(s: Seq<(Seq<char>, Seq<char>)>) -> bool {
    forall|i: int, j: int| 0 <= i < j < s.len() ==> s[i].0 != s[j].0
}

/// A key is in the map of a pair sequence exactly when some pair has it.
pub proof fn lemma_map_contains(s: Seq<(Seq<char>, Seq<char>)>, k: Seq<char>)
    ensures
        map_of_pairs(s).contains_key(k) <==> (exists|i: int| 0 <= i < s.len() && s[i].0 == k),
    decreases s.len(),
{
    if s.len() > 0 {
        lemma_map_contains(s.drop_last(), k);
        if map_of_pairs(s).contains_key(k) {
            if s.last().0 == k {
                assert(s[s.len() - 1].0 == k);
            } else {
                let i = choose|i: int| 0 <= i < s.drop_last().len() && s.drop_last()[i].0 == k;
                assert(s[i].0 == k);
            }
        }
        if exists|i: int| 0 <= i < s.len() && s[i].0 == k {
            let i = choose|i: int| 0 <= i < s.len() && s[i].0 == k;
            if i < s.len() - 1 {
                assert(s.drop_last()[i].0 == k);
            }
        }
    }
}

/// With unique keys, the map takes each pair's value at its key.
pub proof fn lemma_map_value(s: Seq<(Seq<char>, Seq<char>)>, i: int)
    requires
        pair_keys_unique(s),
        0 <= i < s.len(),
    ensures
        map_of_pairs(s).contains_key(s[i].0),
        map_of_pairs(s)[s[i].0] == s[i].1,
    decreases s.len(),
{
    if i == s.len() - 1 {
    } else {
        assert(pair_keys_unique(s.drop_last()));
        lemma_map_value(s.drop_last(), i);
        assert(s[i].0 != s.last().0);
    }
}

/// Replacing the value of pair `i` inserts at its key.
proof fn lemma_map_update(s: Seq<(Seq<char>, Seq<char>)>, i: int, v: Seq<char>)
    requires
        pair_keys_unique(s),
        0 <= i < s.len(),
    ensures
        map_of_pairs(s.update(i, (s[i].0, v))) == map_of_pairs(s).insert(s[i].0, v),
    decreases s.len(),
{
    let t = s.update(i, (s[i].0, v));
    let k = s[i].0;
    if i == s.len() - 1 {
        assert(t.drop_last() =~= s.drop_last());
        assert(map_of_pairs(t) == map_of_pairs(s.drop_last()).insert(k, v));
        assert(map_of_pairs(s.drop_last()).insert(k, s[i].1).insert(k, v) =~= map_of_pairs(
            s.drop_last(),
        ).insert(k, v));
    } else {
        assert(pair_keys_unique(s.drop_last()));
        lemma_map_update(s.drop_last(), i, v);
        assert(t.drop_last() =~= s.drop_last().update(i, (s[i].0, v)));
        assert(t.last() == s.last());
        assert(k != s.last().0);
        assert(map_of_pairs(s.drop_last()).insert(k, v).insert(s.last().0, s.last().1)
            =~= map_of_pairs(s.drop_last()).insert(s.last().0, s.last().1).insert(k, v));
    }
}

/// Dropping pair `i` removes its key.
proof fn lemma_map_remove(s: Seq<(Seq<char>, Seq<char>)>, i: int)
    requires
        pair_keys_unique(s),
        0 <= i < s.len(),
    ensures
        map_of_pairs(s.remove(i)) == map_of_pairs(s).remove(s[i].0),
    decreases s.len(),
{
    let t = s.remove(i);
    let k = s[i].0;
    if i == s.len() - 1 {
        assert(t =~= s.drop_last());
        lemma_map_contains(s.drop_last(), k);
        assert(forall|j: int|
            0 <= j < s.drop_last().len() ==> s.drop_last()[j] == s[j] && s[j].0 != k);
        assert(!map_of_pairs(s.drop_last()).contains_key(k));
        assert(map_of_pairs(s.drop_last()).insert(k, s[i].1).remove(k) =~= map_of_pairs(
            s.drop_last(),
        ));
    } else {
        assert(pair_keys_unique(s.drop_last()));
        lemma_map_remove(s.drop_last(), i);
        assert(t.drop_last() =~= s.drop_last().remove(i));
        assert(t.last() == s.last());
        assert(k != s.last().0);
        assert(map_of_pairs(s.drop_last()).remove(k).insert(s.last().0, s.last().1)
            =~= map_of_pairs(s.drop_last()).insert(s.last().0, s.last().1).remove(k));
    }
}

impl View for Store {
    type V = Map<Seq<char>, Seq<char>>;

    closed spec fn view(&self) -> Map<Seq<char>, Seq<char>> {
        map_of_pairs(pairs_of(self.entries@))
    }
}

impl Store {
    /// The pairs in order, as the engine's enumeration sees them.
    pub closed spec fn pairs(self) -> Seq<(Seq<char>, Seq<char>)> {
        pairs_of(self.entries@)
    }

    /// Keys are pairwise distinct.
    pub closed spec fn wf(self) -> bool {
        pair_keys_unique(pairs_of(self.entries@))
    }

    /// The map is the map of the ordered pairs.
    pub proof fn lemma_view_is_pairs(self)
        ensures
            self@ == map_of_pairs(self.pairs()),
    {
    }

    /// Each pair's key is in the map, at its value.
    pub proof fn lemma_pair_in_map(self, i: int)
        requires
            self.wf(),
            0 <= i < self.pairs().len(),
        ensures
            self@.contains_key(self.pairs()[i].0),
            self@[self.pairs()[i].0] == self.pairs()[i].1,
    {
        lemma_map_value(self.pairs(), i);
    }

    /// Every key in the map is some pair's key.
    pub proof fn lemma_contained_key_has_pair(self, k: Seq<char>)
        requires
            self@.contains_key(k),
        ensures
            exists|i: int| 0 <= i < self.pairs().len() && self.pairs()[i].0 == k,
    {
        lemma_map_contains(self.pairs(), k);
    }

    pub fn new() -> (s: Store)
        ensures
            s.wf(),
            s@ == Map::<Seq<char>, Seq<char>>::empty(),
            s.pairs() == Seq::<(Seq<char>, Seq<char>)>::empty(),
    {
        let s = Store { entries: Vec::new() };
        proof {
            assert(pairs_of(s.entries@) =~= Seq::<(Seq<char>, Seq<char>)>::empty());
        }
        s
    }

    /// The number of entries.
    pub fn len(&self) -> (n: usize)
        ensures
            n == self.pairs().len(),
    {
        self.entries.len()
    }

    /// The key of entry `i`.
    pub fn key_at(&self, i: usize) -> (k: &String)
        requires
            i < self.pairs().len(),
        ensures
            k@ == self.pairs()[i as int].0,
    {
        &self.entries[i].0
    }

    /// The value of entry `i`.
    pub fn value_at(&self, i: usize) -> (v: &String)
        requires
            i < self.pairs().len(),
        ensures
            v@ == self.pairs()[i as int].1,
    {
        &self.entries[i].1
    }

    fn find(&self, key: &String) -> (r: Option<usize>)
        requires
            self.wf(),
        ensures
            match r {
                Some(i) => i < self.pairs().len() && self.pairs()[i as int].0 == key@
                    && self@.contains_key(key@) && self@[key@] == self.pairs()[i as int].1,
                None => !self@.contains_key(key@),
            },
    {
        let n = self.entries.len();
        let mut i: usize = 0;
        while i < n
            invariant
                n == self.pairs().len(),
                i <= n,
                self.wf(),
                forall|t: int| 0 <= t < i ==> self.pairs()[t].0 != key@,
            decreases n - i,
        {
            if self.entries[i].0.eq(key) {
                proof {
                    self.lemma_pair_in_map(i as int);
                }
                return Some(i);
            }
            i = i + 1;
        }
        proof {
            lemma_map_contains(self.pairs(), key@);
        }
        None
    }

    /// Whether `key` has an entry.
    pub fn contains(&self, key: &String) -> (b: bool)
        requires
            self.wf(),
        ensures
            b == self@.contains_key(key@),
    {
        match self.find(key) {
            Some(_) => true,
            None => false,
        }
    }

    /// The value at `key`, if any.
    pub fn get(&self, key: &String) -> (r: Option<&String>)
        requires
            self.wf(),
        ensures
            match r {
                Some(v) => self@.contains_key(key@) && v@ == self@[key@],
                None => !self@.contains_key(key@),
            },
    {
        match self.find(key) {
            Some(i) => Some(&self.entries[i].1),
            None => None,
        }
    }

    /// Binds `key` to `value`, replacing any earlier binding in
    /// place; a new key goes to the end.
    pub fn set(&mut self, key: String, value: String)
        requires
            old(self).wf(),
        ensures
            final(self).wf(),
            final(self)@ == old(self)@.insert(key@, value@),
            final(self).pairs() == (if old(self)@.contains_key(key@) {
                old(self).pairs().update(old(self).index_of_key(key@), (key@, value@))
            } else {
                old(self).pairs().push((key@, value@))
            }),
    {
        match self.find(&key) {
            Some(i) => {
                proof {
                    assert(old(self).index_of_key(key@) == i as int) by {
                        old(self).lemma_index_of_key(key@, i as int);
                    }
                    lemma_map_update(self.pairs(), i as int, value@);
                }
                let ghost gk = key@;
                let ghost gv = value@;
                let ghost old_entries = self.entries@;
                self.entries.remove(i);
                self.entries.insert(i, (key, value));
                proof {
                    assert(self.entries@.len() == old_entries.len());
                    assert forall|t: int| 0 <= t < self.entries@.len() implies #[trigger] pairs_of(
                        self.entries@,
                    )[t] == old(self).pairs().update(i as int, (gk, gv))[t] by {
                        if t == i {
                            assert(self.entries@[t].0@ == gk && self.entries@[t].1@ == gv);
                        } else {
                            assert(self.entries@[t] == old_entries[t]);
                        }
                    }
                    assert(pairs_of(self.entries@) =~= old(self).pairs().update(
                        i as int,
                        (gk, gv),
                    ));
                }
            },
            None => {
                proof {
                    lemma_map_contains(self.pairs(), key@);
                }
                let ghost old_pairs = self.pairs();
                self.entries.push((key, value));
                proof {
                    assert(pairs_of(self.entries@) =~= old_pairs.push((key@, value@)));
                    assert(pairs_of(self.entries@).drop_last() =~= old_pairs);
                }
            },
        }
    }

    /// The position of `key` among the pairs.
    pub closed spec fn index_of_key(self, k: Seq<char>) -> int {
        choose|i: int| 0 <= i < self.pairs().len() && self.pairs()[i].0 == k
    }

    /// With unique keys, the position of a present key is the only one.
    pub proof fn lemma_index_of_key(self, k: Seq<char>, i: int)
        requires
            self.wf(),
            0 <= i < self.pairs().len(),
            self.pairs()[i].0 == k,
        ensures
            self.index_of_key(k) == i,
    {
        let j = self.index_of_key(k);
        assert(0 <= j < self.pairs().len() && self.pairs()[j].0 == k);
    }

    /// Drops the entry of `key`, keeping the order of the others.
    pub fn delete(&mut self, key: &String)
        requires
            old(self).wf(),
            old(self)@.contains_key(key@),
        ensures
            final(self).wf(),
            final(self)@ == old(self)@.remove(key@),
            final(self).pairs() == old(self).pairs().remove(old(self).index_of_key(key@)),
    {
        match self.find(key) {
            Some(i) => {
                proof {
                    assert(old(self).index_of_key(key@) == i as int) by {
                        old(self).lemma_index_of_key(key@, i as int);
                    }
                    lemma_map_remove(self.pairs(), i as int);
                }
                let ghost old_pairs = self.pairs();
                self.entries.remove(i);
                proof {
                    assert(pairs_of(self.entries@) =~= old_pairs.remove(i as int));
                }
            },
            None => {
                proof {
                    assert(false);
                }
            },
        }
    }
}

} // verus!
