//! The cache of place names: a map from cache key to place name that is
//! loaded when a batch starts and stored when it ends.

use vstd::prelude::*;

verus! {

/// The map that a list of pairs stands for: each pair binds its key to its
/// value, a later pair replacing an earlier one with the same key.
pub open spec fn pairs_map(pairs: Seq<(String, String)>) -> Map<Seq<char>, Seq<char>>
    decreases pairs.len(),
{
    if pairs.len() == 0 {
        Map::empty()
    } else {
        pairs_map(pairs.drop_last()).insert(pairs.last().0@, pairs.last().1@)
    }
}

/// No key stands in two pairs.
pub open spec fn keys_distinct(pairs: Seq<(String, String)>) -> bool {
    forall|i: int, j: int| 0 <= i < j < pairs.len() ==> pairs[i].0@ != pairs[j].0@
}

/// What `pairs_map` holds is what the pairs hold.
pub proof fn lemma_pairs_map_keys(pairs: Seq<(String, String)>, key: Seq<char>)
    ensures
        pairs_map(pairs).contains_key(key) <==> exists|i: int|
            0 <= i < pairs.len() && pairs[i].0@ == key,
    decreases pairs.len(),
{
    if pairs.len() > 0 {
        let front = pairs.drop_last();
        lemma_pairs_map_keys(front, key);
        if pairs_map(pairs).contains_key(key) && pairs.last().0@ != key {
            let i = choose|i: int| 0 <= i < front.len() && front[i].0@ == key;
            assert(pairs[i].0@ == key);
        }
        if exists|i: int| 0 <= i < pairs.len() && pairs[i].0@ == key {
            let i = choose|i: int| 0 <= i < pairs.len() && pairs[i].0@ == key;
            if i < front.len() {
                assert(front[i].0@ == key);
            }
        }
    }
}

/// With distinct keys, each pair's key is bound to that pair's value.
pub proof fn lemma_pairs_map_value(pairs: Seq<(String, String)>, i: int)
    requires
        keys_distinct(pairs),
        0 <= i < pairs.len(),
    ensures
        pairs_map(pairs).contains_key(pairs[i].0@),
        pairs_map(pairs)[pairs[i].0@] == pairs[i].1@,
    decreases pairs.len(),
{
    let front = pairs.drop_last();
    if i < pairs.len() - 1 {
        assert(keys_distinct(front)) by {
            assert forall|a: int, b: int| 0 <= a < b < front.len() implies front[a].0@
                != front[b].0@ by {
                assert(pairs[a].0@ != pairs[b].0@);
            }
        }
        lemma_pairs_map_value(front, i);
        assert(front[i] == pairs[i]);
    }
}

/// With distinct keys, replacing the value of the pair at `i` rebinds its key
/// and leaves the other keys alone.
pub proof fn lemma_pairs_map_update(pairs: Seq<(String, String)>, i: int, pair: (String, String))
    requires
        keys_distinct(pairs),
        0 <= i < pairs.len(),
        pair.0@ == pairs[i].0@,
    ensures
        keys_distinct(pairs.update(i, pair)),
        pairs_map(pairs.update(i, pair)) == pairs_map(pairs).insert(pair.0@, pair.1@),
    decreases pairs.len(),
{
    let updated = pairs.update(i, pair);
    let front = pairs.drop_last();
    assert(keys_distinct(updated)) by {
        assert forall|a: int, b: int| 0 <= a < b < updated.len() implies updated[a].0@
            != updated[b].0@ by {
            assert(pairs[a].0@ != pairs[b].0@);
        }
    }
    if i == pairs.len() - 1 {
        assert(updated.drop_last() == front);
        assert(pairs_map(updated) =~= pairs_map(pairs).insert(pair.0@, pair.1@));
    } else {
        assert(keys_distinct(front)) by {
            assert forall|a: int, b: int| 0 <= a < b < front.len() implies front[a].0@
                != front[b].0@ by {
                assert(pairs[a].0@ != pairs[b].0@);
            }
        }
        lemma_pairs_map_update(front, i, pair);
        assert(updated.drop_last() == front.update(i, pair));
        assert(pairs[i].0@ != pairs.last().0@);
        assert(pairs_map(updated) =~= pairs_map(pairs).insert(pair.0@, pair.1@));
    }
}

/// With distinct keys, the map holds as many keys as there are pairs.
pub proof fn lemma_pairs_map_len(pairs: Seq<(String, String)>)
    requires
        keys_distinct(pairs),
    ensures
        pairs_map(pairs).dom().finite(),
        pairs_map(pairs).dom().len() == pairs.len(),
    decreases pairs.len(),
{
    if pairs.len() > 0 {
        let front = pairs.drop_last();
        assert(keys_distinct(front)) by {
            assert forall|a: int, b: int| 0 <= a < b < front.len() implies front[a].0@
                != front[b].0@ by {
                assert(pairs[a].0@ != pairs[b].0@);
            }
        }
        lemma_pairs_map_len(front);
        lemma_pairs_map_keys(front, pairs.last().0@);
        assert(!pairs_map(front).dom().contains(pairs.last().0@)) by {
            if pairs_map(front).contains_key(pairs.last().0@) {
                let i = choose|i: int| 0 <= i < front.len() && front[i].0@ == pairs.last().0@;
                assert(pairs[i].0@ != pairs[pairs.len() - 1].0@);
            }
        }
        assert(pairs_map(pairs).dom() =~= pairs_map(front).dom().insert(pairs.last().0@));
    } else {
        assert(pairs_map(pairs).dom() =~= Set::<Seq<char>>::empty());
    }
}

/// Place names by cache key.
pub struct GPSCache {
    entries: Vec<(String, String)>,
}

impl View for GPSCache {
    type V = Map<Seq<char>, Seq<char>>;

    closed spec fn view(&self) -> Map<Seq<char>, Seq<char>> {
        pairs_map(self.entries@)
    }
}

impl GPSCache {
    /// The cache is in order: it holds each key once.
    pub closed spec fn wf(&self) -> bool {
        keys_distinct(self.entries@)
    }

    /// The position of the pair with this key.
    fn position(&self, key: &str) -> (at: Option<usize>)
        ensures
            match at {
                Some(i) => i < self.entries@.len() && self.entries@[i as int].0@ == key@,
                None => forall|i: int| 0 <= i < self.entries@.len() ==> self.entries@[i].0@ != key@,
            },
    {
        let mut i: usize = 0;
        while i < self.entries.len()
            invariant
                i <= self.entries@.len(),
                forall|j: int| 0 <= j < i ==> self.entries@[j].0@ != key@,
            decreases self.entries@.len() - i,
        {
            if self.entries[i].0.as_str().eq(key) {
                return Some(i);
            }
            i += 1;
        }
        None
    }

    /// A cache that holds nothing.
    pub fn new() -> (cache: Self)
        ensures
            cache.wf(),
            cache@ == Map::<Seq<char>, Seq<char>>::empty(),
    {
        GPSCache { entries: Vec::new() }
    }

    /// The cache that a stored list of pairs gives: a later pair replaces an
    /// earlier one with the same key. Where nothing could be read, the cache is
    /// empty.
    pub fn load(stored: Option<Vec<(String, String)>>) -> (cache: Self)
        ensures
            cache.wf(),
            cache@ == match stored {
                Some(pairs) => pairs_map(pairs@),
                None => Map::empty(),
            },
    {
        let mut cache = GPSCache::new();
        match stored {
            None => {},
            Some(pairs) => {
                let mut i: usize = 0;
                while i < pairs.len()
                    invariant
                        i <= pairs.len(),
                        cache.wf(),
                        cache@ == pairs_map(pairs@.take(i as int)),
                    decreases pairs.len() - i,
                {
                    proof {
                        assert(pairs@.take(i + 1).drop_last() == pairs@.take(i as int));
                    }
                    cache.insert(pairs[i].0.clone(), pairs[i].1.clone());
                    i += 1;
                }
                assert(pairs@.take(pairs@.len() as int) == pairs@);
            },
        }
        cache
    }

    /// The pairs to store: one for each key, and together they stand for what
    /// the cache holds.
    pub fn save(&self) -> (pairs: Vec<(String, String)>)
        requires
            self.wf(),
        ensures
            keys_distinct(pairs@),
            pairs_map(pairs@) == self@,
    {
        let mut pairs: Vec<(String, String)> = Vec::new();
        let mut i: usize = 0;
        while i < self.entries.len()
            invariant
                i <= self.entries@.len(),
                pairs@ == self.entries@.take(i as int),
            decreases self.entries@.len() - i,
        {
            pairs.push((self.entries[i].0.clone(), self.entries[i].1.clone()));
            assert(pairs@ =~= self.entries@.take(i + 1));
            i += 1;
        }
        assert(self.entries@.take(self.entries@.len() as int) == self.entries@);
        pairs
    }

    /// The place name stored under the key, if there is one.
    pub fn get(&self, key: &str) -> (value: Option<&String>)
        requires
            self.wf(),
        ensures
            match value {
                Some(name) => self@.contains_key(key@) && self@[key@] == name@,
                None => !self@.contains_key(key@),
            },
    {
        proof {
            lemma_pairs_map_keys(self.entries@, key@);
        }
        match self.position(key) {
            Some(i) => {
                proof {
                    lemma_pairs_map_value(self.entries@, i as int);
                }
                Some(&self.entries[i].1)
            },
            None => None,
        }
    }

    /// Stores the place name under the key, in place of what the key held.
    pub fn insert(&mut self, key: String, value: String)
        requires
            old(self).wf(),
        ensures
            final(self).wf(),
            final(self)@ == old(self)@.insert(key@, value@),
    {
        match self.position(key.as_str()) {
            Some(i) => {
                proof {
                    lemma_pairs_map_update(self.entries@, i as int, (key, value));
                }
                self.entries.set(i, (key, value));
            },
            None => {
                let ghost before = self.entries@;
                self.entries.push((key, value));
                assert(self.entries@.drop_last() == before);
                assert(keys_distinct(self.entries@));
            },
        }
    }

    /// How many keys the cache holds.
    pub fn len(&self) -> (count: usize)
        requires
            self.wf(),
        ensures
            self@.dom().finite(),
            count == self@.dom().len(),
    {
        proof {
            lemma_pairs_map_len(self.entries@);
        }
        self.entries.len()
    }
}

} // verus!
