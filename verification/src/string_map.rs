//! A map from texts to texts.

use vstd::prelude::*;

verus! {

/// A map from texts to texts, in the order in which its keys were first inserted.
pub struct StringMap {
    entries: Vec<(String, String)>,
}

/// Whether a list holds the entries of a map, each key once.
pub open spec fn lists_entries(
    list: Seq<(String, String)>,
    map: Map<Seq<char>, Seq<char>>,
) -> bool {
    &&& forall|i: int, j: int|
        0 <= i < j < list.len() ==> (#[trigger] list[i]).0@ != (#[trigger] list[j]).0@
    &&& forall|i: int|
        0 <= i < list.len() ==> map.contains_key((#[trigger] list[i]).0@) && map[list[i].0@]
            == list[i].1@
    &&& forall|key: Seq<char>| #[trigger]
        map.contains_key(key) ==> exists|i: int|
            0 <= i < list.len() && (#[trigger] list[i]).0@ == key
}

/// Whether no key occurs twice.
spec fn distinct_keys(entries: Seq<(String, String)>) -> bool {
    forall|i: int, j: int|
        0 <= i < j < entries.len() ==> (#[trigger] entries[i]).0@ != (#[trigger] entries[j]).0@
}

/// Whether a key stands at a position.
spec fn key_at(entries: Seq<(String, String)>, key: Seq<char>, i: int) -> bool {
    0 <= i < entries.len() && entries[i].0@ == key
}

/// The map that a list of entries stands for.
spec fn map_of(entries: Seq<(String, String)>) -> Map<Seq<char>, Seq<char>> {
    Map::new(
        |key: Seq<char>| exists|i: int| key_at(entries, key, i),
        |key: Seq<char>| entries[choose|i: int| key_at(entries, key, i)].1@,
    )
}

proof fn lemma_map_of(entries: Seq<(String, String)>, i: int)
    requires
        distinct_keys(entries),
        0 <= i < entries.len(),
    ensures
        map_of(entries).contains_key(entries[i].0@),
        map_of(entries)[entries[i].0@] == entries[i].1@,
{
    let key = entries[i].0@;
    assert(key_at(entries, key, i));
    let j = choose|j: int| key_at(entries, key, j);
    assert(key_at(entries, key, j));
    assert(i == j);
}

impl View for StringMap {
    type V = Map<Seq<char>, Seq<char>>;

    closed spec fn view(&self) -> Map<Seq<char>, Seq<char>> {
        map_of(self.entries@)
    }
}

impl StringMap {
    #[verifier::type_invariant]
    spec fn well_formed(self) -> bool {
        distinct_keys(self.entries@)
    }

    /// An empty map.
    pub fn new() -> (r: Self)
        ensures
            r@ == Map::<Seq<char>, Seq<char>>::empty(),
    {
        let r = StringMap { entries: Vec::new() };
        assert(r@ =~= Map::<Seq<char>, Seq<char>>::empty());
        r
    }

    /// The position of a key, if it is in the map.
    fn find(&self, key: &str) -> (r: Option<usize>)
        ensures
            match r {
                Some(i) => key_at(self.entries@, key@, i as int),
                None => forall|i: int| !key_at(self.entries@, key@, i),
            },
    {
        let wanted = key.to_owned();
        let mut i: usize = 0;
        while i < self.entries.len()
            invariant
                wanted@ == key@,
                i <= self.entries@.len(),
                forall|j: int| 0 <= j < i ==> !key_at(self.entries@, key@, j),
            decreases self.entries@.len() - i,
        {
            if self.entries[i].0 == wanted {
                return Some(i);
            }
            i = i + 1;
        }
        None
    }

    /// Sets the value of a key, whether or not it had one before.
    pub fn insert(&mut self, key: String, value: String)
        ensures
            final(self)@ == old(self)@.insert(key@, value@),
    {
        proof {
            use_type_invariant(&*self);
        }
        let ghost before = self.entries@;
        let found = self.find(key.as_str());
        let mut entries: Vec<(String, String)> = Vec::new();
        std::mem::swap(&mut entries, &mut self.entries);
        match found {
            Some(i) => {
                entries.set(i, (key, value));
                proof {
                    assert(distinct_keys(entries@)) by {
                        assert forall|a: int, b: int|
                            0 <= a < b < entries@.len() implies (#[trigger] entries@[a]).0@ != (
                        #[trigger] entries@[b]).0@ by {
                            assert(before[a].0@ != before[b].0@);
                        }
                    }
                }
            },
            None => {
                entries.push((key, value));
                proof {
                    assert(distinct_keys(entries@)) by {
                        assert forall|a: int, b: int|
                            0 <= a < b < entries@.len() implies (#[trigger] entries@[a]).0@ != (
                        #[trigger] entries@[b]).0@ by {
                            if b < before.len() {
                                assert(before[a].0@ != before[b].0@);
                            } else {
                                assert(!key_at(before, key@, a));
                            }
                        }
                    }
                }
            },
        }
        proof {
            lemma_set(before, entries@, key@, value@, found);
        }
        self.entries = entries;
    }

    /// The value of a key, if it has one.
    pub fn get(&self, key: &str) -> (r: Option<String>)
        ensures
            match r {
                Some(value) => self@.contains_key(key@) && self@[key@] == value@,
                None => !self@.contains_key(key@),
            },
    {
        proof {
            use_type_invariant(self);
        }
        match self.find(key) {
            Some(i) => {
                proof {
                    lemma_map_of(self.entries@, i as int);
                }
                Some(self.entries[i].1.clone())
            },
            None => None,
        }
    }

    /// The keys with their values, each key once.
    pub fn to_list(&self) -> (r: Vec<(String, String)>)
        ensures
            lists_entries(r@, self@),
    {
        proof {
            use_type_invariant(self);
        }
        let mut r: Vec<(String, String)> = Vec::new();
        let mut i: usize = 0;
        while i < self.entries.len()
            invariant
                i <= self.entries@.len(),
                r@ == self.entries@.take(i as int),
            decreases self.entries@.len() - i,
        {
            r.push((self.entries[i].0.clone(), self.entries[i].1.clone()));
            i = i + 1;
        }
        proof {
            assert(r@ == self.entries@);
            assert forall|i: int| 0 <= i < r@.len() implies self@.contains_key(
                (#[trigger] r@[i]).0@,
            ) && self@[r@[i].0@] == r@[i].1@ by {
                lemma_map_of(self.entries@, i);
            }
            assert forall|key: Seq<char>| #[trigger] self@.contains_key(key) implies exists|i: int|
                0 <= i < r@.len() && (#[trigger] r@[i]).0@ == key by {
                let i = choose|i: int| key_at(self.entries@, key, i);
                assert(r@[i].0@ == key);
            }
        }
        r
    }
}

proof fn lemma_set(
    before: Seq<(String, String)>,
    after: Seq<(String, String)>,
    key: Seq<char>,
    value: Seq<char>,
    found: Option<usize>,
)
    requires
        distinct_keys(before),
        distinct_keys(after),
        match found {
            Some(i) => {
                &&& key_at(before, key, i as int)
                &&& after.len() == before.len()
                &&& after[i as int].0@ == key
                &&& after[i as int].1@ == value
                &&& forall|j: int| 0 <= j < before.len() && j != i ==> after[j] == before[j]
            },
            None => {
                &&& forall|i: int| !key_at(before, key, i)
                &&& after.len() == before.len() + 1
                &&& after.last().0@ == key
                &&& after.last().1@ == value
                &&& forall|j: int| 0 <= j < before.len() ==> after[j] == before[j]
            },
        },
    ensures
        map_of(after) == map_of(before).insert(key, value),
{
    let at = match found {
        Some(i) => i as int,
        None => before.len() as int,
    };
    lemma_map_of(after, at);
    assert forall|k: Seq<char>| #[trigger]
        map_of(after).contains_key(k) == map_of(before).insert(key, value).contains_key(k) by {
        if k != key {
            if exists|i: int| key_at(after, k, i) {
                let i = choose|i: int| key_at(after, k, i);
                assert(key_at(before, k, i));
            }
            if exists|i: int| key_at(before, k, i) {
                let i = choose|i: int| key_at(before, k, i);
                assert(key_at(after, k, i));
            }
        }
    }
    assert forall|k: Seq<char>| #[trigger] map_of(after).contains_key(k) implies map_of(after)[k]
        == map_of(before).insert(key, value)[k] by {
        if k != key {
            let i = choose|i: int| key_at(after, k, i);
            lemma_map_of(after, i);
            assert(key_at(before, k, i));
            lemma_map_of(before, i);
        }
    }
    assert(map_of(after) =~= map_of(before).insert(key, value));
}

/// A list of the entries of a map has each entry once, and no others.
pub proof fn law_list_is_complete(
    list: Seq<(String, String)>,
    map: Map<Seq<char>, Seq<char>>,
    key: Seq<char>,
    value: Seq<char>,
)
    requires
        lists_entries(list, map),
    ensures
        map.contains_pair(key, value) <==> exists|i: int|
            0 <= i < list.len() && (#[trigger] list[i]).0@ == key && list[i].1@ == value,
        map.dom().finite(),
        map.dom().len() == list.len(),
{
    if map.contains_pair(key, value) {
        assert(map.contains_key(key));
        let i = choose|i: int| 0 <= i < list.len() && (#[trigger] list[i]).0@ == key;
        assert(list[i].1@ == value);
    }
    let keys = Seq::new(list.len(), |i: int| list[i].0@);
    assert(keys.no_duplicates()) by {
        assert forall|i: int, j: int|
            0 <= i < keys.len() && 0 <= j < keys.len() && i != j implies keys[i] != keys[j] by {
            if i < j {
                assert(list[i].0@ != list[j].0@);
            } else {
                assert(list[j].0@ != list[i].0@);
            }
        }
    }
    keys.unique_seq_to_set();
    assert(keys.to_set() =~= map.dom()) by {
        assert forall|k: Seq<char>| keys.to_set().contains(k) <==> map.dom().contains(k) by {
            if map.dom().contains(k) {
                assert(map.contains_key(k));
                let i = choose|i: int| 0 <= i < list.len() && (#[trigger] list[i]).0@ == k;
                assert(keys[i] == k);
            }
            if keys.to_set().contains(k) {
                let i = choose|i: int| 0 <= i < keys.len() && keys[i] == k;
                assert(map.contains_key(list[i].0@));
            }
        }
    }
}

} // verus!
