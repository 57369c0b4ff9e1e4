//! A table from strings to values: the launcher's file-hash cache and its
//! page and action address maps. vstd's `StringHashMap` holds the index
//! from key to entry; the entries are kept beside it in a `Vec` because
//! the table must be listed (to be saved, and to hand the maps to the
//! game), and vstd specifies no walk over the hash map.
use vstd::prelude::*;
use vstd::hash_map::StringHashMap;

verus! {

broadcast use vstd::hash_map::group_hash_map_axioms;

/// Values that can be duplicated exactly.
pub trait Duplicate: Sized {
    fn duplicate(&self) -> (r: Self)
        ensures
            r == *self;
}

impl Duplicate for String {
    fn duplicate(&self) -> (r: String) {
        self.clone()
    }
}

/// Entries, each key at most once, with an index from key to position.
#[verifier::reject_recursive_types(V)]
pub struct StringTable<V> {
    entries: Vec<(String, V)>,
    slots: StringHashMap<usize>,
}

/// The map that a list of (key, value) pairs builds when its pairs are
/// inserted in order (a later pair for a key replaces an earlier one).
pub open spec fn map_of_pairs<V>(s: Seq<(String, V)>) -> Map<Seq<char>, V>
    decreases s.len(),
{
    if s.len() == 0 {
        Map::empty()
    } else {
        map_of_pairs(s.drop_last()).insert(s.last().0@, s.last().1)
    }
}

impl<V> View for StringTable<V> {
    type V = Map<Seq<char>, V>;

    closed spec fn view(&self) -> Map<Seq<char>, V> {
        Map::new(
            |k: Seq<char>| self.slots@.contains_key(k),
            |k: Seq<char>| self.entries@[self.slots@[k] as int].1,
        )
    }
}

impl<V> StringTable<V> {
    #[verifier::type_invariant]
    closed spec fn wf(&self) -> bool {
        &&& forall|k: Seq<char>| #[trigger] self.slots@.contains_key(k) ==> {
            &&& self.slots@[k] < self.entries@.len()
            &&& self.entries@[self.slots@[k] as int].0@ == k
        }
        &&& forall|i: int| 0 <= i < self.entries@.len() ==> {
            &&& self.slots@.contains_key(#[trigger] self.entries@[i].0@)
            &&& self.slots@[self.entries@[i].0@] == i
        }
    }

    proof fn lemma_len(&self)
        requires
            self.wf(),
        ensures
            self.entries@.len() == self@.len(),
    {
        let dom = self@.dom();
        let keys = self.entries@.map_values(|e: (String, V)| e.0@);
        assert forall|i: int, j: int| 0 <= i < keys.len() && 0 <= j < keys.len() && i != j
            implies keys[i] != keys[j] by {
            assert(self.slots@[self.entries@[i].0@] == i);
            assert(self.slots@[self.entries@[j].0@] == j);
        }
        assert(keys.no_duplicates());
        assert forall|k: Seq<char>| dom.contains(k) <==> keys.to_set().contains(k) by {
            if dom.contains(k) {
                let i = self.slots@[k] as int;
                assert(keys[i] == k);
            }
            if keys.to_set().contains(k) {
                let i = choose|i: int| 0 <= i < keys.len() && keys[i] == k;
                assert(self.slots@.contains_key(self.entries@[i].0@));
            }
        }
        assert(dom =~= keys.to_set());
        keys.unique_seq_to_set();
    }

}

impl<V: Duplicate> StringTable<V> {
    /// An empty table.
    pub fn new() -> (c: StringTable<V>)
        ensures
            c@ == Map::<Seq<char>, V>::empty(),
    {
        let c = StringTable { entries: Vec::new(), slots: StringHashMap::new() };
        assert(c@ =~= Map::<Seq<char>, V>::empty());
        c
    }

    /// Removes every entry.
    pub fn clear(&mut self)
        ensures
            final(self)@ == Map::<Seq<char>, V>::empty(),
    {
        *self = StringTable::new();
    }

    /// Number of keys.
    pub fn len(&self) -> (n: usize)
        ensures
            n == self@.len(),
    {
        proof {
            use_type_invariant(self);
            self.lemma_len();
        }
        self.entries.len()
    }

    /// The value for `path`, if any.
    pub fn get(&self, path: &str) -> (r: Option<&V>)
        ensures
            match r {
                Some(c) => self@.contains_key(path@) && self@[path@] == *c,
                None => !self@.contains_key(path@),
            },
    {
        proof { use_type_invariant(self); }
        match self.slots.get(path) {
            Some(i) => Some(&self.entries[*i].1),
            None => None,
        }
    }

    /// Sets the value for `path`, replacing any earlier one.
    pub fn insert(&mut self, path: String, rec: V)
        ensures
            final(self)@ == old(self)@.insert(path@, rec),
    {
        proof { use_type_invariant(&*self); }
        let ghost old_view = self@;
        let ghost pv = path@;
        let found = match self.slots.get(path.as_str()) {
            Some(i) => Some(*i),
            None => None,
        };
        let mut tmp = StringTable::new();
        std::mem::swap(&mut tmp, self);
        let StringTable { mut entries, mut slots } = tmp;
        match found {
            Some(i) => {
                entries.set(i, (path, rec));
            },
            None => {
                slots.insert(path.clone(), entries.len());
                entries.push((path, rec));
            },
        }
        *self = StringTable { entries, slots };
        assert(self@ =~= old_view.insert(pv, rec));
    }

    /// The entries, one per key.
    pub fn to_pairs(&self) -> (v: Vec<(String, V)>)
        ensures
            map_of_pairs(v@) == self@,
            forall|i: int, j: int| 0 <= i < j < v@.len() ==> v@[i].0@ != v@[j].0@,
    {
        proof { use_type_invariant(self); }
        let mut v: Vec<(String, V)> = Vec::new();
        let mut i: usize = 0;
        while i < self.entries.len()
            invariant
                i <= self.entries@.len(),
                self.wf(),
                v@.len() == i,
                forall|k: int| 0 <= k < i ==> v@[k].0@ == self.entries@[k].0@
                    && v@[k].1 == self.entries@[k].1,
                map_of_pairs(v@) == Map::new(
                    |k: Seq<char>| self.slots@.contains_key(k) && self.slots@[k] < i,
                    |k: Seq<char>| self.entries@[self.slots@[k] as int].1,
                ),
            decreases self.entries.len() - i,
        {
            let e = &self.entries[i];
            let ghost before = v@;
            v.push((e.0.clone(), e.1.duplicate()));
            assert(v@.drop_last() == before);
            assert(map_of_pairs(v@) =~= Map::new(
                |k: Seq<char>| self.slots@.contains_key(k) && self.slots@[k] < i + 1,
                |k: Seq<char>| self.entries@[self.slots@[k] as int].1,
            ));
            i = i + 1;
        }
        assert(map_of_pairs(v@) =~= self@);
        assert forall|a: int, b: int| 0 <= a < b < v@.len() implies v@[a].0@ != v@[b].0@ by {
            assert(self.slots@[self.entries@[a].0@] == a);
            assert(self.slots@[self.entries@[b].0@] == b);
        }
        v
    }

    /// The table that a list of pairs builds, a later pair for a key
    /// replacing an earlier one.
    pub fn from_pairs(pairs: Vec<(String, V)>) -> (c: StringTable<V>)
        ensures
            c@ == map_of_pairs(pairs@),
    {
        let mut c = StringTable::new();
        let mut i: usize = 0;
        let ghost all = pairs@;
        while i < pairs.len()
            invariant
                i <= all.len(),
                all == pairs@,
                c@ == map_of_pairs(all.take(i as int)),
            decreases pairs.len() - i,
        {
            let p = pairs[i].0.clone();
            let r = pairs[i].1.duplicate();
            assert(all.take(i + 1).drop_last() == all.take(i as int));
            c.insert(p, r);
            i = i + 1;
        }
        assert(all.take(all.len() as int) == all);
        c
    }
}

} // verus!
