//! A map from texts to texts.

use vstd::prelude::*;

use crate::text::{opt_str, same};

verus! {

/// A map from texts to texts.
#[derive(Debug, PartialEq, Eq)]
pub struct TextMap {
    entries: Vec<(String, String)>,
}

spec fn lookup(entries: Seq<(String, String)>, key: Seq<char>) -> Option<Seq<char>>
    decreases entries.len(),
{
    if entries.len() == 0 {
        None
    } else if entries.last().0@ == key {
        Some(entries.last().1@)
    } else {
        lookup(entries.drop_last(), key)
    }
}

/// The value under a key, where there is one.
pub open spec fn value_at(map: Map<Seq<char>, Seq<char>>, key: Seq<char>) -> Option<Seq<char>> {
    if map.contains_key(key) {
        Some(map[key])
    } else {
        None
    }
}

impl View for TextMap {
    type V = Map<Seq<char>, Seq<char>>;

    closed spec fn view(&self) -> Map<Seq<char>, Seq<char>> {
        Map::new(
            |key: Seq<char>| lookup(self.entries@, key) is Some,
            |key: Seq<char>| lookup(self.entries@, key)->0,
        )
    }
}

impl TextMap {
    /// The empty map.
    pub fn new() -> (map: TextMap)
        ensures
            map@ == Map::<Seq<char>, Seq<char>>::empty(),
    {
        let map: TextMap = TextMap { entries: Vec::new() };
        proof {
            assert(map@ =~= Map::<Seq<char>, Seq<char>>::empty());
        }
        map
    }

    /// The value under a key.
    pub fn get(&self, key: &str) -> (value: Option<&str>)
        ensures
            opt_str(value) == value_at(self@, key@),
    {
        let mut i: usize = self.entries.len();
        proof {
            assert(self.entries@.take(self.entries@.len() as int) =~= self.entries@);
        }
        while i > 0
            invariant
                i <= self.entries@.len(),
                lookup(self.entries@, key@) == lookup(self.entries@.take(i as int), key@),
            decreases i,
        {
            proof {
                assert(self.entries@.take(i as int).last() == self.entries@[i - 1]);
                assert(self.entries@.take(i as int).drop_last() =~= self.entries@.take(i - 1));
            }
            if same(&self.entries[i - 1].0, key) {
                return Some(self.entries[i - 1].1.as_str());
            }
            i -= 1;
        }
        None
    }

    /// A copy of the map.
    pub fn copy(&self) -> (copy: TextMap)
        ensures
            copy@ == self@,
    {
        let ghost all = self.entries@;
        let mut entries: Vec<(String, String)> = Vec::new();
        let mut i: usize = 0;
        proof {
            assert(entries@ =~= all.take(0));
        }
        while i < self.entries.len()
            invariant
                i <= self.entries@.len(),
                all == self.entries@,
                forall|k: Seq<char>| #[trigger]
                    lookup(entries@, k) == lookup(all.take(i as int), k),
            decreases self.entries@.len() - i,
        {
            let ghost earlier = entries@;
            let entry: (String, String) = (self.entries[i].0.clone(), self.entries[i].1.clone());
            entries.push(entry);
            proof {
                let next = all.take(i + 1);
                assert(next.last() == all[i as int]);
                assert(next.drop_last() =~= all.take(i as int));
                assert(entries@.drop_last() =~= earlier);
                assert forall|k: Seq<char>| #[trigger] lookup(entries@, k) == lookup(next, k) by {
                    assert(lookup(earlier, k) == lookup(all.take(i as int), k));
                }
            }
            i += 1;
        }
        let copy: TextMap = TextMap { entries };
        proof {
            assert(all.take(all.len() as int) =~= all);
            assert forall|k: Seq<char>| lookup(copy.entries@, k) == lookup(all, k) by {}
            assert(copy@ =~= self@);
        }
        copy
    }

    /// Puts a value under a key, in place of any other.
    pub fn insert(&mut self, key: &str, value: &str)
        ensures
            final(self)@ == old(self)@.insert(key@, value@),
    {
        let ghost before = self.entries@;
        let ghost map = self@;
        self.remove(key);
        let ghost cleared = self.entries@;
        let entry: (String, String) = (key.to_owned(), value.to_owned());
        self.entries.push(entry);
        proof {
            assert(self.entries@ == cleared.push(entry));
            assert forall|k: Seq<char>| lookup(self.entries@, k) == (if k == key@ {
                Some(value@)
            } else {
                lookup(cleared, k)
            }) by {
                assert(self.entries@.last() == entry);
                assert(self.entries@.drop_last() =~= cleared);
            }
            assert(self@ =~= map.remove(key@).insert(key@, value@));
            assert(map.remove(key@).insert(key@, value@) =~= map.insert(key@, value@));
        }
    }

    /// Takes a key out of the map.
    pub fn remove(&mut self, key: &str)
        ensures
            final(self)@ == old(self)@.remove(key@),
    {
        let ghost map = self@;
        let ghost all = self.entries@;
        let mut kept: Vec<(String, String)> = Vec::new();
        let mut i: usize = 0;
        proof {
            assert(all.take(0) =~= Seq::empty());
            assert(kept@ =~= Seq::empty());
        }
        while i < self.entries.len()
            invariant
                i <= self.entries@.len(),
                all == self.entries@,
                forall|k: Seq<char>|
                    #![trigger lookup(kept@, k)]
                    lookup(kept@, k) == (if k == key@ {
                        None
                    } else {
                        lookup(all.take(i as int), k)
                    }),
            decreases self.entries@.len() - i,
        {
            let ghost earlier = kept@;
            let ghost entry = self.entries@[i as int];
            if !same(&self.entries[i].0, key) {
                let copy: (String, String) = (
                    self.entries[i].0.clone(),
                    self.entries[i].1.clone(),
                );
                kept.push(copy);
                proof {
                    assert(kept@.last() == copy);
                    assert(kept@.drop_last() =~= earlier);
                }
            }
            proof {
                let next = all.take(i + 1);
                assert(next.last() == entry);
                assert(next.drop_last() =~= all.take(i as int));
                assert forall|k: Seq<char>|
                    #![trigger lookup(kept@, k)]
                    lookup(kept@, k) == (if k == key@ {
                        None
                    } else {
                        lookup(next, k)
                    }) by {
                    assert(lookup(earlier, k) == (if k == key@ {
                        None
                    } else {
                        lookup(all.take(i as int), k)
                    }));
                }
            }
            i += 1;
        }
        proof {
            assert(all.take(all.len() as int) =~= all);
        }
        self.entries = kept;
        proof {
            assert forall|k: Seq<char>| lookup(self.entries@, k) == (if k == key@ {
                None
            } else {
                lookup(all, k)
            }) by {}
            assert(self@ =~= map.remove(key@));
        }
    }
}

} // verus!
