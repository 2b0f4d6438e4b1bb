//! A map from text to text: the parameters of a request.
use crate::text::{opt_text, str_eq};
use vstd::prelude::*;
use vstd::string::*;

verus! {

/// The map that a list of pairs writes; of two pairs with one key the later counts.
pub open spec fn map_of(pairs: Seq<(Seq<char>, Seq<char>)>) -> Map<Seq<char>, Seq<char>>
    decreases pairs.len(),
{
    if pairs.len() == 0 {
        Map::empty()
    } else {
        map_of(pairs.drop_last()).insert(pairs.last().0, pairs.last().1)
    }
}

/// The characters of each pair of a list.
pub open spec fn pairs_view(v: Seq<(String, String)>) -> Seq<(Seq<char>, Seq<char>)> {
    v.map_values(|p: (String, String)| (p.0@, p.1@))
}

/// The value of a key in a map.
pub open spec fn lookup(m: Map<Seq<char>, Seq<char>>, key: Seq<char>) -> Option<Seq<char>> {
    if m.contains_key(key) {
        Some(m[key])
    } else {
        None
    }
}

/// An optional reference to a string, by its characters.
pub open spec fn opt_string(o: Option<&String>) -> Option<Seq<char>> {
    match o {
        Some(s) => Some(s@),
        None => None,
    }
}

/// A map from text to text.
pub struct Params {
    entries: Vec<(String, String)>,
}

impl View for Params {
    type V = Map<Seq<char>, Seq<char>>;

    closed spec fn view(&self) -> Map<Seq<char>, Seq<char>> {
        map_of(pairs_view(self.entries@))
    }
}

impl Params {
    /// The empty map.
    pub fn new() -> (r: Params)
        ensures
            r@ == Map::<Seq<char>, Seq<char>>::empty(),
    {
        let r = Params { entries: Vec::new() };
        assert(pairs_view(r.entries@) =~= Seq::empty());
        r
    }

    /// The value of a key.
    pub fn get(&self, key: &str) -> (r: Option<&String>)
        ensures
            opt_string(r) == lookup(self@, key@),
    {
        let mut n: usize = self.entries.len();
        let ghost all = pairs_view(self.entries@);
        assert(all.take(n as int) =~= all);
        while n > 0
            invariant
                n <= self.entries@.len(),
                all == pairs_view(self.entries@),
                lookup(map_of(all.take(n as int)), key@) == lookup(map_of(all), key@),
            decreases n,
        {
            let ghost part = all.take(n as int);
            assert(part.last() == (self.entries@[n - 1].0@, self.entries@[n - 1].1@));
            if str_eq(self.entries[n - 1].0.as_str(), key) {
                return Some(&self.entries[n - 1].1);
            }
            assert(part.drop_last() =~= all.take(n - 1));
            n -= 1;
        }
        None
    }

    /// A copy of the value of a key.
    pub fn value(&self, key: &str) -> (r: Option<String>)
        ensures
            opt_text(r) == lookup(self@, key@),
    {
        match self.get(key) {
            Some(v) => Some(v.clone()),
            None => None,
        }
    }

    /// Takes a key out of the map.
    pub fn remove(&mut self, key: &str)
        ensures
            final(self)@ == old(self)@.remove(key@),
    {
        let mut kept: Vec<(String, String)> = Vec::new();
        let mut i: usize = 0;
        let ghost all = pairs_view(self.entries@);
        assert(map_of(pairs_view(kept@)) =~= map_of(all.take(0)).remove(key@));
        while i < self.entries.len()
            invariant
                i <= self.entries@.len(),
                all == pairs_view(self.entries@),
                map_of(pairs_view(kept@)) == map_of(all.take(i as int)).remove(key@),
            decreases self.entries.len() - i,
        {
            let ghost before = pairs_view(kept@);
            proof {
                assert(all.take(i + 1).drop_last() =~= all.take(i as int));
                assert(all.take(i + 1).last() == (
                    self.entries@[i as int].0@,
                    self.entries@[i as int].1@,
                ));
            }
            if !str_eq(self.entries[i].0.as_str(), key) {
                let k = self.entries[i].0.clone();
                let v = self.entries[i].1.clone();
                kept.push((k, v));
                proof {
                    assert(pairs_view(kept@).drop_last() =~= before);
                    assert(map_of(pairs_view(kept@)) =~= map_of(all.take(i + 1)).remove(key@));
                }
            } else {
                assert(map_of(pairs_view(kept@)) =~= map_of(all.take(i + 1)).remove(key@));
            }
            i += 1;
        }
        assert(all.take(i as int) =~= all);
        self.entries = kept;
    }

    /// Gives a key a value.
    pub fn insert(&mut self, key: String, value: String)
        ensures
            final(self)@ == old(self)@.insert(key@, value@),
    {
        self.remove(key.as_str());
        let ghost before = pairs_view(self.entries@);
        self.entries.push((key, value));
        proof {
            assert(pairs_view(self.entries@).drop_last() =~= before);
            assert(self@ =~= old(self)@.insert(key@, value@));
        }
    }

    /// Takes in all pairs of another map.
    pub fn extend(&mut self, other: &Params)
        ensures
            final(self)@ == old(self)@.union_prefer_right(other@),
    {
        let mut i: usize = 0;
        let ghost all = pairs_view(other.entries@);
        let ghost before = self@;
        assert(before =~= before.union_prefer_right(map_of(all.take(0))));
        while i < other.entries.len()
            invariant
                i <= other.entries@.len(),
                all == pairs_view(other.entries@),
                self@ == before.union_prefer_right(map_of(all.take(i as int))),
            decreases other.entries.len() - i,
        {
            proof {
                assert(all.take(i + 1).drop_last() =~= all.take(i as int));
                assert(all.take(i + 1).last() == (
                    other.entries@[i as int].0@,
                    other.entries@[i as int].1@,
                ));
            }
            self.insert(other.entries[i].0.clone(), other.entries[i].1.clone());
            assert(self@ =~= before.union_prefer_right(map_of(all.take(i + 1))));
            i += 1;
        }
        assert(all.take(i as int) =~= all);
    }
}

/// Of the pairs with one key the last counts, and pairs with other keys do not matter to it.
pub proof fn law_last_pair_counts(
    pairs: Seq<(Seq<char>, Seq<char>)>,
    key: Seq<char>,
    value: Seq<char>,
    other: Seq<char>,
)
    ensures
        lookup(map_of(pairs.push((key, value))), key) == Some(value),
        other != key ==> lookup(map_of(pairs.push((key, value))), other) == lookup(
            map_of(pairs),
            other,
        ),
        lookup(map_of(Seq::empty()), key) is None,
{
    assert(pairs.push((key, value)).drop_last() =~= pairs);
}

} // verus!
