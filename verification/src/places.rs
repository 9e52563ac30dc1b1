//! Finding a name in a list of different names without walking the list.

use vstd::hash_map::StringHashMap;
use vstd::prelude::*;

verus! {

/// The place of each name of a list of different names.
pub(crate) struct Places {
    map: StringHashMap<usize>,
}

impl Places {
    /// `self` knows the place of each name of `names` and of no other.
    pub(crate) closed spec fn tells(&self, names: Seq<Seq<char>>) -> bool {
        &&& forall|i: int|
            0 <= i < names.len() ==> self.map@.contains_key(#[trigger] names[i])
                && self.map@[names[i]] == i
        &&& forall|n: Seq<char>| #[trigger]
            self.map@.contains_key(n) ==> self.map@[n] < names.len() && names[self.map@[n] as int]
                == n
    }

    /// The places of no names.
    pub(crate) fn new() -> (r: Places)
        ensures
            r.tells(Seq::<Seq<char>>::empty()),
    {
        Places { map: StringHashMap::new() }
    }

    /// The place of `name`, if it is one of the names.
    pub(crate) fn find(&self, name: &str, Ghost(names): Ghost<Seq<Seq<char>>>) -> (r: Option<usize>)
        requires
            self.tells(names),
        ensures
            match r {
                Some(i) => i < names.len() && names[i as int] == name@,
                None => forall|i: int| 0 <= i < names.len() ==> #[trigger] names[i] != name@,
            },
    {
        match self.map.get(name) {
            Some(place) => Some(*place),
            None => None,
        }
    }

    /// Notes that `name` follows the names known so far.
    pub(crate) fn add(&mut self, name: String, place: usize, Ghost(names): Ghost<Seq<Seq<char>>>)
        requires
            old(self).tells(names),
            place == names.len(),
            forall|i: int| 0 <= i < names.len() ==> #[trigger] names[i] != name@,
        ensures
            final(self).tells(names.push(name@)),
    {
        let ghost before = self.map@;
        self.map.insert(name, place);
        proof {
            let grown = names.push(name@);
            assert forall|i: int| 0 <= i < grown.len() implies self.map@.contains_key(
                #[trigger] grown[i],
            ) && self.map@[grown[i]] == i by {
                if i < names.len() {
                    assert(before.contains_key(names[i]));
                }
            }
            assert forall|n: Seq<char>| #[trigger] self.map@.contains_key(n) implies self.map@[n]
                < grown.len() && grown[self.map@[n] as int] == n by {
                if n != name@ {
                    assert(before.contains_key(n));
                }
            }
        }
    }
}

} // verus!
