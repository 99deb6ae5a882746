//! The accumulating set of identifiers the scanner believes correspond to
//! dependency names. Only membership matters; insertion order does not.

use vstd::prelude::*;
use crate::chars::{chars_eq, to_char_vec};

verus! {

/// A set of names, accumulated across all scanned source units.
pub struct UsedSet {
    items: Vec<Vec<char>>,
}

impl View for UsedSet {
    type V = Set<Seq<char>>;

    closed spec fn view(&self) -> Set<Seq<char>> {
        Set::new(|s: Seq<char>| exists|i: int| 0 <= i < self.items@.len() && self.items@[i]@ == s)
    }
}

impl UsedSet {
    pub fn new() -> (r: UsedSet)
        ensures
            r@ == Set::<Seq<char>>::empty(),
    {
        let r = UsedSet { items: Vec::new() };
        proof {
            assert(r@ =~= Set::<Seq<char>>::empty());
        }
        r
    }

    pub fn insert(&mut self, v: Vec<char>)
        ensures
            final(self)@ == old(self)@.insert(v@),
    {
        let ghost oldv = self.items@;
        self.items.push(v);
        proof {
            assert forall|s: Seq<char>| self@.contains(s) implies old(self)@.insert(v@).contains(
                s,
            ) by {
                let i = choose|i: int| 0 <= i < self.items@.len() && self.items@[i]@ == s;
                if i < oldv.len() {
                    assert(oldv[i]@ == s);
                }
            }
            assert forall|s: Seq<char>| old(self)@.insert(v@).contains(s) implies self@.contains(
                s,
            ) by {
                if s == v@ {
                    assert(self.items@[oldv.len() as int]@ == s);
                } else {
                    let i = choose|i: int| 0 <= i < oldv.len() && oldv[i]@ == s;
                    assert(self.items@[i]@ == s);
                }
            }
            assert(self@ =~= old(self)@.insert(v@));
        }
    }

    pub fn contains(&self, v: &Vec<char>) -> (r: bool)
        ensures
            r == self@.contains(v@),
    {
        let mut i: usize = 0;
        while i < self.items.len()
            invariant
                0 <= i <= self.items@.len(),
                forall|j: int| 0 <= j < i ==> self.items@[j]@ != v@,
            decreases self.items@.len() - i,
        {
            if chars_eq(&self.items[i], v) {
                assert(self@.contains(v@));
                return true;
            }
            i = i + 1;
        }
        proof {
            if self@.contains(v@) {
                let j = choose|j: int| 0 <= j < self.items@.len() && self.items@[j]@ == v@;
                assert(false);
            }
        }
        false
    }

    /// Membership of a name given as a string slice.
    pub fn contains_name(&self, name: &str) -> (r: bool)
        ensures
            r == self@.contains(name@),
    {
        let v = to_char_vec(name);
        self.contains(&v)
    }
}

} // verus!
