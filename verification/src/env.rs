//! A snapshot of process environment variables.
//!
//! Values are kept as the bytes of operating-system strings, so a variable
//! that is not valid Unicode is still visible (and reported as such).
use vstd::prelude::*;
use crate::text::{owned, str_eq};

verus! {

/// The variables of a list of assignments: a later assignment to the same
/// name overrides an earlier one.
pub open spec fn assignments_map(s: Seq<(String, Vec<u8>)>) -> Map<Seq<char>, Seq<u8>>
    decreases s.len(),
{
    if s.len() == 0 {
        Map::empty()
    } else {
        assignments_map(s.drop_last()).insert(s.last().0@, s.last().1@)
    }
}

/// A set of environment variables, from names to raw values.
pub struct Env {
    vars: Vec<(String, Vec<u8>)>,
}

impl View for Env {
    type V = Map<Seq<char>, Seq<u8>>;

    closed spec fn view(&self) -> Map<Seq<char>, Seq<u8>> {
        assignments_map(self.vars@)
    }
}

impl Env {
    /// An environment with no variables.
    pub fn new() -> (r: Self)
        ensures
            r@ == Map::<Seq<char>, Seq<u8>>::empty(),
    {
        Env { vars: Vec::new() }
    }

    /// Sets `key` to `value`, replacing any earlier value.
    pub fn set(&mut self, key: &str, value: Vec<u8>)
        ensures
            final(self)@ == old(self)@.insert(key@, value@),
    {
        let k = owned(key);
        let ghost before = self.vars@;
        self.vars.push((k, value));
        assert(self.vars@.drop_last() == before);
    }

    /// The raw value of `key`, if it is set.
    pub fn get(&self, key: &str) -> (r: Option<&[u8]>)
        ensures
            match r {
                Some(v) => self@.contains_key(key@) && self@[key@] == v@,
                None => !self@.contains_key(key@),
            },
    {
        let mut i = self.vars.len();
        assert(self.vars@.take(i as int) == self.vars@);
        while i > 0
            invariant
                i <= self.vars@.len(),
                assignments_map(self.vars@.take(i as int)).contains_key(key@)
                    == assignments_map(self.vars@).contains_key(key@),
                assignments_map(self.vars@).contains_key(key@) ==> assignments_map(
                    self.vars@.take(i as int),
                )[key@] == assignments_map(self.vars@)[key@],
            decreases i,
        {
            let ghost prefix = self.vars@.take(i as int);
            assert(prefix.drop_last() == self.vars@.take(i - 1));
            i = i - 1;
            if str_eq(self.vars[i].0.as_str(), key) {
                return Some(self.vars[i].1.as_slice());
            }
        }
        assert(self.vars@.take(0) == Seq::<(String, Vec<u8>)>::empty());
        None
    }
}

} // verus!
