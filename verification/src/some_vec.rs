//! A Vec-based container that is guaranteed to never be empty.

use vstd::prelude::*;
use vstd::relations::sorted_by;
use core::cmp::Ordering;
use crate::sorting::{computes_cmp, decided_order, sort_vec_by, stable_sort_by};

verus! {

/// A Vec-based container that is guaranteed to never be empty: every
/// constructor establishes at least one element, and no operation removes
/// one. Contracts expose the length so callers can track it.
#[derive(Debug, PartialEq)]
pub struct SomeVec<T> {
    v: Vec<T>,
}

impl<T> View for SomeVec<T> {
    type V = Seq<T>;

    closed spec fn view(&self) -> Seq<T> {
        self.v@
    }
}

impl<T> SomeVec<T> {
    /// Creates a new SomeVec from a Vec if non-empty, or returns None.
    pub fn from_vec(v: Vec<T>) -> (r: Option<SomeVec<T>>)
        ensures
            match r {
                Some(s) => s@ == v@ && v@.len() > 0,
                None => v@.len() == 0,
            },
    {
        match v.is_empty() {
            true => None,
            false => Some(SomeVec { v }),
        }
    }

    /// Creates a SomeVec from its first value.
    pub fn from_first_value(value: T) -> (r: SomeVec<T>)
        ensures
            r@ =~= seq![value],
    {
        SomeVec { v: vec![value] }
    }

    /// Creates a SomeVec from its first two values.
    pub fn from_values(value1: T, value2: T) -> (r: SomeVec<T>)
        ensures
            r@ =~= seq![value1, value2],
    {
        SomeVec { v: vec![value1, value2] }
    }

    /// Returns the length of the SomeVec (> 0 for any SomeVec a constructor
    /// can produce).
    pub fn len(&self) -> (r: usize)
        ensures
            r == self@.len(),
    {
        self.v.len()
    }

    /// Returns a reference to the first element.
    pub fn first(&self) -> (r: &T)
        requires
            self@.len() > 0,
        ensures
            *r == self@[0],
    {
        &self.v[0]
    }

    /// Returns a reference to the element at an index.
    pub fn at(&self, index: usize) -> (r: &T)
        requires
            index < self@.len(),
        ensures
            *r == self@[index as int],
    {
        &self.v[index]
    }

    /// Adds value to the end of this SomeVec, increasing its length by 1.
    pub fn push(&mut self, value: T)
        ensures
            final(self)@ == old(self)@.push(value),
    {
        self.v.push(value);
    }

    /// Returns an immutable reference to this SomeVec's inner Vec.
    pub fn inner_ref(&self) -> (r: &Vec<T>)
        ensures
            r@ == self@,
    {
        &self.v
    }

    /// Sorts this SomeVec with comparison function `compare`. The result is
    /// a permutation of the previous contents, sorted by every order the
    /// comparator's contract decides; for a comparator that computes a fixed
    /// three-way comparison, it is exactly the stable sort under it, so tied
    /// elements keep their relative order.
    pub fn sort_by<F: Fn(&T, &T) -> Ordering>(&mut self, compare: F)
        requires
            forall|a: &T, b: &T| #[trigger] call_requires(compare, (a, b)),
        ensures
            final(self)@.len() == old(self)@.len(),
            final(self)@.to_multiset() == old(self)@.to_multiset(),
            forall|leq: spec_fn(T, T) -> bool|
                #[trigger] decided_order(compare, leq) ==> sorted_by(final(self)@, leq),
            forall|c: spec_fn(T, T) -> Ordering|
                #[trigger] computes_cmp(compare, c) ==> final(self)@ == stable_sort_by(
                    old(self)@,
                    c,
                ),
    {
        sort_vec_by(&mut self.v, compare);
    }
}

} // verus!
