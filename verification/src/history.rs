//! The history buffer: the expressions that were evaluated, the newest first.

use std::collections::VecDeque;
use vstd::prelude::*;
use crate::text::{copy_str, views};

verus! {

/// The expressions that were evaluated, the newest first.
pub struct History {
    entries: VecDeque<String>,
}

impl View for History {
    type V = Seq<Seq<char>>;

    /// The expressions, the newest first.
    closed spec fn view(&self) -> Seq<Seq<char>> {
        views(self.entries@)
    }
}

impl History {
    /// A history without entries.
    pub fn new() -> (r: Self)
        ensures
            r@ == Seq::<Seq<char>>::empty(),
    {
        let r = History { entries: VecDeque::new() };
        assert(r@ =~= Seq::<Seq<char>>::empty());
        r
    }

    /// The number of entries.
    pub fn len(&self) -> (n: usize)
        ensures
            n == self@.len(),
    {
        self.entries.len()
    }

    /// Records `expression` as the newest entry.
    pub fn push_front(&mut self, expression: String)
        ensures
            final(self)@ == seq![expression@] + old(self)@,
    {
        self.entries.push_front(expression);
        assert(self@ =~= seq![expression@] + old(self)@);
    }

    /// The newest entry.
    pub fn front(&self) -> (r: Option<&String>)
        ensures
            match r {
                Some(entry) => self@.len() > 0 && entry@ == self@[0],
                None => self@.len() == 0,
            },
    {
        if self.entries.len() > 0 {
            Some(&self.entries[0])
        } else {
            None
        }
    }

    /// The entry at `index`, counted from the newest.
    pub fn get(&self, index: usize) -> (r: Option<&String>)
        ensures
            match r {
                Some(entry) => index < self@.len() && entry@ == self@[index as int],
                None => index >= self@.len(),
            },
    {
        if index < self.entries.len() {
            Some(&self.entries[index])
        } else {
            None
        }
    }

    /// Forgets every entry.
    pub fn clear(&mut self)
        ensures
            final(self)@ == Seq::<Seq<char>>::empty(),
    {
        self.entries.clear();
        assert(self@ =~= Seq::<Seq<char>>::empty());
    }

    /// A copy of the entries, the newest first.
    pub fn to_vec(&self) -> (r: Vec<String>)
        ensures
            views(r@) == self@,
    {
        let mut r: Vec<String> = Vec::new();
        let mut i: usize = 0;
        while i < self.entries.len()
            invariant
                i <= self.entries.len(),
                r.len() == i,
                forall|j: int| 0 <= j < i ==> r@[j]@ == self.entries@[j]@,
            decreases self.entries.len() - i,
        {
            r.push(copy_str(self.entries[i].as_str()));
            i += 1;
        }
        assert(views(r@) =~= self@);
        r
    }
}

} // verus!
