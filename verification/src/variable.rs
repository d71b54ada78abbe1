//! A named value, with the other names it answers to.

use vstd::prelude::*;
use crate::text::{chars_of, contains, copy_str, copy_strings, includes, lists, same_str, views};

verus! {

/// A variable of the calculator.
///
/// `value` is the numeral that is written in place of the variable's name
/// when an expression is evaluated.
#[derive(Debug, PartialEq, Eq)]
pub struct Variable {
    pub key: String,
    pub value: String,
    pub aliases: Option<Vec<String>>,
}

/// What a `Variable` holds, as sequences of characters.
pub ghost struct VariableView {
    pub key: Seq<char>,
    pub value: Seq<char>,
    pub aliases: Option<Seq<Seq<char>>>,
}

impl VariableView {
    /// Whether `name` is this variable's key or one of its aliases.
    pub open spec fn answers_to(self, name: Seq<char>) -> bool {
        self.key == name || (self.aliases is Some && self.aliases->0.contains(name))
    }
}

impl View for Variable {
    type V = VariableView;

    open spec fn view(&self) -> VariableView {
        VariableView {
            key: self.key@,
            value: self.value@,
            aliases: match self.aliases {
                Some(aliases) => Some(views(aliases@)),
                None => None,
            },
        }
    }
}

impl Clone for Variable {
    /// A variable with the same key, value and aliases.
    fn clone(&self) -> (r: Self)
        ensures
            r@ == self@,
    {
        Variable {
            key: copy_str(self.key.as_str()),
            value: copy_str(self.value.as_str()),
            aliases: match &self.aliases {
                Some(aliases) => Some(copy_strings(aliases)),
                None => None,
            },
        }
    }
}

impl Variable {
    /// A variable named `key` that stands for the numeral `value`.
    pub fn new(key: &str, value: &str, aliases: Option<Vec<String>>) -> (r: Self)
        ensures
            r@ == (VariableView {
                key: key@,
                value: value@,
                aliases: match aliases {
                    Some(aliases) => Some(views(aliases@)),
                    None => None,
                },
            }),
    {
        Variable { key: copy_str(key), value: copy_str(value), aliases }
    }

    /// Whether `name` is this variable's key or one of its aliases.
    pub fn answers(&self, name: &str) -> (r: bool)
        ensures
            r == self@.answers_to(name@),
    {
        if same_str(self.key.as_str(), name) {
            true
        } else {
            match &self.aliases {
                Some(aliases) => lists(aliases, name),
                None => false,
            }
        }
    }

    /// Whether `key` names this variable, as its key or as one of its aliases.
    pub fn has_name(self, key: &str) -> (r: bool)
        ensures
            r == self@.answers_to(key@),
    {
        self.answers(key)
    }

    /// Whether some name belongs to both variables.
    pub fn shares_name_with(&self, other: &Variable) -> (r: bool)
        ensures
            r == exists|name: Seq<char>| #[trigger]
                self@.answers_to(name) && other@.answers_to(name),
    {
        if other.answers(self.key.as_str()) {
            assert(self@.answers_to(self.key@));
            return true;
        }
        match &self.aliases {
            Some(aliases) => {
                let mut i: usize = 0;
                while i < aliases.len()
                    invariant
                        i <= aliases.len(),
                        self.aliases == Some(*aliases),
                        !other@.answers_to(self@.key),
                        forall|j: int|
                            0 <= j < i ==> !other@.answers_to(#[trigger] views(aliases@)[j]),
                    decreases aliases.len() - i,
                {
                    if other.answers(aliases[i].as_str()) {
                        assert(views(aliases@)[i as int] == aliases@[i as int]@);
                        assert(self@.answers_to(aliases@[i as int]@));
                        return true;
                    }
                    i += 1;
                }
                false
            },
            None => false,
        }
    }

    /// Whether one of this variable's names stands somewhere in `text`.
    pub fn named_in(&self, text: &Vec<char>) -> (r: bool)
        ensures
            r == exists|name: Seq<char>| #[trigger]
                self@.answers_to(name) && contains(text@, name),
    {
        if includes(text, &chars_of(self.key.as_str())) {
            assert(self@.answers_to(self.key@));
            return true;
        }
        match &self.aliases {
            Some(aliases) => {
                let mut i: usize = 0;
                while i < aliases.len()
                    invariant
                        i <= aliases.len(),
                        self.aliases == Some(*aliases),
                        !contains(text@, self@.key),
                        forall|j: int| 0 <= j < i ==> !contains(text@, #[trigger] views(aliases@)[j]),
                    decreases aliases.len() - i,
                {
                    if includes(text, &chars_of(aliases[i].as_str())) {
                        assert(views(aliases@)[i as int] == aliases@[i as int]@);
                        assert(self@.answers_to(aliases@[i as int]@));
                        return true;
                    }
                    i += 1;
                }
                false
            },
            None => false,
        }
    }
}

} // verus!
