//! The variable store: variables in the order in which they were first added.
//!
//! The first `builtin_count` variables are the constants the calculator starts
//! with; the rest were declared by the user.

use vstd::prelude::*;
use linked_hash_map::LinkedHashMap;
use crate::text::{copy_str, same_str};
use crate::variable::{Variable, VariableView};

verus! {

/// `linked_hash_map::LinkedHashMap`: a map that keeps its entries in the
/// order in which their keys were first inserted. Nothing of its inside is
/// known here; what it holds is spoken of through `entries`.
#[verifier::external_type_specification]
#[verifier::external_body]
#[verifier::reject_recursive_types(K)]
#[verifier::reject_recursive_types(V)]
#[verifier::reject_recursive_types(S)]
pub struct ExLinkedHashMap<K, V, S>(LinkedHashMap<K, V, S>);

/// The entries of a map, oldest first: each key with the variable stored under it.
pub uninterp spec fn entries(map: LinkedHashMap<String, Variable>) -> Seq<(Seq<char>, VariableView)>;

/// `LinkedHashMap::new`: a map without entries.
#[verifier::external_body]
fn map_new() -> (map: LinkedHashMap<String, Variable>)
    ensures
        entries(map) == Seq::<(Seq<char>, VariableView)>::empty(),
{
    LinkedHashMap::new()
}

/// `LinkedHashMap::len`: the number of entries.
#[verifier::external_body]
fn map_len(map: &LinkedHashMap<String, Variable>) -> (n: usize)
    ensures
        n == entries(*map).len(),
{
    map.len()
}

/// `LinkedHashMap::iter`: the entries in the order in which the map holds
/// them, oldest first.
#[verifier::external_body]
fn map_iter<'a>(map: &'a LinkedHashMap<String, Variable>) -> (items: Vec<(&'a String, &'a Variable)>)
    ensures
        items@.len() == entries(*map).len(),
        forall|i: int|
            0 <= i < items@.len() ==> (#[trigger] items@[i]).0@ == entries(*map)[i].0
                && items@[i].1@ == entries(*map)[i].1,
{
    map.iter().collect()
}

/// `LinkedHashMap::insert`: an entry under a key that the map does not hold
/// yet becomes the newest entry. Under a key that it holds, the value is
/// replaced and that entry becomes the newest.
#[verifier::external_body]
fn map_insert(map: &mut LinkedHashMap<String, Variable>, key: String, value: Variable)
    ensures
        forall|i: int|
            0 <= i < entries(*old(map)).len() && (#[trigger] entries(*old(map))[i]).0 == key@
                ==> entries(*final(map)) == entries(*old(map)).remove(i).push((key@, value@)),
        (forall|i: int|
            0 <= i < entries(*old(map)).len() ==> (#[trigger] entries(*old(map))[i]).0 != key@)
            ==> entries(*final(map)) == entries(*old(map)).push((key@, value@)),
{
    map.insert(key, value);
}

/// `LinkedHashMap::get_mut`: the value stored under `key`, to be changed where
/// it stands, or `None` where the map holds no such key. The order of the
/// entries stays.
#[verifier::external_body]
fn map_get_mut<'a>(map: &'a mut LinkedHashMap<String, Variable>, key: &str) -> (slot: Option<
    &'a mut Variable,
>)
    ensures
        slot is None ==> entries(*final(map)) == entries(*old(map)) && forall|i: int|
            0 <= i < entries(*old(map)).len() ==> (#[trigger] entries(*old(map))[i]).0 != key@,
        slot is Some ==> exists|i: int|
            0 <= i < entries(*old(map)).len() && (#[trigger] entries(*old(map))[i]).0 == key@
                && (*slot->0)@ == entries(*old(map))[i].1 && entries(*final(map)) == entries(
                *old(map),
            ).update(i, (key@, (*final(slot->0))@)),
{
    map.get_mut(key)
}

/// `LinkedHashMap::remove`: without the entry stored under `key`, the other
/// entries in their order.
#[verifier::external_body]
fn map_remove(map: &mut LinkedHashMap<String, Variable>, key: &str)
    ensures
        forall|i: int|
            0 <= i < entries(*old(map)).len() && (#[trigger] entries(*old(map))[i]).0 == key@
                ==> entries(*final(map)) == entries(*old(map)).remove(i),
        (forall|i: int|
            0 <= i < entries(*old(map)).len() ==> (#[trigger] entries(*old(map))[i]).0 != key@)
            ==> entries(*final(map)) == entries(*old(map)),
{
    map.remove(key);
}

/// `LinkedHashMap::drain`: empties the map and hands out what it held,
/// oldest first.
#[verifier::external_body]
fn map_drain(map: &mut LinkedHashMap<String, Variable>) -> (items: Vec<(String, Variable)>)
    ensures
        entries(*final(map)) == Seq::<(Seq<char>, VariableView)>::empty(),
        items@.len() == entries(*old(map)).len(),
        forall|i: int|
            0 <= i < items@.len() ==> (#[trigger] items@[i]).0@ == entries(*old(map))[i].0
                && items@[i].1@ == entries(*old(map))[i].1,
{
    map.drain().collect()
}

/// No name, key or alias, belongs to two variables.
pub open spec fn distinct_names(variables: Seq<VariableView>) -> bool {
    forall|i: int, j: int, name: Seq<char>|
        0 <= i < j < variables.len() && #[trigger] variables[i].answers_to(name)
            ==> !#[trigger] variables[j].answers_to(name)
}

/// Whether `variables[i]` is the first variable that answers to `name`.
pub open spec fn is_first(variables: Seq<VariableView>, name: Seq<char>, i: int) -> bool {
    &&& 0 <= i < variables.len()
    &&& variables[i].answers_to(name)
    &&& forall|j: int| 0 <= j < i ==> !(#[trigger] variables[j]).answers_to(name)
}

/// The first variable that answers to `name`.
pub open spec fn resolve(variables: Seq<VariableView>, name: Seq<char>) -> Option<VariableView> {
    if exists|i: int| is_first(variables, name, i) {
        Some(variables[choose|i: int| is_first(variables, name, i)])
    } else {
        None
    }
}

/// Whether a name of `variable` belongs to a variable with another key.
pub open spec fn collides(variables: Seq<VariableView>, variable: VariableView) -> bool {
    exists|i: int, name: Seq<char>|
        0 <= i < variables.len() && variables[i].key != variable.key
            && #[trigger] variables[i].answers_to(name) && variable.answers_to(name)
}

/// Whether a variable with this key is stored.
pub open spec fn has_key(variables: Seq<VariableView>, key: Seq<char>) -> bool {
    exists|i: int| 0 <= i < variables.len() && (#[trigger] variables[i]).key == key
}

/// `variables` with `variable` in the place of the one that has its key, or
/// at the end where none has it.
pub open spec fn store(variables: Seq<VariableView>, variable: VariableView) -> Seq<VariableView> {
    if has_key(variables, variable.key) {
        variables.update(
            choose|i: int| 0 <= i < variables.len() && (#[trigger] variables[i]).key == variable.key,
            variable,
        )
    } else {
        variables.push(variable)
    }
}

/// The constants that every store starts with, each under its key and with
/// its alias: Euler's number, Euler's constant and pi.
pub open spec fn builtin_constants() -> Seq<VariableView> {
    seq![
        VariableView { key: "e"@, value: "2.7182818284590451"@, aliases: Some(seq!["euler"@]) },
        VariableView { key: "γ"@, value: "0.57721566490153287"@, aliases: Some(seq!["ℇ"@]) },
        VariableView { key: "pi"@, value: "3.1415926535897931"@, aliases: Some(seq!["π"@]) },
    ]
}

/// The variables of a calculator, in the order in which they were first
/// added: the built-in ones, then those that the user declared.
pub struct Variables {
    variables: LinkedHashMap<String, Variable>,
    builtin_variable_count: usize,
}

impl Default for Variables {
    /// A store that holds the built-in constants and nothing else.
    fn default() -> (r: Self)
        ensures
            r.wf(),
            r@ == builtin_constants(),
            r.builtin_count() == 3,
    {
        let mut r = Variables { variables: map_new(), builtin_variable_count: 0 };
        assert(r@ =~= Seq::<VariableView>::empty());
        r.add_basic_constants();
        r.builtin_variable_count = r.len();
        r
    }
}

impl View for Variables {
    type V = Seq<VariableView>;

    /// The variables, oldest first.
    closed spec fn view(&self) -> Seq<VariableView> {
        Seq::new(entries(self.variables).len(), |i: int| entries(self.variables)[i].1)
    }
}

impl Variables {
    /// How many of the variables, counted from the oldest, are built in.
    pub closed spec fn builtin_count(&self) -> nat {
        self.builtin_variable_count as nat
    }

    /// Every variable is stored under its own key.
    pub closed spec fn keyed(&self) -> bool {
        forall|i: int|
            0 <= i < entries(self.variables).len() ==> (#[trigger] entries(self.variables)[i]).0
                == entries(self.variables)[i].1.key
    }

    /// The store's invariant.
    pub open spec fn wf(&self) -> bool {
        &&& self.keyed()
        &&& distinct_names(self@)
        &&& self.builtin_count() <= self@.len()
    }

    /// The number of variables.
    pub fn len(&self) -> (n: usize)
        ensures
            n == self@.len(),
    {
        map_len(&self.variables)
    }

    /// The number of built-in variables.
    pub fn builtin_variable_count(&self) -> (n: usize)
        ensures
            n == self.builtin_count(),
    {
        self.builtin_variable_count
    }

    /// The variable that answers to `key`, as its key or as an alias.
    pub fn get(&self, key: &str) -> (r: Option<Variable>)
        ensures
            match r {
                Some(variable) => resolve(self@, key@) == Some(variable@),
                None => resolve(self@, key@) is None,
            },
    {
        let items = map_iter(&self.variables);
        let mut i: usize = 0;
        while i < items.len()
            invariant
                i <= items.len(),
                items@.len() == self@.len(),
                forall|j: int| 0 <= j < items@.len() ==> (#[trigger] items@[j]).1@ == self@[j],
                forall|j: int| 0 <= j < i ==> !(#[trigger] self@[j]).answers_to(key@),
            decreases items.len() - i,
        {
            let variable = items[i].1;
            if variable.answers(key) {
                assert(is_first(self@, key@, i as int));
                return Some(variable.clone());
            }
            i += 1;
        }
        None
    }

    /// Whether a name of `variable` belongs to a stored variable with another key.
    fn has_collision(&self, variable: &Variable) -> (r: bool)
        ensures
            r == collides(self@, variable@),
    {
        let items = map_iter(&self.variables);
        let mut i: usize = 0;
        while i < items.len()
            invariant
                i <= items.len(),
                items@.len() == self@.len(),
                forall|j: int| 0 <= j < items@.len() ==> (#[trigger] items@[j]).1@ == self@[j],
                forall|j: int, name: Seq<char>|
                    0 <= j < i && self@[j].key != variable@.key && #[trigger] self@[j].answers_to(
                        name,
                    ) ==> !variable@.answers_to(name),
            decreases items.len() - i,
        {
            let other = items[i].1;
            if !same_str(other.key.as_str(), variable.key.as_str()) && other.shares_name_with(
                variable,
            ) {
                let ghost name = choose|name: Seq<char>| #[trigger]
                    other@.answers_to(name) && variable@.answers_to(name);
                assert(self@[i as int].answers_to(name));
                return true;
            }
            i += 1;
        }
        false
    }

    /// Stores `variable`: in the place of the variable that has its key, or as
    /// the newest where none has. Nothing is stored, and `false` returned, where
    /// one of its names belongs to a variable with another key.
    pub fn add(&mut self, variable: Variable) -> (accepted: bool)
        requires
            old(self).wf(),
        ensures
            final(self).wf(),
            final(self).builtin_count() == old(self).builtin_count(),
            accepted == !collides(old(self)@, variable@),
            accepted ==> final(self)@ == store(old(self)@, variable@),
            !accepted ==> final(self)@ == old(self)@,
    {
        if self.has_collision(&variable) {
            return false;
        }
        let key = variable.key.clone();
        let ghost before = entries(self.variables);
        let ghost view_before = self@;
        let ghost added = variable@;
        match map_get_mut(&mut self.variables, key.as_str()) {
            Some(slot) => {
                *slot = variable;
                proof {
                    let i = choose|i: int|
                        0 <= i < before.len() && (#[trigger] before[i]).0 == key@ && entries(
                            self.variables,
                        ) == before.update(i, (key@, added));
                    assert(view_before[i].key == added.key);
                    assert(has_key(view_before, added.key));
                    let k = choose|k: int|
                        0 <= k < view_before.len() && (#[trigger] view_before[k]).key == added.key;
                    assert(k == i) by {
                        assert(view_before[k].answers_to(added.key));
                        assert(view_before[i].answers_to(added.key));
                    }
                    assert(self@ =~= view_before.update(i, added));
                    assert(distinct_names(self@)) by {
                        assert forall|a: int, b: int, name: Seq<char>|
                            0 <= a < b < self@.len() && #[trigger] self@[a].answers_to(
                                name,
                            ) implies !#[trigger] self@[b].answers_to(name) by {
                            if a == i {
                                assert(view_before[i].answers_to(added.key));
                                assert(!view_before[b].answers_to(added.key));
                                if view_before[b].answers_to(name) {
                                    assert(collides(view_before, added));
                                }
                            } else if b == i {
                                assert(view_before[a].answers_to(view_before[a].key));
                                assert(!view_before[i].answers_to(view_before[a].key));
                                assert(view_before[a].answers_to(name));
                                if added.answers_to(name) {
                                    assert(collides(view_before, added));
                                }
                            } else {
                                assert(view_before[a].answers_to(name));
                            }
                        }
                    }
                }
            },
            None => {
                map_insert(&mut self.variables, key, variable);
                proof {
                    assert(entries(self.variables) == before.push((key@, added)));
                    assert(!has_key(view_before, added.key)) by {
                        if has_key(view_before, added.key) {
                            let k = choose|k: int|
                                0 <= k < view_before.len() && (#[trigger] view_before[k]).key
                                    == added.key;
                            assert(before[k].0 == key@);
                        }
                    }
                    assert(self@ =~= view_before.push(added));
                    assert(distinct_names(self@)) by {
                        assert forall|a: int, b: int, name: Seq<char>|
                            0 <= a < b < self@.len() && #[trigger] self@[a].answers_to(
                                name,
                            ) implies !#[trigger] self@[b].answers_to(name) by {
                            if b == view_before.len() {
                                assert(before[a].0 != key@);
                                assert(view_before[a].key == before[a].0);
                                assert(view_before[a].answers_to(name));
                                if added.answers_to(name) {
                                    assert(collides(view_before, added));
                                }
                            } else {
                                assert(view_before[a].answers_to(name));
                            }
                        }
                    }
                }
            },
        }
        true
    }

    /// Removes the first variable that answers to `key`, if there is one. The
    /// built-in variables stay the oldest ones.
    pub fn remove(&mut self, key: &str)
        requires
            old(self).wf(),
        ensures
            final(self).wf(),
            forall|i: int|
                is_first(old(self)@, key@, i) ==> final(self)@ == old(self)@.remove(i)
                    && final(self).builtin_count() == if i < old(self).builtin_count() {
                    old(self).builtin_count() - 1
                } else {
                    old(self).builtin_count() as int
                },
            resolve(old(self)@, key@) is None ==> final(self)@ == old(self)@,
            resolve(old(self)@, key@) is None ==> final(self).builtin_count() == old(
                self,
            ).builtin_count(),
    {
        let items = map_iter(&self.variables);
        let mut found: Option<(usize, String)> = None;
        let mut i: usize = 0;
        while i < items.len() && found.is_none()
            invariant
                i <= items.len(),
                items@.len() == self@.len(),
                forall|j: int| 0 <= j < items@.len() ==> (#[trigger] items@[j]).1@ == self@[j],
                match found {
                    Some((at, name)) => is_first(self@, key@, at as int) && name@
                        == self@[at as int].key,
                    None => forall|j: int| 0 <= j < i ==> !(#[trigger] self@[j]).answers_to(key@),
                },
            decreases items.len() - i + if found is None { 1nat } else { 0nat },
        {
            if items[i].1.answers(key) {
                found = Some((i, items[i].1.key.clone()));
            } else {
                i += 1;
            }
        }
        let ghost before = entries(self.variables);
        let ghost view_before = self@;
        match found {
            Some((at, name)) => {
                map_remove(&mut self.variables, name.as_str());
                if at < self.builtin_variable_count {
                    self.builtin_variable_count = self.builtin_variable_count - 1;
                }
                proof {
                    assert(before[at as int].0 == name@);
                    assert(entries(self.variables) == before.remove(at as int));
                    assert(self@ =~= view_before.remove(at as int));
                    assert forall|i: int| is_first(view_before, key@, i) implies i == at by {
                        assert(view_before[i].answers_to(key@));
                        assert(view_before[at as int].answers_to(key@));
                    }
                    assert(distinct_names(self@)) by {
                        assert forall|a: int, b: int, name: Seq<char>|
                            0 <= a < b < self@.len() && #[trigger] self@[a].answers_to(
                                name,
                            ) implies !#[trigger] self@[b].answers_to(name) by {
                            let a0 = if a < at { a } else { a + 1 };
                            let b0 = if b < at { b } else { b + 1 };
                            assert(view_before[a0].answers_to(name));
                            assert(!view_before[b0].answers_to(name));
                        }
                    }
                }
            },
            None => {
                assert(resolve(view_before, key@) is None);
            },
        }
    }

    /// Removes the variables that the user declared; the built-in ones stay,
    /// in their order.
    pub fn clear_user_defined(&mut self)
        requires
            old(self).wf(),
        ensures
            final(self).wf(),
            final(self)@ == old(self)@.take(old(self).builtin_count() as int),
            final(self).builtin_count() == old(self).builtin_count(),
    {
        let ghost before = entries(self.variables);
        let ghost view_before = self@;
        let count = self.builtin_variable_count;
        let mut items = map_drain(&mut self.variables);
        assert forall|a: int, b: int| 0 <= a < b < before.len() implies (#[trigger] before[a]).0
            != (#[trigger] before[b]).0 by {
            assert(view_before[a].answers_to(view_before[a].key));
            assert(!view_before[b].answers_to(view_before[a].key));
        }
        let mut i: usize = 0;
        while i < count
            invariant
                i <= count <= before.len(),
                items@.len() == before.len() - i,
                forall|j: int|
                    0 <= j < items@.len() ==> (#[trigger] items@[j]).0@ == before[i + j].0
                        && items@[j].1@ == before[i + j].1,
                entries(self.variables) == before.take(i as int),
                self.builtin_variable_count == count,
                forall|a: int, b: int|
                    0 <= a < b < before.len() ==> (#[trigger] before[a]).0 != (
                    #[trigger] before[b]).0,
            decreases count - i,
        {
            let item = items.remove(0);
            let ghost now = entries(self.variables);
            map_insert(&mut self.variables, item.0, item.1);
            proof {
                assert(item.0@ == before[i as int].0);
                assert forall|j: int| 0 <= j < now.len() implies (#[trigger] now[j]).0
                    != item.0@ by {
                    assert(now[j] == before[j]);
                }
                assert(before.take(i as int).push(before[i as int]) =~= before.take(i + 1));
                assert((item.0@, item.1@) == before[i as int]);
            }
            i += 1;
        }
        proof {
            assert(self@ =~= view_before.take(count as int));
            assert(self.keyed()) by {
                assert forall|j: int| 0 <= j < entries(self.variables).len() implies (
                #[trigger] entries(self.variables)[j]).0 == entries(self.variables)[j].1.key by {
                    assert(entries(self.variables)[j] == before[j]);
                }
            }
            assert(distinct_names(self@)) by {
                assert forall|a: int, b: int, name: Seq<char>|
                    0 <= a < b < self@.len() && #[trigger] self@[a].answers_to(
                        name,
                    ) implies !#[trigger] self@[b].answers_to(name) by {
                    assert(view_before[a].answers_to(name));
                    assert(!view_before[b].answers_to(name));
                }
            }
        }
    }

    /// Adds the built-in constants to a store that holds nothing yet.
    fn add_basic_constants(&mut self)
        requires
            old(self).wf(),
            old(self)@.len() == 0,
        ensures
            final(self).wf(),
            final(self)@ == builtin_constants(),
            final(self).builtin_count() == old(self).builtin_count(),
    {
        proof {
            reveal_strlit("e");
            reveal_strlit("euler");
            reveal_strlit("γ");
            reveal_strlit("ℇ");
            reveal_strlit("pi");
            reveal_strlit("π");
        }
        let euler_number = Variable::new("e", "2.7182818284590451", Some(vec![copy_str("euler")]));
        let euler_constant = Variable::new("γ", "0.57721566490153287", Some(vec![copy_str("ℇ")]));
        let pi = Variable::new("pi", "3.1415926535897931", Some(vec![copy_str("π")]));
        proof {
            assert(euler_number@.aliases->0 =~= seq!["euler"@]);
            assert(euler_constant@.aliases->0 =~= seq!["ℇ"@]);
            assert(pi@.aliases->0 =~= seq!["π"@]);
        }
        proof {
            assert("e"@[0] != "γ"@[0] && "e"@[0] != "ℇ"@[0] && "e"@[0] != "π"@[0]);
            assert("γ"@[0] != "ℇ"@[0] && "γ"@[0] != "π"@[0] && "ℇ"@[0] != "π"@[0]);
            assert("e"@.len() == 1 && "euler"@.len() == 5 && "pi"@.len() == 2);
            assert("γ"@.len() == 1 && "ℇ"@.len() == 1 && "π"@.len() == 1);
        }
        let ghost e = euler_number@;
        let ghost g = euler_constant@;
        let ghost p = pi@;
        assert forall|name: Seq<char>| e.answers_to(name) implies name == "e"@ || name
            == "euler"@ by {
            if name != e.key {
                let i = choose|i: int| 0 <= i < 1 && seq!["euler"@][i] == name;
            }
        }
        assert forall|name: Seq<char>| g.answers_to(name) implies name == "γ"@ || name
            == "ℇ"@ by {
            if name != g.key {
                let i = choose|i: int| 0 <= i < 1 && seq!["ℇ"@][i] == name;
            }
        }
        assert forall|name: Seq<char>| p.answers_to(name) implies name == "pi"@ || name
            == "π"@ by {
            if name != p.key {
                let i = choose|i: int| 0 <= i < 1 && seq!["π"@][i] == name;
            }
        }
        let first = self.add(euler_number);
        assert(first);
        assert(self@ =~= seq![e]);
        let second = self.add(euler_constant);
        assert(self@ =~= seq![e, g]);
        let third = self.add(pi);
        assert(self@ =~= seq![e, g, p]);
        assert(e == builtin_constants()[0] && g == builtin_constants()[1] && p
            == builtin_constants()[2]);
    }

    /// A copy of the variables, oldest first.
    pub fn to_vec(&self) -> (r: Vec<Variable>)
        ensures
            r@.len() == self@.len(),
            forall|i: int| 0 <= i < r@.len() ==> (#[trigger] r@[i])@ == self@[i],
    {
        let items = map_iter(&self.variables);
        let mut r: Vec<Variable> = Vec::new();
        let mut i: usize = 0;
        while i < items.len()
            invariant
                i <= items.len(),
                items@.len() == self@.len(),
                forall|j: int| 0 <= j < items@.len() ==> (#[trigger] items@[j]).1@ == self@[j],
                r@.len() == i,
                forall|j: int| 0 <= j < i ==> (#[trigger] r@[j])@ == self@[j],
            decreases items.len() - i,
        {
            r.push(items[i].1.clone());
            i += 1;
        }
        r
    }
}

} // verus!
