//! What the calculator remembers between two lines.

use vstd::prelude::*;
use crate::command::{Command, CommandRegistry};
use crate::default_commands::{are_defaults, DefaultCommands};
use crate::history::History;
use crate::variable::VariableView;
use crate::variables::{builtin_constants, Variables};

verus! {

/// The state of a calculator: its variables, the expressions it has
/// evaluated, the operators it knows and the commands it offers.
pub struct Session {
    pub variables: Variables,
    pub history: History,
    pub operators: Vec<char>,
    pub commands: CommandRegistry,
}

/// What a `Session` holds, as sequences.
pub ghost struct SessionView {
    pub variables: Seq<VariableView>,
    pub builtin_count: nat,
    pub history: Seq<Seq<char>>,
    pub operators: Seq<char>,
    pub commands: Seq<Command>,
}

impl View for Session {
    type V = SessionView;

    open spec fn view(&self) -> SessionView {
        SessionView {
            variables: self.variables@,
            builtin_count: self.variables.builtin_count(),
            history: self.history@,
            operators: self.operators@,
            commands: self.commands@,
        }
    }
}

/// The operators of a new session.
pub open spec fn default_operators() -> Seq<char> {
    seq!['+', '-', '*', '/', '^', '=']
}

/// The operators that a session starts with.
pub fn setup_default_operators() -> (r: Vec<char>)
    ensures
        r@ == default_operators(),
{
    let r = vec!['+', '-', '*', '/', '^', '='];
    assert(r@ =~= default_operators());
    r
}

impl Session {
    /// The session's invariant: that of its variable store and that of its
    /// command registry.
    pub open spec fn wf(&self) -> bool {
        self.variables.wf() && self.commands.wf()
    }

    /// The session that a calculator starts with: the built-in constants and
    /// commands, the usual operators, and no history.
    pub fn new() -> (r: Self)
        ensures
            r.wf(),
            r@.variables == builtin_constants(),
            r@.builtin_count == 3,
            r@.history == Seq::<Seq<char>>::empty(),
            r@.operators == default_operators(),
            are_defaults(r@.commands),
    {
        let mut commands = CommandRegistry::new();
        assert(crate::command::words(commands@) =~= Seq::<Seq<char>>::empty());
        DefaultCommands::register(&mut commands);
        assert(commands@.skip(0) =~= commands@);
        Session {
            variables: Variables::default(),
            history: History::new(),
            operators: setup_default_operators(),
            commands,
        }
    }
}

} // verus!
