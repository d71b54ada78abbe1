//! The commands that every calculator offers, and what those of them that
//! change the session do to it.

use vstd::prelude::*;
use crate::command::{lookup, registered, words, Action, Command, CommandRegistry};
use crate::history::History;
use crate::parameter_documentation::ParameterDocumentation;
use crate::radix::{conversion, convert_lowercase, lowercase, to_lowercase, Conversion};
use crate::session::Session;
use crate::text::{chars_of, replace, replaced, string_of, views};
use crate::variable::Variable;
use crate::variables::Variables;

verus! {

/// The words that invoke the built-in commands: for each command, in the
/// order of registration, its name and then its aliases.
pub open spec fn default_names() -> Seq<Seq<Seq<char>>> {
    seq![
        seq!["help"@],
        seq!["showvariables"@, "listvariables"@, "vars"@, "showvars"@, "showv"@],
        seq!["showhistory"@, "history"@, "showh"@],
        seq!["exit"@, "quit"@],
        seq!["clear"@],
        seq!["clearhistory"@, "clearh"@],
        seq!["clearvariables"@, "clearv"@, "clearvars"@],
        seq!["clearall"@, "cleara"@],
        seq!["features"@],
        seq!["convert"@],
    ]
}

/// What the built-in commands do, in the order of registration.
pub open spec fn default_actions() -> Seq<Action> {
    seq![
        Action::Help,
        Action::ShowVariables,
        Action::ShowHistory,
        Action::Exit,
        Action::ClearTerminal,
        Action::ClearHistory,
        Action::ClearVariables,
        Action::ClearAll,
        Action::Features,
        Action::Convert,
    ]
}

/// Whether `commands` are the built-in commands, in their order.
pub open spec fn are_defaults(commands: Seq<Command>) -> bool {
    &&& commands.len() == 10
    &&& forall|i: int|
        0 <= i < 10 ==> (#[trigger] commands[i]).names() == default_names()[i] && commands[i].action
            == default_actions()[i]
}

/// The words of the built-in commands, one after the other.
pub open spec fn default_words() -> Seq<Seq<char>> {
    seq![
        "help"@,
        "showvariables"@,
        "listvariables"@,
        "vars"@,
        "showvars"@,
        "showv"@,
        "showhistory"@,
        "history"@,
        "showh"@,
        "exit"@,
        "quit"@,
        "clear"@,
        "clearhistory"@,
        "clearh"@,
        "clearvariables"@,
        "clearv"@,
        "clearvars"@,
        "clearall"@,
        "cleara"@,
        "features"@,
        "convert"@,
    ]
}

/// What tells one word from another here: its length, its first and its
/// last character.
pub open spec fn mark(word: Seq<char>) -> (nat, char, char) {
    (word.len(), word[0], word.last())
}

/// The marks of the words of the built-in commands.
pub open spec fn default_marks() -> Seq<(nat, char, char)> {
    seq![
        (4, 'h', 'p'),
        (13, 's', 's'),
        (13, 'l', 's'),
        (4, 'v', 's'),
        (8, 's', 's'),
        (5, 's', 'v'),
        (11, 's', 'y'),
        (7, 'h', 'y'),
        (5, 's', 'h'),
        (4, 'e', 't'),
        (4, 'q', 't'),
        (5, 'c', 'r'),
        (12, 'c', 'y'),
        (6, 'c', 'h'),
        (14, 'c', 's'),
        (6, 'c', 'v'),
        (9, 'c', 's'),
        (8, 'c', 'l'),
        (6, 'c', 'a'),
        (8, 'f', 's'),
        (7, 'c', 't'),
    ]
}

/// Each word of the built-in commands has the mark listed for it.
proof fn lemma_default_marks()
    ensures
        default_words().len() == 21,
        forall|i: int| 0 <= i < 21 ==> mark(#[trigger] default_words()[i]) == default_marks()[i],
{
    reveal_strlit("help");
    reveal_strlit("showvariables");
    reveal_strlit("listvariables");
    reveal_strlit("vars");
    reveal_strlit("showvars");
    reveal_strlit("showv");
    reveal_strlit("showhistory");
    reveal_strlit("history");
    reveal_strlit("showh");
    reveal_strlit("exit");
    reveal_strlit("quit");
    reveal_strlit("clear");
    reveal_strlit("clearhistory");
    reveal_strlit("clearh");
    reveal_strlit("clearvariables");
    reveal_strlit("clearv");
    reveal_strlit("clearvars");
    reveal_strlit("clearall");
    reveal_strlit("cleara");
    reveal_strlit("features");
    reveal_strlit("convert");
}

/// No word stands for two of the built-in commands, nor twice for one.
pub proof fn lemma_default_words_differ()
    ensures
        default_words().no_duplicates(),
{
    lemma_default_marks();
    assert forall|i: int, j: int| 0 <= i < j < 21 implies default_marks()[i]
        != default_marks()[j] by {}
    assert forall|i: int, j: int|
        0 <= i < default_words().len() && 0 <= j < default_words().len() && i
            != j implies default_words()[i] != default_words()[j] by {
        assert(mark(default_words()[i]) == default_marks()[i]);
        assert(mark(default_words()[j]) == default_marks()[j]);
        if i < j {
            assert(default_marks()[i] != default_marks()[j]);
        } else {
            assert(default_marks()[j] != default_marks()[i]);
        }
    }
}

/// The words of the built-in commands, command by command, are the words
/// listed for them.
proof fn lemma_words_of_defaults(all: Seq<Command>)
    requires
        are_defaults(all),
    ensures
        words(all) == default_words(),
{
    assert(words(all.take(0)) =~= default_words().take(0));
    assert(all.take(1).drop_last() =~= all.take(0));
    assert(all.take(1).last() == all[0]);
    assert(words(all.take(1)) =~= default_words().take(1));
    assert(all.take(2).drop_last() =~= all.take(1));
    assert(all.take(2).last() == all[1]);
    assert(words(all.take(2)) =~= default_words().take(6));
    assert(all.take(3).drop_last() =~= all.take(2));
    assert(all.take(3).last() == all[2]);
    assert(words(all.take(3)) =~= default_words().take(9));
    assert(all.take(4).drop_last() =~= all.take(3));
    assert(all.take(4).last() == all[3]);
    assert(words(all.take(4)) =~= default_words().take(11));
    assert(all.take(5).drop_last() =~= all.take(4));
    assert(all.take(5).last() == all[4]);
    assert(words(all.take(5)) =~= default_words().take(12));
    assert(all.take(6).drop_last() =~= all.take(5));
    assert(all.take(6).last() == all[5]);
    assert(words(all.take(6)) =~= default_words().take(14));
    assert(all.take(7).drop_last() =~= all.take(6));
    assert(all.take(7).last() == all[6]);
    assert(words(all.take(7)) =~= default_words().take(17));
    assert(all.take(8).drop_last() =~= all.take(7));
    assert(all.take(8).last() == all[7]);
    assert(words(all.take(8)) =~= default_words().take(19));
    assert(all.take(9).drop_last() =~= all.take(8));
    assert(all.take(9).last() == all[8]);
    assert(words(all.take(9)) =~= default_words().take(20));
    assert(all.take(10).drop_last() =~= all.take(9));
    assert(all.take(10).last() == all[9]);
    assert(words(all.take(10)) =~= default_words().take(21));
    assert(all.take(10) =~= all);
    assert(default_words().take(21) =~= default_words());
}

/// The words of the first commands of a list begin the words of the list.
proof fn lemma_words_prefix(commands: Seq<Command>, n: int)
    requires
        0 <= n <= commands.len(),
    ensures
        words(commands.take(n)).is_prefix_of(words(commands)),
    decreases commands.len() - n,
{
    if n < commands.len() {
        lemma_words_prefix(commands, n + 1);
        assert(commands.take(n + 1).drop_last() =~= commands.take(n));
    } else {
        assert(commands.take(n) =~= commands);
    }
}

/// The built-in commands, in the order of their registration.
pub fn default_commands() -> (r: Vec<Command>)
    ensures
        are_defaults(r@),
{
    let help = Command {
        name: "help",
        help_text: Some(
            "Shows all commands, or info about a specific command if followed by its name",
        ),
        action: Action::Help,
        aliases: None,
        parameter_documentation: Some(
            ParameterDocumentation::new(
                vec!["command"],
                vec!["(Optional) Command to get help for, lists all commands if not specified"],
                vec!["String or Nothing"],
            ),
        ),
    };
    let show_variables = Command {
        name: "showvariables",
        help_text: Some("Lists all variables"),
        action: Action::ShowVariables,
        aliases: Some(vec!["listvariables", "vars", "showvars", "showv"]),
        parameter_documentation: None,
    };
    let show_history = Command {
        name: "showhistory",
        help_text: Some("Shows expression history"),
        action: Action::ShowHistory,
        aliases: Some(vec!["history", "showh"]),
        parameter_documentation: None,
    };
    let exit = Command {
        name: "exit",
        help_text: Some("Exits SmartCalc"),
        action: Action::Exit,
        aliases: Some(vec!["quit"]),
        parameter_documentation: None,
    };
    let clear = Command {
        name: "clear",
        help_text: Some("Clears the terminal"),
        action: Action::ClearTerminal,
        aliases: None,
        parameter_documentation: None,
    };
    let clearhistory = Command {
        name: "clearhistory",
        help_text: Some("Clears expression history"),
        action: Action::ClearHistory,
        aliases: Some(vec!["clearh"]),
        parameter_documentation: None,
    };
    let clearvariables = Command {
        name: "clearvariables",
        help_text: Some("Clears user-defined variables"),
        action: Action::ClearVariables,
        aliases: Some(vec!["clearv", "clearvars"]),
        parameter_documentation: None,
    };
    let clearall = Command {
        name: "clearall",
        help_text: Some(
            "Clears everything (terminal, expression history, and user-defined variables)",
        ),
        action: Action::ClearAll,
        aliases: Some(vec!["cleara"]),
        parameter_documentation: None,
    };
    let features = Command {
        name: "features",
        help_text: Some(
            "Shows you some of the more unique features that SmartCalc has to offer",
        ),
        action: Action::Features,
        aliases: None,
        parameter_documentation: None,
    };
    let convert = Command {
        name: "convert",
        help_text: Some(
            "Converts between number bases.\nNumber base can be specified by prefixing number with 0b for binary, 0o for octal, 0d for decimal, and 0x for hexadecimal.\nIf not specified, SmartCalc will guess",
        ),
        action: Action::Convert,
        aliases: None,
        parameter_documentation: Some(
            ParameterDocumentation::new(
                vec!["number"],
                vec!["Number to convert"],
                vec!["Integer"],
            ),
        ),
    };
    proof {
        assert(help.names() =~= default_names()[0]);
        assert(show_variables.names() =~= default_names()[1]);
        assert(show_history.names() =~= default_names()[2]);
        assert(exit.names() =~= default_names()[3]);
        assert(clear.names() =~= default_names()[4]);
        assert(clearhistory.names() =~= default_names()[5]);
        assert(clearvariables.names() =~= default_names()[6]);
        assert(clearall.names() =~= default_names()[7]);
        assert(features.names() =~= default_names()[8]);
        assert(convert.names() =~= default_names()[9]);
    }
    let mut r: Vec<Command> = Vec::new();
    r.push(help);
    r.push(show_variables);
    r.push(show_history);
    r.push(exit);
    r.push(clear);
    r.push(clearhistory);
    r.push(clearvariables);
    r.push(clearall);
    r.push(features);
    r.push(convert);
    r
}

/// Built-in commands
pub struct DefaultCommands;

impl DefaultCommands {
    /// Registers the built-in commands, in their order and after the
    /// commands that are registered already, each unless one of its words is
    /// taken. The result says whether all of them were registered, as they are
    /// in a registry that was empty.
    pub fn register(registry: &mut CommandRegistry) -> (complete: bool)
        requires
            old(registry).wf(),
        ensures
            final(registry).wf(),
            exists|all: Seq<Command>|
                are_defaults(all) && final(registry)@ == registered(old(registry)@, all),
            old(registry)@.is_prefix_of(final(registry)@),
            complete == (final(registry)@.len() == old(registry)@.len() + 10),
            complete ==> are_defaults(final(registry)@.skip(old(registry)@.len() as int)),
            old(registry)@.len() == 0 ==> complete,
    {
        let mut commands = default_commands();
        let ghost all = commands@;
        let ghost start = old(registry)@.len() as int;
        let mut complete = true;
        let mut i: usize = 0;
        proof {
            lemma_words_of_defaults(all);
            lemma_default_words_differ();
            assert(all.take(0) =~= Seq::<Command>::empty());
        }
        while i < 10
            invariant
                i <= 10,
                are_defaults(all),
                words(all).no_duplicates(),
                commands@ == all.skip(i as int),
                start == old(registry)@.len(),
                registry.wf(),
                registry@ == registered(old(registry)@, all.take(i as int)),
                old(registry)@.is_prefix_of(registry@),
                registry@.len() <= start + i,
                complete == (registry@.len() == start + i),
                complete ==> registry@.skip(start) == all.take(i as int),
                start == 0 ==> complete,
            decreases 10 - i,
        {
            let ghost before = registry@;
            let command = commands.remove(0);
            assert(command == all[i as int]);
            proof {
                if start == 0 && complete {
                    assert(before =~= all.take(i as int));
                    assert(all.take(i + 1).drop_last() =~= all.take(i as int));
                    assert(words(before) + command.names() == words(all.take(i + 1)));
                    lemma_words_prefix(all, i + 1);
                    let shorter = words(all.take(i + 1));
                    assert forall|a: int, b: int|
                        0 <= a < shorter.len() && 0 <= b < shorter.len() && a != b implies shorter[a]
                        != shorter[b] by {
                        assert(shorter[a] == words(all)[a] && shorter[b] == words(all)[b]);
                    }
                }
            }
            let added = registry.register(command);
            proof {
                if complete && added {
                    assert(registry@.skip(start) =~= all.take(i + 1));
                }
                assert(commands@ =~= all.skip(i + 1));
                assert(all.take(i + 1).drop_last() =~= all.take(i as int));
            }
            complete = complete && added;
            i += 1;
        }
        proof {
            assert(all.take(10) =~= all);
        }
        complete
    }
}

/// What `help` is asked about.
pub enum HelpTopic<'a> {
    /// Every command.
    All,
    /// This command.
    Command(&'a Command),
    /// A command that does not exist.
    NotFound,
}

/// Finds what help is wanted on: every command where no name is given, else
/// the command that the name invokes.
pub fn help<'a>(commands: &'a CommandRegistry, command_name: &str) -> (r: HelpTopic<'a>)
    ensures
        match r {
            HelpTopic::All => command_name@.len() == 0,
            HelpTopic::Command(command) => command_name@.len() > 0 && lookup(
                commands@,
                command_name@,
            ) is Some && *command == commands@[lookup(commands@, command_name@)->0],
            HelpTopic::NotFound => command_name@.len() > 0 && lookup(commands@, command_name@)
                is None,
        },
{
    let name = chars_of(command_name);
    if name.len() == 0 {
        return HelpTopic::All;
    }
    match commands.position(&name) {
        Some(i) => HelpTopic::Command(commands.get(i)),
        None => HelpTopic::NotFound,
    }
}

/// The variables as they are listed: the built-in ones, then those that the
/// user declared.
pub fn show_variables(variables: &Variables) -> (r: (Vec<Variable>, Vec<Variable>))
    requires
        variables.wf(),
    ensures
        r.0@.len() == variables.builtin_count(),
        r.0@.len() + r.1@.len() == variables@.len(),
        forall|i: int| 0 <= i < r.0@.len() ==> (#[trigger] r.0@[i])@ == variables@[i],
        forall|i: int| 0 <= i < r.1@.len() ==> (#[trigger] r.1@[i])@ == variables@[r.0@.len() + i],
{
    let mut builtin = variables.to_vec();
    let user = builtin.split_off(variables.builtin_variable_count());
    (builtin, user)
}

/// An entry of the history as it is listed: without line breaks.
pub open spec fn listed(entry: Seq<char>) -> Seq<char> {
    replace(entry, seq!['\n'], Seq::empty())
}

/// The entries of the history as they are listed, the newest first.
pub fn show_history(history: &History) -> (r: Vec<String>)
    ensures
        r@.len() == history@.len(),
        forall|i: int| 0 <= i < r@.len() ==> (#[trigger] r@[i])@ == listed(history@[i]),
{
    let entries = history.to_vec();
    let mut r: Vec<String> = Vec::new();
    let mut line_break: Vec<char> = Vec::new();
    line_break.push('\n');
    let nothing: Vec<char> = Vec::new();
    let mut i: usize = 0;
    while i < entries.len()
        invariant
            i <= entries.len(),
            views(entries@) == history@,
            line_break@ == seq!['\n'],
            nothing@ == Seq::<char>::empty(),
            r@.len() == i,
            forall|j: int| 0 <= j < i ==> (#[trigger] r@[j])@ == listed(history@[j]),
        decreases entries.len() - i,
    {
        assert(views(entries@)[i as int] == entries@[i as int]@);
        let entry = chars_of(entries[i].as_str());
        r.push(string_of(&replaced(&entry, &line_break, &nothing)));
        i += 1;
    }
    r
}

/// Clears expression history
pub fn clear_history(history: &mut History)
    ensures
        final(history)@ == Seq::<Seq<char>>::empty(),
{
    history.clear();
}

/// Clears all user-defined variables: the built-in ones stay, in their order.
pub fn clear_variables(variables: &mut Variables)
    requires
        old(variables).wf(),
    ensures
        final(variables).wf(),
        final(variables)@ == old(variables)@.take(old(variables).builtin_count() as int),
        final(variables).builtin_count() == old(variables).builtin_count(),
{
    variables.clear_user_defined();
}

/// Clears the user-defined variables and the history.
pub fn clear_all(session: &mut Session)
    requires
        old(session).wf(),
    ensures
        final(session).wf(),
        final(session).variables@ == old(session).variables@.take(
            old(session).variables.builtin_count() as int,
        ),
        final(session).variables.builtin_count() == old(session).variables.builtin_count(),
        final(session).history@ == Seq::<Seq<char>>::empty(),
        final(session).operators@ == old(session).operators@,
        final(session).commands@ == old(session).commands@,
{
    clear_variables(&mut session.variables);
    clear_history(&mut session.history);
}

/// Number converter for binary, octal, decimal, and hexadecimal numbers:
/// the number is put in small letters and then converted.
pub fn convert(number: &str) -> (r: Conversion)
    ensures
        r@ == conversion(lowercase(number@)),
{
    let small = to_lowercase(number);
    convert_lowercase(small.as_str())
}

} // verus!
