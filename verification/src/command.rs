//! Commands, and the registry that finds one by its name or an alias.

use vstd::prelude::*;
use crate::parameter_documentation::ParameterDocumentation;
use crate::text::{chars_of, same};
use crate::tokens::texts;

verus! {

/// What a command does when it is invoked.
#[derive(Clone, Copy, Debug, PartialEq, Eq, Structural)]
pub enum Action {
    Help,
    ShowVariables,
    ShowHistory,
    Exit,
    ClearTerminal,
    ClearHistory,
    ClearVariables,
    ClearAll,
    Features,
    Convert,
}

/// A command: the words that invoke it, what it does, and what it says of
/// itself.
#[derive(Clone, Debug)]
pub struct Command {
    pub name: &'static str,
    pub help_text: Option<&'static str>,
    pub action: Action,
    pub aliases: Option<Vec<&'static str>>,
    pub parameter_documentation: Option<ParameterDocumentation>,
}

impl Command {
    /// The words that invoke this command: its name, then its aliases.
    pub open spec fn names(&self) -> Seq<Seq<char>> {
        match self.aliases {
            Some(aliases) => seq![self.name@] + Seq::new(
                aliases@.len(),
                |i: int| aliases@[i]@,
            ),
            None => seq![self.name@],
        }
    }

    /// Whether `word` invokes this command.
    pub open spec fn answers_to(&self, word: Seq<char>) -> bool {
        self.names().contains(word)
    }

    /// The words that invoke this command: its name, then its aliases.
    pub fn words(&self) -> (r: Vec<Vec<char>>)
        ensures
            texts(r@) == self.names(),
    {
        let mut names: Vec<Vec<char>> = Vec::new();
        names.push(chars_of(self.name));
        match &self.aliases {
            Some(aliases) => {
                let mut i: usize = 0;
                while i < aliases.len()
                    invariant
                        i <= aliases.len(),
                        self.aliases == Some(*aliases),
                        names@.len() == i + 1,
                        names@[0]@ == self.name@,
                        forall|j: int| 0 <= j < i ==> (#[trigger] names@[j + 1])@ == aliases@[j]@,
                    decreases aliases.len() - i,
                {
                    names.push(chars_of(aliases[i]));
                    i += 1;
                }
                assert forall|k: int| 0 <= k < names@.len() implies texts(names@)[k]
                    == self.names()[k] by {
                    if k > 0 {
                        assert(names@[(k - 1) + 1]@ == aliases@[k - 1]@);
                    }
                }
                assert(texts(names@) =~= self.names());
            },
            None => {
                assert(texts(names@) =~= self.names());
            },
        }
        names
    }

    /// Whether `word` is this command's name or one of its aliases.
    pub fn answers(&self, word: &Vec<char>) -> (r: bool)
        ensures
            r == self.answers_to(word@),
    {
        let name = chars_of(self.name);
        if same(&name, word) {
            assert(self.names()[0] == word@);
            return true;
        }
        match &self.aliases {
            Some(aliases) => {
                let mut i: usize = 0;
                while i < aliases.len()
                    invariant
                        i <= aliases.len(),
                        self.aliases == Some(*aliases),
                        self.name@ != word@,
                        forall|j: int| 0 <= j < i ==> aliases@[j]@ != word@,
                    decreases aliases.len() - i,
                {
                    let alias = chars_of(aliases[i]);
                    if same(&alias, word) {
                        assert(self.names()[i + 1] == word@);
                        return true;
                    }
                    i += 1;
                }
                false
            },
            None => false,
        }
    }
}

/// The words that invoke `commands`, command by command: of each its name
/// and then its aliases.
pub open spec fn words(commands: Seq<Command>) -> Seq<Seq<char>>
    decreases commands.len(),
{
    if commands.len() == 0 {
        Seq::empty()
    } else {
        words(commands.drop_last()) + commands.last().names()
    }
}

/// A word is among the words of `commands` where it invokes one of them.
pub proof fn lemma_words(commands: Seq<Command>, word: Seq<char>)
    ensures
        words(commands).contains(word) <==> exists|i: int|
            0 <= i < commands.len() && (#[trigger] commands[i]).answers_to(word),
    decreases commands.len(),
{
    if commands.len() > 0 {
        let earlier = commands.drop_last();
        lemma_words(earlier, word);
        let head = words(earlier);
        let tail = commands.last().names();
        if words(commands).contains(word) {
            let k = choose|k: int| 0 <= k < (head + tail).len() && (head + tail)[k] == word;
            if k < head.len() {
                assert(head[k] == word);
                let i = choose|i: int|
                    0 <= i < earlier.len() && (#[trigger] earlier[i]).answers_to(word);
                assert(commands[i].answers_to(word));
            } else {
                assert(tail[k - head.len()] == word);
                assert(commands[commands.len() - 1].answers_to(word));
            }
        }
        if exists|i: int| 0 <= i < commands.len() && (#[trigger] commands[i]).answers_to(word) {
            let i = choose|i: int|
                0 <= i < commands.len() && (#[trigger] commands[i]).answers_to(word);
            if i < earlier.len() {
                assert(earlier[i].answers_to(word));
                let k = choose|k: int| 0 <= k < head.len() && head[k] == word;
                assert((head + tail)[k] == word);
            } else {
                let k = choose|k: int| 0 <= k < tail.len() && tail[k] == word;
                assert((head + tail)[head.len() + k] == word);
            }
        }
    }
}

/// `commands` after the commands of `more` were registered, one after the
/// other: each is added as the last, unless one of its words is taken or is
/// twice among its own words.
pub open spec fn registered(commands: Seq<Command>, more: Seq<Command>) -> Seq<Command>
    decreases more.len(),
{
    if more.len() == 0 {
        commands
    } else if (words(registered(commands, more.drop_last())) + more.last().names()).no_duplicates() {
        registered(commands, more.drop_last()).push(more.last())
    } else {
        registered(commands, more.drop_last())
    }
}

/// Whether `commands[i]` is the first command that `word` invokes.
pub open spec fn is_first_command(commands: Seq<Command>, word: Seq<char>, i: int) -> bool {
    &&& 0 <= i < commands.len()
    &&& commands[i].answers_to(word)
    &&& forall|j: int| 0 <= j < i ==> !(#[trigger] commands[j]).answers_to(word)
}

/// The index of the command that `word` invokes.
pub open spec fn lookup(commands: Seq<Command>, word: Seq<char>) -> Option<int> {
    if exists|i: int| is_first_command(commands, word, i) {
        Some(choose|i: int| is_first_command(commands, word, i))
    } else {
        None
    }
}

/// The commands that can be invoked, in the order in which they were
/// registered.
pub struct CommandRegistry {
    commands: Vec<Command>,
}

impl View for CommandRegistry {
    type V = Seq<Command>;

    closed spec fn view(&self) -> Seq<Command> {
        self.commands@
    }
}

impl CommandRegistry {
    /// The registry's invariant: every name and every alias is in the
    /// registry once.
    pub open spec fn wf(&self) -> bool {
        words(self@).no_duplicates()
    }

    /// A registry without commands.
    pub fn new() -> (r: Self)
        ensures
            r.wf(),
            r@ == Seq::<Command>::empty(),
    {
        CommandRegistry { commands: Vec::new() }
    }

    /// The number of commands.
    pub fn len(&self) -> (n: usize)
        ensures
            n == self@.len(),
    {
        self.commands.len()
    }

    /// The command at `index`, in the order of registration.
    pub fn get(&self, index: usize) -> (r: &Command)
        requires
            index < self@.len(),
        ensures
            *r == self@[index as int],
    {
        &self.commands[index]
    }

    /// The index of the command that `word` invokes.
    pub fn position(&self, word: &Vec<char>) -> (r: Option<usize>)
        ensures
            match r {
                Some(i) => lookup(self@, word@) == Some(i as int) && is_first_command(
                    self@,
                    word@,
                    i as int,
                ),
                None => lookup(self@, word@) is None && forall|i: int|
                    0 <= i < self@.len() ==> !(#[trigger] self@[i]).answers_to(word@),
            },
    {
        let mut i: usize = 0;
        while i < self.commands.len()
            invariant
                i <= self.commands.len(),
                forall|j: int| 0 <= j < i ==> !(#[trigger] self@[j]).answers_to(word@),
            decreases self.commands.len() - i,
        {
            if self.commands[i].answers(word) {
                assert(is_first_command(self@, word@, i as int));
                return Some(i);
            }
            i += 1;
        }
        None
    }

    /// The command that `word` invokes, by its name or by an alias.
    pub fn find(&self, word: &str) -> (r: Option<&Command>)
        ensures
            match r {
                Some(command) => lookup(self@, word@) is Some && *command == self@[lookup(
                    self@,
                    word@,
                )->0],
                None => lookup(self@, word@) is None,
            },
    {
        let word = chars_of(word);
        match self.position(&word) {
            Some(i) => Some(&self.commands[i]),
            None => None,
        }
    }

    /// Whether the registry, with `command` added, would hold every word once.
    fn accepts(&self, command: &Command) -> (r: bool)
        requires
            self.wf(),
        ensures
            r == (words(self@) + command.names()).no_duplicates(),
    {
        let names = command.words();
        let ghost held = words(self@);
        let ghost added = command.names();
        let mut b: usize = 0;
        while b < names.len()
            invariant
                b <= names.len(),
                texts(names@) == added,
                added == command.names(),
                held == words(self@),
                held.no_duplicates(),
                forall|k: int, j: int|
                    0 <= k < held.len() && 0 <= j < b ==> #[trigger] held[k] != #[trigger] added[j],
                forall|i: int, j: int| 0 <= i < j < b ==> #[trigger] added[i] != #[trigger] added[j],
            decreases names.len() - b,
        {
            if self.position(&names[b]).is_some() {
                proof {
                    lemma_words(self@, added[b as int]);
                    let k = choose|k: int| 0 <= k < held.len() && held[k] == added[b as int];
                    assert((held + added)[k] == (held + added)[held.len() + b]);
                }
                return false;
            }
            proof {
                lemma_words(self@, added[b as int]);
            }
            let mut a: usize = 0;
            while a < b
                invariant
                    a <= b < names.len(),
                    texts(names@) == added,
                    added == command.names(),
                    held == words(self@),
                    forall|i: int| 0 <= i < a ==> #[trigger] added[i] != added[b as int],
                decreases b - a,
            {
                if same(&names[a], &names[b]) {
                    assert((held + added)[held.len() + a] == (held + added)[held.len() + b]);
                    return false;
                }
                a += 1;
            }
            b += 1;
        }
        assert forall|i: int, j: int|
            0 <= i < (held + added).len() && 0 <= j < (held + added).len() && i != j implies (held
            + added)[i] != (held + added)[j] by {
            let (lo, hi) = if i < j {
                (i, j)
            } else {
                (j, i)
            };
            if hi < held.len() {
            } else if lo < held.len() {
                assert(held[lo] != added[hi - held.len()]);
            } else {
                assert(added[lo - held.len()] != added[hi - held.len()]);
            }
        }
        true
    }

    /// Registers `command` as the last one. Nothing is registered, and
    /// `false` returned, where its name or one of its aliases is in the
    /// registry already, or is twice among its own words.
    pub fn register(&mut self, command: Command) -> (accepted: bool)
        requires
            old(self).wf(),
        ensures
            final(self).wf(),
            accepted == (words(old(self)@) + command.names()).no_duplicates(),
            accepted ==> final(self)@ == old(self)@.push(command),
            accepted ==> words(final(self)@) == words(old(self)@) + command.names(),
            !accepted ==> final(self)@ == old(self)@,
    {
        if !self.accepts(&command) {
            return false;
        }
        self.commands.push(command);
        assert(self@.drop_last() =~= old(self)@);
        true
    }
}

} // verus!
