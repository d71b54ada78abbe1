//! The line editor.
//!
//! The editor itself touches no terminal. It is told what was pressed,
//! keeps the line and the place in it at which the user writes, and says
//! what is to be done on the terminal so that what is shown is the line it
//! keeps. Places in the line count from the column in which the user's text
//! begins.

use vstd::prelude::*;
use crate::history::History;
use crate::text::{append, chars_of, slice, string_of, trim, trimmed};

verus! {

/// What reaches the editor from the terminal.
#[derive(Clone, Copy, Debug, PartialEq, Eq, Structural)]
pub enum Input {
    /// The key that accepts the line.
    Enter,
    Up,
    Down,
    Left,
    Right,
    Backspace,
    Delete,
    /// A character, typed without the control key.
    Char(char),
    /// A character, typed with the control key held.
    Control(char),
    /// Any other key.
    OtherKey,
    /// An event that is no key press.
    OtherEvent,
}

/// How far the reading of a line has come.
#[derive(Clone, Copy, Debug, PartialEq, Eq, Structural)]
pub enum Status {
    /// The line is being edited.
    Reading,
    /// The line was accepted: it ends with a line break.
    Accepted,
    /// The user asked to leave.
    Interrupted,
    /// Something that was no key press ended the reading: the line is as far
    /// as it had come.
    Abandoned,
}

/// Something to be done on the terminal.
#[derive(Debug, PartialEq, Eq)]
pub enum Effect {
    /// Move the cursor this many columns to the left.
    MoveLeft(usize),
    /// Move the cursor this many columns to the right.
    MoveRight(usize),
    /// Write this text at the cursor.
    Print(String),
    /// Make what was written visible.
    Flush,
    /// Give the terminal back its usual mode.
    DisableRawMode,
    /// Begin a new line.
    NewLine,
    /// Run the action that ends the program.
    Exit,
}

/// An `Effect`, with its text as a sequence of characters.
pub ghost enum EffectView {
    MoveLeft(nat),
    MoveRight(nat),
    Print(Seq<char>),
    Flush,
    DisableRawMode,
    NewLine,
    Exit,
}

impl View for Effect {
    type V = EffectView;

    open spec fn view(&self) -> EffectView {
        match *self {
            Effect::MoveLeft(n) => EffectView::MoveLeft(n as nat),
            Effect::MoveRight(n) => EffectView::MoveRight(n as nat),
            Effect::Print(text) => EffectView::Print(text@),
            Effect::Flush => EffectView::Flush,
            Effect::DisableRawMode => EffectView::DisableRawMode,
            Effect::NewLine => EffectView::NewLine,
            Effect::Exit => EffectView::Exit,
        }
    }
}

/// The views of a list of effects.
pub open spec fn effect_views(effects: Seq<Effect>) -> Seq<EffectView> {
    Seq::new(effects.len(), |i: int| effects[i]@)
}

/// The state of an editor.
pub ghost struct EditorView {
    /// The entries that can be recalled, the newest first, each without the
    /// white space around it.
    pub entries: Seq<Seq<char>>,
    /// The line as it stands.
    pub line: Seq<char>,
    /// The insertion point: how many characters of the line stand before
    /// the cursor.
    pub cursor: nat,
    /// The entry that was recalled last, if one was: its index.
    pub selected: Option<nat>,
    pub status: Status,
}

impl EditorView {
    /// The editor's invariant: the cursor stands within the line or at its
    /// end, and the entry recalled last is one of the entries.
    pub open spec fn wf(self) -> bool {
        &&& self.cursor <= self.line.len()
        &&& self.selected is Some ==> self.selected->0 < self.entries.len()
    }

    /// What stands in the line from the cursor on.
    pub open spec fn tail(self) -> Seq<char> {
        self.line.skip(self.cursor as int)
    }
}

/// `n` spaces.
pub open spec fn spaces(n: nat) -> Seq<char> {
    Seq::new(n, |i: int| ' ')
}

/// What wipes a line off the terminal, with the cursor after `cursor` of its
/// characters: the cursor goes to the start of the line, as many cells as
/// the line has characters are blanked, and the cursor goes back to the
/// start. Nothing is done for an empty line.
pub open spec fn erasure(line: Seq<char>, cursor: nat, flush: bool) -> Seq<EffectView> {
    if line.len() == 0 {
        Seq::empty()
    } else if flush {
        seq![
            EffectView::MoveLeft(cursor),
            EffectView::Print(spaces(line.len())),
            EffectView::MoveLeft(line.len()),
            EffectView::Flush,
        ]
    } else {
        seq![
            EffectView::MoveLeft(cursor),
            EffectView::Print(spaces(line.len())),
            EffectView::MoveLeft(line.len()),
        ]
    }
}

/// What puts `entry` in the place of `line` on the terminal, and the cursor
/// just after it.
pub open spec fn replacement(line: Seq<char>, cursor: nat, entry: Seq<char>) -> Seq<EffectView> {
    erasure(line, cursor, false) + seq![EffectView::Print(entry), EffectView::Flush]
}

/// What shows a character that is put in before `tail`: the character and
/// the tail are written, and the cursor goes back to just after the
/// character.
pub open spec fn insertion(c: char, tail: Seq<char>) -> Seq<EffectView> {
    if tail.len() == 0 {
        seq![EffectView::Print(seq![c]), EffectView::Flush]
    } else {
        seq![
            EffectView::Print(seq![c] + tail),
            EffectView::MoveLeft(tail.len()),
            EffectView::Flush,
        ]
    }
}

/// What shows that the character before `tail` is gone: the cursor goes one
/// cell to the left, the tail and a blank are written, and the cursor goes
/// back to where the tail begins.
pub open spec fn removal(tail: Seq<char>) -> Seq<EffectView> {
    seq![
        EffectView::MoveLeft(1),
        EffectView::Print(tail + seq![' ']),
        EffectView::MoveLeft(tail.len() + 1),
        EffectView::Flush,
    ]
}

/// The index of the entry that a step back in the history leads to.
pub open spec fn older(selected: Option<nat>) -> nat {
    match selected {
        Some(index) => index + 1,
        None => 0,
    }
}

/// Whether a step back in the history leads to an entry: there is one that
/// is older than the entry recalled last.
pub open spec fn has_older(editor: EditorView) -> bool {
    older(editor.selected) < editor.entries.len()
}

/// The editor with the entry of index `index` in the place of its line, and
/// the cursor at the end of it.
pub open spec fn recalled(editor: EditorView, index: nat) -> EditorView {
    EditorView {
        line: editor.entries[index as int],
        cursor: editor.entries[index as int].len(),
        selected: Some(index),
        ..editor
    }
}

/// The editor after `input`.
pub open spec fn step(editor: EditorView, input: Input) -> EditorView {
    if editor.status != Status::Reading {
        editor
    } else {
        match input {
            Input::Enter => EditorView {
                line: editor.line.push('\n'),
                status: Status::Accepted,
                ..editor
            },
            Input::Up => if has_older(editor) {
                recalled(editor, older(editor.selected))
            } else {
                editor
            },
            Input::Down => if editor.entries.len() == 0 {
                editor
            } else if editor.selected is None || editor.selected == Some(0nat) {
                EditorView { line: Seq::empty(), cursor: 0, selected: None, ..editor }
            } else {
                recalled(editor, (editor.selected->0 - 1) as nat)
            },
            Input::Left => if editor.cursor > 0 {
                EditorView { cursor: (editor.cursor - 1) as nat, ..editor }
            } else {
                editor
            },
            Input::Right => if editor.cursor < editor.line.len() {
                EditorView { cursor: editor.cursor + 1, ..editor }
            } else {
                editor
            },
            Input::Backspace | Input::Delete => if editor.cursor == 0 {
                editor
            } else {
                EditorView {
                    line: editor.line.remove(editor.cursor - 1),
                    cursor: (editor.cursor - 1) as nat,
                    ..editor
                }
            },
            Input::Char(c) => EditorView {
                line: editor.line.insert(editor.cursor as int, c),
                cursor: editor.cursor + 1,
                ..editor
            },
            Input::Control(c) => if c == 'c' || c == 'd' {
                EditorView { status: Status::Interrupted, ..editor }
            } else {
                editor
            },
            Input::OtherEvent => EditorView { status: Status::Abandoned, ..editor },
            Input::OtherKey => editor,
        }
    }
}

/// What is to be done on the terminal for `input`.
pub open spec fn effects(editor: EditorView, input: Input) -> Seq<EffectView> {
    if editor.status != Status::Reading {
        Seq::empty()
    } else {
        match input {
            Input::Enter => seq![EffectView::DisableRawMode, EffectView::NewLine],
            Input::Up => if has_older(editor) {
                replacement(
                    editor.line,
                    editor.cursor,
                    editor.entries[older(editor.selected) as int],
                )
            } else {
                Seq::empty()
            },
            Input::Down => if editor.entries.len() == 0 {
                seq![EffectView::Flush]
            } else if editor.selected is None || editor.selected == Some(0nat) {
                erasure(editor.line, editor.cursor, true)
            } else {
                replacement(editor.line, editor.cursor, editor.entries[editor.selected->0 - 1])
            },
            Input::Left => if editor.cursor > 0 {
                seq![EffectView::MoveLeft(1), EffectView::Flush]
            } else {
                Seq::empty()
            },
            Input::Right => if editor.cursor < editor.line.len() {
                seq![EffectView::MoveRight(1), EffectView::Flush]
            } else {
                Seq::empty()
            },
            Input::Backspace | Input::Delete => if editor.cursor == 0 {
                Seq::empty()
            } else {
                removal(editor.tail())
            },
            Input::Char(c) => insertion(c, editor.tail()),
            Input::Control(c) => if c == 'c' || c == 'd' {
                seq![EffectView::DisableRawMode, EffectView::NewLine, EffectView::Exit]
            } else {
                Seq::empty()
            },
            Input::OtherEvent | Input::OtherKey => Seq::empty(),
        }
    }
}

/// The editor that has not been given anything yet.
pub open spec fn initial(entries: Seq<Seq<char>>) -> EditorView {
    EditorView { entries, line: Seq::empty(), cursor: 0, selected: None, status: Status::Reading }
}

/// The editor after a sequence of inputs.
pub open spec fn run(editor: EditorView, inputs: Seq<Input>) -> EditorView
    decreases inputs.len(),
{
    if inputs.len() == 0 {
        editor
    } else {
        step(run(editor, inputs.drop_last()), inputs.last())
    }
}

/// What is to be done on the terminal for a sequence of inputs, in order.
pub open spec fn run_effects(editor: EditorView, inputs: Seq<Input>) -> Seq<EffectView>
    decreases inputs.len(),
{
    if inputs.len() == 0 {
        Seq::empty()
    } else {
        run_effects(editor, inputs.drop_last()) + effects(
            run(editor, inputs.drop_last()),
            inputs.last(),
        )
    }
}

/// The entries of a history as the editor recalls them: each without the
/// white space around it.
pub open spec fn recallable(history: Seq<Seq<char>>) -> Seq<Seq<char>> {
    Seq::new(history.len(), |i: int| trim(history[i]))
}

/// Every input leaves the editor's invariant in place.
pub proof fn lemma_step_keeps_invariant(editor: EditorView, input: Input)
    requires
        editor.wf(),
    ensures
        step(editor, input).wf(),
{
}

/// The editor of one line: the line as far as it has come, the place of the
/// cursor in it, and the entries of the history that can be recalled into it.
pub struct LineEditor {
    entries: Vec<Vec<char>>,
    line: Vec<char>,
    cursor: usize,
    selected: Option<usize>,
    status: Status,
}

impl View for LineEditor {
    type V = EditorView;

    closed spec fn view(&self) -> EditorView {
        EditorView {
            entries: Seq::new(self.entries@.len(), |i: int| self.entries@[i]@),
            line: self.line@,
            cursor: self.cursor as nat,
            selected: match self.selected {
                Some(index) => Some(index as nat),
                None => None,
            },
            status: self.status,
        }
    }
}

impl LineEditor {
    /// The editor's invariant.
    pub open spec fn wf(&self) -> bool {
        self@.wf()
    }

    /// An editor for a new line.
    pub fn new(history: &History) -> (r: Self)
        ensures
            r.wf(),
            r@ == initial(recallable(history@)),
    {
        let mut entries: Vec<Vec<char>> = Vec::new();
        let mut i: usize = 0;
        while i < history.len()
            invariant
                i <= history@.len(),
                entries@.len() == i,
                forall|j: int| 0 <= j < i ==> (#[trigger] entries@[j])@ == trim(history@[j]),
            decreases history@.len() - i,
        {
            let entry = match history.get(i) {
                Some(entry) => trimmed(&chars_of(entry.as_str())),
                None => Vec::new(),
            };
            entries.push(entry);
            i += 1;
        }
        let r = LineEditor {
            entries,
            line: Vec::new(),
            cursor: 0,
            selected: None,
            status: Status::Reading,
        };
        assert(r@.entries =~= recallable(history@));
        r
    }

    /// How far the reading has come.
    pub fn status(&self) -> (r: Status)
        ensures
            r == self@.status,
    {
        self.status
    }

    /// The line as it stands.
    pub fn line(&self) -> (r: String)
        ensures
            r@ == self@.line,
    {
        string_of(&self.line)
    }

    /// How many characters of the line stand before the cursor.
    pub fn cursor(&self) -> (r: usize)
        ensures
            r == self@.cursor,
    {
        self.cursor
    }

    /// Adds to `out` what wipes the line off the terminal.
    fn erase(&self, out: &mut Vec<Effect>, flush: bool)
        ensures
            effect_views(final(out)@) == effect_views(old(out)@) + erasure(
                self@.line,
                self@.cursor,
                flush,
            ),
    {
        let n = self.line.len();
        if n != 0 {
            let mut blank: Vec<char> = Vec::new();
            let mut i: usize = 0;
            while i < n
                invariant
                    i <= n,
                    blank@ == spaces(i as nat),
                decreases n - i,
            {
                blank.push(' ');
                i += 1;
                assert(blank@ =~= spaces(i as nat));
            }
            out.push(Effect::MoveLeft(self.cursor));
            out.push(Effect::Print(string_of(&blank)));
            out.push(Effect::MoveLeft(n));
            if flush {
                out.push(Effect::Flush);
            }
        }
        assert(effect_views(out@) =~= effect_views(old(out)@) + erasure(
            self@.line,
            self@.cursor,
            flush,
        ));
    }

    /// Puts the entry with index `index` in the place of the line.
    fn recall(&mut self, index: usize) -> (r: Vec<Effect>)
        requires
            index < old(self)@.entries.len(),
        ensures
            final(self)@ == recalled(old(self)@, index as nat),
            effect_views(r@) == replacement(
                old(self)@.line,
                old(self)@.cursor,
                old(self)@.entries[index as int],
            ),
    {
        let mut out: Vec<Effect> = Vec::new();
        assert(effect_views(out@) =~= Seq::<EffectView>::empty());
        self.erase(&mut out, false);
        let ghost erased = effect_views(out@);
        let entry = self.entries[index].clone();
        assert(entry@ == self.entries@[index as int]@);
        out.push(Effect::Print(string_of(&entry)));
        out.push(Effect::Flush);
        self.cursor = entry.len();
        self.line = entry;
        self.selected = Some(index);
        assert(effect_views(out@) =~= erased + seq![
            EffectView::Print(old(self)@.entries[index as int]),
            EffectView::Flush,
        ]);
        out
    }

    /// Takes one input: changes the line as the input asks, and says what is
    /// to be done on the terminal.
    pub fn handle(&mut self, input: Input) -> (r: Vec<Effect>)
        requires
            old(self).wf(),
        ensures
            final(self).wf(),
            final(self)@ == step(old(self)@, input),
            effect_views(r@) == effects(old(self)@, input),
    {
        let mut out: Vec<Effect> = Vec::new();
        assert(effect_views(out@) =~= Seq::<EffectView>::empty());
        if self.status != Status::Reading {
            return out;
        }
        let ghost tail = self@.tail();
        proof {
            assert(self.cursor <= self.line.len());
            assert(self.selected is Some ==> self.selected->0 < self.entries.len());
            assert(self.line@.subrange(self.cursor as int, self.line.len() as int) =~= tail);
        }
        match input {
            Input::Enter => {
                self.line.push('\n');
                self.status = Status::Accepted;
                out.push(Effect::DisableRawMode);
                out.push(Effect::NewLine);
            },
            Input::Up => {
                let next = match self.selected {
                    Some(index) => index + 1,
                    None => 0,
                };
                if next < self.entries.len() {
                    return self.recall(next);
                }
            },
            Input::Down => {
                if self.entries.len() > 0 {
                    match self.selected {
                        Some(index) if index > 0 => {
                            return self.recall(index - 1);
                        },
                        _ => {
                            self.erase(&mut out, true);
                            self.line = Vec::new();
                            self.cursor = 0;
                            self.selected = None;
                        },
                    }
                } else {
                    out.push(Effect::Flush);
                }
            },
            Input::Left => {
                if self.cursor > 0 {
                    self.cursor = self.cursor - 1;
                    out.push(Effect::MoveLeft(1));
                    out.push(Effect::Flush);
                }
            },
            Input::Right => {
                if self.cursor < self.line.len() {
                    self.cursor = self.cursor + 1;
                    out.push(Effect::MoveRight(1));
                    out.push(Effect::Flush);
                }
            },
            Input::Backspace | Input::Delete => {
                if self.cursor > 0 {
                    let mut shown = slice(&self.line, self.cursor, self.line.len());
                    let moves = shown.len() + 1;
                    shown.push(' ');
                    assert(shown@ =~= tail + seq![' ']);
                    self.line.remove(self.cursor - 1);
                    self.cursor = self.cursor - 1;
                    out.push(Effect::MoveLeft(1));
                    out.push(Effect::Print(string_of(&shown)));
                    out.push(Effect::MoveLeft(moves));
                    out.push(Effect::Flush);
                }
            },
            Input::Char(c) => {
                let rest = slice(&self.line, self.cursor, self.line.len());
                let mut shown: Vec<char> = Vec::new();
                shown.push(c);
                append(&mut shown, &rest);
                assert(shown@ =~= seq![c] + tail);
                self.line.insert(self.cursor, c);
                // The line is longer than the cursor is far, so the cursor can advance.
                if self.cursor < self.line.len() {
                    self.cursor = self.cursor + 1;
                }
                out.push(Effect::Print(string_of(&shown)));
                if rest.len() > 0 {
                    out.push(Effect::MoveLeft(rest.len()));
                }
                out.push(Effect::Flush);
            },
            Input::Control(c) => {
                if c == 'c' || c == 'd' {
                    self.status = Status::Interrupted;
                    out.push(Effect::DisableRawMode);
                    out.push(Effect::NewLine);
                    out.push(Effect::Exit);
                }
            },
            Input::OtherEvent => {
                self.status = Status::Abandoned;
            },
            Input::OtherKey => {},
        }
        assert(self@.entries =~= old(self)@.entries);
        assert(effect_views(out@) =~= effects(old(self)@, input));
        out
    }
}

/// What the reading of a line came to.
#[derive(Debug)]
pub struct Reading {
    pub status: Status,
    /// The line: with a line break at its end if it was accepted.
    pub line: String,
    /// What is to be done on the terminal, in order.
    pub effects: Vec<Effect>,
}

/// Reads a line from a sequence of inputs. Inputs that come after the line
/// was accepted, or the reading ended otherwise, change nothing.
pub fn read_line(history: &History, inputs: &Vec<Input>) -> (r: Reading)
    ensures
        r.status == run(initial(recallable(history@)), inputs@).status,
        r.line@ == run(initial(recallable(history@)), inputs@).line,
        effect_views(r.effects@) == run_effects(initial(recallable(history@)), inputs@),
{
    let mut editor = LineEditor::new(history);
    let mut all: Vec<Effect> = Vec::new();
    let ghost start = editor@;
    let mut i: usize = 0;
    assert(inputs@.take(0) =~= Seq::<Input>::empty());
    assert(effect_views(all@) =~= Seq::<EffectView>::empty());
    while i < inputs.len()
        invariant
            i <= inputs.len(),
            editor.wf(),
            editor@ == run(start, inputs@.take(i as int)),
            effect_views(all@) == run_effects(start, inputs@.take(i as int)),
        decreases inputs.len() - i,
    {
        let ghost before = effect_views(all@);
        assert(inputs@.take(i + 1).drop_last() =~= inputs@.take(i as int));
        let mut produced = editor.handle(inputs[i]);
        let ghost added = effect_views(produced@);
        all.append(&mut produced);
        assert(effect_views(all@) =~= before + added);
        i += 1;
    }
    assert(inputs@.take(inputs.len() as int) =~= inputs@);
    Reading { status: editor.status(), line: editor.line(), effects: all }
}

/// Whether `inputs` are the characters of `text`, typed one by one.
pub open spec fn types(inputs: Seq<Input>, text: Seq<char>) -> bool {
    inputs.len() == text.len() && forall|i: int|
        0 <= i < inputs.len() ==> #[trigger] inputs[i] == Input::Char(text[i])
}

/// Typing with the cursor at the end of the line adds the characters to the
/// line, in their order, and leaves the cursor at the end.
pub proof fn lemma_typing(editor: EditorView, inputs: Seq<Input>, text: Seq<char>)
    requires
        editor.status == Status::Reading,
        editor.cursor == editor.line.len(),
        types(inputs, text),
    ensures
        run(editor, inputs) == (EditorView {
            line: editor.line + text,
            cursor: editor.line.len() + text.len(),
            ..editor
        }),
    decreases inputs.len(),
{
    if inputs.len() == 0 {
        assert(editor.line + text =~= editor.line);
    } else {
        assert(inputs.drop_last().len() == text.drop_last().len());
        assert forall|i: int| 0 <= i < inputs.drop_last().len() implies #[trigger] inputs.drop_last()[i]
            == Input::Char(text.drop_last()[i]) by {
            assert(inputs.drop_last()[i] == inputs[i]);
        }
        lemma_typing(editor, inputs.drop_last(), text.drop_last());
        assert(inputs.last() == inputs[inputs.len() - 1]);
        let before = editor.line + text.drop_last();
        assert(before.insert(before.len() as int, text.last()) =~= editor.line + text);
    }
}

/// A line that is typed and then accepted is what was typed, in its order,
/// and a line break.
pub proof fn lemma_typed_line_is_returned(
    entries: Seq<Seq<char>>,
    inputs: Seq<Input>,
    text: Seq<char>,
)
    requires
        types(inputs, text),
    ensures
        run(initial(entries), inputs.push(Input::Enter)).line == text.push('\n'),
        run(initial(entries), inputs.push(Input::Enter)).status == Status::Accepted,
{
    let start = initial(entries);
    lemma_typing(start, inputs, text);
    assert(inputs.push(Input::Enter).drop_last() =~= inputs);
    assert(start.line + text =~= text);
}

/// Backspace, and delete, on an empty line change nothing, and nothing is
/// done on the terminal: the cursor stays where it is.
pub proof fn lemma_backspace_on_empty_line(editor: EditorView)
    requires
        editor.wf(),
        editor.line.len() == 0,
    ensures
        step(editor, Input::Backspace) == editor,
        step(editor, Input::Delete) == editor,
        effects(editor, Input::Backspace) == Seq::<EffectView>::empty(),
        effects(editor, Input::Delete) == Seq::<EffectView>::empty(),
{
}

/// Backspace removes the character just before the cursor, and no other.
pub proof fn lemma_backspace_removes_before_cursor(editor: EditorView)
    requires
        editor.wf(),
        editor.status == Status::Reading,
        editor.cursor > 0,
    ensures
        step(editor, Input::Backspace).line == editor.line.take(editor.cursor - 1) + editor.tail(),
        step(editor, Input::Backspace).cursor == editor.cursor - 1,
{
    assert(editor.line.remove(editor.cursor - 1) =~= editor.line.take(editor.cursor - 1)
        + editor.tail());
}

/// A character goes in at the cursor: what stood before the cursor stays
/// before it, and what stood after it follows it.
pub proof fn lemma_character_goes_in_at_cursor(editor: EditorView, c: char)
    requires
        editor.wf(),
        editor.status == Status::Reading,
    ensures
        step(editor, Input::Char(c)).line == editor.line.take(editor.cursor as int).push(c)
            + editor.tail(),
        step(editor, Input::Char(c)).cursor == editor.cursor + 1,
{
    assert(editor.line.insert(editor.cursor as int, c) =~= editor.line.take(
        editor.cursor as int,
    ).push(c) + editor.tail());
}

/// Whether an effect leaves what the terminal shows as it is.
pub open spec fn shows_nothing(effect: EffectView) -> bool {
    effect == EffectView::Flush
}

/// While the history is empty, recalling changes neither the line nor what
/// the terminal shows.
pub proof fn lemma_recall_without_history(editor: EditorView)
    requires
        editor.entries.len() == 0,
    ensures
        step(editor, Input::Up) == editor,
        step(editor, Input::Down) == editor,
        forall|i: int|
            0 <= i < effects(editor, Input::Up).len() ==> shows_nothing(
                #[trigger] effects(editor, Input::Up)[i],
            ),
        forall|i: int|
            0 <= i < effects(editor, Input::Down).len() ==> shows_nothing(
                #[trigger] effects(editor, Input::Down)[i],
            ),
{
}

/// From the start, up, down and up again lead to the entry that the first
/// up led to: the newest one.
pub proof fn lemma_up_down_up(entries: Seq<Seq<char>>)
    requires
        entries.len() > 0,
    ensures
        run(initial(entries), seq![Input::Up]).line == entries[0],
        run(initial(entries), seq![Input::Up, Input::Down, Input::Up]) == run(
            initial(entries),
            seq![Input::Up],
        ),
{
    let start = initial(entries);
    let one = seq![Input::Up];
    let two = seq![Input::Up, Input::Down];
    let three = seq![Input::Up, Input::Down, Input::Up];
    assert(one.drop_last() =~= Seq::<Input>::empty());
    assert(two.drop_last() =~= one);
    assert(three.drop_last() =~= two);
    assert(run(start, one.drop_last()) == start);
    assert(run(start, one) == step(start, Input::Up));
    assert(run(start, two) == step(run(start, one), Input::Down));
    assert(run(start, three) == step(run(start, two), Input::Up));
}

/// The history cursor stops at the oldest entry: there a further step back
/// changes nothing, and one step forward leads to the entry before it, or
/// to the empty line where the oldest entry is the only one.
pub proof fn lemma_up_stops_at_oldest(editor: EditorView)
    requires
        editor.wf(),
        editor.entries.len() > 0,
        editor.selected == Some((editor.entries.len() - 1) as nat),
    ensures
        step(editor, Input::Up) == editor,
        effects(editor, Input::Up) == Seq::<EffectView>::empty(),
        editor.status == Status::Reading && editor.entries.len() == 1 ==> step(
            step(editor, Input::Up),
            Input::Down,
        ).line == Seq::<char>::empty(),
{
}

/// What the terminal shows of the user's text, cell by cell, and where its
/// cursor stands. Both count from the column in which the user's text
/// begins.
pub ghost struct Display {
    pub cells: Seq<char>,
    pub cursor: nat,
}

/// `cells` with `text` written over them from the cell `at` on.
pub open spec fn overwrite(cells: Seq<char>, at: nat, text: Seq<char>) -> Seq<char> {
    let wide = if cells.len() < at + text.len() {
        cells + spaces((at + text.len() - cells.len()) as nat)
    } else {
        cells
    };
    wide.take(at as int) + text + wide.skip((at + text.len()) as int)
}

/// The display after an effect. Moving the cursor and writing change it;
/// nothing else does.
pub open spec fn perform(display: Display, effect: EffectView) -> Display {
    match effect {
        EffectView::MoveLeft(n) => Display {
            cursor: if n <= display.cursor {
                (display.cursor - n) as nat
            } else {
                0
            },
            ..display
        },
        EffectView::MoveRight(n) => Display { cursor: display.cursor + n, ..display },
        EffectView::Print(text) => Display {
            cells: overwrite(display.cells, display.cursor, text),
            cursor: display.cursor + text.len(),
        },
        _ => display,
    }
}

/// The display after a sequence of effects.
pub open spec fn perform_all(display: Display, effects: Seq<EffectView>) -> Display
    decreases effects.len(),
{
    if effects.len() == 0 {
        display
    } else {
        perform(perform_all(display, effects.drop_last()), effects.last())
    }
}

/// Whether the display shows `line` and nothing else, with its cursor after
/// `cursor` characters of the line.
pub open spec fn shows(display: Display, line: Seq<char>, cursor: nat) -> bool {
    &&& display.cursor == cursor
    &&& display.cells.len() >= line.len()
    &&& display.cells.take(line.len() as int) == line
    &&& forall|i: int| line.len() <= i < display.cells.len() ==> display.cells[i] == ' '
}

/// Effects one after the other: first those of the first sequence, then
/// those of the second.
pub proof fn lemma_perform_all_concat(
    display: Display,
    first: Seq<EffectView>,
    second: Seq<EffectView>,
)
    ensures
        perform_all(display, first + second) == perform_all(
            perform_all(display, first),
            second,
        ),
    decreases second.len(),
{
    if second.len() == 0 {
        assert(first + second =~= first);
    } else {
        assert((first + second).drop_last() =~= first + second.drop_last());
        lemma_perform_all_concat(display, first, second.drop_last());
    }
}

/// The display after three effects.
proof fn lemma_perform_three(display: Display, a: EffectView, b: EffectView, c: EffectView)
    ensures
        perform_all(display, seq![a, b, c]) == perform(perform(perform(display, a), b), c),
{
    reveal_with_fuel(perform_all, 4);
    let three = seq![a, b, c];
    assert(three.drop_last() =~= seq![a, b]);
    assert(three.drop_last().drop_last() =~= seq![a]);
    assert(three.drop_last().drop_last().drop_last() =~= Seq::<EffectView>::empty());
}

/// The display after two effects.
proof fn lemma_perform_two(display: Display, a: EffectView, b: EffectView)
    ensures
        perform_all(display, seq![a, b]) == perform(perform(display, a), b),
{
    reveal_with_fuel(perform_all, 3);
    let two = seq![a, b];
    assert(two.drop_last() =~= seq![a]);
    assert(two.drop_last().drop_last() =~= Seq::<EffectView>::empty());
}

/// Wiping a line that is shown leaves an empty line shown.
pub proof fn lemma_erasure_clears(display: Display, line: Seq<char>, cursor: nat, flush: bool)
    requires
        cursor <= line.len(),
        shows(display, line, cursor),
    ensures
        shows(perform_all(display, erasure(line, cursor, flush)), Seq::empty(), 0),
{
    if line.len() > 0 {
        let n = line.len();
        let a = EffectView::MoveLeft(cursor);
        let b = EffectView::Print(spaces(n));
        let c = EffectView::MoveLeft(n);
        let blank = perform(perform(display, a), b);
        let home = perform(blank, c);
        lemma_perform_three(display, a, b, c);
        assert(blank.cells =~= spaces(n) + display.cells.skip(n as int));
        if flush {
            assert(erasure(line, cursor, flush) =~= seq![a, b, c].push(EffectView::Flush));
            assert(erasure(line, cursor, flush).drop_last() =~= seq![a, b, c]);
        } else {
            assert(erasure(line, cursor, flush) =~= seq![a, b, c]);
        }
        assert(home.cells.take(0) =~= Seq::<char>::empty());
    } else {
        assert(display.cells.take(0) =~= Seq::<char>::empty());
    }
}

/// Putting an entry in the place of a line that is shown leaves the entry
/// shown, with the cursor at its end.
pub proof fn lemma_replacement_shows(
    display: Display,
    line: Seq<char>,
    cursor: nat,
    entry: Seq<char>,
)
    requires
        cursor <= line.len(),
        shows(display, line, cursor),
    ensures
        shows(perform_all(display, replacement(line, cursor, entry)), entry, entry.len()),
{
    let cleared = perform_all(display, erasure(line, cursor, false));
    lemma_erasure_clears(display, line, cursor, false);
    let tail = seq![EffectView::Print(entry), EffectView::Flush];
    lemma_perform_all_concat(display, erasure(line, cursor, false), tail);
    lemma_perform_two(cleared, EffectView::Print(entry), EffectView::Flush);
    let written = perform(cleared, EffectView::Print(entry));
    assert(written.cells.take(entry.len() as int) =~= entry);
}

/// What is done on the terminal keeps what is shown in step with the line:
/// where the line and the cursor are shown before an input, the line and
/// the cursor as they are after it are shown after its effects. The input
/// that accepts the line is left out: it ends the line.
pub proof fn lemma_display_follows_line(editor: EditorView, display: Display, input: Input)
    requires
        editor.wf(),
        shows(display, editor.line, editor.cursor),
        input != Input::Enter,
    ensures
        shows(
            perform_all(display, effects(editor, input)),
            step(editor, input).line,
            step(editor, input).cursor,
        ),
{
    reveal_with_fuel(perform_all, 5);
    let line = editor.line;
    let n = line.len();
    let k = editor.cursor;
    let tail = editor.tail();
    if editor.status != Status::Reading {
    } else {
        match input {
            Input::Up => {
                if has_older(editor) {
                    lemma_replacement_shows(
                        display,
                        line,
                        k,
                        editor.entries[older(editor.selected) as int],
                    );
                }
            },
            Input::Down => {
                if editor.entries.len() == 0 {
                    let one = seq![EffectView::Flush];
                    assert(one.drop_last() =~= Seq::<EffectView>::empty());
                } else if editor.selected is None || editor.selected == Some(0nat) {
                    lemma_erasure_clears(display, line, k, true);
                } else {
                    lemma_replacement_shows(
                        display,
                        line,
                        k,
                        editor.entries[editor.selected->0 - 1],
                    );
                }
            },
            Input::Left => {
                if k > 0 {
                    lemma_perform_two(display, EffectView::MoveLeft(1), EffectView::Flush);
                }
            },
            Input::Right => {
                if k < n {
                    lemma_perform_two(display, EffectView::MoveRight(1), EffectView::Flush);
                }
            },
            Input::Backspace | Input::Delete => {
                if k > 0 {
                    let a = EffectView::MoveLeft(1);
                    let b = EffectView::Print(tail + seq![' ']);
                    let c = EffectView::MoveLeft(tail.len() + 1);
                    lemma_perform_three(display, a, b, c);
                    assert(removal(tail) =~= seq![a, b, c].push(EffectView::Flush));
                    assert(removal(tail).drop_last() =~= seq![a, b, c]);
                    let written = perform(perform(display, a), b);
                    let home = perform(written, c);
                    assert(perform_all(display, removal(tail)) == home);
                    assert(written.cells =~= display.cells.take((k - 1) as int) + (tail + seq![' '])
                        + display.cells.skip(n as int));
                    assert(home.cells.take((n - 1) as int) =~= line.remove(k - 1));
                }
            },
            Input::Char(c) => {
                if tail.len() == 0 {
                    lemma_perform_two(display, EffectView::Print(seq![c]), EffectView::Flush);
                    let written = perform(display, EffectView::Print(seq![c]));
                    assert(written.cells.take((n + 1) as int) =~= line.insert(k as int, c));
                } else {
                    let a = EffectView::Print(seq![c] + tail);
                    let b = EffectView::MoveLeft(tail.len());
                    lemma_perform_three(display, a, b, EffectView::Flush);
                    let written = perform(display, a);
                    assert(written.cells.take((n + 1) as int) =~= line.insert(k as int, c));
                }
            },
            Input::Control(c) => {
                if c == 'c' || c == 'd' {
                    lemma_perform_three(
                        display,
                        EffectView::DisableRawMode,
                        EffectView::NewLine,
                        EffectView::Exit,
                    );
                }
            },
            _ => {},
        }
    }
}

} // verus!
