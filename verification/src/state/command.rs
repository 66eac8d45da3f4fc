use super::State;
use crate::buffer::Buffer;
use crate::editor::{Action, Editor, EditorView};
use crate::event::{Event, Key};
use crate::text::chars::string_of;
use crate::text::ArrayBuffer;
use vstd::prelude::*;

verus! {

/// The mode in which a command line is typed and run.
pub struct CommandState {
    pub buffer: Buffer<ArrayBuffer>,
}

/// The characters that part the words of a command line: those that Unicode
/// marks as white space.
pub open spec fn is_space(c: char) -> bool {
    let code = c as u32;
    ||| 0x09 <= code <= 0x0d
    ||| code == 0x20
    ||| code == 0x85
    ||| code == 0xa0
    ||| code == 0x1680
    ||| 0x2000 <= code <= 0x200a
    ||| code == 0x2028
    ||| code == 0x2029
    ||| code == 0x202f
    ||| code == 0x205f
    ||| code == 0x3000
}

pub fn is_whitespace(c: char) -> (space: bool)
    ensures
        space == is_space(c),
{
    let code = c as u32;
    (0x09 <= code && code <= 0x0d) || code == 0x20 || code == 0x85 || code == 0xa0 || code
        == 0x1680 || (0x2000 <= code && code <= 0x200a) || code == 0x2028 || code == 0x2029
        || code == 0x202f || code == 0x205f || code == 0x3000
}

/// The offset of the first white space at or behind `from`, or the end of
/// `s`.
pub open spec fn word_end(s: Seq<char>, from: int) -> int
    decreases s.len() - from,
{
    if from >= s.len() || is_space(s[from]) {
        from
    } else {
        word_end(s, from + 1)
    }
}

/// The words of `s` from `from` on: the longest stretches without white
/// space, in order.
pub open spec fn words_from(s: Seq<char>, from: int) -> Seq<Seq<char>>
    decreases s.len() - from,
    via words_from_decreases
{
    if from < 0 || from >= s.len() {
        Seq::empty()
    } else if is_space(s[from]) {
        words_from(s, from + 1)
    } else {
        seq![s.subrange(from, word_end(s, from))] + words_from(s, word_end(s, from))
    }
}

#[via_fn]
proof fn words_from_decreases(s: Seq<char>, from: int) {
    if 0 <= from < s.len() && !is_space(s[from]) {
        lemma_word_end(s, from);
    }
}

/// A word ends behind its start, at white space or at the end of the text,
/// and holds no white space.
pub proof fn lemma_word_end(s: Seq<char>, from: int)
    requires
        0 <= from <= s.len(),
    ensures
        from <= word_end(s, from) <= s.len(),
        from < s.len() && !is_space(s[from]) ==> from < word_end(s, from),
        word_end(s, from) < s.len() ==> is_space(s[word_end(s, from)]),
        forall|i: int| from <= i < word_end(s, from) ==> !is_space(s[i]),
    decreases s.len() - from,
{
    if from < s.len() && !is_space(s[from]) {
        lemma_word_end(s, from + 1);
    }
}

/// The words of a command line.
pub open spec fn words(s: Seq<char>) -> Seq<Seq<char>> {
    words_from(s, 0)
}

/// The words that `found` holds.
pub open spec fn words_view(found: Seq<Vec<char>>) -> Seq<Seq<char>> {
    found.map_values(|word: Vec<char>| word@)
}

/// Parts `text` into its words.
pub fn split_words(text: &Vec<char>) -> (found: Vec<Vec<char>>)
    ensures
        words_view(found@) == words(text@),
{
    let mut found: Vec<Vec<char>> = Vec::new();
    let mut i: usize = 0;
    assert(words_view(found@) =~= Seq::<Seq<char>>::empty());
    while i < text.len()
        invariant
            i <= text@.len(),
            words_view(found@) + words_from(text@, i as int) == words(text@),
        decreases text@.len() - i,
    {
        if is_whitespace(text[i]) {
            i = i + 1;
        } else {
            let start = i;
            let mut word: Vec<char> = Vec::new();
            while i < text.len() && !is_whitespace(text[i])
                invariant
                    start <= i <= text@.len(),
                    word@ == text@.subrange(start as int, i as int),
                    word_end(text@, start as int) == word_end(text@, i as int),
                decreases text@.len() - i,
            {
                word.push(text[i]);
                i = i + 1;
                proof {
                    assert(word@ =~= text@.subrange(start as int, i as int));
                }
            }
            let ghost before = words_view(found@);
            found.push(word);
            proof {
                assert(words_view(found@) =~= before + seq![word@]);
                assert(before + (seq![word@] + words_from(text@, i as int)) =~= before + seq![
                    word@,
                ] + words_from(text@, i as int));
            }
        }
    }
    proof {
        assert(words_view(found@) + Seq::<Seq<char>>::empty() =~= words_view(found@));
    }
    found
}

fn is_name(word: &Vec<char>, first: char) -> (is: bool)
    ensures
        is == (word@ == seq![first]),
{
    let is = word.len() == 1 && word[0] == first;
    proof {
        if is {
            assert(word@ =~= seq![first]);
        } else if word@ == seq![first] {
            assert(seq![first].len() == 1);
            assert(seq![first][0] == first);
        }
    }
    is
}

fn is_edit(word: &Vec<char>) -> (is: bool)
    ensures
        is == (word@ == seq!['e', 'd', 'i', 't']),
{
    let is = word.len() == 4 && word[0] == 'e' && word[1] == 'd' && word[2] == 'i' && word[3]
        == 't';
    proof {
        let name = seq!['e', 'd', 'i', 't'];
        if is {
            assert(word@ =~= name);
        } else if word@ == name {
            assert(name.len() == 4);
            assert(name[0] == 'e' && name[1] == 'd' && name[2] == 'i' && name[3] == 't');
        }
    }
    is
}

impl CommandState {
    pub fn new() -> (state: Self)
        ensures
            state.buffer.shows((Seq::empty(), crate::buffer::Position { line: 0, col: 0 })),
    {
        CommandState { buffer: Buffer::new(Box::new(ArrayBuffer::new(String::new()))) }
    }

    /// What running the command line `words` does. `q` stops the editor.
    /// `w` asks to write the document, to the file named or, with no name,
    /// to the editor's own file if it has one. `edit` and `e`, with one
    /// name, make the name the editor's file and ask to read it. Any other
    /// line does nothing, and none of them touches the document.
    pub open spec fn runs(words: Seq<Seq<char>>, before: EditorView, after: EditorView) -> bool {
        let args = words.skip(1);
        let same = after.running == before.running && after.filename == before.filename
            && after.action == before.action;
        &&& after.text_buffer == before.text_buffer
        &&& after.text_window_state == before.text_window_state
        &&& if words.len() == 0 {
            same
        } else if words[0] == seq!['q'] {
            !after.running && after.filename == before.filename && after.action == before.action
        } else if words[0] == seq!['w'] {
            &&& after.running == before.running
            &&& after.filename == before.filename
            &&& if args.len() == 0 {
                match before.filename {
                    Some(own) => after.action matches Action::Write(name) && name@ == own@,
                    None => after.action == before.action,
                }
            } else if args.len() == 1 {
                after.action matches Action::Write(name) && name@ == args[0]
            } else {
                after.action == before.action
            }
        } else if words[0] == seq!['e', 'd', 'i', 't'] || words[0] == seq!['e'] {
            if args.len() == 1 {
                &&& after.running == before.running
                &&& after.filename matches Some(name) && name@ == args[0]
                &&& after.action matches Action::Edit(name) && name@ == args[0]
            } else {
                same
            }
        } else {
            same
        }
    }

    /// What a key does in Command mode. Enter runs the line and leaves the
    /// mode, Escape leaves it; a character is typed into the line, Backspace
    /// deletes the character before the cursor, the arrows move it.
    pub open spec fn handles(self, key: Key, before: EditorView, after: EditorView, states: Seq<State>) -> bool {
        let stays = states.len() == 1 && states[0] is Command;
        let same = after.text_buffer == before.text_buffer && after.same_settings(before);
        match key {
            Key::Char('\n') => states.len() == 0 && Self::runs(
                words(self.buffer.text_buffer@),
                before,
                after,
            ),
            Key::Char(c) => same && stays && (states[0] matches State::Command(next)
                && if self.buffer.cursor.line < usize::MAX {
                next.buffer.shows(self.buffer.after_insert(c))
            } else {
                next.buffer == self.buffer
            }),
            Key::Esc => same && states.len() == 0,
            Key::Backspace => same && stays && (states[0] matches State::Command(next)
                && next.buffer.shows(self.buffer.after_delete())),
            Key::Left => same && stays && (states[0] matches State::Command(next)
                && next.buffer.text_buffer == self.buffer.text_buffer && next.buffer.cursor
                == self.buffer.prev_pos()),
            Key::Right => same && stays && (states[0] matches State::Command(next)
                && next.buffer.text_buffer == self.buffer.text_buffer && next.buffer.cursor
                == self.buffer.next_pos()),
            _ => same && states.len() == 1 && states[0] == State::Command(self),
        }
    }

    pub fn handle_event(self, event: Event, editor: &mut Editor) -> (states: Vec<State>)
        requires
            old(editor).text_buffer.wf(),
        ensures
            final(editor).text_buffer.wf(),
            final(editor).state_stack == old(editor).state_stack,
            State::Command(self).handles(event, old(editor)@, final(editor)@, states@),
    {
        match event {
            Event::Key(key) => self.handle_key(key, editor),
        }
    }

    fn handle_key(self, key: Key, editor: &mut Editor) -> (states: Vec<State>)
        requires
            old(editor).text_buffer.wf(),
        ensures
            final(editor).text_buffer.wf(),
            final(editor).state_stack == old(editor).state_stack,
            self.handles(key, old(editor)@, final(editor)@, states@),
    {
        let mut state = self;
        match key {
            Key::Char('\n') => {
                state.run_command(editor);
                return Vec::new();
            },
            Key::Char(c) => {
                if state.buffer.cursor.line < usize::MAX {
                    state.buffer.insert(c);
                }
            },
            Key::Esc => {
                return Vec::new();
            },
            Key::Backspace => state.buffer.delete(),
            Key::Left => {
                let pos = state.buffer.prev();
                state.buffer.move_cursor(pos)
            },
            Key::Right => {
                let pos = state.buffer.next();
                state.buffer.move_cursor(pos)
            },
            _ => (),
        }
        let mut states: Vec<State> = Vec::new();
        states.push(State::Command(state));
        states
    }

    /// Runs the command line.
    pub fn run_command(&mut self, editor: &mut Editor)
        ensures
            *final(self) == *old(self),
            final(editor).state_stack == old(editor).state_stack,
            Self::runs(words(old(self).buffer.text_buffer@), old(editor)@, final(editor)@),
    {
        let parts = split_words(&self.buffer.text_buffer.text);
        if parts.len() == 0 {
            return ;
        }
        proof {
            assert(words_view(parts@)[0] == parts@[0]@);
            assert(words_view(parts@).skip(1).len() == parts@.len() - 1);
            if parts@.len() == 2 {
                assert(words_view(parts@).skip(1)[0] == parts@[1]@);
            }
        }
        let command = &parts[0];
        if is_name(command, 'q') {
            editor.running = false;
        } else if is_name(command, 'w') {
            if parts.len() == 1 {
                if let Some(filename) = &editor.filename {
                    editor.action = Action::Write(filename.clone());
                }
            } else if parts.len() == 2 {
                let name = &parts[1];
                let filename = string_of(name, 0, name.len());
                assert(name@.subrange(0, name@.len() as int) =~= name@);
                editor.action = Action::Write(filename);
            }
        } else if is_edit(command) || is_name(command, 'e') {
            if parts.len() == 2 {
                let name = &parts[1];
                assert(name@.subrange(0, name@.len() as int) =~= name@);
                editor.filename = Some(string_of(name, 0, name.len()));
                editor.action = Action::Edit(string_of(name, 0, name.len()));
            }
        }
    }
}

} // verus!
