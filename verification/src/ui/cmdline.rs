//! The state of the external command line: a stack of nested prompts, or a block of lines
//! being entered with the prompt of the current one.
use crate::event::{CmdlineShow, CmdlineSpecialChar, Content};
use vstd::prelude::*;
use vstd::string::*;

verus! {

#[derive(Debug, Clone)]
pub struct Cmdline {
    pub mode: Option<Mode>,
}

#[derive(Debug, Clone)]
pub enum Mode {
    Normal { levels: Vec<Prompt> },
    Block { previous_lines: Vec<Content>, current_line: Prompt },
}

#[derive(Debug, Clone)]
pub struct Prompt {
    pub content_lines: Vec<Content>,
    pub cursor_pos: u32,
    pub first_char: Option<char>,
    pub prompt: String,
    pub special: Option<Special>,
    pub indent: u32,
}

#[derive(Debug, Clone, Copy, PartialEq, Eq)]
pub struct Special {
    pub c: char,
    pub shift: bool,
}

impl Special {
    pub fn new(c: char, shift: bool) -> (r: Special)
        ensures
            r == (Special { c, shift }),
    {
        Special { c, shift }
    }
}

/// The first char of a string, if it has one.
pub open spec fn first_char_of(s: Seq<char>) -> Option<char> {
    if s.len() > 0 {
        Some(s[0])
    } else {
        None
    }
}

/// `p` is the prompt that a `cmdline_show` event describes: its content as the only line,
/// its cursor position, first char, prompt and indent, and no special char.
pub open spec fn shows(p: Prompt, event: CmdlineShow) -> bool {
    &&& p.content_lines@ == seq![event.content]
    &&& p.cursor_pos == event.pos
    &&& p.first_char == first_char_of(event.firstc@)
    &&& p.prompt == event.prompt
    &&& p.special is None
    &&& p.indent == event.indent
}

/// `p` is the empty prompt.
pub open spec fn is_empty_prompt(p: Prompt) -> bool {
    &&& p.content_lines@.len() == 0
    &&& p.cursor_pos == 0
    &&& p.first_char is None
    &&& p.prompt@.len() == 0
    &&& p.special is None
    &&& p.indent == 0
}

impl Prompt {
    /// The prompt that a `cmdline_show` event describes.
    pub fn from_show(value: CmdlineShow) -> (r: Prompt)
        ensures
            shows(r, value),
    {
        let first_char = if value.firstc.as_str().unicode_len() > 0 {
            Some(value.firstc.as_str().get_char(0))
        } else {
            None
        };
        let mut content_lines = Vec::new();
        content_lines.push(value.content);
        Prompt {
            content_lines,
            cursor_pos: value.pos,
            first_char,
            prompt: value.prompt,
            special: None,
            indent: value.indent,
        }
    }
}

impl Default for Prompt {
    fn default() -> (r: Prompt)
        ensures
            is_empty_prompt(r),
    {
        Prompt {
            content_lines: Vec::new(),
            cursor_pos: 0,
            first_char: None,
            prompt: String::new(),
            special: None,
            indent: 0,
        }
    }
}

impl Cmdline {
    /// `new` is `old` after a `cmdline_show` event.
    pub open spec fn showed(old: Cmdline, new: Cmdline, event: CmdlineShow) -> bool {
        match old.mode {
            Some(Mode::Normal { levels }) => new.mode matches Some(
                Mode::Normal { levels: new_levels },
            ) && if (event.level as usize) > levels@.len() {
                new_levels@.len() == levels@.len() + 1 && new_levels@.subrange(
                    0,
                    levels@.len() as int,
                ) == levels@ && shows(new_levels@[levels@.len() as int], event)
            } else {
                new_levels@.len() == levels@.len() && (forall|j: int|
                    0 <= j < levels@.len() && j != (event.level as usize) - 1
                        ==> #[trigger] new_levels@[j] == levels@[j]) && shows(
                    new_levels@[(event.level as usize) - 1],
                    event,
                )
            },
            Some(Mode::Block { previous_lines, current_line: _ }) => new.mode matches Some(
                Mode::Block { previous_lines: p, current_line },
            ) && p == previous_lines && shows(current_line, event),
            None => new.mode matches Some(Mode::Normal { levels }) && levels@.len() == 1
                && shows(levels@[0], event),
        }
    }

    /// `new` is `old` after a `cmdline_hide` event.
    pub open spec fn prompt_hidden(old: Cmdline, new: Cmdline) -> bool {
        match old.mode {
            Some(Mode::Normal { levels }) => if levels@.len() <= 1 {
                new.mode is None
            } else {
                new.mode matches Some(Mode::Normal { levels: new_levels })
                    && new_levels@ == levels@.drop_last()
            },
            _ => new.mode == old.mode,
        }
    }

    /// `new` is `old` after a `cmdline_block_show` event with `lines`.
    pub open spec fn block_shown(old: Cmdline, new: Cmdline, lines: Vec<Content>) -> bool {
        new.mode matches Some(Mode::Block { previous_lines, current_line })
            && previous_lines == lines && is_empty_prompt(current_line)
    }

    /// `new` is `old` after a `cmdline_block_append` event with `line`.
    pub open spec fn block_appended(old: Cmdline, new: Cmdline, line: Content) -> bool {
        match old.mode {
            Some(Mode::Block { previous_lines, current_line: _ }) => new.mode matches Some(
                Mode::Block { previous_lines: p, current_line },
            ) && p@ == previous_lines@.push(line) && is_empty_prompt(current_line),
            _ => new.mode == old.mode,
        }
    }

    /// `new` is `old` after a `cmdline_pos` event moving the cursor to `pos`.
    pub open spec fn cursor_set(old: Cmdline, new: Cmdline, pos: u32) -> bool {
        match old.mode {
            Some(Mode::Normal { levels }) => new.mode matches Some(
                Mode::Normal { levels: new_levels },
            ) && if levels@.len() == 0 {
                new_levels@ == levels@
            } else {
                new_levels@ == levels@.update(
                    levels@.len() - 1,
                    Prompt { cursor_pos: pos, ..levels@.last() },
                )
            },
            Some(Mode::Block { previous_lines, current_line }) => new.mode == Some(
                Mode::Block {
                    previous_lines,
                    current_line: Prompt { cursor_pos: pos, ..current_line },
                },
            ),
            None => new.mode is None,
        }
    }

    /// `new` is `old` after a `cmdline_special_char` event.
    pub open spec fn special_set(old: Cmdline, new: Cmdline, event: CmdlineSpecialChar) -> bool {
        match old.mode {
            Some(Mode::Normal { levels }) => new.mode matches Some(
                Mode::Normal { levels: new_levels },
            ) && if levels@.len() == 0 {
                new_levels@ == levels@
            } else {
                new_levels@ == levels@.update(
                    levels@.len() - 1,
                    Prompt {
                        special: Some(Special { c: event.c, shift: event.shift }),
                        ..levels@.last()
                    },
                )
            },
            Some(Mode::Block { previous_lines, current_line }) => new.mode == Some(
                Mode::Block {
                    previous_lines,
                    current_line: Prompt {
                        special: Some(Special { c: event.c, shift: event.shift }),
                        ..current_line
                    },
                },
            ),
            None => new.mode is None,
        }
    }
}

impl Cmdline {
    /// No command line is shown.
    pub fn new() -> (r: Cmdline)
        ensures
            r.mode is None,
    {
        Cmdline { mode: None }
    }

    /// Shows the prompt of a `cmdline_show` event: in a stack of prompts it replaces the one
    /// at the event's level, or goes on top where the level is above the stack; in a block it
    /// becomes the line being entered; with nothing shown it starts a stack.
    pub fn show(&mut self, event: CmdlineShow)
        requires
            old(self).mode matches Some(Mode::Normal { levels }) ==> (event.level as usize) > levels@.len()
                || (event.level as usize) >= 1,
        ensures
            Cmdline::showed(*old(self), *final(self), event),
    {
        let i = event.level as usize;
        let level = Prompt::from_show(event);
        match self.mode.take() {
            Some(Mode::Normal { mut levels }) => {
                if i > levels.len() {
                    levels.push(level);
                    proof {
                        assert(levels@.subrange(0, levels@.len() - 1) =~= old(self).mode.unwrap()->levels@);
                    }
                } else {
                    levels.set(i - 1, level);
                }
                self.mode = Some(Mode::Normal { levels });
            },
            Some(Mode::Block { previous_lines, current_line: _ }) => {
                self.mode = Some(Mode::Block { previous_lines, current_line: level });
            },
            None => {
                let mut levels = Vec::new();
                levels.push(level);
                self.mode = Some(Mode::Normal { levels });
            },
        }
    }

    /// Hides the top prompt of a stack; hiding the last one hides the command line. A block
    /// is left as it is.
    pub fn hide_prompt(&mut self)
        ensures
            Cmdline::prompt_hidden(*old(self), *final(self)),
    {
        match self.mode.take() {
            Some(Mode::Normal { mut levels }) => {
                if levels.len() <= 1 {
                    self.mode = None;
                } else {
                    levels.pop();
                    self.mode = Some(Mode::Normal { levels });
                }
            },
            other => {
                self.mode = other;
            },
        }
    }

    /// Hides the command line.
    pub fn hide_block(&mut self)
        ensures
            final(self).mode is None,
    {
        self.mode = None;
    }

    /// Starts a block of `lines`; the line being entered is empty until the next
    /// `cmdline_show` fills it in.
    pub fn show_block(&mut self, lines: Vec<Content>)
        ensures
            Cmdline::block_shown(*old(self), *final(self), lines),
    {
        self.mode = Some(Mode::Block { previous_lines: lines, current_line: Prompt::default() });
    }

    /// Adds a line to the block and empties the line being entered; outside a block it does
    /// nothing.
    pub fn append_block(&mut self, line: Content)
        ensures
            Cmdline::block_appended(*old(self), *final(self), line),
    {
        match self.mode.take() {
            Some(Mode::Block { mut previous_lines, current_line: _ }) => {
                previous_lines.push(line);
                self.mode = Some(
                    Mode::Block { previous_lines, current_line: Prompt::default() },
                );
            },
            other => {
                self.mode = other;
            },
        }
    }

    /// Moves the cursor of the top prompt, or of the line being entered in a block.
    pub fn set_cursor_pos(&mut self, pos: u32)
        ensures
            Cmdline::cursor_set(*old(self), *final(self), pos),
    {
        match self.mode.take() {
            Some(Mode::Normal { mut levels }) => {
                let n = levels.len();
                if n > 0 {
                    let mut level = levels.pop().unwrap();
                    level.cursor_pos = pos;
                    levels.push(level);
                    proof {
                        assert(levels@ =~= old(self).mode.unwrap()->levels@.update(
                            n - 1,
                            Prompt { cursor_pos: pos, ..old(self).mode.unwrap()->levels@.last() },
                        ));
                    }
                }
                self.mode = Some(Mode::Normal { levels });
            },
            Some(Mode::Block { previous_lines, mut current_line }) => {
                current_line.cursor_pos = pos;
                self.mode = Some(Mode::Block { previous_lines, current_line });
            },
            None => {},
        }
    }

    /// Shows a special char at the cursor of the top prompt, or of the line being entered in
    /// a block.
    pub fn special(&mut self, event: CmdlineSpecialChar)
        ensures
            Cmdline::special_set(*old(self), *final(self), event),
    {
        let special = Some(Special::new(event.c, event.shift));
        match self.mode.take() {
            Some(Mode::Normal { mut levels }) => {
                let n = levels.len();
                if n > 0 {
                    let mut level = levels.pop().unwrap();
                    level.special = special;
                    levels.push(level);
                    proof {
                        assert(levels@ =~= old(self).mode.unwrap()->levels@.update(
                            n - 1,
                            Prompt {
                                special: Some(Special { c: event.c, shift: event.shift }),
                                ..old(self).mode.unwrap()->levels@.last()
                            },
                        ));
                    }
                }
                self.mode = Some(Mode::Normal { levels });
            },
            Some(Mode::Block { previous_lines, mut current_line }) => {
                current_line.special = special;
                self.mode = Some(Mode::Block { previous_lines, current_line });
            },
            None => {},
        }
    }
}

/// Hiding the prompt that a `cmdline_show` opened at a new level brings back the prompts
/// that were shown before it; where none was, the command line is hidden again.
pub proof fn hide_undoes_show_of_new_level(a: Cmdline, b: Cmdline, c: Cmdline, event: CmdlineShow)
    requires
        Cmdline::showed(a, b, event),
        Cmdline::prompt_hidden(b, c),
        a.mode matches Some(m) ==> m matches Mode::Normal { levels } && levels@.len() >= 1
            && (event.level as usize) > levels@.len(),
    ensures
        a.mode is None ==> c.mode is None,
        a.mode matches Some(Mode::Normal { levels }) ==> c.mode matches Some(
            Mode::Normal { levels: restored },
        ) && restored@ == levels@,
{
    match a.mode {
        Some(Mode::Normal { levels }) => {
            let b_levels = b.mode->Some_0->Normal_levels;
            assert(b_levels@.drop_last() =~= levels@);
        },
        _ => {},
    }
}

} // verus!
