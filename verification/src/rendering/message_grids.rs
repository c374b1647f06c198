//! How messages are laid out above the bottom of the base grid.
use crate::event::{Content, MsgHistoryEntry};
use crate::rendering::cmdline_grid::{cell_of, cells_of, content_chars, content_chars_of, line_views};
use crate::ui::grid::{CellContents, OnceOrChars};
use crate::ui::messages::Messages;
use crate::util::vec2::Vec2;
use vstd::prelude::*;

verus! {

/// The number of chars before the first newline.
pub open spec fn line_len(s: Seq<(char, u32)>) -> nat
    decreases s.len(),
{
    if s.len() == 0 || s[0].0 == '\n' {
        0
    } else {
        1 + line_len(s.drop_first())
    }
}

proof fn lemma_line_len(s: Seq<(char, u32)>)
    ensures
        line_len(s) <= s.len(),
        line_len(s) < s.len() ==> s[line_len(s) as int].0 == '\n',
        forall|i: int| 0 <= i < line_len(s) ==> #[trigger] s[i].0 != '\n',
    decreases s.len(),
{
    if s.len() > 0 && s[0].0 != '\n' {
        lemma_line_len(s.drop_first());
        assert forall|i: int| 0 <= i < line_len(s) implies #[trigger] s[i].0 != '\n' by {
            if i > 0 {
                assert(s[i] == s.drop_first()[i - 1]);
            }
        }
    }
}

proof fn lemma_line_len_at_least(s: Seq<(char, u32)>, m: int)
    requires
        0 <= m <= s.len(),
        forall|i: int| 0 <= i < m ==> #[trigger] s[i].0 != '\n',
    ensures
        line_len(s) >= m,
    decreases m,
{
    if m > 0 {
        assert forall|i: int| 0 <= i < m - 1 implies #[trigger] s.drop_first()[i].0 != '\n' by {
            assert(s.drop_first()[i] == s[i + 1]);
        }
        lemma_line_len_at_least(s.drop_first(), m - 1);
    }
}

/// The lines of highlighted chars: split at each newline, up to the first empty line.
pub open spec fn split_lines(s: Seq<(char, u32)>) -> Seq<Seq<(char, u32)>>
    decreases s.len(),
{
    let k = line_len(s);
    if k == 0 {
        Seq::empty()
    } else if k >= s.len() {
        seq![s]
    } else {
        seq![s.take(k as int)] + split_lines(s.skip(k + 1 as int))
    }
}

/// The lines of cells that highlighted text is shown in: one per line of its text, up to
/// the first empty line.
pub open spec fn content_lines(content: Content) -> Seq<Seq<CellContents>> {
    split_lines(content_chars(content)).map_values(|l: Seq<(char, u32)>| cells_of(l))
}

/// The lines of cells of highlighted text: split at each newline, up to the first empty
/// line.
pub fn lines(content: &Content) -> (r: Vec<Vec<CellContents>>)
    ensures
        line_views(r@) == content_lines(*content),
{
    let chars = content_chars_of(content);
    let n = chars.len();
    let mut lines: Vec<Vec<CellContents>> = Vec::new();
    let mut pos: usize = 0;
    let mut done = false;
    proof {
        assert(chars@.skip(0) == chars@);
        assert(line_views(lines@) =~= Seq::empty());
    }
    while !done
        invariant
            n == chars@.len(),
            pos <= n,
            !done ==> line_views(lines@) + split_lines(chars@.skip(pos as int)).map_values(
                |l: Seq<(char, u32)>| cells_of(l),
            ) == split_lines(chars@).map_values(|l: Seq<(char, u32)>| cells_of(l)),
            done ==> line_views(lines@) == split_lines(chars@).map_values(
                |l: Seq<(char, u32)>| cells_of(l),
            ),
        decreases n - pos + if done { 0int } else { 1int },
    {
        let ghost rest = chars@.skip(pos as int);
        proof {
            lemma_line_len(rest);
        }
        let start = pos;
        let mut line: Vec<CellContents> = Vec::new();
        while pos < n && chars[pos].0 != '\n'
            invariant
                n == chars@.len(),
                start <= pos <= n,
                rest == chars@.skip(start as int),
                forall|i: int| 0 <= i < pos - start ==> #[trigger] rest[i].0 != '\n',
                line@ == cells_of(rest.take(pos - start)),
            decreases n - pos,
        {
            let (c, h) = chars[pos];
            proof {
                assert(rest[pos - start] == chars@[pos as int]);
                assert(rest.take(pos - start + 1) == rest.take(pos - start).push(rest[pos - start]));
                assert(cells_of(rest.take(pos - start + 1)) == cells_of(rest.take(pos - start)).push(
                    cell_of(rest[pos - start]),
                ));
            }
            line.push(CellContents { highlight: h, text: OnceOrChars::Char(c) });
            pos += 1;
        }
        let ghost k = line_len(rest);
        proof {
            lemma_line_len_at_least(rest, pos - start);
            if pos < n {
                assert(rest[pos - start] == chars@[pos as int]);
            }
            assert(pos - start == k);
        }
        if pos < n {
            pos += 1;
        }
        if line.len() == 0 {
            proof {
                assert(split_lines(rest) =~= Seq::empty());
                assert(line_views(lines@) + Seq::empty() == line_views(lines@));
            }
            done = true;
        } else {
            let ghost before = lines@;
            lines.push(line);
            proof {
                assert(line_views(lines@) == line_views(before).push(line@));
                if k >= rest.len() {
                    assert(rest.take(k as int) == rest);
                    assert(chars@.skip(pos as int) =~= Seq::empty());
                    assert(split_lines(chars@.skip(pos as int)) =~= Seq::empty());
                } else {
                    assert(rest.skip(k + 1 as int) == chars@.skip(pos as int));
                }
                let tail = split_lines(chars@.skip(pos as int)).map_values(
                    |l: Seq<(char, u32)>| cells_of(l),
                );
                assert(split_lines(rest).map_values(|l: Seq<(char, u32)>| cells_of(l)) == seq![
                    cells_of(rest.take(k as int))] + tail);
                assert(line_views(before) + (seq![cells_of(rest.take(k as int))] + tail) == line_views(
                    lines@,
                ) + tail);
            }
        }
    }
    lines
}


/// A message laid out: its lines, the size of its text where it is fixed (a history entry
/// spans the whole width), how many lines up from the bottom of the base grid it ends, and
/// whether it comes from the history.
#[derive(Debug, Clone)]
pub struct MessageText {
    pub lines: Vec<Vec<CellContents>>,
    pub size: Option<Vec2<u32>>,
    pub offset: usize,
    pub from_history: bool,
}

/// The messages to show: the history where it is open, else the messages shown.
pub open spec fn shown_messages(m: Messages) -> Seq<MsgHistoryEntry> {
    if m.history@.len() > 0 {
        m.history@
    } else {
        m.show@
    }
}

/// The number of lines of the last `k` messages.
pub open spec fn lines_of_last(msgs: Seq<MsgHistoryEntry>, k: int) -> int
    decreases k,
{
    if k <= 0 {
        0
    } else {
        lines_of_last(msgs, k - 1) + content_lines(msgs[msgs.len() - k].content).len()
    }
}

/// Lays out the messages from the newest up: each ends as many lines up as the messages
/// after it and itself take.
pub fn message_layout(messages: &Messages, base_grid_size: Vec2<u16>) -> (r: Vec<MessageText>)
    requires
        lines_of_last(shown_messages(*messages), shown_messages(*messages).len() as int)
            <= usize::MAX,
    ensures
        ({
            let msgs = shown_messages(*messages);
            let history = messages.history@.len() > 0;
            &&& r@.len() == msgs.len()
            &&& forall|k: int|
                0 <= k < msgs.len() ==> {
                    let t = #[trigger] r@[k];
                    let lines = content_lines(msgs[msgs.len() - 1 - k].content);
                    &&& line_views(t.lines@) == lines
                    &&& t.offset == lines_of_last(msgs, k + 1)
                    &&& t.from_history == history
                    &&& t.size == if history {
                        Some(Vec2 { x: base_grid_size.x as u32, y: lines.len() as u32 })
                    } else {
                        None
                    }
                }
        }),
{
    let ghost msgs = shown_messages(*messages);
    let is_history = messages.history.len() > 0;
    let to_display = if is_history {
        &messages.history
    } else {
        &messages.show
    };
    let n = to_display.len();
    let mut out: Vec<MessageText> = Vec::new();
    let mut offset: usize = 0;
    let mut k: usize = 0;
    while k < n
        invariant
            to_display@ == msgs,
            n == msgs.len(),
            is_history == (messages.history@.len() > 0),
            msgs == shown_messages(*messages),
            lines_of_last(msgs, n as int) <= usize::MAX,
            k <= n,
            out@.len() == k,
            offset == lines_of_last(msgs, k as int),
            forall|j: int|
                0 <= j < k ==> {
                    let t = #[trigger] out@[j];
                    let lines = content_lines(msgs[msgs.len() - 1 - j].content);
                    &&& line_views(t.lines@) == lines
                    &&& t.offset == lines_of_last(msgs, j + 1)
                    &&& t.from_history == is_history
                    &&& t.size == if is_history {
                        Some(Vec2 { x: base_grid_size.x as u32, y: lines.len() as u32 })
                    } else {
                        None
                    }
                },
        decreases n - k,
    {
        let message = &to_display[n - 1 - k];
        let lines = lines(&message.content);
        proof {
            lemma_lines_of_last_mono(msgs, k as int + 1, n as int);
        }
        offset = offset + lines.len();
        let size = if is_history {
            Some(Vec2::new(base_grid_size.x as u32, lines.len() as u32))
        } else {
            None
        };
        out.push(MessageText { lines, size, offset, from_history: is_history });
        k += 1;
    }
    out
}

proof fn lemma_lines_of_last_mono(msgs: Seq<MsgHistoryEntry>, j: int, k: int)
    requires
        0 <= j <= k,
    ensures
        lines_of_last(msgs, j) <= lines_of_last(msgs, k),
    decreases k - j,
{
    if j < k {
        lemma_lines_of_last_mono(msgs, j, k - 1);
    }
}

/// The column a shown message starts at: right-aligned to the base grid, and at 0 where it
/// is wider; history entries start at 0.
pub fn message_column(base_width: u16, text_width: u32, from_history: bool) -> (r: u32)
    ensures
        r == if from_history || text_width >= base_width {
            0
        } else {
            base_width - text_width
        },
{
    if from_history {
        0
    } else {
        (base_width as u32).saturating_sub(text_width)
    }
}

/// The texts of the messages, kept until the messages or the size of the base grid change.
pub struct MessageGrids<T> {
    texts: Vec<T>,
    previous_base_grid_size: Vec2<u16>,
}

impl<T> MessageGrids<T> {
    pub closed spec fn spec_texts(&self) -> Seq<T> {
        self.texts@
    }

    pub closed spec fn spec_base_grid_size(&self) -> Vec2<u16> {
        self.previous_base_grid_size
    }

    /// No texts, laid out for a base grid of size 0.
    pub fn new() -> (r: MessageGrids<T>)
        ensures
            r.spec_texts().len() == 0,
            r.spec_base_grid_size() == (Vec2::<u16> { x: 0, y: 0 }),
    {
        MessageGrids { texts: Vec::new(), previous_base_grid_size: Vec2::new(0, 0) }
    }

    /// Notes the size of the base grid; where it or the messages changed, the texts are
    /// dropped to be laid out again, and it returns `true`.
    pub fn begin_update(&mut self, base_grid_size: Vec2<u16>, messages_changed: bool) -> (r: bool)
        ensures
            r == (messages_changed || old(self).spec_base_grid_size() != base_grid_size),
            final(self).spec_base_grid_size() == base_grid_size,
            r ==> final(self).spec_texts().len() == 0,
            !r ==> final(self).spec_texts() == old(self).spec_texts(),
    {
        let did_size_change = self.previous_base_grid_size.x != base_grid_size.x
            || self.previous_base_grid_size.y != base_grid_size.y;
        self.previous_base_grid_size = base_grid_size;
        if !(messages_changed || did_size_change) {
            return false;
        }
        self.texts.clear();
        true
    }

    /// Adds the text of the next message.
    pub fn push_text(&mut self, text: T)
        ensures
            final(self).spec_texts() == old(self).spec_texts().push(text),
            final(self).spec_base_grid_size() == old(self).spec_base_grid_size(),
    {
        self.texts.push(text);
    }

    /// The texts of the messages, the newest first.
    pub fn texts(&self) -> (r: &[T])
        ensures
            r@ == self.spec_texts(),
    {
        self.texts.as_slice()
    }
}

/// Every line of the text is non-empty and holds no newline.
pub proof fn split_lines_are_lines(s: Seq<(char, u32)>)
    ensures
        forall|i: int|
            0 <= i < split_lines(s).len() ==> {
                let l = #[trigger] split_lines(s)[i];
                &&& l.len() > 0
                &&& forall|j: int| 0 <= j < l.len() ==> l[j].0 != '\n'
            },
    decreases s.len(),
{
    lemma_line_len(s);
    let k = line_len(s);
    if k > 0 && k < s.len() {
        split_lines_are_lines(s.skip(k + 1 as int));
        assert forall|i: int| 0 <= i < split_lines(s).len() implies {
            let l = #[trigger] split_lines(s)[i];
            &&& l.len() > 0
            &&& forall|j: int| 0 <= j < l.len() ==> l[j].0 != '\n'
        } by {
            if i > 0 {
                assert(split_lines(s)[i] == split_lines(s.skip(k + 1 as int))[i - 1]);
            }
        }
    }
}

} // verus!
