//! The cells of highlighted text, and the lines that the command line shows.
use crate::event::Content;
use crate::ui::cmdline::{Cmdline, Mode};
use crate::ui::grid::{CellContents, OnceOrChars};
use vstd::prelude::*;

verus! {

/// The chars of the chunks, each with the highlight of its chunk.
pub open spec fn chunks_chars(chunks: Seq<crate::event::Chunk>) -> Seq<(char, u32)>
    decreases chunks.len(),
{
    if chunks.len() == 0 {
        Seq::empty()
    } else {
        let last = chunks.last();
        chunks_chars(chunks.drop_last()) + last.text_chunk@.map_values(|c: char| (c, last.attr_id))
    }
}

/// The chars of highlighted text, each with its highlight.
pub open spec fn content_chars(content: Content) -> Seq<(char, u32)> {
    chunks_chars(content.chunks@)
}

/// The cell that shows a char with a highlight.
pub open spec fn cell_of(c: (char, u32)) -> CellContents {
    CellContents { highlight: c.1, text: OnceOrChars::Char(c.0) }
}

/// The cells of a sequence of highlighted chars.
pub open spec fn cells_of(s: Seq<(char, u32)>) -> Seq<CellContents> {
    s.map_values(|c: (char, u32)| cell_of(c))
}

/// The chars of highlighted text, each with its highlight.
pub fn content_chars_of(content: &Content) -> (r: Vec<(char, u32)>)
    ensures
        r@ == content_chars(*content),
{
    broadcast use vstd::string::axiom_spec_iter;

    let mut out: Vec<(char, u32)> = Vec::new();
    let mut i: usize = 0;
    while i < content.chunks.len()
        invariant
            i <= content.chunks@.len(),
            out@ == chunks_chars(content.chunks@.take(i as int)),
        decreases content.chunks@.len() - i,
    {
        let chunk = &content.chunks[i];
        let ghost start = out@;
        for c in iter: chunk.text_chunk.as_str().chars()
            invariant
                iter.seq() == chunk.text_chunk@,
                out@ == start + iter.seq().take(iter.index() as int).map_values(
                    |c: char| (c, chunk.attr_id),
                ),
        {
            proof {
                assert(iter.seq().take(iter.index() + 1).map_values(|c: char| (c, chunk.attr_id))
                    == iter.seq().take(iter.index() as int).map_values(
                    |c: char| (c, chunk.attr_id),
                ).push((c, chunk.attr_id)));
            }
            out.push((c, chunk.attr_id));
        }
        proof {
            assert(content.chunks@.take(i + 1).drop_last() == content.chunks@.take(i as int));
            assert(chunk.text_chunk@.take(chunk.text_chunk@.len() as int) == chunk.text_chunk@);
        }
        i += 1;
    }
    proof {
        assert(content.chunks@.take(content.chunks@.len() as int) == content.chunks@);
    }
    out
}

/// The cells of highlighted text, one per char with the highlight of its chunk.
pub fn iter_line(content: &Content) -> (r: Vec<CellContents>)
    ensures
        r@ == cells_of(content_chars(*content)),
{
    let chars = content_chars_of(content);
    let mut out: Vec<CellContents> = Vec::new();
    let mut i: usize = 0;
    while i < chars.len()
        invariant
            i <= chars@.len(),
            out@ == cells_of(chars@.take(i as int)),
        decreases chars@.len() - i,
    {
        let (c, h) = chars[i];
        out.push(CellContents { highlight: h, text: OnceOrChars::Char(c) });
        proof {
            assert(chars@.take(i + 1) == chars@.take(i as int).push(chars@[i as int]));
            assert(cells_of(chars@.take(i + 1)) == cells_of(chars@.take(i as int)).push(
                cell_of(chars@[i as int]),
            ));
        }
        i += 1;
    }
    proof {
        assert(chars@.take(chars@.len() as int) == chars@);
    }
    out
}

/// The first line the command line shows: the first char of the prompt (a space where it
/// has none), the prompt, then the first line of the content; all but the content
/// unhighlighted.
pub open spec fn prompt_head(first_char: Option<char>, prompt: Seq<char>, first_line: Content) -> Seq<CellContents> {
    seq![cell_of((match first_char { Some(c) => c, None => ' ' }, 0u32))] + cells_of(
        prompt.map_values(|c: char| (c, 0u32)),
    ) + cells_of(content_chars(first_line))
}

/// The cells of each line.
pub open spec fn line_views(v: Seq<Vec<CellContents>>) -> Seq<Seq<CellContents>> {
    v.map_values(|l: Vec<CellContents>| l@)
}

/// What the command line shows: nothing where it is hidden; for a stack of prompts, the
/// top one, its first line led by its first char and prompt.
pub fn cmdline_lines(cmdline: &Cmdline) -> (r: Option<Vec<Vec<CellContents>>>)
    requires
        cmdline.mode matches Some(m) ==> m matches Mode::Normal { levels } && levels@.len() > 0
            && levels@.last().content_lines@.len() > 0,
    ensures
        cmdline.mode is None ==> r is None,
        cmdline.mode matches Some(Mode::Normal { levels }) ==> {
            let p = levels@.last();
            &&& r is Some
            &&& line_views(r.unwrap()@).len() == p.content_lines@.len()
            &&& line_views(r.unwrap()@)[0] == prompt_head(
                p.first_char,
                p.prompt@,
                p.content_lines@[0],
            )
            &&& forall|i: int|
                1 <= i < p.content_lines@.len() ==> #[trigger] line_views(r.unwrap()@)[i]
                    == cells_of(content_chars(p.content_lines@[i]))
        },
{
    broadcast use vstd::string::axiom_spec_iter;

    match &cmdline.mode {
        None => None,
        Some(Mode::Normal { levels }) => {
            let prompt = &levels[levels.len() - 1];
            let mut first: Vec<CellContents> = Vec::new();
            let c = match prompt.first_char {
                Some(c) => c,
                None => ' ',
            };
            first.push(CellContents { highlight: 0, text: OnceOrChars::Char(c) });
            let ghost lead = first@;
            for c in iter: prompt.prompt.as_str().chars()
                invariant
                    iter.seq() == prompt.prompt@,
                    first@ == lead + cells_of(
                        iter.seq().take(iter.index() as int).map_values(|c: char| (c, 0u32)),
                    ),
            {
                proof {
                    let s = iter.seq().take(iter.index() as int).map_values(|c: char| (c, 0u32));
                    assert(iter.seq().take(iter.index() + 1).map_values(|c: char| (c, 0u32)) == s.push((c, 0u32)));
                    assert(cells_of(s.push((c, 0u32))) == cells_of(s).push(cell_of((c, 0u32))));
                }
                first.push(CellContents { highlight: 0, text: OnceOrChars::Char(c) });
            }
            let mut rest = iter_line(&prompt.content_lines[0]);
            first.append(&mut rest);
            proof {
                assert(prompt.prompt@.take(prompt.prompt@.len() as int) == prompt.prompt@);
                assert(first@ == prompt_head(
                    prompt.first_char,
                    prompt.prompt@,
                    prompt.content_lines@[0],
                ));
            }
            let mut lines: Vec<Vec<CellContents>> = Vec::new();
            lines.push(first);
            let mut i: usize = 1;
            while i < prompt.content_lines.len()
                invariant
                    1 <= i <= prompt.content_lines@.len(),
                    lines@.len() == i,
                    line_views(lines@)[0] == prompt_head(
                        prompt.first_char,
                        prompt.prompt@,
                        prompt.content_lines@[0],
                    ),
                    forall|j: int|
                        1 <= j < i ==> #[trigger] line_views(lines@)[j] == cells_of(
                            content_chars(prompt.content_lines@[j]),
                        ),
                decreases prompt.content_lines@.len() - i,
            {
                let line = iter_line(&prompt.content_lines[i]);
                let ghost before = lines@;
                lines.push(line);
                proof {
                    assert(line_views(lines@) == line_views(before).push(line@));
                }
                i += 1;
            }
            Some(lines)
        },
        Some(Mode::Block { .. }) => None,
    }
}

} // verus!
