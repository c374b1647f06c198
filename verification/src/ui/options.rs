//! The `guifont` option: a comma-separated list of font names, each of which may carry
//! `:h<size>` or `:w<size>` options.
use vstd::prelude::*;

verus! {

/// Whether a font size gives the height or the width of a cell.
#[derive(Debug, Clone, Copy, PartialEq, Eq, Structural)]
pub enum SizeKind {
    Width,
    Height,
}

/// A font size in points, for the width or the height of a cell.
#[derive(Debug, Clone, Copy, PartialEq, Eq, Structural)]
pub enum FontSize {
    Width(u32),
    Height(u32),
}

/// The size used where the option gives none.
pub open spec fn default_font_size() -> FontSize {
    FontSize::Height(18)
}

impl FontSize {
    /// The size `size` of the given kind.
    pub fn new(size: u32, kind: SizeKind) -> (r: FontSize)
        ensures
            r == (match kind {
                SizeKind::Width => FontSize::Width(size),
                SizeKind::Height => FontSize::Height(size),
            }),
    {
        match kind {
            SizeKind::Width => FontSize::Width(size),
            SizeKind::Height => FontSize::Height(size),
        }
    }
}

impl Default for FontSize {
    fn default() -> (r: FontSize)
        ensures
            r == default_font_size(),
    {
        FontSize::Height(18)
    }
}

/// Where the parser is in the option.
#[derive(Debug, Clone, Copy, PartialEq, Eq, Structural)]
pub enum ParseState {
    /// Appending chars as normal
    Normal,
    /// Found a backslash escape sequence
    Escape,
    /// Found a :
    OptionStart,
    /// Found a :h or :w, and the digits of the size so far
    OptionSize(u32, SizeKind),
    /// An unknown option is being specified
    OptionUnknown,
}

/// The fonts and size of a `guifont` option.
#[derive(Debug, Clone)]
pub struct GuiFont {
    pub fonts: Vec<String>,
    pub size: FontSize,
}

/// The text of each string.
pub open spec fn names(v: Seq<String>) -> Seq<Seq<char>> {
    v.map_values(|s: String| s@)
}

/// Whether `c` has the Unicode `White_Space` property.
pub open spec fn is_white_space(c: char) -> bool {
    let n = c as u32;
    ||| 0x09 <= n <= 0x0d
    ||| n == 0x20
    ||| n == 0x85
    ||| n == 0xa0
    ||| n == 0x1680
    ||| 0x2000 <= n <= 0x200a
    ||| n == 0x2028
    ||| n == 0x2029
    ||| n == 0x202f
    ||| n == 0x205f
    ||| n == 0x3000
}

/// Whether `c` has the Unicode `White_Space` property, as `char::is_whitespace` tells.
pub fn is_whitespace(c: char) -> (r: bool)
    ensures
        r == is_white_space(c),
{
    let n = c as u32;
    (0x09 <= n && n <= 0x0d) || n == 0x20 || n == 0x85 || n == 0xa0 || n == 0x1680 || (0x2000
        <= n && n <= 0x200a) || n == 0x2028 || n == 0x2029 || n == 0x202f || n == 0x205f || n
        == 0x3000
}

/// What the parser holds after some chars: its state, the font names ended so far, the name
/// being read, the size, and whether it stopped at a bad size.
pub type Progress = (ParseState, Seq<Seq<char>>, Seq<char>, FontSize, bool);

/// The parser before any char.
pub open spec fn start() -> Progress {
    (ParseState::Normal, Seq::empty(), Seq::empty(), default_font_size(), false)
}

/// The value of a decimal digit.
pub open spec fn digit_value(c: char) -> int {
    (c as u32) - ('0' as u32)
}

/// One char read by the parser. Outside a name, blanks before it are skipped; `\` makes
/// every char after it part of the name; `,` ends a name; `_` stands for a space; `:` starts
/// an option. `:h` and `:w` take the digits of a size, which `,` or `:` end; any other char
/// after them stops the parser. Other options are skipped up to the next `,` or `:`.
pub open spec fn step(p: Progress, c: char) -> Progress {
    let (state, fonts, current, size, stopped) = p;
    if stopped {
        p
    } else {
        match state {
            ParseState::Normal => if is_white_space(c) && current.len() == 0 {
                p
            } else if c == '\\' {
                (ParseState::Escape, fonts, current, size, false)
            } else if c == ',' {
                (ParseState::Normal, fonts.push(current), Seq::empty(), size, false)
            } else if c == '_' {
                (ParseState::Normal, fonts, current.push(' '), size, false)
            } else if c == ':' {
                (ParseState::OptionStart, fonts, current, size, false)
            } else {
                (ParseState::Normal, fonts, current.push(c), size, false)
            },
            ParseState::Escape => (ParseState::Escape, fonts, current.push(c), size, false),
            ParseState::OptionStart => (
                if c == 'w' || c == 'W' {
                    ParseState::OptionSize(0, SizeKind::Width)
                } else if c == 'h' || c == 'H' {
                    ParseState::OptionSize(0, SizeKind::Height)
                } else {
                    ParseState::OptionUnknown
                },
                fonts,
                current,
                size,
                false,
            ),
            ParseState::OptionSize(n, kind) => if '0' <= c <= '9' {
                (
                    ParseState::OptionSize((n * 10 + digit_value(c)) as u32, kind),
                    fonts,
                    current,
                    size,
                    false,
                )
            } else if c == ',' {
                (
                    ParseState::Normal,
                    fonts.push(current),
                    Seq::empty(),
                    sized(n, kind),
                    false,
                )
            } else if c == ':' {
                (ParseState::OptionStart, fonts, current, sized(n, kind), false)
            } else {
                (state, fonts, current, size, true)
            },
            ParseState::OptionUnknown => if c == ',' {
                (ParseState::Normal, fonts.push(current), Seq::empty(), size, false)
            } else if c == ':' {
                (ParseState::OptionStart, fonts, current, size, false)
            } else {
                p
            },
        }
    }
}

/// The size `n` of the given kind.
pub open spec fn sized(n: u32, kind: SizeKind) -> FontSize {
    match kind {
        SizeKind::Width => FontSize::Width(n),
        SizeKind::Height => FontSize::Height(n),
    }
}

/// The parser after reading `s`.
pub open spec fn run(s: Seq<char>) -> Progress
    decreases s.len(),
{
    if s.len() == 0 {
        start()
    } else {
        step(run(s.drop_last()), s.last())
    }
}

/// Reading char `i` of `s` adds a digit to a size that stays within a `u32`.
pub open spec fn digit_fits(s: Seq<char>, i: int) -> bool {
    let p = run(s.take(i));
    match p.0 {
        ParseState::OptionSize(n, _) => !p.4 && '0' <= s[i] <= '9' ==> n * 10 + digit_value(s[i])
            <= u32::MAX,
        _ => true,
    }
}

/// No size in `s` goes beyond a `u32`.
pub open spec fn sizes_fit(s: Seq<char>) -> bool {
    forall|i: int| 0 <= i < s.len() ==> #[trigger] digit_fits(s, i)
}

/// The font names of the option `s`: those ended by a `,`, and the last one where it is not
/// empty.
pub open spec fn parsed_fonts(s: Seq<char>) -> Seq<Seq<char>> {
    let p = run(s);
    if p.2.len() > 0 {
        p.1.push(p.2)
    } else {
        p.1
    }
}

/// Appends a char to a string (`String::push`).
#[verifier::external_body]
fn push_char(s: &mut String, c: char)
    ensures
        final(s)@ == old(s)@.push(c),
{
    s.push(c)
}

impl GuiFont {
    /// No font, and the default size.
    pub fn new() -> (r: GuiFont)
        ensures
            r.fonts@.len() == 0,
            r.size == default_font_size(),
    {
        GuiFont { fonts: Vec::new(), size: FontSize::Height(18) }
    }

    /// Reads a `guifont` option.
    pub fn parse(option: &str) -> (r: GuiFont)
        requires
            sizes_fit(option@),
        ensures
            names(r.fonts@) == parsed_fonts(option@),
            r.size == run(option@).3,
    {
        broadcast use vstd::string::axiom_spec_iter;

        let mut chars: Vec<char> = Vec::new();
        for c in iter: option.chars()
            invariant
                iter.seq() == option@,
                chars@ == iter.seq().take(iter.index() as int),
        {
            proof {
                assert(iter.seq().take(iter.index() + 1) == iter.seq().take(iter.index() as int).push(c));
            }
            chars.push(c);
        }
        assert(chars@ == option@);
        let ghost s = option@;
        let mut out = GuiFont::new();
        let mut state = ParseState::Normal;
        let mut current = String::new();
        let mut stopped = false;
        let mut i: usize = 0;
        while i < chars.len() && !stopped
            invariant
                chars@ == s,
                sizes_fit(s),
                i <= s.len(),
                run(s.take(i as int)) == (state, names(out.fonts@), current@, out.size, stopped),
            decreases s.len() - i,
        {
            let c = chars[i];
            proof {
                assert(s.take(i + 1).drop_last() == s.take(i as int));
                assert(digit_fits(s, i as int));
            }
            match state {
                ParseState::Normal => {
                    if is_whitespace(c) && current.as_str().is_empty() {
                    } else if c == '\\' {
                        state = ParseState::Escape;
                    } else if c == ',' {
                        let name = current;
                        current = String::new();
                        out.fonts.push(name);
                    } else if c == '_' {
                        push_char(&mut current, ' ');
                    } else if c == ':' {
                        state = ParseState::OptionStart;
                    } else {
                        push_char(&mut current, c);
                    }
                },
                ParseState::Escape => push_char(&mut current, c),
                ParseState::OptionStart => {
                    state = if c == 'w' || c == 'W' {
                        ParseState::OptionSize(0, SizeKind::Width)
                    } else if c == 'h' || c == 'H' {
                        ParseState::OptionSize(0, SizeKind::Height)
                    } else {
                        ParseState::OptionUnknown
                    };
                },
                ParseState::OptionSize(size, kind) => {
                    if '0' <= c && c <= '9' {
                        let size = size * 10 + ((c as u32) - ('0' as u32));
                        state = ParseState::OptionSize(size, kind);
                    } else if c == ',' {
                        let name = current;
                        current = String::new();
                        out.fonts.push(name);
                        out.size = FontSize::new(size, kind);
                        state = ParseState::Normal;
                    } else if c == ':' {
                        out.size = FontSize::new(size, kind);
                        state = ParseState::OptionStart;
                    } else {
                        stopped = true;
                    }
                },
                ParseState::OptionUnknown => {
                    if c == ',' {
                        let name = current;
                        current = String::new();
                        out.fonts.push(name);
                        state = ParseState::Normal;
                    } else if c == ':' {
                        state = ParseState::OptionStart;
                    }
                },
            }
            i += 1;
        }
        proof {
            lemma_run_stopped(s, i as int);
            assert(s.take(s.len() as int) == s);
        }
        if !current.as_str().is_empty() {
            out.fonts.push(current);
        }
        out
    }
}

/// Once the parser stopped, the chars after change nothing.
proof fn lemma_run_stopped(s: Seq<char>, i: int)
    requires
        0 <= i <= s.len(),
        i < s.len() ==> run(s.take(i)).4,
    ensures
        run(s) == run(s.take(i)),
    decreases s.len() - i,
{
    if i < s.len() {
        assert(s.take(i + 1).drop_last() == s.take(i));
        assert(s.take(i + 1).last() == s[i]);
        lemma_run_stopped(s, i + 1);
    } else {
        assert(s.take(i) == s);
    }
}

/// An option with no `:` gives no size option, and so keeps the default size.
pub proof fn no_option_keeps_default_size(s: Seq<char>)
    requires
        !s.contains(':'),
    ensures
        run(s).3 == default_font_size(),
        run(s).0 == ParseState::Normal || run(s).0 == ParseState::Escape,
    decreases s.len(),
{
    if s.len() > 0 {
        assert(!s.drop_last().contains(':')) by {
            if s.drop_last().contains(':') {
                let i = choose|i: int| 0 <= i < s.drop_last().len() && s.drop_last()[i] == ':';
                assert(s[i] == ':');
            }
        }
        no_option_keeps_default_size(s.drop_last());
        assert(s.last() != ':') by {
            assert(s[s.len() - 1] == s.last());
        }
    }
}

/// The parser after reading `t`, starting from `p`.
pub open spec fn run_from(p: Progress, t: Seq<char>) -> Progress
    decreases t.len(),
{
    if t.len() == 0 {
        p
    } else {
        step(run_from(p, t.drop_last()), t.last())
    }
}

/// The value of a decimal numeral.
pub open spec fn decimal(d: Seq<char>) -> int
    decreases d.len(),
{
    if d.len() == 0 {
        0
    } else {
        decimal(d.drop_last()) * 10 + ((d.last() as u32) - ('0' as u32))
    }
}

/// All chars are decimal digits.
pub open spec fn all_digits(d: Seq<char>) -> bool {
    forall|i: int| 0 <= i < d.len() ==> '0' <= #[trigger] d[i] <= '9'
}

/// The text with each `_` made a space.
pub open spec fn spaced(t: Seq<char>) -> Seq<char> {
    t.map_values(|c: char| if c == '_' { ' ' } else { c })
}

/// Reading `s` then `t` is reading `t` from where `s` left the parser.
proof fn lemma_run_append(s: Seq<char>, t: Seq<char>)
    ensures
        run(s + t) == run_from(run(s), t),
    decreases t.len(),
{
    if t.len() == 0 {
        assert(s + t =~= s);
    } else {
        lemma_run_append(s, t.drop_last());
        assert((s + t).drop_last() =~= s + t.drop_last());
        assert((s + t).last() == t.last());
    }
}

/// Reading name chars (underscores included) while a name is read appends them, with each
/// underscore made a space.
proof fn lemma_name_chars(p: Progress, t: Seq<char>)
    requires
        p.0 == ParseState::Normal,
        !p.4,
        p.2.len() > 0 || t.len() == 0 || !is_white_space(t[0]),
        forall|i: int| 0 <= i < t.len() ==> #[trigger] t[i] != ':' && t[i] != ',' && t[i] != '\\',
    ensures
        run_from(p, t) == (ParseState::Normal, p.1, p.2 + spaced(t), p.3, false),
    decreases t.len(),
{
    if t.len() == 0 {
        assert(p.2 + spaced(t) =~= p.2);
    } else {
        let u = t.drop_last();
        assert forall|i: int| 0 <= i < u.len() implies #[trigger] u[i] != ':' && u[i] != ','
            && u[i] != '\\' by {
            assert(u[i] == t[i]);
        }
        if u.len() > 0 {
            assert(u[0] == t[0]);
        }
        lemma_name_chars(p, u);
        let c = t.last();
        assert(c == t[t.len() - 1]);
        if u.len() == 0 {
            assert(c == t[0]);
        }
        assert(p.2 + spaced(u) + seq![if c == '_' { ' ' } else { c }] =~= p.2 + spaced(t));
    }
}

/// A text with no `:` and no `\` leaves the parser reading a name.
proof fn lemma_plain_prefix(s: Seq<char>)
    requires
        !s.contains(':'),
        !s.contains('\\'),
    ensures
        run(s).0 == ParseState::Normal,
        !run(s).4,
        run(s).3 == default_font_size(),
    decreases s.len(),
{
    if s.len() > 0 {
        assert(!s.drop_last().contains(':') && !s.drop_last().contains('\\')) by {
            if s.drop_last().contains(':') || s.drop_last().contains('\\') {
                let i = choose|i: int|
                    0 <= i < s.drop_last().len() && (s.drop_last()[i] == ':' || s.drop_last()[i]
                        == '\\');
                assert(s[i] == s.drop_last()[i]);
            }
        }
        lemma_plain_prefix(s.drop_last());
        assert(s.last() == s[s.len() - 1]);
    }
}

/// Digits after `:h` or `:w` make the size their value.
proof fn lemma_digits(p: Progress, kind: SizeKind, d: Seq<char>)
    requires
        p.0 == ParseState::OptionSize(0, kind),
        !p.4,
        all_digits(d),
        decimal(d) <= u32::MAX,
    ensures
        run_from(p, d) == (ParseState::OptionSize(decimal(d) as u32, kind), p.1, p.2, p.3, false),
        decimal(d) >= 0,
    decreases d.len(),
{
    if d.len() > 0 {
        let u = d.drop_last();
        assert(all_digits(u)) by {
            assert forall|i: int| 0 <= i < u.len() implies '0' <= #[trigger] u[i] <= '9' by {
                assert(u[i] == d[i]);
            }
        }
        let c = d.last();
        assert('0' <= d[d.len() - 1] <= '9');
        assert(c == d[d.len() - 1]);
        lemma_decimal_nonneg(u);
        lemma_digits(p, kind, u);
    }
}

proof fn lemma_decimal_nonneg(d: Seq<char>)
    requires
        all_digits(d),
    ensures
        decimal(d) >= 0,
    decreases d.len(),
{
    if d.len() > 0 {
        let u = d.drop_last();
        assert forall|i: int| 0 <= i < u.len() implies '0' <= #[trigger] u[i] <= '9' by {
            assert(u[i] == d[i]);
        }
        lemma_decimal_nonneg(u);
        assert('0' <= d[d.len() - 1] <= '9');
    }
}

/// Text with no `:` read while a name is read, after an escape, or in an unknown option,
/// leaves the size alone.
proof fn lemma_no_colon_keeps_size(p: Progress, t: Seq<char>)
    requires
        p.0 == ParseState::Normal || p.0 == ParseState::Escape || p.0 == ParseState::OptionUnknown,
        !p.4,
        !t.contains(':'),
    ensures
        run_from(p, t).3 == p.3,
        run_from(p, t).0 == ParseState::Normal || run_from(p, t).0 == ParseState::Escape
            || run_from(p, t).0 == ParseState::OptionUnknown,
        !run_from(p, t).4,
    decreases t.len(),
{
    if t.len() > 0 {
        assert(!t.drop_last().contains(':')) by {
            if t.drop_last().contains(':') {
                let i = choose|i: int| 0 <= i < t.drop_last().len() && t.drop_last()[i] == ':';
                assert(t[i] == ':');
            }
        }
        lemma_no_colon_keeps_size(p, t.drop_last());
        assert(t.last() == t[t.len() - 1]);
    }
}

/// An unknown option runs up to the next `:`, and the parser is then where it was at the
/// `:` that began it.
proof fn lemma_unknown_option(p: Progress, opt: Seq<char>)
    requires
        p.0 == ParseState::OptionStart,
        !p.4,
        opt.len() >= 1,
        opt[0] != 'w' && opt[0] != 'W' && opt[0] != 'h' && opt[0] != 'H',
        forall|i: int| 1 <= i < opt.len() ==> #[trigger] opt[i] != ':' && opt[i] != ',',
    ensures
        run_from(p, opt) == (ParseState::OptionUnknown, p.1, p.2, p.3, false),
    decreases opt.len(),
{
    reveal_with_fuel(run_from, 3);
    if opt.len() > 1 {
        let u = opt.drop_last();
        assert(u[0] == opt[0]);
        assert forall|i: int| 1 <= i < u.len() implies #[trigger] u[i] != ':' && u[i] != ',' by {
            assert(u[i] == opt[i]);
        }
        lemma_unknown_option(p, u);
        assert(opt.last() == opt[opt.len() - 1]);
    } else {
        assert(opt.drop_last().len() == 0);
        assert(opt.last() == opt[0]);
    }
}

/// An unknown option is skipped up to the next `:`, which starts a new option: reading
/// `<s>:<opt>:<t>`, with `opt` an option that is not `w`, `W`, `h` or `H` and holds no `:`
/// or `,` after its first char, gives the same fonts and size as reading `<s>:<t>`, after a
/// text `s` with no `:` or `\`.
pub proof fn unknown_option_is_skipped(s: Seq<char>, opt: Seq<char>, t: Seq<char>)
    requires
        !s.contains(':'),
        !s.contains('\\'),
        opt.len() >= 1,
        opt[0] != 'w' && opt[0] != 'W' && opt[0] != 'h' && opt[0] != 'H',
        forall|i: int| 1 <= i < opt.len() ==> #[trigger] opt[i] != ':' && opt[i] != ',',
    ensures
        run(s + seq![':'] + opt + seq![':'] + t) == run(s + seq![':'] + t),
        parsed_fonts(s + seq![':'] + opt + seq![':'] + t) == parsed_fonts(s + seq![':'] + t),
        run(s + seq![':'] + opt + seq![':'] + t).3 == run(s + seq![':'] + t).3,
{
    reveal_with_fuel(run_from, 3);
    lemma_plain_prefix(s);
    let colon = s + seq![':'];
    lemma_run_append(s, seq![':']);
    assert(seq![':'].drop_last() =~= Seq::<char>::empty());
    let p = run(colon);
    assert(p == (ParseState::OptionStart, run(s).1, run(s).2, run(s).3, false));
    lemma_run_append(colon, opt);
    lemma_unknown_option(p, opt);
    lemma_run_append(colon + opt, seq![':']);
    assert(run(colon + opt + seq![':']) == p);
    lemma_run_append(colon + opt + seq![':'], t);
    lemma_run_append(colon, t);
    assert(s + seq![':'] + opt + seq![':'] + t =~= colon + opt + seq![':'] + t);
}

/// A size option ended by `,` sets the size: reading `<s>:h<d>,<t>` (or `:H`) gives the
/// height `d`, and `:w<d>` (or `:W`) the width `d`, where `s` holds no `:` or `\`, `d` is
/// a decimal numeral within a `u32`, and `t` holds no further option.
pub proof fn size_option_sets_size(s: Seq<char>, k: char, d: Seq<char>, t: Seq<char>)
    requires
        !s.contains(':'),
        !s.contains('\\'),
        k == 'h' || k == 'H' || k == 'w' || k == 'W',
        all_digits(d),
        decimal(d) <= u32::MAX,
        !t.contains(':'),
    ensures
        (k == 'h' || k == 'H') ==> run(s + seq![':', k] + d + seq![','] + t).3 == FontSize::Height(
            decimal(d) as u32,
        ),
        (k == 'w' || k == 'W') ==> run(s + seq![':', k] + d + seq![','] + t).3 == FontSize::Width(
            decimal(d) as u32,
        ),
        !run(s + seq![':', k] + d + seq![','] + t).4,
{
    reveal_with_fuel(run_from, 3);
    lemma_plain_prefix(s);
    let kind = if k == 'w' || k == 'W' {
        SizeKind::Width
    } else {
        SizeKind::Height
    };
    let pre = s + seq![':', k];
    lemma_run_append(s, seq![':', k]);
    assert(seq![':', k].drop_last() =~= seq![':']);
    assert(seq![':'].drop_last() =~= Seq::<char>::empty());
    let p = run(pre);
    assert(p == (ParseState::OptionSize(0, kind), run(s).1, run(s).2, run(s).3, false));
    lemma_run_append(pre, d);
    lemma_digits(p, kind, d);
    lemma_run_append(pre + d, seq![',']);
    assert(seq![','].drop_last() =~= Seq::<char>::empty());
    let q = run(pre + d + seq![',']);
    assert(q.3 == sized(decimal(d) as u32, kind));
    assert(q.0 == ParseState::Normal && !q.4);
    lemma_run_append(pre + d + seq![','], t);
    lemma_no_colon_keeps_size(q, t);
    assert(s + seq![':', k] + d + seq![','] + t =~= pre + d + seq![','] + t);
}

/// A size option at the very end, with nothing after its digits, sets no size: reading
/// `<s>:h<d>` keeps the default size, where `s` holds no `:` or `\`.
pub proof fn unended_size_option_keeps_default(s: Seq<char>, k: char, d: Seq<char>)
    requires
        !s.contains(':'),
        !s.contains('\\'),
        k == 'h' || k == 'H' || k == 'w' || k == 'W',
        all_digits(d),
        decimal(d) <= u32::MAX,
    ensures
        run(s + seq![':', k] + d).3 == default_font_size(),
{
    reveal_with_fuel(run_from, 3);
    lemma_plain_prefix(s);
    let kind = if k == 'w' || k == 'W' {
        SizeKind::Width
    } else {
        SizeKind::Height
    };
    let pre = s + seq![':', k];
    lemma_run_append(s, seq![':', k]);
    assert(seq![':', k].drop_last() =~= seq![':']);
    assert(seq![':'].drop_last() =~= Seq::<char>::empty());
    lemma_run_append(pre, d);
    lemma_digits(run(pre), kind, d);
}

/// Names separated by `,` are the fonts, in order, each with its underscores made spaces:
/// reading `<a>,<b>` gives the fonts `a` and `b`, where each is a name that does not start
/// with a blank and holds no `:`, `,` or `\`.
pub proof fn names_are_split_at_commas(a: Seq<char>, b: Seq<char>)
    requires
        a.len() > 0 && !is_white_space(a[0]),
        b.len() > 0 && !is_white_space(b[0]),
        forall|i: int| 0 <= i < a.len() ==> #[trigger] a[i] != ':' && a[i] != ',' && a[i] != '\\',
        forall|i: int| 0 <= i < b.len() ==> #[trigger] b[i] != ':' && b[i] != ',' && b[i] != '\\',
    ensures
        parsed_fonts(a + seq![','] + b) == seq![spaced(a), spaced(b)],
        run(a + seq![','] + b).3 == default_font_size(),
{
    reveal_with_fuel(run_from, 3);
    let p0 = start();
    assert(run(Seq::<char>::empty()) == p0);
    lemma_run_append(Seq::<char>::empty(), a);
    assert(Seq::<char>::empty() + a =~= a);
    lemma_name_chars(p0, a);
    assert(Seq::<char>::empty() + spaced(a) =~= spaced(a));
    lemma_run_append(a, seq![',']);
    assert(seq![','].drop_last() =~= Seq::<char>::empty());
    let q = run(a + seq![',']);
    assert(q == (ParseState::Normal, seq![spaced(a)], Seq::<char>::empty(), default_font_size(), false));
    lemma_run_append(a + seq![','], b);
    lemma_name_chars(q, b);
    assert(Seq::<char>::empty() + spaced(b) =~= spaced(b));
    assert(spaced(b).len() > 0);
}

/// After a `\`, everything is part of the name: reading `<a>\<t>` gives the one font `a`
/// followed by `t` as it is, for a name `a` as above and any `t`.
pub proof fn escape_takes_the_rest(a: Seq<char>, t: Seq<char>)
    requires
        a.len() > 0 && !is_white_space(a[0]),
        forall|i: int| 0 <= i < a.len() ==> #[trigger] a[i] != ':' && a[i] != ',' && a[i] != '\\',
    ensures
        parsed_fonts(a + seq!['\\'] + t) == seq![spaced(a) + t],
        run(a + seq!['\\'] + t).3 == default_font_size(),
{
    reveal_with_fuel(run_from, 3);
    let p0 = start();
    lemma_run_append(Seq::<char>::empty(), a);
    assert(Seq::<char>::empty() + a =~= a);
    lemma_name_chars(p0, a);
    assert(Seq::<char>::empty() + spaced(a) =~= spaced(a));
    lemma_run_append(a, seq!['\\']);
    assert(seq!['\\'].drop_last() =~= Seq::<char>::empty());
    let q = run(a + seq!['\\']);
    assert(q == (ParseState::Escape, Seq::<Seq<char>>::empty(), spaced(a), default_font_size(), false));
    lemma_run_append(a + seq!['\\'], t);
    lemma_escaped(q, t);
    assert(spaced(a).len() > 0);
    assert((spaced(a) + t).len() > 0);
}

/// After an escape, every char is appended.
proof fn lemma_escaped(p: Progress, t: Seq<char>)
    requires
        p.0 == ParseState::Escape,
        !p.4,
    ensures
        run_from(p, t) == (ParseState::Escape, p.1, p.2 + t, p.3, false),
    decreases t.len(),
{
    if t.len() == 0 {
        assert(p.2 + t =~= p.2);
    } else {
        lemma_escaped(p, t.drop_last());
        assert(p.2 + t.drop_last() + seq![t.last()] =~= p.2 + t);
    }
}

/// A size option ended by `:` sets the size too: reading `<s>:h<d>:<t>` gives the height
/// `d` (and `:w` the width), where `s` holds no `:` or `\`, `d` is a decimal numeral within
/// a `u32`, and `t` starts no other size option and holds no `:`.
pub proof fn size_option_ended_by_colon_sets_size(s: Seq<char>, k: char, d: Seq<char>, t: Seq<char>)
    requires
        !s.contains(':'),
        !s.contains('\\'),
        k == 'h' || k == 'H' || k == 'w' || k == 'W',
        all_digits(d),
        decimal(d) <= u32::MAX,
        !t.contains(':'),
        t.len() > 0 ==> t[0] != 'w' && t[0] != 'W' && t[0] != 'h' && t[0] != 'H',
    ensures
        (k == 'h' || k == 'H') ==> run(s + seq![':', k] + d + seq![':'] + t).3 == FontSize::Height(
            decimal(d) as u32,
        ),
        (k == 'w' || k == 'W') ==> run(s + seq![':', k] + d + seq![':'] + t).3 == FontSize::Width(
            decimal(d) as u32,
        ),
{
    reveal_with_fuel(run_from, 3);
    lemma_plain_prefix(s);
    let kind = if k == 'w' || k == 'W' {
        SizeKind::Width
    } else {
        SizeKind::Height
    };
    let pre = s + seq![':', k];
    lemma_run_append(s, seq![':', k]);
    assert(seq![':', k].drop_last() =~= seq![':']);
    assert(seq![':'].drop_last() =~= Seq::<char>::empty());
    let p = run(pre);
    lemma_run_append(pre, d);
    lemma_digits(p, kind, d);
    lemma_run_append(pre + d, seq![':']);
    let q = run(pre + d + seq![':']);
    assert(q.0 == ParseState::OptionStart && !q.4 && q.3 == sized(decimal(d) as u32, kind));
    lemma_run_append(pre + d + seq![':'], t);
    if t.len() > 0 {
        let first = seq![t[0]];
        let rest = t.subrange(1, t.len() as int);
        assert(t =~= first + rest);
        assert(first.drop_last() =~= Seq::<char>::empty());
        let u = run_from(q, first);
        assert(u.0 == ParseState::OptionUnknown && !u.4 && u.3 == q.3);
        lemma_run_from_append(q, first, rest);
        assert(!rest.contains(':')) by {
            if rest.contains(':') {
                let i = choose|i: int| 0 <= i < rest.len() && rest[i] == ':';
                assert(t[i + 1] == ':');
            }
        }
        lemma_no_colon_keeps_size(u, rest);
    }
    assert(s + seq![':', k] + d + seq![':'] + t =~= pre + d + seq![':'] + t);
}

/// Reading `t` then `u` from `p` is reading `u` from where `t` left the parser.
proof fn lemma_run_from_append(p: Progress, t: Seq<char>, u: Seq<char>)
    ensures
        run_from(p, t + u) == run_from(run_from(p, t), u),
    decreases u.len(),
{
    if u.len() == 0 {
        assert(t + u =~= t);
    } else {
        lemma_run_from_append(p, t, u.drop_last());
        assert((t + u).drop_last() =~= t + u.drop_last());
        assert((t + u).last() == u.last());
    }
}

/// Blanks before anything else are skipped: reading `<w><t>`, with `w` all blanks, is
/// reading `t`.
pub proof fn leading_blanks_are_skipped(w: Seq<char>, t: Seq<char>)
    requires
        forall|i: int| 0 <= i < w.len() ==> is_white_space(#[trigger] w[i]),
    ensures
        run(w + t) == run(t),
        parsed_fonts(w + t) == parsed_fonts(t),
{
    lemma_blanks(w);
    lemma_run_append(w, t);
    lemma_run_append(Seq::<char>::empty(), t);
    assert(Seq::<char>::empty() + t =~= t);
}

/// Blanks alone leave the parser where it starts.
proof fn lemma_blanks(w: Seq<char>)
    requires
        forall|i: int| 0 <= i < w.len() ==> is_white_space(#[trigger] w[i]),
    ensures
        run(w) == start(),
    decreases w.len(),
{
    if w.len() > 0 {
        let u = w.drop_last();
        assert forall|i: int| 0 <= i < u.len() implies is_white_space(#[trigger] u[i]) by {
            assert(u[i] == w[i]);
        }
        lemma_blanks(u);
        assert(is_white_space(w[w.len() - 1]));
    }
}

/// A size option with a char that is no digit, `,` or `:` stops the parser: nothing after
/// that char changes the fonts or the size.
pub proof fn bad_size_stops_parsing(s: Seq<char>, k: char, d: Seq<char>, x: char, t: Seq<char>)
    requires
        !s.contains(':'),
        !s.contains('\\'),
        k == 'h' || k == 'H' || k == 'w' || k == 'W',
        all_digits(d),
        decimal(d) <= u32::MAX,
        !('0' <= x <= '9') && x != ',' && x != ':',
    ensures
        run(s + seq![':', k] + d + seq![x] + t) == run(s + seq![':', k] + d + seq![x]),
        parsed_fonts(s + seq![':', k] + d + seq![x] + t) == parsed_fonts(s + seq![':', k] + d + seq![x]),
        run(s + seq![':', k] + d + seq![x] + t).3 == default_font_size(),
{
    reveal_with_fuel(run_from, 3);
    lemma_plain_prefix(s);
    let kind = if k == 'w' || k == 'W' {
        SizeKind::Width
    } else {
        SizeKind::Height
    };
    let pre = s + seq![':', k];
    lemma_run_append(s, seq![':', k]);
    assert(seq![':', k].drop_last() =~= seq![':']);
    assert(seq![':'].drop_last() =~= Seq::<char>::empty());
    lemma_run_append(pre, d);
    lemma_digits(run(pre), kind, d);
    lemma_run_append(pre + d, seq![x]);
    assert(seq![x].drop_last() =~= Seq::<char>::empty());
    let q = run(pre + d + seq![x]);
    assert(q.4 && q.3 == default_font_size());
    lemma_run_append(pre + d + seq![x], t);
    lemma_stopped_stays(q, t);
    assert(s + seq![':', k] + d + seq![x] + t =~= pre + d + seq![x] + t);
    assert(s + seq![':', k] + d + seq![x] =~= pre + d + seq![x]);
}

/// A stopped parser reads nothing more.
proof fn lemma_stopped_stays(p: Progress, t: Seq<char>)
    requires
        p.4,
    ensures
        run_from(p, t) == p,
    decreases t.len(),
{
    if t.len() > 0 {
        lemma_stopped_stays(p, t.drop_last());
    }
}

/// A `,` at the end adds no empty font: reading `<a>,` gives the one font `a`, for a name
/// `a` that does not start with a blank and holds no `:`, `,` or `\`.
pub proof fn trailing_comma_adds_no_font(a: Seq<char>)
    requires
        a.len() > 0 && !is_white_space(a[0]),
        forall|i: int| 0 <= i < a.len() ==> #[trigger] a[i] != ':' && a[i] != ',' && a[i] != '\\',
    ensures
        parsed_fonts(a + seq![',']) == seq![spaced(a)],
{
    reveal_with_fuel(run_from, 3);
    let p0 = start();
    lemma_run_append(Seq::<char>::empty(), a);
    assert(Seq::<char>::empty() + a =~= a);
    lemma_name_chars(p0, a);
    assert(Seq::<char>::empty() + spaced(a) =~= spaced(a));
    lemma_run_append(a, seq![',']);
    assert(seq![','].drop_last() =~= Seq::<char>::empty());
}

} // verus!
