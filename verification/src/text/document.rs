//! A text: its buffer lines, the visual lines it is shown as, and its style spans.
use vstd::prelude::*;
use crate::line::{grapheme_count, units_width};
use crate::strings::{chars_of, string_of};
use crate::text::buffer_line::BufferLine;
use crate::text::styles::{ends_fit, flatten_spans, flattened, lemma_key_sorted_line_sorted, sort_spans, sorted_spans};
use crate::text::visual::{
    StyleSpan, StyledUnit, UnitView, VisualGrapheme, VisualLine, parts_for, styled_with, text_line_view,
    unit_view, units_view, wrapped_rows, last_index, lemma_wrapped_rows,
};
use crate::text::lines::{joined, lemma_joined_push_empty, lemma_lines_of_join, lines_of, split_lines};
use crate::unicode::grapheme_split;

verus! {

/// Text wrapping options
#[derive(Debug, Clone, Copy, PartialEq, Eq, Structural)]
pub enum TextWrap {
    /// No wrapping
    NoWrap,
    /// Break at whitespace
    Word,
    /// Break at character
    All,
}

impl Default for TextWrap {
    fn default() -> (r: Self)
        ensures
            r == TextWrap::All,
    {
        TextWrap::All
    }
}

/// Text object with styles and wrapping
#[derive(Debug)]
pub struct Text {
    /// Text content, source of truth
    pub input: Vec<BufferLine>,
    pub visual: Vec<VisualLine>,
    pub styles: Vec<StyleSpan>,
    /// Text wrapping style
    pub wrap: TextWrap,
    /// Cursor position in the text, used for rendering
    pub cursor: Option<(u16, u16)>,
}

/// The visual lines as (units, line index, offset).
pub open spec fn line_triples(v: Seq<VisualLine>) -> Seq<(Seq<StyledUnit>, int, int)> {
    v.map_values(|l: VisualLine| (l.content@, l.line_index as int, l.offset as int))
}

/// The rows a visual line is wrapped into (see [`VisualLine::into_wrapped`]).
pub open spec fn wrapped_line(content: Seq<StyledUnit>, line_index: int, offset: int, max_width: u16) -> Seq<(Seq<StyledUnit>, int, int)> {
    let parts = parts_for(units_width(content), max_width);
    if parts <= 1 {
        seq![(content, line_index, offset)]
    } else if max_width == 0 {
        Seq::new(parts, |k: int| (Seq::<StyledUnit>::empty(), line_index, offset + k))
    } else {
        let rows = wrapped_rows(content, max_width as nat, offset);
        Seq::new(rows.len(), |k: int| (rows[k].0, line_index, rows[k].1))
    }
}

/// The wrapped rows of `into_wrapped` as triples.
proof fn lemma_wrapped_triples(r: Seq<VisualLine>, content: Seq<StyledUnit>, line_index: usize, offset: usize, max_width: u16)
    requires
        ({
            let parts = parts_for(units_width(content), max_width);
            if parts <= 1 {
                r.len() == 1 && r[0].content@ == content && r[0].line_index == line_index && r[0].offset == offset
            } else if max_width == 0 {
                &&& r.len() == parts
                &&& forall|k: int|
                    0 <= k < parts ==> (#[trigger] r[k]).content@.len() == 0 && r[k].line_index == line_index
                        && r[k].offset == offset + k
            } else {
                let rows = wrapped_rows(content, max_width as nat, offset as int);
                &&& r.len() == rows.len()
                &&& forall|k: int|
                    0 <= k < rows.len() ==> (#[trigger] r[k]).content@ == rows[k].0 && r[k].line_index == line_index
                        && r[k].offset == rows[k].1
            }
        }),
    ensures
        line_triples(r) == wrapped_line(content, line_index as int, offset as int, max_width),
        r.len() >= 1,
{
    let parts = parts_for(units_width(content), max_width);
    if parts <= 1 {
        assert(line_triples(r) =~= wrapped_line(content, line_index as int, offset as int, max_width));
    } else if max_width == 0 {
        assert forall|k: int| 0 <= k < parts implies #[trigger] r[k].content@ == Seq::<StyledUnit>::empty() by {
            assert(r[k].content@ =~= Seq::<StyledUnit>::empty());
        }
        assert(line_triples(r) =~= wrapped_line(content, line_index as int, offset as int, max_width));
    } else {
        assert(line_triples(r) =~= wrapped_line(content, line_index as int, offset as int, max_width));
        if content.len() == 0 {
            assert(units_width(content) == 0);
        }
        lemma_wrapped_rows(content, max_width as nat, offset as int);
    }
}

/// The character a control character is shown with after a caret, if it is one.
pub open spec fn control_pair(c: char) -> Option<char> {
    if (c as u32) <= 0x1f {
        Some(((c as u32) + 0x40) as char)
    } else if c == '\u{7f}' {
        Some('?')
    } else {
        None
    }
}

/// The units a unit is shown as: a grapheme starting with a control character becomes a caret
/// and a printable character, both one column wide with the grapheme's index.
pub open spec fn expand_control(u: UnitView) -> Seq<UnitView> {
    match u {
        UnitView::Grapheme(text, _, index) => if text.len() > 0 && control_pair(text[0]) is Some {
            seq![UnitView::Grapheme(seq!['^'], 1, index), UnitView::Grapheme(seq![control_pair(text[0])->0], 1, index)]
        } else {
            seq![u]
        },
        UnitView::Code(_) => seq![u],
    }
}

/// The units with every control grapheme expanded.
pub open spec fn sanitized(v: Seq<UnitView>) -> Seq<UnitView>
    decreases v.len(),
{
    if v.len() == 0 {
        seq![]
    } else {
        sanitized(v.drop_last()) + expand_control(v.last())
    }
}

/// The printable character shown for a control character.
fn control_char(c: char) -> (r: Option<char>)
    ensures
        r == control_pair(c),
{
    if c <= '\u{1f}' {
        let code = c as u32 + 0x40;
        proof {
            assert(code <= 0x5f);
        }
        Some(char_from_ascii(code as u8))
    } else if c == '\u{7f}' {
        Some('?')
    } else {
        None
    }
}

/// The character of an ASCII code.
fn char_from_ascii(b: u8) -> (r: char)
    requires
        b < 128,
    ensures
        r as u32 == b as u32,
{
    b as char
}

/// The units of a visual line with control graphemes expanded.
fn sanitize_units(content: &Vec<StyledUnit>) -> (r: Vec<StyledUnit>)
    ensures
        units_view(r@) == sanitized(units_view(content@)),
{
    let mut out: Vec<StyledUnit> = Vec::new();
    let mut i: usize = 0;
    while i < content.len()
        invariant
            i <= content@.len(),
            units_view(out@) == sanitized(units_view(content@.take(i as int))),
        decreases content@.len() - i,
    {
        proof {
            assert(units_view(content@.take(i + 1)).drop_last() =~= units_view(content@.take(i as int)));
            assert(units_view(content@.take(i + 1)).last() == unit_view(content@[i as int]));
        }
        let ghost before = units_view(out@);
        match &content[i] {
            StyledUnit::Grapheme(g) => {
                let chars = chars_of(g.str.as_str());
                let pair = if chars.len() > 0 { control_char(chars[0]) } else { None };
                match pair {
                    Some(b) => {
                        let mut caret: Vec<char> = Vec::new();
                        caret.push('^');
                        let mut second: Vec<char> = Vec::new();
                        second.push(b);
                        out.push(StyledUnit::Grapheme(VisualGrapheme::new(string_of(&caret), 1, g.grapheme_index)));
                        out.push(StyledUnit::Grapheme(VisualGrapheme::new(string_of(&second), 1, g.grapheme_index)));
                        proof {
                            assert(caret@ =~= seq!['^']);
                            assert(second@ =~= seq![b]);
                            assert(units_view(out@) =~= before + expand_control(unit_view(content@[i as int])));
                        }
                    },
                    None => {
                        out.push(content[i].clone());
                        proof {
                            assert(units_view(out@) =~= before + expand_control(unit_view(content@[i as int])));
                        }
                    },
                }
            },
            StyledUnit::Code(c) => {
                out.push(StyledUnit::Code(*c));
                proof {
                    assert(units_view(out@) =~= before + expand_control(unit_view(content@[i as int])));
                }
            },
        }
        i = i + 1;
    }
    proof {
        assert(content@.take(i as int) =~= content@);
    }
    out
}

impl Text {
    /// Sanitizes the visual text: every grapheme starting with a control character is shown as
    /// a caret and a printable character.
    pub fn sanitize(&mut self)
        ensures
            final(self).input@ == old(self).input@,
            final(self).styles@ == old(self).styles@,
            final(self).wrap == old(self).wrap,
            final(self).cursor == old(self).cursor,
            final(self).visual@.len() == old(self).visual@.len(),
            forall|k: int|
                0 <= k < final(self).visual@.len() ==> {
                    &&& units_view((#[trigger] final(self).visual@[k]).content@) == sanitized(units_view(old(self).visual@[k].content@))
                    &&& final(self).visual@[k].line_index == old(self).visual@[k].line_index
                    &&& final(self).visual@[k].offset == old(self).visual@[k].offset
                },
    {
        let mut k: usize = 0;
        while k < self.visual.len()
            invariant
                k <= self.visual@.len(),
                self.visual@.len() == old(self).visual@.len(),
                self.input@ == old(self).input@,
                self.styles@ == old(self).styles@,
                self.wrap == old(self).wrap,
                self.cursor == old(self).cursor,
                forall|j: int|
                    0 <= j < self.visual@.len() ==> {
                        &&& (#[trigger] self.visual@[j]).line_index == old(self).visual@[j].line_index
                        &&& self.visual@[j].offset == old(self).visual@[j].offset
                        &&& if j < k {
                            units_view(self.visual@[j].content@) == sanitized(units_view(old(self).visual@[j].content@))
                        } else {
                            self.visual@[j].content@ == old(self).visual@[j].content@
                        }
                    },
            decreases self.visual@.len() - k,
        {
            let content = sanitize_units(&self.visual[k].content);
            self.visual[k].content = content;
            k = k + 1;
        }
    }

    /// Returns visual text size `(width, height)` bound to the terminal size `(columns, rows)`
    /// (zero when it is unknown): the widest visual line and the number of visual lines.
    pub fn get_visual_size(&self, terminal: Option<(u16, u16)>) -> (r: (u16, u16))
        requires
            forall|k: int| 0 <= k < self.visual@.len() ==> units_width((#[trigger] self.visual@[k]).content@) <= usize::MAX,
        ensures
            ({
                let (cols, rows) = match terminal {
                    Some(t) => t,
                    None => (0u16, 0u16),
                };
                let width = crate::canvas::max_row_width(self.visual@.map_values(|l: VisualLine| l.content@));
                &&& r.0 == if width < cols { width } else { cols as nat }
                &&& r.1 == if self.visual@.len() < rows { self.visual@.len() } else { rows as nat }
            }),
    {
        let (cols, rows) = match terminal {
            Some(t) => t,
            None => (0, 0),
        };
        let ghost v = self.visual@.map_values(|l: VisualLine| l.content@);
        let mut width: usize = 0;
        let mut k: usize = 0;
        while k < self.visual.len()
            invariant
                k <= self.visual@.len(),
                v == self.visual@.map_values(|l: VisualLine| l.content@),
                forall|j: int| 0 <= j < self.visual@.len() ==> units_width((#[trigger] self.visual@[j]).content@) <= usize::MAX,
                width == crate::canvas::max_row_width(v.take(k as int)),
            decreases self.visual@.len() - k,
        {
            proof {
                assert(v.take(k + 1).drop_last() =~= v.take(k as int));
                assert(v.take(k + 1).last() == self.visual@[k as int].content@);
            }
            let w = self.visual[k].width();
            if w > width {
                width = w;
            }
            k = k + 1;
        }
        proof {
            assert(v.take(k as int) =~= v);
        }
        let w = if width < cols as usize { width as u16 } else { cols };
        let n = self.visual.len();
        let h = if n < rows as usize { n as u16 } else { rows };
        (w, h)
    }
}

/// The styles applied to line `li` (of `count` graphemes) from span `j` on: spans of earlier
/// lines are skipped, spans of this line applied in order (unless they start at or after the
/// line's end), and the walk stops at the first span of a later line.
pub open spec fn style_walk(v: Seq<UnitView>, spans: Seq<StyleSpan>, j: nat, li: usize, count: nat) -> (Seq<UnitView>, nat)
    decreases spans.len() - j,
{
    if j >= spans.len() {
        (v, j)
    } else {
        let x = spans[j as int];
        if x.line < li {
            style_walk(v, spans, j + 1, li, count)
        } else if x.line > li {
            (v, j)
        } else {
            let v2 = if x.character >= count { v } else { styled_with(v, x.code, x.character, x.length) };
            style_walk(v2, spans, j + 1, li, count)
        }
    }
}

/// The styled units of the first `n` lines of text, and where the walk over the spans ended.
pub open spec fn styled_lines(inputs: Seq<Seq<char>>, spans: Seq<StyleSpan>, n: nat) -> (Seq<Seq<UnitView>>, nat)
    decreases n,
{
    if n == 0 {
        (seq![], 0)
    } else {
        let (lines, j) = styled_lines(inputs, spans, (n - 1) as nat);
        let li = (n - 1) as int;
        let (v, j2) = style_walk(text_line_view(inputs[li]), spans, j, li as usize, grapheme_split(inputs[li]).len());
        (lines.push(v), j2)
    }
}

/// The text of each buffer line.
pub open spec fn input_texts(input: Seq<BufferLine>) -> Seq<Seq<char>> {
    input.map_values(|b: BufferLine| b@)
}

/// `t` is the plain text of `s`: its lines, no styles, and each line shown as its graphemes
/// (control characters expanded) on up to `terminal_rows` lines, when known.
pub open spec fn is_plain_text(t: Text, s: Seq<char>, terminal_rows: Option<u16>) -> bool {
    let h: nat = match terminal_rows {
        Some(r) => r as nat,
        None => u16::MAX as nat,
    };
    let n = if h < t.input@.len() { h } else { t.input@.len() };
    &&& input_texts(t.input@) == plain_lines(s)
    &&& t.styles@.len() == 0
    &&& t.wrap == TextWrap::All
    &&& t.cursor is None
    &&& t.visual@.len() == n
    &&& forall|k: int|
        0 <= k < n ==> {
            &&& units_view((#[trigger] t.visual@[k]).content@) == sanitized(text_line_view(plain_lines(s)[k]))
            &&& t.visual@[k].line_index == k
            &&& t.visual@[k].offset == 0
        }
}

/// With no spans, every line is shown as its graphemes.
proof fn lemma_styled_lines_no_spans(inputs: Seq<Seq<char>>, n: nat)
    ensures
        styled_lines(inputs, seq![], n).1 == 0,
        styled_lines(inputs, seq![], n).0.len() == n,
        forall|k: int| 0 <= k < n ==> #[trigger] styled_lines(inputs, seq![], n).0[k] == text_line_view(inputs[k]),
    decreases n,
{
    if n > 0 {
        lemma_styled_lines_no_spans(inputs, (n - 1) as nat);
    }
}

/// The lines of a plain text: those of the string, plus an empty last line when the string is
/// empty or ends with a line feed.
pub open spec fn plain_lines(s: Seq<char>) -> Seq<Seq<char>> {
    if s.len() == 0 || s.last() == '\n' {
        lines_of(s).push(seq![])
    } else {
        lines_of(s)
    }
}

/// The lines of a plain text, joined by line feeds, give back its string when the string has
/// no carriage return: making a text of a string loses none of it.
pub proof fn lemma_plain_lines_join(s: Seq<char>)
    requires
        !s.contains('\r'),
    ensures
        joined(plain_lines(s)) == s,
{
    lemma_lines_of_join(s);
    if s.len() == 0 {
        assert(lines_of(s) =~= Seq::<Seq<char>>::empty());
        assert(lines_of(s).push(seq![]) =~= seq![seq![]]);
    } else if s.last() == '\n' {
        crate::text::lines::lemma_lines_nonempty(s);
        lemma_joined_push_empty(lines_of(s));
    } else {
        assert(joined(lines_of(s)) + seq![] =~= joined(lines_of(s)));
    }
}

impl Text {
    fn new_from(input: Vec<BufferLine>) -> (r: Self)
        ensures
            r.input@ == input@,
            r.visual@.len() == 0,
            r.styles@.len() == 0,
            r.wrap == TextWrap::All,
            r.cursor is None,
    {
        Text { input, visual: Vec::new(), styles: Vec::new(), wrap: TextWrap::All, cursor: None }
    }

    /// Sort and flatten styles
    pub fn prepare_styles(&mut self)
        requires
            ends_fit(old(self).styles@),
        ensures
            final(self).styles@ == flattened(sorted_spans(old(self).styles@)),
            ends_fit(final(self).styles@),
            final(self).input@ == old(self).input@,
            final(self).visual@ == old(self).visual@,
            final(self).wrap == old(self).wrap,
            final(self).cursor == old(self).cursor,
    {
        let sorted = sort_spans(&self.styles);
        proof {
            lemma_key_sorted_line_sorted(sorted@);
        }
        self.styles = flatten_spans(&sorted);
    }

    /// Prepares the text and apply styles: one visual line per buffer line, up to `height`
    /// lines (and up to the terminal's `terminal_rows`, when known), each styled by the
    /// flattened spans of its line, then sanitized.
    pub fn prepare_text(&mut self, height: u16, terminal_rows: Option<u16>)
        requires
            ends_fit(old(self).styles@),
        ensures
            ({
                let h: nat = match terminal_rows {
                    Some(t) => if t < height { t as nat } else { height as nat },
                    None => height as nat,
                };
                let n = if h < old(self).input@.len() { h } else { old(self).input@.len() };
                let spans = flattened(sorted_spans(old(self).styles@));
                let lines = styled_lines(input_texts(old(self).input@), spans, n).0;
                &&& final(self).styles@ == spans
                &&& final(self).input@ == old(self).input@
                &&& final(self).wrap == old(self).wrap
                &&& final(self).cursor == old(self).cursor
                &&& final(self).visual@.len() == n
                &&& forall|k: int|
                    0 <= k < n ==> {
                        &&& units_view((#[trigger] final(self).visual@[k]).content@) == sanitized(lines[k])
                        &&& final(self).visual@[k].line_index == k
                        &&& final(self).visual@[k].offset == 0
                    }
            }),
    {
        let h = match terminal_rows {
            Some(t) => if t < height { t } else { height },
            None => height,
        };
        self.prepare_styles();
        let ghost spans = self.styles@;
        let ghost inputs = input_texts(self.input@);
        let n = if (h as usize) < self.input.len() { h as usize } else { self.input.len() };
        let mut visual_lines: Vec<VisualLine> = Vec::new();
        let mut j: usize = 0;
        let mut li: usize = 0;
        while li < n
            invariant
                li <= n,
                n <= self.input@.len(),
                spans == self.styles@,
                inputs == input_texts(self.input@),
                ends_fit(spans),
                j <= spans.len(),
                j == styled_lines(inputs, spans, li as nat).1,
                visual_lines@.len() == li,
                forall|k: int|
                    0 <= k < li ==> {
                        &&& units_view((#[trigger] visual_lines@[k]).content@) == styled_lines(inputs, spans, li as nat).0[k]
                        &&& visual_lines@[k].line_index == k
                        &&& visual_lines@[k].offset == 0
                    },
                styled_lines(inputs, spans, li as nat).0.len() == li,
            decreases n - li,
        {
            let grapheme_count = self.input[li].count();
            let mut visual_line = VisualLine::from_buffer_line(&self.input[li], li);
            proof {
                assert(inputs[li as int] == self.input@[li as int]@);
            }
            let ghost start_j = j;
            while j < self.styles.len() && self.styles[j].line <= li
                invariant
                    start_j <= j <= spans.len(),
                    spans == self.styles@,
                    ends_fit(spans),
                    visual_line.line_index == li,
                    visual_line.offset == 0,
                    grapheme_count == grapheme_split(inputs[li as int]).len(),
                    style_walk(text_line_view(inputs[li as int]), spans, start_j as nat, li, grapheme_count as nat)
                        == style_walk(units_view(visual_line.content@), spans, j as nat, li, grapheme_count as nat),
                decreases spans.len() - j,
            {
                let x = self.styles[j];
                if x.line == li && x.character < grapheme_count {
                    proof {
                        assert(x.character + x.length <= usize::MAX);
                    }
                    visual_line.add_style(x.code, x.character, x.length);
                }
                j = j + 1;
            }
            let ghost before = visual_lines@;
            visual_lines.push(visual_line);
            proof {
                assert(visual_lines@[li as int] == visual_line);
            }
            li = li + 1;
        }
        self.visual = visual_lines;
        self.sanitize();
    }
}

impl Text {
    /// The buffer lines of a plain text (see [`plain_lines`]).
    pub fn plain_input(input: &str) -> (r: Vec<BufferLine>)
        ensures
            input_texts(r@) == plain_lines(input@),
    {
        let chars = chars_of(input);
        let lines = split_lines(&chars);
        let mut buffer: Vec<BufferLine> = Vec::new();
        let mut i: usize = 0;
        while i < lines.len()
            invariant
                i <= lines@.len(),
                lines@.len() == lines_of(input@).len(),
                forall|k: int| 0 <= k < lines@.len() ==> (#[trigger] lines@[k])@ == lines_of(input@)[k],
                buffer@.len() == i,
                forall|k: int| 0 <= k < i ==> (#[trigger] buffer@[k])@ == lines_of(input@)[k],
            decreases lines@.len() - i,
        {
            buffer.push(BufferLine::new(string_of(&lines[i])));
            i = i + 1;
        }
        let n = chars.len();
        if n == 0 || chars[n - 1] == '\n' {
            buffer.push(BufferLine::default());
        }
        proof {
            assert(input_texts(buffer@) =~= plain_lines(input@));
        }
        buffer
    }

    /// Creates a text object from a string: one buffer line per line of the string, shown with
    /// no style on up to `terminal_rows` lines (when known).
    pub fn plain(input: &str, terminal_rows: Option<u16>) -> (r: Self)
        ensures
            is_plain_text(r, input@, terminal_rows),
    {
        let buffer = Self::plain_input(input);
        let mut text = Self::new_from(buffer);
        proof {
            assert(ends_fit(text.styles@));
            assert(sorted_spans(text.styles@) =~= Seq::<StyleSpan>::empty());
            assert(flattened(Seq::<StyleSpan>::empty()) =~= Seq::<StyleSpan>::empty());
            lemma_styled_lines_no_spans(input_texts(text.input@), text.input@.len());
            let m = text.input@.len();
            lemma_styled_lines_no_spans(input_texts(text.input@), if terminal_rows is Some && (terminal_rows->0 as nat) < m { terminal_rows->0 as nat } else if (u16::MAX as nat) < m { u16::MAX as nat } else { m });
        }
        text.prepare_text(u16::MAX, terminal_rows);
        text
    }

    /// Adds new styles to the existing one, re-prepares text
    pub fn add_styles(&mut self, style: Vec<StyleSpan>, terminal_rows: Option<u16>)
        requires
            ends_fit(old(self).styles@ + style@),
        ensures
            ({
                let h: nat = match terminal_rows {
                    Some(t) => t as nat,
                    None => u16::MAX as nat,
                };
                let n = if h < old(self).input@.len() { h } else { old(self).input@.len() };
                let spans = flattened(sorted_spans(old(self).styles@ + style@));
                let lines = styled_lines(input_texts(old(self).input@), spans, n).0;
                &&& final(self).styles@ == spans
                &&& final(self).input@ == old(self).input@
                &&& final(self).wrap == old(self).wrap
                &&& final(self).cursor == old(self).cursor
                &&& final(self).visual@.len() == n
                &&& forall|k: int|
                    0 <= k < n ==> {
                        &&& units_view((#[trigger] final(self).visual@[k]).content@) == sanitized(lines[k])
                        &&& final(self).visual@[k].line_index == k
                        &&& final(self).visual@[k].offset == 0
                    }
            }),
    {
        let mut more = style;
        self.styles.append(&mut more);
        self.prepare_text(u16::MAX, terminal_rows);
    }
}

/// A visual line as (units, line index, offset).
pub type LineTriple = (Seq<StyledUnit>, int, int);

/// Merging the wrapped rows of the lines back: a row with a zero offset starts a line, any
/// other row is appended to the line before it.
pub open spec fn merge_fold(v: Seq<LineTriple>) -> (Seq<LineTriple>, Option<LineTriple>)
    decreases v.len(),
{
    if v.len() == 0 {
        (seq![], None)
    } else {
        let (done, cur) = merge_fold(v.drop_last());
        let l = v.last();
        if l.2 == 0 {
            (match cur {
                Some(c) => done.push(c),
                None => done,
            }, Some(l))
        } else {
            match cur {
                Some(c) => (done, Some((c.0 + l.0, c.1, c.2))),
                None => (done, Some(l)),
            }
        }
    }
}

/// The lines merged back from their rows.
pub open spec fn merged(v: Seq<LineTriple>) -> Seq<LineTriple> {
    let (done, cur) = merge_fold(v);
    match cur {
        Some(c) => done.push(c),
        None => done,
    }
}

/// Rows that all start at offset zero are lines of their own: merging keeps their number.
proof fn lemma_merge_fold_starts(v: Seq<LineTriple>)
    requires
        forall|k: int| 0 <= k < v.len() ==> (#[trigger] v[k]).2 == 0,
    ensures
        merge_fold(v).0.len() + (if merge_fold(v).1 is Some { 1int } else { 0int }) == v.len(),
        v.len() > 0 ==> merge_fold(v).1 is Some,
    decreases v.len(),
{
    if v.len() > 0 {
        assert forall|k: int| 0 <= k < v.drop_last().len() implies (#[trigger] v.drop_last()[k]).2 == 0 by {
            assert(v.drop_last()[k] == v[k]);
        }
        lemma_merge_fold_starts(v.drop_last());
        assert(v.last().2 == 0);
    }
}

/// Merging lines that all start at offset zero keeps their number.
proof fn lemma_merged_all_starts(v: Seq<LineTriple>)
    ensures
        (forall|k: int| 0 <= k < v.len() ==> (#[trigger] v[k]).2 == 0) ==> merged(v).len() == v.len(),
{
    if forall|k: int| 0 <= k < v.len() ==> (#[trigger] v[k]).2 == 0 {
        lemma_merge_fold_starts(v);
    }
}

/// The merged lines wrapped again to `width` columns.
pub open spec fn rewrapped(v: Seq<LineTriple>, width: u16) -> Seq<LineTriple> {
    merged(v).map_values(|t: LineTriple| wrapped_line(t.0, t.1, t.2, width)).flatten()
}

/// A merged line can be wrapped: its width and offsets can be counted.
pub open spec fn wrappable(t: LineTriple) -> bool {
    &&& t.2 + units_width(t.0) <= usize::MAX
    &&& t.2 + grapheme_count(t.0) <= usize::MAX
}

impl Text {
    /// Wraps the visual text to the specified width: rows are merged back into their lines (a
    /// row with a zero offset starts a line) and every line is wrapped again. Returns the
    /// number of lines that wrapping added: the visual lines now less the lines merged back,
    /// which on a prepared text (every visual line at offset zero) is the number of visual
    /// lines now less the number before the call.
    pub fn wrap_text(&mut self, width: u16) -> (r: usize)
        requires
            forall|k: int| 0 <= k < merged(line_triples(old(self).visual@)).len() ==> wrappable(
                #[trigger] merged(line_triples(old(self).visual@))[k],
            ),
        ensures
            line_triples(final(self).visual@) == rewrapped(line_triples(old(self).visual@), width),
            r == final(self).visual@.len() - merged(line_triples(old(self).visual@)).len(),
            (forall|k: int| 0 <= k < old(self).visual@.len() ==> (#[trigger] old(self).visual@[k]).offset == 0)
                ==> r == final(self).visual@.len() - old(self).visual@.len(),
            final(self).input@ == old(self).input@,
            final(self).styles@ == old(self).styles@,
            final(self).wrap == old(self).wrap,
            final(self).cursor == old(self).cursor,
    {
        let mut rows: Vec<VisualLine> = Vec::new();
        std::mem::swap(&mut rows, &mut self.visual);
        let ghost all = line_triples(rows@);
        let total_rows = rows.len();
        let ghost total = rows@.len();
        let mut unwrapped: Vec<VisualLine> = Vec::new();
        let mut current: Option<VisualLine> = None;
        let mut k: usize = 0;
        proof {
            assert(all.take(0) =~= Seq::<LineTriple>::empty());
        }
        while rows.len() > 0
            invariant
                k + rows@.len() == total,
                total == total_rows,
                all.len() == total,
                line_triples(rows@) == all.skip(k as int),
                ({
                    let (done, cur) = merge_fold(all.take(k as int));
                    &&& line_triples(unwrapped@) == done
                    &&& match current {
                        Some(c) => cur == Some((c.content@, c.line_index as int, c.offset as int)),
                        None => cur is None,
                    }
                }),
            decreases rows@.len(),
        {
            let ghost before_rows = rows@;
            let mut line = rows.remove(0);
            proof {
                assert(all.take(k + 1).drop_last() =~= all.take(k as int));
                assert(all.take(k + 1).last() == all[k as int]);
                assert(line_triples(before_rows)[0] == all[k as int]);
                assert(rows@ =~= before_rows.subrange(1, before_rows.len() as int));
                assert forall|j: int| 0 <= j < rows@.len() implies #[trigger] line_triples(rows@)[j] == all.skip(k + 1)[j] by {
                    assert(rows@[j] == before_rows[j + 1]);
                    assert(line_triples(before_rows)[j + 1] == all.skip(k as int)[j + 1]);
                }
                assert(line_triples(rows@) =~= all.skip(k + 1));
            }
            let ghost before_done = unwrapped@;
            if line.offset == 0 {
                match current {
                    Some(c) => {
                        unwrapped.push(c);
                        proof {
                            assert(line_triples(unwrapped@) =~= line_triples(before_done).push(line_triples(unwrapped@).last()));
                        }
                    },
                    None => {},
                }
                current = Some(line);
            } else {
                match current {
                    Some(mut c) => {
                        c.content.append(&mut line.content);
                        current = Some(c);
                    },
                    None => {
                        current = Some(line);
                    },
                }
            }
            k = k + 1;
        }
        proof {
            assert(all.take(k as int) =~= all);
        }
        match current {
            Some(c) => {
                let ghost before_done = unwrapped@;
                unwrapped.push(c);
                proof {
                    assert(line_triples(unwrapped@) =~= line_triples(before_done).push(line_triples(unwrapped@).last()));
                }
            },
            None => {},
        }
        let ghost m = line_triples(unwrapped@);
        let ghost pieces = m.map_values(|t: LineTriple| wrapped_line(t.0, t.1, t.2, width));
        let count_exec = unwrapped.len();
        let ghost count = unwrapped@.len();
        let mut result: Vec<VisualLine> = Vec::new();
        let mut i: usize = 0;
        proof {
            assert(pieces.take(0) =~= Seq::<Seq<LineTriple>>::empty());
            assert(m == merged(all));
        }
        while unwrapped.len() > 0
            invariant
                i + unwrapped@.len() == count,
                count == count_exec,
                m.len() == count,
                m == merged(all),
                pieces == m.map_values(|t: LineTriple| wrapped_line(t.0, t.1, t.2, width)),
                forall|j: int| 0 <= j < m.len() ==> wrappable(#[trigger] m[j]),
                line_triples(unwrapped@) == m.skip(i as int),
                line_triples(result@) == pieces.take(i as int).flatten(),
                result@.len() >= i,
            decreases unwrapped@.len(),
        {
            let ghost before = unwrapped@;
            let line = unwrapped.remove(0);
            proof {
                assert(line_triples(before)[0] == m[i as int]);
                assert(unwrapped@ =~= before.subrange(1, before.len() as int));
                assert forall|j: int| 0 <= j < unwrapped@.len() implies #[trigger] line_triples(unwrapped@)[j] == m.skip(i + 1)[j] by {
                    assert(unwrapped@[j] == before[j + 1]);
                    assert(line_triples(before)[j + 1] == m.skip(i as int)[j + 1]);
                }
                assert(line_triples(unwrapped@) =~= m.skip(i + 1));
                assert(wrappable(m[i as int]));
            }
            let content_view = Ghost(line.content@);
            let li = line.line_index;
            let off = line.offset;
            let mut wrapped = line.into_wrapped(width);
            proof {
                lemma_wrapped_triples(wrapped@, content_view@, li, off, width);
                assert(pieces.take(i + 1) =~= pieces.take(i as int).push(pieces[i as int]));
                pieces.take(i as int).lemma_flatten_push(pieces[i as int]);
            }
            let ghost before_result = result@;
            result.append(&mut wrapped);
            proof {
                assert(line_triples(result@) =~= line_triples(before_result) + pieces[i as int]);
            }
            i = i + 1;
        }
        proof {
            assert(pieces.take(i as int) =~= pieces);
            if forall|j: int| 0 <= j < old(self).visual@.len() ==> (#[trigger] old(self).visual@[j]).offset == 0 {
                assert forall|j: int| 0 <= j < all.len() implies (#[trigger] all[j]).2 == 0 by {
                    assert(all[j] == (old(self).visual@[j].content@, old(self).visual@[j].line_index as int, old(self).visual@[j].offset as int));
                }
            }
            lemma_merged_all_starts(all);
        }
        self.visual = result;
        self.visual.len() - count_exec
    }
}

} // verus!
