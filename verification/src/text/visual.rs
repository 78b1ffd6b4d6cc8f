//! Visual graphemes and styled units, the building blocks of rendered lines.
use vstd::prelude::*;
use crate::code::Code;
use crate::text::buffer_line::{BufferLine, grapheme_entries};
use crate::unicode::grapheme_split;
use crate::unicode::{display_width, str_width};

verus! {

/// A style code applied to a span of graphemes of a text.
#[derive(Debug, Clone, Copy, PartialEq, Eq, Structural)]
pub struct StyleSpan {
    /// The style code to apply
    pub code: Code,
    /// The line index in the text
    pub line: usize,
    /// The grapheme index in the line
    pub character: usize,
    /// The length of the style span in graphemes
    pub length: usize,
}

impl StyleSpan {
    /// Creates a new style span
    pub fn new(code: Code, line: usize, character: usize, length: usize) -> (r: Self)
        ensures
            r == (StyleSpan { code, line, character, length }),
    {
        Self { code, line, character, length }
    }

    /// One past the last grapheme index of the span.
    pub fn end(&self) -> (r: usize)
        requires
            self.character + self.length <= usize::MAX,
        ensures
            r == self.character + self.length,
    {
        self.character + self.length
    }
}

/// One grapheme as it is displayed.
#[derive(Debug, PartialEq, Eq, Hash)]
pub struct VisualGrapheme {
    /// The grapheme as a string, can be a normal string but needs to have a valid width
    pub str: String,
    /// The visual width of the grapheme in columns
    pub width: usize,
    /// This grapheme's grapheme index in its text line.
    /// It will be `None` if the grapheme is not a part of the text line.
    pub grapheme_index: Option<usize>,
}

impl Clone for VisualGrapheme {
    fn clone(&self) -> (r: Self)
        ensures
            r == *self,
    {
        VisualGrapheme { str: self.str.clone(), width: self.width, grapheme_index: self.grapheme_index }
    }
}

impl VisualGrapheme {
    pub fn new(str: String, width: usize, index: Option<usize>) -> (r: Self)
        ensures
            r == (VisualGrapheme { str, width, grapheme_index: index }),
    {
        Self { str, width, grapheme_index: index }
    }
}

/// A grapheme or a style code inside a line.
#[derive(Debug, PartialEq, Eq, Hash)]
pub enum StyledUnit {
    Grapheme(VisualGrapheme),
    Code(Code),
}

impl Clone for StyledUnit {
    fn clone(&self) -> (r: Self)
        ensures
            r == *self,
    {
        match self {
            StyledUnit::Grapheme(g) => StyledUnit::Grapheme(g.clone()),
            StyledUnit::Code(c) => StyledUnit::Code(*c),
        }
    }
}

/// The number of columns a unit takes: a grapheme's width, nothing for a code.
pub open spec fn unit_width(u: StyledUnit) -> nat {
    match u {
        StyledUnit::Grapheme(g) => g.width as nat,
        StyledUnit::Code(_) => 0,
    }
}

impl StyledUnit {
    /// Returns the width of the styled unit
    pub fn width(&self) -> (r: usize)
        ensures
            r == unit_width(*self),
    {
        match self {
            StyledUnit::Grapheme(g) => g.width,
            StyledUnit::Code(_) => 0,
        }
    }

    /// Returns if the styled unit is a `Grapheme` variant
    pub fn is_grapheme(&self) -> (r: bool)
        ensures
            r == (*self is Grapheme),
    {
        match self {
            StyledUnit::Grapheme(_) => true,
            _ => false,
        }
    }

    /// Returns if the styled unit is a `Code` variant
    pub fn is_code(&self) -> (r: bool)
        ensures
            r == (*self is Code),
    {
        match self {
            StyledUnit::Code(_) => true,
            _ => false,
        }
    }

    /// Returns a grapheme created from a string, string must be a valid grapheme
    pub fn grapheme(str: &str) -> (r: Self)
        ensures
            r matches StyledUnit::Grapheme(g) && g.str@ == str@ && g.width == display_width(str@)
                && g.grapheme_index is None,
            str@.len() == 1 && ' ' <= str@[0] <= '~' ==> unit_width(r) == 1,
    {
        let width = str_width(str);
        StyledUnit::Grapheme(VisualGrapheme::new(str.to_string(), width, None))
    }
}

/// A line of the text as it is shown: styled units, the index of the text line it comes from,
/// and the number of graphemes of that text line shown before its end.
#[derive(Debug)]
pub struct VisualLine {
    pub content: Vec<StyledUnit>,
    /// The index of its text line in the text
    pub line_index: usize,
    /// Grapheme offset in its text line
    pub offset: usize,
}

/// Number of units a row of `max` columns takes from the start of `s`: units are taken while
/// they fit.
pub open spec fn fit_count(s: Seq<StyledUnit>, max: nat) -> nat
    decreases s.len(),
{
    if s.len() == 0 {
        0
    } else if unit_width(s[0]) > max {
        0
    } else {
        1 + fit_count(s.drop_first(), (max - unit_width(s[0])) as nat)
    }
}

/// Units the row at the start of `s` takes: those that fit in `max` columns, or the first unit
/// alone when even it is wider than the row.
pub open spec fn row_len(s: Seq<StyledUnit>, max: nat) -> nat {
    if s.len() > 0 && fit_count(s, max) == 0 {
        1
    } else {
        fit_count(s, max)
    }
}

/// The rows `s` is cut into, `max` columns each, with the grapheme offset each row starts at,
/// counting from `offset`: row after row takes [`row_len`] units, until none are left.
pub open spec fn wrapped_rows(s: Seq<StyledUnit>, max: nat, offset: int) -> Seq<(Seq<StyledUnit>, int)>
    decreases s.len(),
{
    if s.len() == 0 {
        seq![]
    } else {
        proof {
            lemma_fit_count_width(s, max);
        }
        let k = row_len(s, max);
        let row = s.take(k as int);
        seq![(row, offset)] + wrapped_rows(s.skip(k as int), max, offset + crate::line::grapheme_count(row))
    }
}

/// `ceil(width / max(columns, 1))`.
pub open spec fn parts_for(width: nat, columns: u16) -> nat {
    let m: nat = if columns == 0 { 1 } else { columns as nat };
    width / m + if width % m != 0 { 1nat } else { 0nat }
}

/// What a unit shows: a grapheme's text, width and index into its text line, or a code.
pub enum UnitView {
    Grapheme(Seq<char>, usize, Option<usize>),
    Code(Code),
}

/// The view of a unit.
pub open spec fn unit_view(u: StyledUnit) -> UnitView {
    match u {
        StyledUnit::Grapheme(g) => UnitView::Grapheme(g.str@, g.width, g.grapheme_index),
        StyledUnit::Code(c) => UnitView::Code(c),
    }
}

/// The views of the units.
pub open spec fn units_view(s: Seq<StyledUnit>) -> Seq<UnitView> {
    s.map_values(|u: StyledUnit| unit_view(u))
}

/// The last grapheme of `s` that has an index into the text line, if any.
pub open spec fn last_index(s: Seq<UnitView>) -> Option<usize>
    decreases s.len(),
{
    if s.len() == 0 {
        None
    } else {
        match s.last() {
            UnitView::Grapheme(_, _, index) => if index is Some {
                index
            } else {
                last_index(s.drop_last())
            },
            UnitView::Code(_) => last_index(s.drop_last()),
        }
    }
}

/// The unit is a grapheme with text index `index`.
pub open spec fn has_index(u: UnitView, index: usize) -> bool {
    u matches UnitView::Grapheme(_, _, i) && i == Some(index)
}

/// The unit is a grapheme with some text index.
pub open spec fn is_indexed(u: UnitView) -> bool {
    u matches UnitView::Grapheme(_, _, i) && i is Some
}

/// `p` is where a code for grapheme `index` goes: before the first grapheme with that index,
/// else before the last grapheme that has an index, else at the start.
pub open spec fn is_position_for(s: Seq<UnitView>, index: usize, p: int) -> bool {
    if exists|i: int| 0 <= i < s.len() && has_index(#[trigger] s[i], index) {
        0 <= p < s.len() && has_index(s[p], index) && forall|j: int| 0 <= j < p ==> !has_index(#[trigger] s[j], index)
    } else if exists|i: int| 0 <= i < s.len() && is_indexed(#[trigger] s[i]) {
        0 <= p < s.len() && is_indexed(s[p]) && forall|j: int| p < j < s.len() ==> !is_indexed(#[trigger] s[j])
    } else {
        p == 0
    }
}

/// Where a code for grapheme `index` goes (see [`is_position_for`]).
pub open spec fn position_of(s: Seq<UnitView>, index: usize) -> int {
    choose|p: int| is_position_for(s, index, p)
}

/// The place of a code is well defined: at most one position qualifies.
pub proof fn lemma_position_unique(s: Seq<UnitView>, index: usize, p: int, q: int)
    requires
        is_position_for(s, index, p),
        is_position_for(s, index, q),
    ensures
        p == q,
{
    if exists|i: int| 0 <= i < s.len() && has_index(#[trigger] s[i], index) {
        if p < q {
            assert(!has_index(s[p], index));
        } else if q < p {
            assert(!has_index(s[q], index));
        }
    } else if exists|i: int| 0 <= i < s.len() && is_indexed(#[trigger] s[i]) {
        if p < q {
            assert(!is_indexed(s[q]));
        } else if q < p {
            assert(!is_indexed(s[p]));
        }
    }
}

/// The units after a style from grapheme `character`, `length` graphemes long: the code before
/// `character` and its reset before the end, both counted against the last grapheme index of
/// the line; nothing changes for an empty style, a line without indexed graphemes, or a
/// style starting at or after the last grapheme index.
pub open spec fn styled_with(s: Seq<UnitView>, code: Code, character: usize, length: usize) -> Seq<UnitView> {
    if length > 0 && (last_index(s) is Some) && character < last_index(s)->0 {
        let last = last_index(s)->0;
        let end = if character + length >= last { last } else { (character + length) as usize };
        let mid = s.insert(position_of(s, character), UnitView::Code(code));
        mid.insert(position_of(mid, end), UnitView::Code(code.spec_into_reset()))
    } else {
        s
    }
}

/// The units of a text line: one grapheme per cluster, indexed in order.
pub open spec fn text_line_view(s: Seq<char>) -> Seq<UnitView> {
    Seq::new(
        grapheme_split(s).len(),
        |i: int| UnitView::Grapheme(grapheme_split(s)[i], display_width(grapheme_split(s)[i]), Some(i as usize)),
    )
}

/// `u` is grapheme `i` of a text line: it shows `cluster`, as wide as it is displayed.
pub open spec fn is_text_grapheme(u: StyledUnit, cluster: Seq<char>, i: usize) -> bool {
    u matches StyledUnit::Grapheme(g) && g.str@ == cluster && g.width == display_width(cluster)
        && g.grapheme_index == Some(i)
}

/// The greedy cut of one row from `s` starting at `start`: the unit count, checked step by step.
proof fn lemma_fit_step(s: Seq<StyledUnit>, idx: int, max: nat)
    requires
        0 <= idx < s.len(),
        unit_width(s[idx]) <= max,
    ensures
        fit_count(s.skip(idx), max) == 1 + fit_count(s.skip(idx + 1), (max - unit_width(s[idx])) as nat),
{
    assert(s.skip(idx).drop_first() =~= s.skip(idx + 1));
    assert(s.skip(idx)[0] == s[idx]);
}

/// Graphemes of a prefix are at most the graphemes of the whole.
proof fn lemma_grapheme_count_bound(s: Seq<StyledUnit>, k: int)
    requires
        0 <= k <= s.len(),
    ensures
        crate::line::grapheme_count(s.take(k)) <= crate::line::grapheme_count(s),
    decreases s.len() - k,
{
    if k < s.len() {
        lemma_grapheme_count_bound(s, k + 1);
        crate::line::lemma_units_width_take_step(s, k);
    } else {
        crate::line::lemma_take_all(s);
    }
}

/// Graphemes of a prefix split at `a`.
proof fn lemma_grapheme_count_split(s: Seq<StyledUnit>, a: int, b: int)
    requires
        0 <= a <= b <= s.len(),
    ensures
        crate::line::grapheme_count(s.take(b)) == crate::line::grapheme_count(s.take(a)) + crate::line::grapheme_count(s.subrange(a, b)),
    decreases b - a,
{
    if a < b {
        lemma_grapheme_count_split(s, a, b - 1);
        crate::line::lemma_units_width_take_step(s, b - 1);
        assert(s.subrange(a, b).drop_last() =~= s.subrange(a, b - 1));
        assert(s.subrange(a, b).last() == s[b - 1]);
    } else {
        assert(s.subrange(a, b) =~= Seq::<StyledUnit>::empty());
    }
}

impl VisualLine {
    /// The visual line of a buffer line: one grapheme unit per grapheme, indexed in order.
    pub fn from_buffer_line(line: &BufferLine, line_index: usize) -> (r: Self)
        ensures
            r.line_index == line_index,
            r.offset == 0,
            r.content@.len() == grapheme_split(line@).len(),
            forall|i: int| 0 <= i < r.content@.len() ==> is_text_grapheme(#[trigger] r.content@[i], grapheme_split(line@)[i], i as usize),
            units_view(r.content@) == text_line_view(line@),
    {
        let graphemes = line.graphemes();
        let data = line.grapheme_data();
        let mut content: Vec<StyledUnit> = Vec::new();
        let mut i: usize = 0;
        while i < graphemes.len()
            invariant
                i <= graphemes@.len(),
                graphemes@.len() == grapheme_split(line@).len(),
                data@ == grapheme_entries(line@),
                forall|j: int| 0 <= j < graphemes@.len() ==> #[trigger] graphemes@[j]@ == grapheme_split(line@)[j],
                content@.len() == i,
                forall|j: int| 0 <= j < i ==> is_text_grapheme(#[trigger] content@[j], grapheme_split(line@)[j], j as usize),
            decreases graphemes@.len() - i,
        {
            let width = data[i].2;
            content.push(StyledUnit::Grapheme(VisualGrapheme::new(graphemes[i].clone(), width, Some(i))));
            i = i + 1;
        }
        proof {
            assert(units_view(content@) =~= text_line_view(line@));
        }
        VisualLine { content, line_index, offset: 0 }
    }

    /// Returns the column width of the line
    pub fn width(&self) -> (r: usize)
        requires
            crate::line::units_width(self.content@) <= usize::MAX,
        ensures
            r == crate::line::units_width(self.content@),
    {
        let mut w: usize = 0;
        let mut i: usize = 0;
        while i < self.content.len()
            invariant
                i <= self.content@.len(),
                w == crate::line::units_width(self.content@.take(i as int)),
                crate::line::units_width(self.content@) <= usize::MAX,
            decreases self.content@.len() - i,
        {
            proof {
                crate::line::lemma_units_width_take_step(self.content@, i as int);
                crate::line::lemma_units_width_take_monotone(self.content@, i + 1, self.content@.len() as int);
                crate::line::lemma_take_all(self.content@);
            }
            w = w + self.content[i].width();
            i = i + 1;
        }
        proof {
            crate::line::lemma_take_all(self.content@);
        }
        w
    }

    /// Returns a `vec` of visual lines, which are wrapped parts of this line: the line as it is
    /// when it fits in `max_width` columns; as many empty rows as it is wide when the width is
    /// zero; else the rows of [`wrapped_rows`], each starting at the grapheme offset of its
    /// first grapheme in the text line.
    pub fn into_wrapped(self, max_width: u16) -> (r: Vec<Self>)
        requires
            crate::line::units_width(self.content@) <= usize::MAX,
            self.offset + crate::line::units_width(self.content@) <= usize::MAX,
            self.offset + crate::line::grapheme_count(self.content@) <= usize::MAX,
        ensures
            ({
                let parts = parts_for(crate::line::units_width(self.content@), max_width);
                if parts <= 1 {
                    r@.len() == 1 && r@[0].content@ == self.content@ && r@[0].line_index == self.line_index
                        && r@[0].offset == self.offset
                } else if max_width == 0 {
                    &&& r@.len() == parts
                    &&& forall|k: int|
                        0 <= k < parts ==> (#[trigger] r@[k]).content@.len() == 0 && r@[k].line_index == self.line_index
                            && r@[k].offset == self.offset + k
                } else {
                    let rows = wrapped_rows(self.content@, max_width as nat, self.offset as int);
                    &&& r@.len() == rows.len()
                    &&& forall|k: int|
                        0 <= k < rows.len() ==> (#[trigger] r@[k]).content@ == rows[k].0 && r@[k].line_index == self.line_index
                            && r@[k].offset == rows[k].1
                }
            }),
    {
        let line_index = self.line_index;
        let mut offset = self.offset;
        let width = self.width();
        let m: usize = if max_width == 0 { 1 } else { max_width as usize };
        let q = width / m;
        let rem = width % m;
        proof {
            assert(rem != 0 ==> q < width) by (nonlinear_arith)
                requires
                    q == width / m,
                    rem == width % m,
                    m >= 1,
            ;
        }
        let parts = if rem != 0 { q + 1 } else { q };
        if parts <= 1 {
            let mut lines: Vec<Self> = Vec::new();
            lines.push(self);
            return lines;
        }
        let mut lines: Vec<Self> = Vec::new();
        if max_width == 0 {
            let mut k: usize = 0;
            while k < parts
                invariant
                    k <= parts,
                    parts == width,
                    offset == self.offset + k,
                    self.offset + width <= usize::MAX,
                    lines@.len() == k,
                    forall|j: int|
                        0 <= j < k ==> (#[trigger] lines@[j]).content@.len() == 0 && lines@[j].line_index == line_index
                            && lines@[j].offset == self.offset + j,
                decreases parts - k,
            {
                lines.push(VisualLine { content: Vec::new(), line_index, offset });
                offset = offset + 1;
                k = k + 1;
            }
            return lines;
        }
        let ghost s = self.content@;
        let ghost max = max_width as nat;
        let n = self.content.len();
        let mut idx: usize = 0;
        proof {
            assert(s.skip(0) =~= s);
            assert(s.take(0) =~= Seq::<StyledUnit>::empty());
            assert(lines@.map_values(|l: VisualLine| (l.content@, l.offset as int)) =~= Seq::<(Seq<StyledUnit>, int)>::empty());
        }
        while idx < n
            invariant
                idx <= n,
                n == s.len(),
                s == self.content@,
                max == max_width,
                max_width > 0,
                offset == self.offset + crate::line::grapheme_count(s.take(idx as int)),
                self.offset + crate::line::grapheme_count(s) <= usize::MAX,
                forall|j: int| 0 <= j < lines@.len() ==> (#[trigger] lines@[j]).line_index == line_index,
                wrapped_rows(s, max, self.offset as int) =~= lines@.map_values(
                    |l: VisualLine| (l.content@, l.offset as int),
                ) + wrapped_rows(s.skip(idx as int), max, offset as int),
            decreases n - idx,
        {
            let ghost start = idx;
            let ghost rest = s.skip(start as int);
            let row_offset = offset;
            let row_start = idx;
            let mut line_content: Vec<StyledUnit> = Vec::new();
            let mut line_width: usize = 0;
            while idx < n && self.content[idx].width() <= max_width as usize - line_width
                invariant
                    start <= idx <= n,
                    n == s.len(),
                    s == self.content@,
                    rest == s.skip(start as int),
                    line_width <= max_width,
                    line_content@ == s.subrange(start as int, idx as int),
                    offset == self.offset + crate::line::grapheme_count(s.take(idx as int)),
                    self.offset + crate::line::grapheme_count(s) <= usize::MAX,
                    fit_count(rest, max_width as nat) == (idx - start) + fit_count(s.skip(idx as int), (max_width - line_width) as nat),
                decreases n - idx,
            {
                proof {
                    crate::line::lemma_units_width_take_step(s, idx as int);
                    lemma_fit_step(s, idx as int, (max_width - line_width) as nat);
                    lemma_grapheme_count_bound(s, idx + 1);
                }
                let unit = self.content[idx].clone();
                let w = unit.width();
                if unit.is_grapheme() {
                    offset = offset + 1;
                }
                line_content.push(unit);
                line_width = line_width + w;
                idx = idx + 1;
                proof {
                    assert(line_content@ =~= s.subrange(start as int, idx as int));
                }
            }
            proof {
                if idx < n {
                    assert(s.skip(idx as int)[0] == s[idx as int]);
                }
                assert(fit_count(s.skip(idx as int), (max_width - line_width) as nat) == 0);
                assert(fit_count(rest, max) == idx - start);
            }
            if idx == row_start {
                proof {
                    crate::line::lemma_units_width_take_step(s, idx as int);
                    lemma_grapheme_count_bound(s, idx + 1);
                }
                let unit = self.content[idx].clone();
                if unit.is_grapheme() {
                    offset = offset + 1;
                }
                line_content.push(unit);
                idx = idx + 1;
                proof {
                    assert(line_content@ =~= s.subrange(start as int, idx as int));
                }
            }
            proof {
                let k = row_len(rest, max);
                assert(k == idx - start);
                assert(rest.take(k as int) =~= s.subrange(start as int, idx as int));
                assert(rest.skip(k as int) =~= s.skip(idx as int));
                lemma_grapheme_count_split(s, start as int, idx as int);
                assert(wrapped_rows(rest, max, row_offset as int) == seq![(rest.take(k as int), row_offset as int)]
                    + wrapped_rows(rest.skip(k as int), max, offset as int));
            }
            let ghost before = lines@;
            lines.push(VisualLine { content: line_content, line_index, offset: row_offset });
            proof {
                assert(lines@.map_values(|l: VisualLine| (l.content@, l.offset as int)) =~= before.map_values(
                    |l: VisualLine| (l.content@, l.offset as int),
                ).push((lines@[before.len() as int].content@, lines@[before.len() as int].offset as int)));
            }
        }
        proof {
            assert(s.skip(n as int) =~= Seq::<StyledUnit>::empty());
            let rows = wrapped_rows(s, max, self.offset as int);
            let lv = lines@.map_values(|l: VisualLine| (l.content@, l.offset as int));
            assert(rows =~= lv);
            assert forall|k: int| 0 <= k < rows.len() implies (#[trigger] lines@[k]).content@ == rows[k].0
                && lines@[k].offset == rows[k].1 by {
                assert(lv[k] == (lines@[k].content@, lines@[k].offset as int));
            }
        }
        lines
    }
}

impl VisualLine {
    /// Returns the last grapheme index in the line, if any
    fn last_grapheme_index(&self) -> (r: Option<usize>)
        ensures
            r == last_index(units_view(self.content@)),
    {
        let ghost v = units_view(self.content@);
        let mut i = self.content.len();
        proof {
            assert(v.take(i as int) =~= v);
        }
        while i > 0
            invariant
                i <= self.content@.len(),
                v == units_view(self.content@),
                last_index(v) == last_index(v.take(i as int)),
            decreases i,
        {
            proof {
                assert(v.take(i as int).drop_last() =~= v.take(i - 1));
                assert(v.take(i as int).last() == unit_view(self.content@[i - 1]));
            }
            if let StyledUnit::Grapheme(g) = &self.content[i - 1] {
                if g.grapheme_index.is_some() {
                    return g.grapheme_index;
                }
            }
            i = i - 1;
        }
        proof {
            assert(v.take(0) =~= Seq::<UnitView>::empty());
        }
        None
    }

    /// Returns the index `self.content[index]` of the nearest grapheme matching `grapheme_index`
    pub fn get_position(&self, grapheme_index: usize) -> (r: usize)
        ensures
            is_position_for(units_view(self.content@), grapheme_index, r as int),
            r == position_of(units_view(self.content@), grapheme_index),
    {
        let ghost s = units_view(self.content@);
        let mut last: usize = 0;
        let mut found_last = false;
        let mut i: usize = 0;
        while i < self.content.len()
            invariant
                i <= s.len(),
                s == units_view(self.content@),
                forall|j: int| 0 <= j < i ==> !has_index(#[trigger] s[j], grapheme_index),
                found_last ==> last < i && is_indexed(s[last as int]) && forall|j: int| last < j < i ==> !is_indexed(#[trigger] s[j]),
                !found_last ==> last == 0 && forall|j: int| 0 <= j < i ==> !is_indexed(#[trigger] s[j]),
            decreases s.len() - i,
        {
            if let StyledUnit::Grapheme(g) = &self.content[i] {
                if let Some(index) = g.grapheme_index {
                    if index == grapheme_index {
                        proof {
                            assert(has_index(s[i as int], grapheme_index));
                            assert(is_position_for(s, grapheme_index, i as int));
                            lemma_position_unique(s, grapheme_index, i as int, position_of(s, grapheme_index));
                        }
                        return i;
                    }
                    last = i;
                    found_last = true;
                }
            }
            i = i + 1;
        }
        proof {
            if found_last {
                assert(is_indexed(s[last as int]));
            }
            assert(is_position_for(s, grapheme_index, last as int));
            lemma_position_unique(s, grapheme_index, last as int, position_of(s, grapheme_index));
        }
        last
    }

    /// Adds a code at the specified grapheme index
    pub fn add_code(&mut self, code: Code, grapheme_index: usize)
        ensures
            final(self).line_index == old(self).line_index,
            final(self).offset == old(self).offset,
            units_view(final(self).content@) == units_view(old(self).content@).insert(
                position_of(units_view(old(self).content@), grapheme_index),
                UnitView::Code(code),
            ),
    {
        let position = self.get_position(grapheme_index);
        self.content.insert(position, StyledUnit::Code(code));
        proof {
            assert(units_view(self.content@) =~= units_view(old(self).content@).insert(position as int, UnitView::Code(code)));
        }
    }

    /// Adds a style to this line in the grapheme index range (inclusive, exlusive): the code
    /// goes before grapheme `character` and its reset before grapheme `character + length`,
    /// both counted against the last grapheme index of the line.
    pub fn add_style(&mut self, code: Code, character: usize, length: usize)
        requires
            length > 0 && (last_index(units_view(old(self).content@)) is Some) && character < last_index(
                units_view(old(self).content@),
            )->0 ==> character + length <= usize::MAX,
        ensures
            final(self).line_index == old(self).line_index,
            final(self).offset == old(self).offset,
            units_view(final(self).content@) == styled_with(units_view(old(self).content@), code, character, length),
    {
        if length == 0 {
            return;
        }
        let grapheme_count = match self.last_grapheme_index() {
            Some(c) => c,
            None => return,
        };
        if character >= grapheme_count {
            return;
        }
        let character_end = if character + length >= grapheme_count { grapheme_count } else { character + length };
        let ghost before = units_view(self.content@);
        let p1 = self.get_position(character);
        self.content.insert(p1, StyledUnit::Code(code));
        let ghost mid = units_view(self.content@);
        proof {
            assert(mid =~= before.insert(p1 as int, UnitView::Code(code)));
        }
        let p2 = self.get_position(character_end);
        let reset = code.into_reset();
        self.content.insert(p2, StyledUnit::Code(reset));
        proof {
            assert(units_view(self.content@) =~= mid.insert(p2 as int, UnitView::Code(reset)));
        }

    }
}

/// The units a row takes are no wider than the row.
pub proof fn lemma_fit_count_width(s: Seq<StyledUnit>, max: nat)
    ensures
        fit_count(s, max) <= s.len(),
        crate::line::units_width(s.take(fit_count(s, max) as int)) <= max,
    decreases s.len(),
{
    if s.len() > 0 && unit_width(s[0]) <= max {
        let rest = s.drop_first();
        let m2 = (max - unit_width(s[0])) as nat;
        lemma_fit_count_width(rest, m2);
        let k = fit_count(s, max) as int;
        assert(k == 1 + fit_count(rest, m2));
        assert(s.take(k) =~= seq![s[0]] + rest.take(k - 1));
        crate::line::lemma_units_width_concat(seq![s[0]], rest.take(k - 1));
        let one = seq![s[0]];
        assert(one.drop_last() =~= Seq::<StyledUnit>::empty());
        assert(one.last() == s[0]);
        assert(crate::line::units_width(one.drop_last()) == 0);
        assert(crate::line::units_width(one) == unit_width(s[0]));
    } else {
        assert(s.take(0) =~= Seq::<StyledUnit>::empty());
    }
}

/// The units of the rows, one row after the other.
pub open spec fn rows_units(rows: Seq<(Seq<StyledUnit>, int)>) -> Seq<StyledUnit>
    decreases rows.len(),
{
    if rows.len() == 0 {
        seq![]
    } else {
        rows[0].0 + rows_units(rows.drop_first())
    }
}

/// One step of [`wrapped_rows`] on a non-empty sequence.
proof fn lemma_wrapped_rows_unfold(s: Seq<StyledUnit>, max: nat, offset: int)
    requires
        s.len() > 0,
    ensures
        1 <= row_len(s, max) <= s.len(),
        wrapped_rows(s, max, offset) == seq![(s.take(row_len(s, max) as int), offset)] + wrapped_rows(
            s.skip(row_len(s, max) as int),
            max,
            offset + crate::line::grapheme_count(s.take(row_len(s, max) as int)),
        ),
{
    lemma_fit_count_width(s, max);
}

/// Wrapping loses nothing and keeps the order: the rows of a wrapped line hold, one after the
/// other, exactly the units of the line. No row is empty; each row is at most `max` columns
/// wide unless it holds a single unit wider than that; the first row starts at the line's
/// offset, and each next row at the offset of the row before plus the graphemes it holds.
pub proof fn lemma_wrapped_rows(s: Seq<StyledUnit>, max: nat, offset: int)
    ensures
        rows_units(wrapped_rows(s, max, offset)) == s,
        (s.len() == 0) == (wrapped_rows(s, max, offset).len() == 0),
        s.len() > 0 ==> wrapped_rows(s, max, offset)[0].1 == offset,
        forall|k: int|
            0 <= k < wrapped_rows(s, max, offset).len() ==> {
                let row = #[trigger] wrapped_rows(s, max, offset)[k].0;
                &&& row.len() > 0
                &&& crate::line::units_width(row) <= max || row.len() == 1
            },
        forall|k: int|
            0 <= k < wrapped_rows(s, max, offset).len() - 1 ==> #[trigger] wrapped_rows(s, max, offset)[k + 1].1
                == wrapped_rows(s, max, offset)[k].1 + crate::line::grapheme_count(wrapped_rows(s, max, offset)[k].0),
    decreases s.len(),
{
    let r = wrapped_rows(s, max, offset);
    if s.len() > 0 {
        lemma_wrapped_rows_unfold(s, max, offset);
        lemma_fit_count_width(s, max);
        let k = row_len(s, max);
        let row = s.take(k as int);
        let next = offset + crate::line::grapheme_count(row);
        let tail = s.skip(k as int);
        lemma_wrapped_rows(tail, max, next);
        let rest = wrapped_rows(tail, max, next);
        assert(r.drop_first() =~= rest);
        assert(row + tail =~= s);
        assert(rows_units(r) == r[0].0 + rows_units(r.drop_first()));
        assert forall|j: int| 0 <= j < r.len() implies {
            let row_j = #[trigger] r[j].0;
            &&& row_j.len() > 0
            &&& crate::line::units_width(row_j) <= max || row_j.len() == 1
        } by {
            if j > 0 {
                assert(r[j] == rest[j - 1]);
            }
        }
        assert forall|j: int| 0 <= j < r.len() - 1 implies #[trigger] r[j + 1].1 == r[j].1 + crate::line::grapheme_count(r[j].0) by {
            assert(r[j + 1] == rest[j]);
            if j > 0 {
                assert(r[j] == rest[j - 1]);
            } else {
                if tail.len() > 0 {
                    lemma_wrapped_rows_unfold(tail, max, next);
                }
            }
        }
    } else {
        assert(rows_units(r) =~= s);
    }
}

} // verus!
