//! The full style of a node and the size computations that follow from it.
use vstd::prelude::*;
use crate::code::Color;
use crate::strings::chars_of;
use crate::style::alignment::Align;
use crate::style::offset::Offset;
use crate::style::padding::Padding;
use crate::style::size::{Size, SizeValue, max_u16, min_u16};
use crate::text::lines::{count_words, lines_of, split_lines, word_count};

verus! {

/// Style of a node.
#[derive(Debug)]
pub struct Style {
    pub offset: Offset,
    /// Stacking order among siblings
    pub z_index: i16,
    pub size: Size,
    pub min_size: Size,
    pub max_size: Size,
    pub fg: Option<Color>,
    pub bg: Option<Color>,
    pub bold: bool,
    pub underline: bool,
    pub dim: bool,
    pub crossed: bool,
    pub padding: Padding,
    /// Border sides (top, bottom, left, right) and the border color.
    pub border: (bool, bool, bool, bool, Option<Color>),
    pub flex_row: bool,
    /// Gap between children (column, row)
    pub gap: (u16, u16),
}

impl Clone for Style {
    fn clone(&self) -> (r: Self)
        ensures
            r == *self,
    {
        Style { ..*self }
    }
}

impl Default for Style {
    fn default() -> (r: Self)
        ensures
            r == Style::spec_default(),
    {
        Style {
            offset: Offset::default(),
            z_index: 0,
            size: Size::default(),
            min_size: Size::default(),
            max_size: Size::default(),
            fg: None,
            bg: None,
            bold: false,
            underline: false,
            dim: false,
            crossed: false,
            padding: Padding::separate(0, 0, 0, 0),
            border: (false, false, false, false, None),
            flex_row: false,
            gap: (0, 0),
        }
    }
}

/// `a + b`, saturated at `u16::MAX`.
pub open spec fn sat_add(a: int, b: int) -> u16 {
    if a + b > u16::MAX { u16::MAX } else { (a + b) as u16 }
}

/// `a - b`, saturated at zero.
pub open spec fn sat_sub(a: int, b: int) -> u16 {
    if a - b < 0 { 0 } else { (a - b) as u16 }
}

/// Sum over the lines of the number of rows each takes when cut every `width` characters.
pub open spec fn wrapped_rows(lines: Seq<Seq<char>>, width: nat) -> nat
    decreases lines.len(),
{
    if lines.len() == 0 {
        0
    } else {
        let len = lines.last().len();
        wrapped_rows(lines.drop_last(), width) + (len / width + if len % width != 0 { 1nat } else { 0nat })
    }
}

/// Length of the longest line.
pub open spec fn longest(lines: Seq<Seq<char>>) -> nat
    decreases lines.len(),
{
    if lines.len() == 0 {
        0
    } else {
        let rest = longest(lines.drop_last());
        if lines.last().len() > rest { lines.last().len() } else { rest }
    }
}

/// Every line has at most `u16::MAX` characters.
pub open spec fn lines_fit_u16(lines: Seq<Seq<char>>) -> bool {
    forall|i: int| 0 <= i < lines.len() ==> (#[trigger] lines[i]).len() <= u16::MAX
}

/// Size computation after the percentages: the rows the text of a node takes when it is cut
/// `width` characters per row, or one row per word when the width is zero.
pub open spec fn text_rows(text: Seq<char>, width: u16) -> nat {
    if width == 0 { word_count(text) } else { wrapped_rows(lines_of(text), width as nat) }
}

impl Style {
    pub open spec fn spec_default() -> Style {
        Style {
            offset: Offset::Translate(0, 0),
            z_index: 0,
            size: Size { width: SizeValue::Auto(0), height: SizeValue::Auto(0) },
            min_size: Size { width: SizeValue::Auto(0), height: SizeValue::Auto(0) },
            max_size: Size { width: SizeValue::Auto(0), height: SizeValue::Auto(0) },
            fg: None,
            bg: None,
            bold: false,
            underline: false,
            dim: false,
            crossed: false,
            padding: Padding { top: 0, right: 0, bottom: 0, left: 0 },
            border: (false, false, false, false, None),
            flex_row: false,
            gap: (0, 0),
        }
    }

    /// `size.max(min).min(max)` of the computed widths.
    pub open spec fn spec_clamped_width(self) -> u16 {
        min_u16(
            max_u16(self.size.width.spec_computed_size(), self.min_size.width.spec_computed_size()),
            self.max_size.width.spec_computed_size(),
        )
    }

    /// `size.max(min).min(max)` of the computed heights.
    pub open spec fn spec_clamped_height(self) -> u16 {
        min_u16(
            max_u16(self.size.height.spec_computed_size(), self.min_size.height.spec_computed_size()),
            self.max_size.height.spec_computed_size(),
        )
    }

    /// Horizontal padding plus the left and right borders, saturated.
    pub open spec fn spec_extra_width(self) -> u16 {
        sat_add(
            sat_add(self.padding.left + self.padding.right, if self.border.2 { 1int } else { 0 }) as int,
            if self.border.3 { 1int } else { 0 },
        )
    }

    /// Vertical padding plus the top and bottom borders, saturated.
    pub open spec fn spec_extra_height(self) -> u16 {
        sat_add(
            sat_add(self.padding.top + self.padding.bottom, if self.border.0 { 1int } else { 0 }) as int,
            if self.border.1 { 1int } else { 0 },
        )
    }

    /// The horizontal padding can be added up in a `u16`.
    pub open spec fn padding_fits(self) -> bool {
        self.padding.left + self.padding.right <= u16::MAX && self.padding.top + self.padding.bottom
            <= u16::MAX
    }

    pub open spec fn spec_total_width(self) -> u16 {
        sat_add(self.spec_clamped_width() as int, self.spec_extra_width() as int)
    }

    pub open spec fn spec_total_height(self) -> u16 {
        sat_add(self.spec_clamped_height() as int, self.spec_extra_height() as int)
    }

    /// The style after the percentage step, before any text adjustment: minimum and maximum
    /// sizes computed from the parent, the size computed from the parent with percentages
    /// reduced by the padding and borders, then clamped.
    pub open spec fn spec_percentage_sized(self, parent: Size) -> Style {
        let min_size = self.min_size.spec_compute_size(parent, (0, 0));
        let max_size = self.max_size.spec_compute_size(parent, (u16::MAX, u16::MAX));
        let computed = self.size.spec_compute_size(
            parent,
            (self.size.width.spec_computed_size(), self.size.height.spec_computed_size()),
        );
        let width = if computed.width is Percent {
            computed.width.spec_set_computed_size(sat_sub(computed.width.spec_computed_size() as int, self.spec_extra_width() as int))
        } else {
            computed.width
        };
        let height = if computed.height is Percent {
            computed.height.spec_set_computed_size(sat_sub(computed.height.spec_computed_size() as int, self.spec_extra_height() as int))
        } else {
            computed.height
        };
        Style {
            min_size,
            max_size,
            size: Size { width, height }.spec_clamp_computed_size(min_size, max_size),
            ..self
        }
    }

    /// For an auto height, the text's lines, each line's length and its rows (wrapped at the
    /// computed width, or its words at zero width) can be counted in a `u16`, and the height they
    /// make neither overflows nor goes below zero.
    pub open spec fn text_fits(self, parent: Size, text: Seq<char>) -> bool {
        let s = self.spec_percentage_sized(parent);
        let lines = lines_of(text);
        let rows = text_rows(text, s.size.width.spec_computed_size());
        s.size.height is Auto ==> {
            &&& lines.len() <= u16::MAX
            &&& lines_fit_u16(lines)
            &&& rows <= u16::MAX
            &&& s.size.height.spec_computed_size() + rows <= u16::MAX
            &&& s.size.height.spec_computed_size() + rows >= lines.len()
        }
    }

    /// The style after the percentage step and the wrapped-text adjustment of an auto height.
    pub open spec fn spec_percentage_computed(self, parent: Size, text: Seq<char>) -> Style {
        let s = self.spec_percentage_sized(parent);
        if s.size.height is Auto {
            let rows = text_rows(text, s.size.width.spec_computed_size());
            let height = (s.size.height.spec_computed_size() + rows - lines_of(text).len()) as u16;
            Style {
                size: Size {
                    height: s.size.height.spec_set_computed_size(height).spec_clamp_computed_size(
                        s.min_size.height,
                        s.max_size.height,
                    ),
                    ..s.size
                },
                ..s
            }
        } else {
            s
        }
    }

    /// Returns `other`'s style.
    pub fn apply(&self, other: &Style) -> (r: Style)
        ensures
            r == *other,
    {
        other.clone()
    }

    /// Returns `size.max(min).min(max)` for the width
    pub fn clamped_width(&self) -> (r: u16)
        ensures
            r == self.spec_clamped_width(),
    {
        let size = self.size.width.computed_size();
        let max = self.max_size.width.computed_size();
        let min = self.min_size.width.computed_size();
        let lower = if size >= min { size } else { min };
        if lower <= max { lower } else { max }
    }

    /// Returns `size.max(min).min(max)` for the height
    pub fn clamped_height(&self) -> (r: u16)
        ensures
            r == self.spec_clamped_height(),
    {
        let size = self.size.height.computed_size();
        let max = self.max_size.height.computed_size();
        let min = self.min_size.height.computed_size();
        let lower = if size >= min { size } else { min };
        if lower <= max { lower } else { max }
    }

    /// Returns the extra width (horizontal padding and borders)
    pub fn extra_width(&self) -> (r: u16)
        requires
            self.padding_fits(),
        ensures
            r == self.spec_extra_width(),
    {
        let p = self.padding.horizontal();
        let a = p.saturating_add(if self.border.2 { 1 } else { 0 });
        a.saturating_add(if self.border.3 { 1 } else { 0 })
    }

    /// Returns the extra height (vertical padding and borders)
    pub fn extra_height(&self) -> (r: u16)
        requires
            self.padding_fits(),
        ensures
            r == self.spec_extra_height(),
    {
        let p = self.padding.vertical();
        let a = p.saturating_add(if self.border.0 { 1 } else { 0 });
        a.saturating_add(if self.border.1 { 1 } else { 0 })
    }

    /// Total computed width
    pub fn total_width(&self) -> (r: u16)
        requires
            self.padding_fits(),
        ensures
            r == self.spec_total_width(),
    {
        self.clamped_width().saturating_add(self.extra_width())
    }

    /// Total computed height
    pub fn total_height(&self) -> (r: u16)
        requires
            self.padding_fits(),
        ensures
            r == self.spec_total_height(),
    {
        self.clamped_height().saturating_add(self.extra_height())
    }

    /// Total computed unclamped width
    pub fn total_width_unclamped(&self) -> (r: u16)
        requires
            self.padding_fits(),
        ensures
            r == sat_add(self.size.width.spec_computed_size() as int, self.spec_extra_width() as int),
    {
        self.size.width.computed_size().saturating_add(self.extra_width())
    }

    /// Total computed unclamped height
    pub fn total_height_unclamped(&self) -> (r: u16)
        requires
            self.padding_fits(),
        ensures
            r == sat_add(self.size.height.spec_computed_size() as int, self.spec_extra_height() as int),
    {
        self.size.height.computed_size().saturating_add(self.extra_height())
    }
}

/// The views of a vector of character vectors.
pub open spec fn char_lines(v: Seq<Vec<char>>) -> Seq<Seq<char>> {
    v.map_values(|l: Vec<char>| l@)
}

proof fn lemma_wrapped_rows_monotone(lines: Seq<Seq<char>>, width: nat, i: int)
    requires
        0 <= i <= lines.len(),
        width > 0,
    ensures
        wrapped_rows(lines.take(i), width) <= wrapped_rows(lines, width),
    decreases lines.len() - i,
{
    if i < lines.len() {
        lemma_wrapped_rows_monotone(lines, width, i + 1);
        assert(lines.take(i + 1).drop_last() =~= lines.take(i));
    } else {
        assert(lines.take(i) =~= lines);
    }
}

/// Rows the lines take when cut every `width` characters.
fn rows_when_wrapped(lines: &Vec<Vec<char>>, width: u16) -> (r: u16)
    requires
        width > 0,
        lines_fit_u16(char_lines(lines@)),
        wrapped_rows(char_lines(lines@), width as nat) <= u16::MAX,
    ensures
        r == wrapped_rows(char_lines(lines@), width as nat),
{
    let ghost ls = char_lines(lines@);
    let mut acc: u16 = 0;
    let mut i: usize = 0;
    while i < lines.len()
        invariant
            i <= lines@.len(),
            width > 0,
            ls == char_lines(lines@),
            lines_fit_u16(ls),
            wrapped_rows(ls, width as nat) <= u16::MAX,
            acc == wrapped_rows(ls.take(i as int), width as nat),
        decreases lines@.len() - i,
    {
        proof {
            assert(ls.take(i + 1).drop_last() =~= ls.take(i as int));
            assert(ls.take(i + 1).last() == ls[i as int]);
            assert(ls[i as int] == lines@[i as int]@);
            assert(ls[i as int].len() <= u16::MAX);
            lemma_wrapped_rows_monotone(ls, width as nat, i + 1);
        }
        let len = lines[i].len() as u16;
        let rows = len / width + if len % width != 0 { 1 } else { 0 };
        acc = acc + rows;
        i = i + 1;
    }
    proof {
        assert(ls.take(i as int) =~= ls);
    }
    acc
}

/// Length of the longest line.
fn longest_line(lines: &Vec<Vec<char>>) -> (r: usize)
    ensures
        r == longest(char_lines(lines@)),
{
    let ghost ls = char_lines(lines@);
    let mut best: usize = 0;
    let mut i: usize = 0;
    while i < lines.len()
        invariant
            i <= lines@.len(),
            ls == char_lines(lines@),
            best == longest(ls.take(i as int)),
        decreases lines@.len() - i,
    {
        proof {
            assert(ls.take(i + 1).drop_last() =~= ls.take(i as int));
            assert(ls.take(i + 1).last() == ls[i as int]);
        }
        if lines[i].len() > best {
            best = lines[i].len();
        }
        i = i + 1;
    }
    proof {
        assert(ls.take(i as int) =~= ls);
    }
    best
}

/// The lines of `text`, as vectors of characters.
fn text_lines(text: &str) -> (r: (Vec<char>, Vec<Vec<char>>))
    ensures
        r.0@ == text@,
        char_lines(r.1@) == lines_of(text@),
{
    let chars = chars_of(text);
    let lines = split_lines(&chars);
    proof {
        assert(char_lines(lines@) =~= lines_of(text@));
    }
    (chars, lines)
}

impl Style {
    const DEFAULT_MIN_SIZE: (u16, u16) = (0, 0);

    const DEFAULT_MAX_SIZE: (u16, u16) = (65535, 65535);

    /// Calculates percentage sizes, applies clamping, and calculates wrapped text height (if auto)
    ///
    /// Returns the width and height of the wrapped text where the height is auto, else `(0, 0)`.
    pub fn compute_percentage_size(&mut self, parent_size: Size, text: &str) -> (r: (u16, u16))
        requires
            old(self).padding_fits(),
            old(self).text_fits(parent_size, text@),
        ensures
            *final(self) == old(self).spec_percentage_computed(parent_size, text@),
            r == ({
                let s = old(self).spec_percentage_sized(parent_size);
                let w = s.size.width.spec_computed_size();
                if s.size.height is Auto {
                    let longest_line = longest(lines_of(text@));
                    ((if longest_line < w { longest_line } else { w as nat }) as u16, text_rows(text@, w) as u16)
                } else {
                    (0u16, 0u16)
                }
            }),
    {
        let ghost before = *self;
        self.min_size = self.min_size.compute_size(parent_size, Self::DEFAULT_MIN_SIZE);
        self.max_size = self.max_size.compute_size(parent_size, Self::DEFAULT_MAX_SIZE);
        let computed = self.size.compute_size(parent_size, self.size.tuple());
        let mut width = computed.width;
        let mut height = computed.height;
        if width.is_percent() {
            let size = width.computed_size();
            let new_size = size.saturating_sub(self.extra_width());
            width = width.set_computed_size(new_size);
        }
        if height.is_percent() {
            let size = height.computed_size();
            let new_size = size.saturating_sub(self.extra_height());
            height = height.set_computed_size(new_size);
        }
        self.size = Size::new(width, height).clamp_computed_size(self.min_size, self.max_size);
        proof {
            assert(*self == before.spec_percentage_sized(parent_size));
        }
        if self.size.height.is_auto() {
            let self_width = self.size.width.computed_size();
            let (chars, lines) = text_lines(text);
            let text_line_count = lines.len() as u16;
            let text_height: u16 = if self_width == 0 {
                count_words(&chars) as u16
            } else {
                rows_when_wrapped(&lines, self_width)
            };
            let height = self.size.height.computed_size();
            self.size.height = self.size.height.set_computed_size(height + text_height - text_line_count);
            self.size.height = self.size.height.clamp_computed_size(self.min_size.height, self.max_size.height);
            let longest_len = longest_line(&lines);
            let text_width = if longest_len < self_width as usize { longest_len as u16 } else { self_width };
            return (text_width, text_height);
        }
        (0, 0)
    }

    /// The style once the sizes are computed without a parent (an auto size takes the text's
    /// size: its longest line and its number of lines; a percentage is of nothing).
    pub open spec fn spec_intrinsic_sized(self, text: Seq<char>) -> Style {
        let parent = Size { width: SizeValue::Auto(0), height: SizeValue::Auto(0) };
        let size = self.size.spec_compute_size(parent, (0, 0));
        Style {
            min_size: self.min_size.spec_compute_size(parent, (0, 0)),
            max_size: self.max_size.spec_compute_size(parent, (u16::MAX, u16::MAX)),
            size: Size {
                width: if size.width is Auto {
                    size.width.spec_set_computed_size(longest(lines_of(text)) as u16)
                } else {
                    size.width
                },
                height: if size.height is Auto {
                    size.height.spec_set_computed_size(lines_of(text).len() as u16)
                } else {
                    size.height
                },
            },
            ..self
        }
    }

    /// Calculates auto (for text) and intrinsic sizes
    pub fn compute_intrinsic_size(&mut self, text: &str)
        requires
            lines_of(text@).len() <= u16::MAX,
            old(self).size.width is Auto ==> longest(lines_of(text@)) <= u16::MAX,
        ensures
            *final(self) == old(self).spec_intrinsic_sized(text@),
    {
        let parent_size = Size::default();
        self.min_size = self.min_size.compute_size(parent_size, Self::DEFAULT_MIN_SIZE);
        self.max_size = self.max_size.compute_size(parent_size, Self::DEFAULT_MAX_SIZE);
        let computed = self.size.compute_size(parent_size, (0, 0));
        let mut width = computed.width;
        let mut height = computed.height;
        let (_chars, lines) = text_lines(text);
        let text_height = lines.len() as u16;
        if width.is_auto() {
            let text_width = longest_line(&lines) as u16;
            width = width.set_computed_size(text_width);
        }
        if height.is_auto() {
            height = height.set_computed_size(text_height);
        }
        self.size = Size::new(width, height);
    }
}

impl Align {
    /// Returns the offset for aligning a child within a parent node: the container's clamped
    /// height against the child's total height, applied across the flex direction.
    pub fn get_child_extra_offset(self, container: &Style, item: &Style) -> (r: (i16, i16))
        requires
            item.padding_fits(),
        ensures
            ({
                let offset = self.spec_alignment_offset(container.spec_clamped_height(), item.spec_total_height());
                r == if container.flex_row { (0i16, offset as i16) } else { (offset as i16, 0i16) }
            }),
    {
        let container_size = container.clamped_height();
        let item_size = item.total_height();
        let offset = self.alignment_offset(container_size, item_size);
        if container.flex_row {
            (0, offset as i16)
        } else {
            (offset as i16, 0)
        }
    }
}

/// The clamped size lies between the minimum and maximum sizes whenever the minimum is not
/// above the maximum (the maximum wins otherwise).
pub proof fn lemma_clamped_within(style: Style)
    ensures
        style.spec_clamped_width() <= style.max_size.width.spec_computed_size(),
        style.spec_clamped_height() <= style.max_size.height.spec_computed_size(),
        style.min_size.width.spec_computed_size() <= style.max_size.width.spec_computed_size()
            ==> style.spec_clamped_width() >= style.min_size.width.spec_computed_size(),
        style.min_size.height.spec_computed_size() <= style.max_size.height.spec_computed_size()
            ==> style.spec_clamped_height() >= style.min_size.height.spec_computed_size(),
        style.spec_total_width() >= style.spec_clamped_width(),
        style.spec_total_height() >= style.spec_clamped_height(),
{
}

} // verus!
