//! A canvas: a block of styled lines at an absolute position, and the operations that build a
//! node's canvas and compose canvases on the screen.
use vstd::prelude::*;
use crate::app::Viewport;
use crate::code::{Code, Color};
use crate::line::{
    push_range, push_spaces,
    Line, all_spaces, column_index, cutout_len, is_cutout_of, is_paste_of,
    is_resize_of, no_attributes, pruned, units_width,
};
use crate::style::{Padding, Size, Style};
use crate::text::document::Text;
use crate::text::visual::VisualLine;
use crate::text::visual::StyledUnit;
use crate::unicode::display_width;

verus! {

/// A block of lines drawn at an absolute position.
#[derive(Debug)]
pub struct Canvas {
    /// Absolute position of the canvas
    pub position: (i16, i16),
    /// Content of the canvas
    pub buffer: Vec<Line>,
}

/// The content of each line.
pub open spec fn line_rows(v: Seq<Line>) -> Seq<Seq<StyledUnit>> {
    v.map_values(|l: Line| l.content@)
}

/// The widest row's width.
pub open spec fn max_row_width(rows: Seq<Seq<StyledUnit>>) -> nat
    decreases rows.len(),
{
    if rows.len() == 0 {
        0
    } else {
        let rest = max_row_width(rows.drop_last());
        let w = units_width(rows.last());
        if w > rest { w } else { rest }
    }
}

/// No row is wider than `bound` columns.
pub open spec fn rows_within(rows: Seq<Seq<StyledUnit>>, bound: nat) -> bool {
    forall|i: int| 0 <= i < rows.len() ==> units_width(#[trigger] rows[i]) <= bound
}

/// The row after a color code of kind `foreground` is put before its first grapheme and a
/// reset of that kind at its end; an empty row is left as it is.
pub open spec fn colored_row(row: Seq<StyledUnit>, c: Color, foreground: bool) -> Seq<StyledUnit> {
    if units_width(row) == 0 {
        row
    } else {
        let code = if foreground { Code::Foreground(c) } else { Code::Background(c) };
        let reset = if foreground { Code::Foreground(Color::Reset) } else { Code::Background(Color::Reset) };
        row.insert(column_index(row, 0), StyledUnit::Code(code)).push(StyledUnit::Code(reset))
    }
}

/// `r` is `base` with `left` blanks before it and `right` blanks after it.
pub open spec fn is_padded_row(base: Seq<StyledUnit>, left: nat, right: nat, r: Seq<StyledUnit>) -> bool {
    &&& r.len() == left + base.len() + right
    &&& all_spaces(r.take(left as int))
    &&& r.subrange(left as int, left + base.len() as int) == base
    &&& all_spaces(r.skip(left + base.len() as int))
}

/// The rows after a color of kind `foreground` is put on every non-empty row, if there is one.
pub open spec fn colored_rows(rows: Seq<Seq<StyledUnit>>, color: Option<Color>, foreground: bool) -> Seq<Seq<StyledUnit>> {
    match color {
        Some(c) => rows.map_values(|row: Seq<StyledUnit>| colored_row(row, c, foreground)),
        None => rows,
    }
}

/// `new` is `old` resized to the style's computed size: as many lines as it is high, each cut
/// or completed with blanks to its width, at the same position.
pub open spec fn is_normalized(old: Canvas, style: Style, new: Canvas) -> bool {
    let width = style.size.width.spec_computed_size() as nat;
    let height = style.size.height.spec_computed_size() as nat;
    &&& new.position == old.position
    &&& new.buffer@.len() == height
    &&& forall|i: int|
        0 <= i < height ==> is_resize_of(
            if i < old.buffer@.len() { old.rows()[i] } else { Seq::<StyledUnit>::empty() },
            width,
            #[trigger] new.rows()[i],
        )
}

/// `new` is `old` with its padding: blank lines as wide as `old` above and below, and blanks
/// on both sides of every line, at the same position.
pub open spec fn is_padded(old: Canvas, padding: Padding, new: Canvas) -> bool {
    let top = padding.top as int;
    let n = old.buffer@.len() as int;
    let w = old.spec_width();
    &&& new.position == old.position
    &&& new.buffer@.len() == top + n + padding.bottom
    &&& forall|i: int|
        0 <= i < new.buffer@.len() ==> if top <= i < top + n {
            is_padded_row(old.rows()[i - top], padding.left as nat, padding.right as nat, #[trigger] new.rows()[i])
        } else {
            (#[trigger] new.rows()[i]).len() == padding.left + w + padding.right
                && all_spaces(new.rows()[i])
        }
}

/// `new` is `old` extended with a blank copy of `child` as [`Canvas::extend_child`] does it.
pub open spec fn is_child_extension(old: Canvas, child: Canvas, style: Style, include_gap: bool, is_first_extend: bool, new: Canvas) -> bool {
    let sw = style.size.width.spec_computed_size() as nat;
    let mh = style.size.height.spec_computed_size() as nat;
    let cw = if child.spec_width() < sw { child.spec_width() } else { sw };
    let n = old.buffer@.len();
    &&& new.position == old.position
    &&& sw == 0 ==> new.rows() == old.rows()
    &&& sw != 0 && style.flex_row ==> {
        let lw = cw + if include_gap { style.gap.0 as nat } else { 0 };
        let base_len = n + if is_first_extend { mh } else { 0 };
        let covered = if child.buffer@.len() < mh { child.buffer@.len() } else { mh };
        &&& new.buffer@.len() == base_len
        &&& forall|k: int|
            0 <= k < base_len ==> {
                let base = if k < n { old.rows()[k] } else { Seq::<StyledUnit>::empty() };
                if k < covered {
                    is_extended_row(base, lw, #[trigger] new.rows()[k])
                } else {
                    new.rows()[k] == base
                }
            }
    }
    &&& sw != 0 && !style.flex_row ==> {
        let g = if include_gap { style.gap.1 as nat } else { 0 };
        let room: nat = if mh > n { (mh - n) as nat } else { 0 };
        let added = if child.buffer@.len() + g < room { child.buffer@.len() + g } else { room };
        &&& new.buffer@.len() == n + added
        &&& forall|k: int| 0 <= k < n ==> #[trigger] new.rows()[k] == old.rows()[k]
        &&& forall|k: int|
            n <= k < n + added ==> (#[trigger] new.rows()[k]).len() == cw && all_spaces(new.rows()[k])
    }
}

impl Canvas {
    /// The content of each line of the canvas.
    pub open spec fn rows(&self) -> Seq<Seq<StyledUnit>> {
        line_rows(self.buffer@)
    }

    /// Every line's width can be counted in a `usize`.
    pub open spec fn lines_fit(&self) -> bool {
        forall|i: int| 0 <= i < self.buffer@.len() ==> (#[trigger] self.buffer@[i]).fits()
    }

    /// Width of the canvas: its widest line.
    pub open spec fn spec_width(&self) -> nat {
        max_row_width(self.rows())
    }

    pub fn new(width: usize, height: usize) -> (r: Self)
        ensures
            r.position == (0i16, 0i16),
            r.buffer@.len() == height,
            forall|i: int| 0 <= i < height ==> #[trigger] r.rows()[i].len() == width && all_spaces(r.rows()[i]),
            r.spec_width() == if height > 0 { width as nat } else { 0 },
    {
        let mut buffer: Vec<Line> = Vec::new();
        let mut i: usize = 0;
        while i < height
            invariant
                i <= height,
                buffer@.len() == i,
                forall|j: int| 0 <= j < i ==> #[trigger] buffer@[j].content@.len() == width && all_spaces(buffer@[j].content@),
            decreases height - i,
        {
            buffer.push(Line::new(width));
            i = i + 1;
        }
        proof {
            assert forall|k: int| 0 <= k < buffer@.len() implies units_width(#[trigger] line_rows(buffer@)[k]) == width by {
                crate::line::lemma_spaces_width(line_rows(buffer@)[k]);
            }
            lemma_max_row_width_uniform(line_rows(buffer@), width as nat);
        }
        Self { position: (0, 0), buffer }
    }

    /// Get the width of the canvas (column width)
    pub fn width(&self) -> (r: usize)
        requires
            self.lines_fit(),
        ensures
            r == self.spec_width(),
    {
        let mut best: usize = 0;
        let mut i: usize = 0;
        while i < self.buffer.len()
            invariant
                i <= self.buffer@.len(),
                self.lines_fit(),
                best == max_row_width(line_rows(self.buffer@.take(i as int))),
            decreases self.buffer@.len() - i,
        {
            proof {
                assert(line_rows(self.buffer@.take(i + 1)).drop_last() =~= line_rows(self.buffer@.take(i as int)));
                assert(self.buffer@[i as int].fits());
            }
            let w = self.buffer[i].width();
            if w > best {
                best = w;
            }
            i = i + 1;
        }
        proof {
            assert(self.buffer@.take(i as int) =~= self.buffer@);
        }
        best
    }

    /// Get the height of the canvas
    pub fn height(&self) -> (r: usize)
        ensures
            r == self.buffer@.len(),
    {
        self.buffer.len()
    }

    /// True if absolute position `X, Y` is within the canvas
    pub fn hit_test(&self, x: i16, y: i16) -> (r: bool)
        requires
            self.lines_fit(),
            i16::MIN <= self.position.0 + (self.spec_width() as i16) <= i16::MAX,
            i16::MIN <= self.position.1 + (self.buffer@.len() as i16) <= i16::MAX,
        ensures
            r == (x >= self.position.0 && x < self.position.0 + (self.spec_width() as i16)
                && y >= self.position.1 && y < self.position.1 + (self.buffer@.len() as i16)),
    {
        let w = self.width() as i16;
        let h = self.height() as i16;
        x >= self.position.0 && x < self.position.0 + w && y >= self.position.1 && y < self.position.1 + h
    }

    /// Normalize the canvas buffer size: `height` lines (cut, or completed with empty lines),
    /// each resized to `width` columns, from the style's computed size.
    pub fn normalize(&mut self, style: &Style)
        requires
            rows_within(old(self).rows(), isize::MAX as nat),
        ensures
            is_normalized(*old(self), *style, *final(self)),
    {
        let width = style.size.width.computed_size() as usize;
        let height = style.size.height.computed_size() as usize;
        let ghost old_rows = self.rows();
        if self.buffer.len() > height {
            self.buffer.truncate(height);
        }
        let ghost kept = self.buffer@.len();
        proof {
            assert forall|j: int| 0 <= j < kept implies #[trigger] self.buffer@[j].content@ == old_rows[j] by {
                assert(old_rows[j] == old(self).buffer@[j].content@);
            }
        }
        while self.buffer.len() < height
            invariant
                kept <= self.buffer@.len() <= height,
                self.position == old(self).position,
                kept == if old_rows.len() > height { height as nat } else { old_rows.len() },
                forall|j: int| 0 <= j < kept ==> #[trigger] self.buffer@[j].content@ == old_rows[j],
                forall|j: int| kept <= j < self.buffer@.len() ==> (#[trigger] self.buffer@[j].content@).len() == 0,
                rows_within(old_rows, isize::MAX as nat),
            decreases height - self.buffer@.len(),
        {
            self.buffer.push(Line::new(0));
        }
        let mut i: usize = 0;
        while i < height
            invariant
                i <= height,
                width <= u16::MAX,
                height <= u16::MAX,
                width == style.size.width.spec_computed_size(),
                height == style.size.height.spec_computed_size(),
                self.position == old(self).position,
                self.buffer@.len() == height,
                kept == if old_rows.len() > height { height as nat } else { old_rows.len() },
                rows_within(old_rows, isize::MAX as nat),
                forall|j: int| i <= j < kept ==> #[trigger] self.buffer@[j].content@ == old_rows[j],
                forall|j: int| kept <= j < height && j >= i ==> (#[trigger] self.buffer@[j].content@).len() == 0,
                forall|j: int|
                    0 <= j < i ==> is_resize_of(
                        if j < old_rows.len() { old_rows[j] } else { Seq::<StyledUnit>::empty() },
                        width as nat,
                        #[trigger] self.buffer@[j].content@,
                    ),
            decreases height - i,
        {
            proof {
                if i < kept {
                    assert(units_width(old_rows[i as int]) <= isize::MAX);
                } else {
                    assert(self.buffer@[i as int].content@ =~= Seq::<StyledUnit>::empty());
                }
            }
            self.buffer[i].resize_to_fit(width);
            i = i + 1;
        }
        proof {
            assert forall|j: int| 0 <= j < height implies is_resize_of(
                if j < old_rows.len() { old_rows[j] } else { Seq::<StyledUnit>::empty() },
                width as nat,
                #[trigger] self.rows()[j],
            ) by {
                assert(self.rows()[j] == self.buffer@[j].content@);
            }
        }
    }

    /// Puts the background color `color` on every non-empty line.
    pub fn add_bg(&mut self, color: Option<Color>)
        requires
            old(self).lines_fit(),
        ensures
            final(self).position == old(self).position,
            final(self).rows() == match color {
                Some(c) => old(self).rows().map_values(|row: Seq<StyledUnit>| colored_row(row, c, false)),
                None => old(self).rows(),
            },
    {
        self.add_color(color, false);
    }

    /// Puts the foreground color `color` on every non-empty line.
    pub fn add_fg(&mut self, color: Option<Color>)
        requires
            old(self).lines_fit(),
        ensures
            final(self).position == old(self).position,
            final(self).rows() == match color {
                Some(c) => old(self).rows().map_values(|row: Seq<StyledUnit>| colored_row(row, c, true)),
                None => old(self).rows(),
            },
    {
        self.add_color(color, true);
    }

    fn add_color(&mut self, color: Option<Color>, foreground: bool)
        requires
            old(self).lines_fit(),
        ensures
            final(self).position == old(self).position,
            final(self).rows() == match color {
                Some(c) => old(self).rows().map_values(|row: Seq<StyledUnit>| colored_row(row, c, foreground)),
                None => old(self).rows(),
            },
    {
        let c = match color {
            Some(c) => c,
            None => return,
        };
        let ghost old_rows = self.rows();
        let code = if foreground { Code::Foreground(c) } else { Code::Background(c) };
        let reset = if foreground { Code::Foreground(Color::Reset) } else { Code::Background(Color::Reset) };
        let mut i: usize = 0;
        while i < self.buffer.len()
            invariant
                i <= self.buffer@.len(),
                self.buffer@.len() == old_rows.len(),
                self.position == old(self).position,
                old_rows == old(self).rows(),
                old(self).lines_fit(),
                code == if foreground { Code::Foreground(c) } else { Code::Background(c) },
                reset == if foreground { Code::Foreground(Color::Reset) } else { Code::Background(Color::Reset) },
                forall|j: int| i <= j < old_rows.len() ==> #[trigger] self.buffer@[j] == old(self).buffer@[j],
                forall|j: int| 0 <= j < i ==> #[trigger] self.buffer@[j].content@ == colored_row(old_rows[j], c, foreground),
            decreases self.buffer@.len() - i,
        {
            proof {
                assert(old(self).buffer@[i as int].fits());
                assert(old_rows[i as int] == old(self).buffer@[i as int].content@);
            }
            if self.buffer[i].width() != 0 {
                self.buffer[i].set(0, StyledUnit::Code(code));
                self.buffer[i].content.push(StyledUnit::Code(reset));
            }
            i = i + 1;
        }
        proof {
            assert(self.rows() =~= old_rows.map_values(|row: Seq<StyledUnit>| colored_row(row, c, foreground)));
        }
    }

    /// Prune redundant codes from the canvas, removing any codes that are not needed and have no
    /// effect, like duplicates.
    pub fn prune_redundant_codes(&mut self)
        requires
            forall|i: int| 0 <= i < old(self).buffer@.len() ==> no_attributes(#[trigger] old(self).rows()[i]),
        ensures
            final(self).position == old(self).position,
            final(self).rows() == old(self).rows().map_values(|row: Seq<StyledUnit>| pruned(row)),
    {
        let ghost old_rows = self.rows();
        proof {
            assert forall|j: int| 0 <= j < old_rows.len() implies #[trigger] self.buffer@[j].content@ == old_rows[j] by {
                assert(old_rows[j] == self.buffer@[j].content@);
            }
        }
        let mut i: usize = 0;
        while i < self.buffer.len()
            invariant
                i <= self.buffer@.len(),
                self.buffer@.len() == old_rows.len(),
                self.position == old(self).position,
                old_rows == old(self).rows(),
                forall|j: int| 0 <= j < old_rows.len() ==> no_attributes(#[trigger] old_rows[j]),
                forall|j: int| i <= j < old_rows.len() ==> #[trigger] self.buffer@[j].content@ == old_rows[j],
                forall|j: int| 0 <= j < i ==> #[trigger] self.buffer@[j].content@ == pruned(old_rows[j]),
            decreases self.buffer@.len() - i,
        {
            proof {
                assert(no_attributes(old_rows[i as int]));
                assert(self.buffer@[i as int].content@ == old_rows[i as int]);
            }
            self.buffer[i].prune_redundant_codes();
            i = i + 1;
        }
        proof {
            assert(self.rows() =~= old_rows.map_values(|row: Seq<StyledUnit>| pruned(row)));
        }
    }
}

/// Rows a paste at height `y` leaves alone: above or below the viewport.
pub open spec fn paste_skipped(y: i16, vp: Viewport) -> bool {
    y < (vp.min.1 as i16) || (y as u16) >= vp.max.1
}

/// First column of the pasted line that is inside the viewport.
pub open spec fn paste_start(x: i16, vp: Viewport) -> int {
    let d = (vp.min.0 as i16) - x;
    if d > 0 { d } else { 0 }
}

/// Number of columns the viewport spans.
pub open spec fn paste_take(vp: Viewport) -> nat {
    if vp.max.0 >= vp.min.0 { (vp.max.0 - vp.min.0) as nat } else { 0 }
}

/// Column of the canvas row where the visible part of the pasted line goes.
pub open spec fn paste_column(x: i16, vp: Viewport) -> int {
    let c = x + paste_start(x, vp);
    if c > 0 { c } else { 0 }
}

/// The visible part of `line`, pasted at `x` on top of `row`, gives `r`.
pub open spec fn is_viewport_paste(row: Seq<StyledUnit>, line: Seq<StyledUnit>, x: i16, vp: Viewport, r: Seq<StyledUnit>) -> bool {
    exists|cut: Seq<StyledUnit>|
        is_cutout_of(line, paste_start(x, vp) as nat, paste_take(vp), cut) && #[trigger] is_paste_of(
            row,
            cut,
            paste_column(x, vp) as nat,
            r,
        )
}

/// The paste of `line` at `x` on top of `row` is defined: the widths fit in a `usize`, the
/// cut of the line is defined, and the paste starts inside (or at the end of) the row.
pub open spec fn viewport_paste_ok(row: Seq<StyledUnit>, line: Seq<StyledUnit>, x: i16, vp: Viewport) -> bool {
    &&& units_width(row) <= usize::MAX
    &&& units_width(line) <= usize::MAX
    &&& i16::MIN <= (vp.min.0 as i16) - x <= i16::MAX
    &&& paste_column(x, vp) <= units_width(row)
    &&& paste_column(x, vp) + cutout_len(line, paste_start(x, vp) as nat, paste_take(vp)) <= usize::MAX
}

/// `line` with `left` blanks before it and `right` blanks after it.
fn pad_line(line: &mut Line, left: usize, right: usize)
    ensures
        is_padded_row(old(line).content@, left as nat, right as nat, final(line).content@),
{
    let mut content: Vec<StyledUnit> = Vec::new();
    push_spaces(&mut content, left);
    let ghost c1 = content@;
    push_range(&mut content, &line.content, 0, line.content.len());
    let ghost c2 = content@;
    push_spaces(&mut content, right);
    proof {
        let c = content@;
        let n = old(line).content@.len();
        assert(c1.subrange(0, left as int) =~= c1);
        assert(old(line).content@.subrange(0, n as int) =~= old(line).content@);
        assert(c2 == c1 + old(line).content@);
        assert(c.subrange(0, c2.len() as int) == c2);
        assert(c.take(left as int) =~= c1);
        assert(c.subrange(left as int, left + n) =~= c2.subrange(left as int, left + n));
        assert(c2.subrange(left as int, left + n) =~= old(line).content@);
        assert(c.skip(left + n) =~= c.subrange(c2.len() as int, c.len() as int));
    }
    line.content = content;
}

impl Canvas {
    /// Add (top, bottom, left, right) padding: blank lines as wide as the canvas above and
    /// below, then blanks on both sides of every line.
    pub fn add_padding(&mut self, padding: Padding)
        requires
            old(self).lines_fit(),
        ensures
            is_padded(*old(self), padding, *final(self)),
    {
        let top = padding.top as usize;
        let bottom = padding.bottom as usize;
        let left = padding.left as usize;
        let right = padding.right as usize;
        let max_len = self.width();
        let ghost old_rows = self.rows();
        let ghost n = old_rows.len() as int;
        let mut t: usize = 0;
        while t < top
            invariant
                t <= top,
                n == old_rows.len(),
                old_rows == old(self).rows(),
                self.position == old(self).position,
                self.buffer@.len() == t + n,
                forall|j: int| 0 <= j < t ==> (#[trigger] self.buffer@[j].content@).len() == max_len && all_spaces(self.buffer@[j].content@),
                forall|j: int| t <= j < t + n ==> #[trigger] self.buffer@[j].content@ == old_rows[j - t],
            decreases top - t,
        {
            let ghost before = self.buffer@;
            let blank = Line::new(max_len);
            let ghost g = blank;
            self.buffer.insert(0, blank);
            proof {
                before.insert_ensures(0, g);
                assert(self.buffer@ == before.insert(0, g));
                assert forall|j: int| t + 1 <= j < t + 1 + n implies #[trigger] self.buffer@[j].content@ == old_rows[j - (t + 1)] by {
                    assert(before.insert(0, g)[(j - 1) + 1] == before[j - 1]);
                    assert(self.buffer@[j] == before[j - 1]);
                }
                assert forall|j: int| 0 <= j < t + 1 implies (#[trigger] self.buffer@[j].content@).len() == max_len && all_spaces(self.buffer@[j].content@) by {
                    if j > 0 {
                        assert(before.insert(0, g)[(j - 1) + 1] == before[j - 1]);
                        assert(self.buffer@[j] == before[j - 1]);
                    } else {
                        assert(self.buffer@[j] == g);
                    }
                }
            }
            t = t + 1;
        }
        let mut b: usize = 0;
        while b < bottom
            invariant
                b <= bottom,
                n == old_rows.len(),
                self.position == old(self).position,
                self.buffer@.len() == top + n + b,
                forall|j: int|
                    0 <= j < self.buffer@.len() && !(top <= j < top + n) ==> (#[trigger] self.buffer@[j].content@).len() == max_len && all_spaces(self.buffer@[j].content@),
                forall|j: int| top <= j < top + n ==> #[trigger] self.buffer@[j].content@ == old_rows[j - top],
            decreases bottom - b,
        {
            self.buffer.push(Line::new(max_len));
            b = b + 1;
        }
        let total = self.buffer.len();
        let mut i: usize = 0;
        while i < total
            invariant
                i <= total,
                n == old_rows.len(),
                old_rows == old(self).rows(),
                max_len == old(self).spec_width(),
                total == self.buffer@.len(),
                total == top + n + bottom,
                self.position == old(self).position,
                forall|j: int|
                    i <= j < total && !(top <= j < top + n) ==> (#[trigger] self.buffer@[j].content@).len() == max_len && all_spaces(self.buffer@[j].content@),
                forall|j: int| i <= j < total && top <= j < top + n ==> #[trigger] self.buffer@[j].content@ == old_rows[j - top],
                forall|j: int|
                    0 <= j < i ==> if top <= j < top + n {
                        is_padded_row(old_rows[j - top], left as nat, right as nat, #[trigger] self.buffer@[j].content@)
                    } else {
                        (#[trigger] self.buffer@[j].content@).len() == left + max_len + right && all_spaces(self.buffer@[j].content@)
                    },
            decreases total - i,
        {
            let ghost before = self.buffer@[i as int].content@;
            pad_line(&mut self.buffer[i], left, right);
            proof {
                if !(top <= i < top + n) {
                    let r = self.buffer@[i as int].content@;
                    assert forall|k: int| 0 <= k < r.len() implies crate::line::is_space(#[trigger] r[k]) by {
                        if k < left {
                            assert(r[k] == r.take(left as int)[k]);
                        } else if k < left + max_len {
                            assert(r[k] == r.subrange(left as int, left + max_len)[k - left]);
                            assert(r.subrange(left as int, left + max_len) == before);
                        } else {
                            assert(r[k] == r.skip(left + max_len)[k - left - max_len]);
                        }
                    }
                }
            }
            i = i + 1;
        }
        proof {
            assert forall|j: int| 0 <= j < self.buffer@.len() implies #[trigger] self.rows()[j] == self.buffer@[j].content@ by {}
        }
    }

    /// Paste a line on top of the canvas at `position` within the `viewport`: the part of the
    /// line inside the viewport's columns goes onto the row at the line's height, if that row
    /// is inside the viewport.
    pub fn paste_on_top(&mut self, line: &Line, position: (i16, i16), viewport: &Viewport)
        requires
            !paste_skipped(position.1, *viewport) ==> {
                &&& 0 <= position.1 < old(self).buffer@.len()
                &&& viewport_paste_ok(old(self).rows()[position.1 as int], line.content@, position.0, *viewport)
            },
        ensures
            final(self).position == old(self).position,
            final(self).buffer@.len() == old(self).buffer@.len(),
            paste_skipped(position.1, *viewport) ==> final(self).rows() == old(self).rows(),
            !paste_skipped(position.1, *viewport) ==> {
                &&& forall|k: int| 0 <= k < final(self).buffer@.len() && k != position.1 ==> #[trigger] final(self).rows()[k] == old(self).rows()[k]
                &&& is_viewport_paste(old(self).rows()[position.1 as int], line.content@, position.0, *viewport, final(self).rows()[position.1 as int])
            },
    {
        let x = position.0;
        let y = position.1;
        if y < viewport.min.1 as i16 || y as u16 >= viewport.max.1 {
            return;
        }
        let ghost old_rows = self.rows();
        proof {
            assert(self.buffer@[y as int].content@ == old_rows[y as int]);
        }
        let d = viewport.min.0 as i16 - x;
        let start: usize = if d > 0 { d as usize } else { 0 };
        let take: usize = if viewport.max.0 >= viewport.min.0 { (viewport.max.0 - viewport.min.0) as usize } else { 0 };
        let cut = line.cutout(start, take);
        let c = x as isize + start as isize;
        let column: usize = if c > 0 { c as usize } else { 0 };
        self.buffer[y as usize].paste_on_top(&cut, column);
        proof {
            assert(start == paste_start(x, *viewport));
            assert(take == paste_take(*viewport));
            assert(column == paste_column(x, *viewport));
            assert(is_cutout_of(line.content@, paste_start(x, *viewport) as nat, paste_take(*viewport), cut.content@));
            assert(is_paste_of(old_rows[y as int], cut.content@, column as nat, self.buffer@[y as int].content@));
            assert(self.rows()[y as int] == self.buffer@[y as int].content@);
            assert(is_paste_of(old_rows[y as int], cut.content@, paste_column(x, *viewport) as nat, self.rows()[y as int]));
            assert(is_viewport_paste(old_rows[y as int], line.content@, x, *viewport, self.rows()[y as int]));
            assert forall|k: int| 0 <= k < self.buffer@.len() && k != y implies #[trigger] self.rows()[k] == old_rows[k] by {
                assert(self.rows()[k] == self.buffer@[k].content@);
                assert(old_rows[k] == old(self).buffer@[k].content@);
            }
        }
    }
}

impl Canvas {
    /// Render self to `canvas` within the given `viewport`: each line is pasted at its
    /// absolute position.
    #[verifier::loop_isolation(false)]
    pub fn render_to(&self, viewport: &Viewport, canvas: &mut Canvas)
        requires
            self.position.1 + self.buffer@.len() <= i16::MAX + 1,
            self.buffer@.len() <= i16::MAX + 1,
            forall|m: int|
                0 <= m < self.buffer@.len() && !paste_skipped((self.position.1 + m) as i16, *viewport) ==> {
                    &&& 0 <= self.position.1 + m < old(canvas).buffer@.len()
                    &&& viewport_paste_ok(
                        old(canvas).rows()[self.position.1 + m],
                        #[trigger] self.rows()[m],
                        self.position.0,
                        *viewport,
                    )
                },
        ensures
            final(canvas).position == old(canvas).position,
            final(canvas).buffer@.len() == old(canvas).buffer@.len(),
            forall|k: int|
                0 <= k < final(canvas).buffer@.len() ==> {
                    let i = k - self.position.1;
                    if 0 <= i < self.buffer@.len() && !paste_skipped(k as i16, *viewport) {
                        is_viewport_paste(old(canvas).rows()[k], self.rows()[i], self.position.0, *viewport, #[trigger] final(canvas).rows()[k])
                    } else {
                        final(canvas).rows()[k] == old(canvas).rows()[k]
                    }
                },
    {
        let n = self.buffer.len();
        let ghost p1 = self.position.1 as int;
        let ghost old_rows = canvas.rows();
        let mut i: usize = 0;
        let mut done = false;
        while i < n && !done
            invariant
                i <= n,
                n == self.buffer@.len(),
                p1 == self.position.1,
                p1 + n <= i16::MAX + 1,
                old_rows == old(canvas).rows(),
                canvas.position == old(canvas).position,
                canvas.buffer@.len() == old_rows.len(),
                n <= i16::MAX + 1,
                done ==> p1 + i - 1 >= 0 && ((p1 + i - 1) as u16) >= viewport.max.1 && i >= 1,
                forall|k: int|
                    0 <= k < old_rows.len() ==> {
                        let j = k - p1;
                        if 0 <= j < i && !paste_skipped(k as i16, *viewport) {
                            is_viewport_paste(old_rows[k], self.rows()[j], self.position.0, *viewport, #[trigger] canvas.rows()[k])
                        } else {
                            canvas.rows()[k] == old_rows[k]
                        }
                    },
            decreases n - i,
        {
            let x = self.position.0;
            let y = self.position.1 + i as i16;
            proof {
                assert(y == p1 + i);
                assert((p1 + i) as i16 == y);
            }
            if y >= 0 && y as u16 >= viewport.max.1 {
                done = true;
            } else {
                proof {
                    assert(self.rows()[i as int] == self.buffer@[i as int].content@);
                    if !paste_skipped(y, *viewport) {
                        assert(viewport_paste_ok(old(canvas).rows()[self.position.1 + i], self.rows()[i as int], x, *viewport));
                        assert(canvas.rows()[y as int] == old_rows[y as int]);
                    }
                }
                let ghost before = canvas.rows();
                canvas.paste_on_top(&self.buffer[i], (x, y), viewport);
                proof {
                    assert forall|k: int| 0 <= k < old_rows.len() implies {
                        let j = k - p1;
                        if 0 <= j < i + 1 && !paste_skipped(k as i16, *viewport) {
                            is_viewport_paste(old_rows[k], self.rows()[j], self.position.0, *viewport, #[trigger] canvas.rows()[k])
                        } else {
                            canvas.rows()[k] == old_rows[k]
                        }
                    } by {
                        if k != y {
                            assert(canvas.rows()[k] == before[k]);
                        }
                    }
                }
            }
            i = i + 1;
        }
        proof {
            assert forall|k: int| 0 <= k < canvas.buffer@.len() implies {
                let j = k - self.position.1;
                if 0 <= j < self.buffer@.len() && !paste_skipped(k as i16, *viewport) {
                    is_viewport_paste(old(canvas).rows()[k], self.rows()[j], self.position.0, *viewport, #[trigger] canvas.rows()[k])
                } else {
                    canvas.rows()[k] == old(canvas).rows()[k]
                }
            } by {
                let j = k - p1;
                if done && 0 <= j < n && j >= i {
                    assert(k >= p1 + i - 1);
                    assert((k as i16) as u16 == k);
                    assert(paste_skipped(k as i16, *viewport));
                }
            }
        }
    }
}

/// `line` with `n` blanks appended.
fn append_spaces(line: &mut Line, n: usize)
    ensures
        final(line).content@.len() == old(line).content@.len() + n,
        final(line).content@.take(old(line).content@.len() as int) == old(line).content@,
        all_spaces(final(line).content@.skip(old(line).content@.len() as int)),
{
    push_spaces(&mut line.content, n);
    proof {
        let c = line.content@;
        let k = old(line).content@.len() as int;
        assert(c.skip(k) =~= c.subrange(k, c.len() as int));
    }
}

/// `r` is `base` followed by `n` blanks.
pub open spec fn is_extended_row(base: Seq<StyledUnit>, n: nat, r: Seq<StyledUnit>) -> bool {
    &&& r.len() == base.len() + n
    &&& r.take(base.len() as int) == base
    &&& all_spaces(r.skip(base.len() as int))
}

impl Canvas {
    /// Extend the canvas with a blank copy of the child: in a row layout, blanks as wide as the
    /// child (and the gap) are appended to the lines the child covers, the first child also
    /// opening as many empty lines as the style is high; in a column layout, blank lines as
    /// wide as the child are added below (with the gap), up to the style's height.
    pub fn extend_child(&mut self, child: &Canvas, style: &Style, include_gap: bool, is_first_extend: bool)
        requires
            child.lines_fit(),
            child.buffer@.len() + style.gap.1 <= usize::MAX,
            style.size.width.spec_computed_size() != 0 && style.flex_row ==> {
                let mh = style.size.height.spec_computed_size() as int;
                let rows = child.buffer@.len() as int;
                let covered = if rows < mh { rows } else { mh };
                covered <= old(self).buffer@.len() + if is_first_extend { mh } else { 0 }
            },
        ensures
            is_child_extension(*old(self), *child, *style, include_gap, is_first_extend, *final(self)),
    {
        let sw = style.size.width.computed_size() as usize;
        let w = child.width();
        let child_width = if w < sw { w } else { sw };
        let max_height = style.size.height.computed_size() as usize;
        if style.size.width.computed_size() == 0 {
            return;
        }
        let ghost old_rows = self.rows();
        let ghost n = old_rows.len();
        if style.flex_row {
            let gap_count: usize = if include_gap { style.gap.0 as usize } else { 0 };
            let line_width = child_width + gap_count;
            if is_first_extend {
                let mut k: usize = 0;
                while k < max_height
                    invariant
                        k <= max_height,
                        n == old_rows.len(),
                        old_rows == old(self).rows(),
                        self.position == old(self).position,
                        self.buffer@.len() == n + k,
                        forall|j: int| 0 <= j < n ==> #[trigger] self.buffer@[j].content@ == old_rows[j],
                        forall|j: int| n <= j < n + k ==> (#[trigger] self.buffer@[j].content@).len() == 0,
                    decreases max_height - k,
                {
                    self.buffer.push(Line::new(0));
                    k = k + 1;
                }
            }
            let ghost base_len = self.buffer@.len();
            let rows = child.buffer.len();
            let covered = if rows < max_height { rows } else { max_height };
            let mut i: usize = 0;
            while i < covered
                invariant
                    i <= covered,
                    covered <= base_len,
                    n == old_rows.len(),
                    old_rows == old(self).rows(),
                    self.position == old(self).position,
                    self.buffer@.len() == base_len,
                    base_len == n + if is_first_extend { max_height as nat } else { 0 },
                    forall|j: int|
                        0 <= j < base_len ==> {
                            let base = if j < n { old_rows[j] } else { Seq::<StyledUnit>::empty() };
                            if j < i {
                                is_extended_row(base, line_width as nat, #[trigger] self.buffer@[j].content@)
                            } else {
                                self.buffer@[j].content@ == base
                            }
                        },
                decreases covered - i,
            {
                append_spaces(&mut self.buffer[i], line_width);
                i = i + 1;
            }
            proof {
                assert forall|j: int| 0 <= j < base_len implies #[trigger] self.rows()[j] == self.buffer@[j].content@ by {}
            }
        } else {
            let gap_count: usize = if include_gap { style.gap.1 as usize } else { 0 };
            let total = child.buffer.len() + gap_count;
            let ghost room: nat = if max_height > n { (max_height - n) as nat } else { 0 };
            let mut k: usize = 0;
            while k < total && self.buffer.len() < max_height
                invariant
                    k <= total,
                    k <= room,
                    room == (if max_height > n { (max_height - n) as nat } else { 0 }),
                    n == old_rows.len(),
                    old_rows == old(self).rows(),
                    self.position == old(self).position,
                    self.buffer@.len() == n + k,
                    forall|j: int| 0 <= j < n ==> #[trigger] self.buffer@[j].content@ == old_rows[j],
                    forall|j: int|
                        n <= j < n + k ==> (#[trigger] self.buffer@[j].content@).len() == child_width && all_spaces(self.buffer@[j].content@),
                decreases total - k,
            {
                self.buffer.push(Line::new(child_width));
                k = k + 1;
            }
            proof {
                assert forall|j: int| 0 <= j < self.buffer@.len() implies #[trigger] self.rows()[j] == self.buffer@[j].content@ by {}
            }
        }
    }
}

/// `u` is the one-character grapheme `c` as `StyledUnit::grapheme` makes it.
pub open spec fn is_glyph(u: StyledUnit, c: char) -> bool {
    u matches StyledUnit::Grapheme(g) && g.str@ == seq![c] && g.width == display_width(seq![c])
        && g.grapheme_index is None
}

/// The units a border is drawn with: top and bottom edges, left and right edges, then the
/// top-left, top-right, bottom-left and bottom-right corners.
pub open spec fn border_glyphs_ok(gl: Seq<StyledUnit>) -> bool {
    &&& gl.len() == 8
    &&& is_glyph(gl[0], '─')
    &&& is_glyph(gl[1], '─')
    &&& is_glyph(gl[2], '│')
    &&& is_glyph(gl[3], '│')
    &&& is_glyph(gl[4], '╭')
    &&& is_glyph(gl[5], '╮')
    &&& is_glyph(gl[6], '╰')
    &&& is_glyph(gl[7], '╯')
}

/// `units` between a foreground color code and its reset, when there is a color.
pub open spec fn in_color(units: Seq<StyledUnit>, color: Option<Color>) -> Seq<StyledUnit> {
    match color {
        Some(c) => seq![StyledUnit::Code(Code::Foreground(c))] + units + seq![StyledUnit::Code(Code::Foreground(Color::Reset))],
        None => units,
    }
}

/// The lines of a canvas with the top and bottom edges of a border added: `width` copies of
/// the edge unit, in the border color.
pub open spec fn with_edges(rows: Seq<Seq<StyledUnit>>, border: (bool, bool, bool, bool, Option<Color>), width: nat, gl: Seq<StyledUnit>) -> Seq<Seq<StyledUnit>> {
    let top = if border.0 { seq![in_color(Seq::new(width, |i: int| gl[0]), border.4)] } else { seq![] };
    let bottom = if border.1 { seq![in_color(Seq::new(width, |i: int| gl[1]), border.4)] } else { seq![] };
    top + rows + bottom
}

/// Row `i` of `count` rows with the left side of a border: a corner after the color code of
/// the top or bottom edge, else the left edge (in the border color) before the row.
pub open spec fn left_bordered(row: Seq<StyledUnit>, i: int, count: int, border: (bool, bool, bool, bool, Option<Color>), gl: Seq<StyledUnit>) -> Seq<StyledUnit> {
    let first = if border.4 is Some { 1int } else { 0 };
    if !border.2 {
        row
    } else if i == 0 && border.0 {
        row.insert(first, gl[4])
    } else if i == count - 1 && border.1 {
        row.insert(first, gl[6])
    } else {
        in_color(seq![gl[2]], border.4) + row
    }
}

/// Row `i` of `count` rows with the right side of a border: a corner before the reset code of
/// the top or bottom edge, else the right edge (in the border color) after the row.
pub open spec fn right_bordered(row: Seq<StyledUnit>, i: int, count: int, border: (bool, bool, bool, bool, Option<Color>), gl: Seq<StyledUnit>) -> Seq<StyledUnit> {
    let last = if border.4 is Some { 1int } else { 0 };
    if !border.3 {
        row
    } else if i == 0 && border.0 {
        row.insert(row.len() - last, gl[5])
    } else if i == count - 1 && border.1 {
        row.insert(row.len() - last, gl[7])
    } else {
        row + in_color(seq![gl[3]], border.4)
    }
}

/// The rows of a canvas after its border is drawn.
pub open spec fn bordered(rows: Seq<Seq<StyledUnit>>, border: (bool, bool, bool, bool, Option<Color>), gl: Seq<StyledUnit>) -> Seq<Seq<StyledUnit>> {
    let width = if rows.len() > 0 { units_width(rows[0]) } else { 0 };
    let edged = with_edges(rows, border, width, gl);
    let count = edged.len() as int;
    Seq::new(edged.len(), |i: int| right_bordered(left_bordered(edged[i], i, count, border, gl), i, count, border, gl))
}

/// Drawing the right side is defined: with a colored right border, the first and last rows
/// end with a reset code to put the corner before.
pub open spec fn border_defined(rows: Seq<Seq<StyledUnit>>, border: (bool, bool, bool, bool, Option<Color>)) -> bool {
    border.3 && border.4 is Some ==> {
        let width = if rows.len() > 0 { units_width(rows[0]) } else { 0 };
        let edged = with_edges(rows, border, width, seq![]);
        let count = edged.len() as int;
        &&& count > 0
        &&& left_bordered(edged[0], 0, count, border, seq![]).len() > 0
        &&& left_bordered(edged[count - 1], count - 1, count, border, seq![]).len() > 0
    }
}

fn line_insert(line: &mut Line, index: usize, u: StyledUnit)
    requires
        index <= old(line).content@.len(),
    ensures
        final(line).content@ == old(line).content@.insert(index as int, u),
{
    line.content.insert(index, u);
}

fn line_prepend(line: &mut Line, units: Vec<StyledUnit>)
    ensures
        final(line).content@ == units@ + old(line).content@,
{
    let mut content = units;
    let n = line.content.len();
    push_range(&mut content, &line.content, 0, n);
    proof {
        assert(old(line).content@.subrange(0, n as int) =~= old(line).content@);
    }
    line.content = content;
}

fn line_append(line: &mut Line, units: &Vec<StyledUnit>)
    ensures
        final(line).content@ == old(line).content@ + units@,
{
    let n = units.len();
    push_range(&mut line.content, units, 0, n);
    proof {
        assert(units@.subrange(0, n as int) =~= units@);
    }
}

/// `units` between a foreground color code and its reset, when there is a color.
fn colored_units(units: Vec<StyledUnit>, color: Option<Color>) -> (r: Vec<StyledUnit>)
    ensures
        r@ == in_color(units@, color),
{
    match color {
        Some(c) => {
            let mut v: Vec<StyledUnit> = Vec::new();
            v.push(StyledUnit::Code(Code::Foreground(c)));
            let n = units.len();
            push_range(&mut v, &units, 0, n);
            v.push(StyledUnit::Code(Code::Foreground(Color::Reset)));
            proof {
                assert(units@.subrange(0, n as int) =~= units@);
                assert(v@ =~= in_color(units@, color));
            }
            v
        },
        None => units,
    }
}

fn repeated(u: &StyledUnit, n: usize) -> (r: Vec<StyledUnit>)
    ensures
        r@ == Seq::new(n as nat, |i: int| *u),
{
    let mut v: Vec<StyledUnit> = Vec::new();
    let mut i: usize = 0;
    while i < n
        invariant
            i <= n,
            v@ == Seq::new(i as nat, |k: int| *u),
        decreases n - i,
    {
        v.push(u.clone());
        i = i + 1;
        proof {
            assert(v@ =~= Seq::new(i as nat, |k: int| *u));
        }
    }
    v
}

impl Canvas {
    /// Add a border: the top and bottom edges as wide as the first line, then the left and
    /// right edges with rounded corners, all in the border color if it has one.
    pub fn add_border(&mut self, border: (bool, bool, bool, bool, Option<Color>))
        requires
            old(self).buffer@.len() > 0 ==> old(self).buffer@[0].fits(),
            border_defined(old(self).rows(), border),
        ensures
            final(self).position == old(self).position,
            exists|gl: Seq<StyledUnit>| border_glyphs_ok(gl) && final(self).rows() == #[trigger] bordered(old(self).rows(), border, gl),
    {
        let has_top = border.0;
        let has_bottom = border.1;
        let has_left = border.2;
        let has_right = border.3;
        let border_color = border.4;
        proof {
            reveal_strlit("─");
            reveal_strlit("│");
            reveal_strlit("╭");
            reveal_strlit("╮");
            reveal_strlit("╰");
            reveal_strlit("╯");
        }
        let style_top = StyledUnit::grapheme("─");
        let style_bottom = StyledUnit::grapheme("─");
        let style_left = StyledUnit::grapheme("│");
        let style_right = StyledUnit::grapheme("│");
        let top_left = StyledUnit::grapheme("╭");
        let top_right = StyledUnit::grapheme("╮");
        let bottom_left = StyledUnit::grapheme("╰");
        let bottom_right = StyledUnit::grapheme("╯");
        let ghost gl = seq![style_top, style_bottom, style_left, style_right, top_left, top_right, bottom_left, bottom_right];
        proof {
            assert("─"@ =~= seq!['─']);
            assert("│"@ =~= seq!['│']);
            assert("╭"@ =~= seq!['╭']);
            assert("╮"@ =~= seq!['╮']);
            assert("╰"@ =~= seq!['╰']);
            assert("╯"@ =~= seq!['╯']);
            assert(border_glyphs_ok(gl));
        }
        let ghost old_rows = self.rows();
        let chars_width = if self.buffer.len() > 0 { self.buffer[0].width() } else { 0 };
        let ghost edged = with_edges(old_rows, border, chars_width as nat, gl);
        if has_top {
            let content = colored_units(repeated(&style_top, chars_width), border_color);
            let ghost before = self.buffer@;
            let ghost l = Line { content };
            self.buffer.insert(0, Line { content });
            proof {
                before.insert_ensures(0, l);
            }
        }
        if has_bottom {
            let content = colored_units(repeated(&style_bottom, chars_width), border_color);
            self.buffer.push(Line { content });
        }
        proof {
            assert(self.rows() =~= edged);
        }
        let lines = self.buffer.len();
        let ghost count = lines as int;
        let ghost lefted = Seq::new(lines as nat, |i: int| left_bordered(edged[i], i, count, border, gl));
        if has_left {
            let first_char_index: usize = if border_color.is_some() { 1 } else { 0 };
            let mut i: usize = 0;
            while i < lines
                invariant
                    i <= lines,
                    lines == self.buffer@.len(),
                    count == lines,
                    edged.len() == lines,
                    has_left == border.2,
                    has_top == border.0,
                    has_bottom == border.1,
                    border_color == border.4,
                    first_char_index == if border.4 is Some { 1usize } else { 0 },
                    border_glyphs_ok(gl),
                    gl[4] == top_left,
                    gl[6] == bottom_left,
                    gl[2] == style_left,
                    border.2,
                    self.position == old(self).position,
                    lefted == Seq::new(lines as nat, |k: int| left_bordered(edged[k], k, count, border, gl)),
                    edged == with_edges(old_rows, border, chars_width as nat, gl),
                    forall|k: int| 0 <= k < i ==> #[trigger] self.buffer@[k].content@ == lefted[k],
                    forall|k: int| i <= k < lines ==> #[trigger] self.buffer@[k].content@ == edged[k],
                decreases lines - i,
            {
                if i == 0 && has_top {
                    line_insert(&mut self.buffer[i], first_char_index, top_left.clone());
                } else if i == lines - 1 && has_bottom {
                    line_insert(&mut self.buffer[i], first_char_index, bottom_left.clone());
                } else {
                    line_prepend(&mut self.buffer[i], colored_units(vec![style_left.clone()], border_color));
                }
                i = i + 1;
            }
        }
        proof {
            if !has_left {
                assert forall|k: int| 0 <= k < lines implies #[trigger] self.buffer@[k].content@ == lefted[k] by {
                    assert(self.buffer@[k].content@ == self.rows()[k]);
                }
            }
        }
        let ghost fin = Seq::new(lines as nat, |i: int| right_bordered(lefted[i], i, count, border, gl));
        if has_right {
            let last_char_offset: usize = if border_color.is_some() { 1 } else { 0 };
            let real_len_first = if lines > 0 { self.buffer[0].content.len() } else { 0 };
            let real_len_last = if lines > 0 { self.buffer[lines - 1].content.len() } else { 0 };
            let last_char_index_first = real_len_first - last_char_offset;
            let last_char_index_last = real_len_last - last_char_offset;
            let mut i: usize = 0;
            while i < lines
                invariant
                    i <= lines,
                    lines == self.buffer@.len(),
                    count == lines,
                    lefted.len() == lines,
                    has_right == border.3,
                    has_top == border.0,
                    has_bottom == border.1,
                    border_color == border.4,
                    border.3,
                    gl[5] == top_right,
                    gl[7] == bottom_right,
                    gl[3] == style_right,
                    self.position == old(self).position,
                    lines > 0 ==> last_char_index_first == lefted[0].len() - (if border.4 is Some { 1int } else { 0 }),
                    lines > 0 ==> last_char_index_last == lefted[count - 1].len() - (if border.4 is Some { 1int } else { 0 }),
                    fin == Seq::new(lines as nat, |k: int| right_bordered(lefted[k], k, count, border, gl)),
                    forall|k: int| 0 <= k < i ==> #[trigger] self.buffer@[k].content@ == fin[k],
                    forall|k: int| i <= k < lines ==> #[trigger] self.buffer@[k].content@ == lefted[k],
                decreases lines - i,
            {
                if i == 0 && has_top {
                    line_insert(&mut self.buffer[i], last_char_index_first, top_right.clone());
                } else if i == lines - 1 && has_bottom {
                    line_insert(&mut self.buffer[i], last_char_index_last, bottom_right.clone());
                } else {
                    let edge = colored_units(vec![style_right.clone()], border_color);
                    line_append(&mut self.buffer[i], &edge);
                }
                i = i + 1;
            }
        }
        proof {
            if !has_right {
                assert forall|k: int| 0 <= k < lines implies #[trigger] self.buffer@[k].content@ == fin[k] by {}
            }
            assert(self.rows() =~= fin);
            assert(fin =~= bordered(old_rows, border, gl));
        }
    }
}

impl Canvas {
    /// Add wrapped text: when the size is not empty, the text's visual lines are added below.
    pub fn add_text(&mut self, text: &Text, size: Size)
        ensures
            final(self).position == old(self).position,
            final(self).rows() == if size.width.spec_computed_size() == 0 || size.height.spec_computed_size() == 0 {
                old(self).rows()
            } else {
                old(self).rows() + text.visual@.map_values(|l: VisualLine| l.content@)
            },
    {
        let width = size.width.computed_size();
        let height = size.height.computed_size();
        if width == 0 || height == 0 {
            return;
        }
        let ghost old_rows = self.rows();
        let ghost lines = text.visual@.map_values(|l: VisualLine| l.content@);
        let mut k: usize = 0;
        while k < text.visual.len()
            invariant
                k <= text.visual@.len(),
                lines == text.visual@.map_values(|l: VisualLine| l.content@),
                self.position == old(self).position,
                self.rows() == old_rows + lines.take(k as int),
            decreases text.visual@.len() - k,
        {
            let mut content: Vec<StyledUnit> = Vec::new();
            let n = text.visual[k].content.len();
            push_range(&mut content, &text.visual[k].content, 0, n);
            proof {
                assert(content@ =~= text.visual@[k as int].content@);
            }
            let ghost before = self.rows();
            let ghost before_buf = self.buffer@;
            let new_line = Line { content };
            let ghost nl = new_line;
            self.buffer.push(new_line);
            proof {
                assert(self.buffer@ == before_buf.push(nl));
                assert(self.rows() =~= before.push(nl.content@));
                assert(lines.take(k + 1) =~= lines.take(k as int).push(lines[k as int]));
                assert(lines[k as int] == nl.content@);
            }
            k = k + 1;
            proof {
                assert(self.rows() =~= old_rows + lines.take(k as int));
            }
        }
        proof {
            assert(lines.take(k as int) =~= lines);
        }
    }
}

/// `new` is `old` with its border drawn, at the same position.
pub open spec fn is_bordered(old: Canvas, border: (bool, bool, bool, bool, Option<Color>), new: Canvas) -> bool {
    &&& new.position == old.position
    &&& exists|gl: Seq<StyledUnit>| border_glyphs_ok(gl) && new.rows() == #[trigger] bordered(old.rows(), border, gl)
}

impl Canvas {
    /// Whether no line is wider than `bound` columns.
    pub fn rows_within_exec(&self, bound: usize) -> (r: bool)
        ensures
            r == rows_within(self.rows(), bound as nat),
            r ==> self.lines_fit(),
    {
        let mut i: usize = 0;
        while i < self.buffer.len()
            invariant
                i <= self.buffer@.len(),
                forall|j: int| 0 <= j < i ==> units_width(#[trigger] self.rows()[j]) <= bound,
            decreases self.buffer@.len() - i,
        {
            let ghost row = self.rows()[i as int];
            proof {
                assert(row == self.buffer@[i as int].content@);
            }
            match self.buffer[i].checked_width() {
                Some(w) => {
                    if w > bound {
                        return false;
                    }
                },
                None => {
                    return false;
                },
            }
            i = i + 1;
        }
        proof {
            assert forall|j: int| 0 <= j < self.buffer@.len() implies (#[trigger] self.buffer@[j]).fits() by {
                assert(self.rows()[j] == self.buffer@[j].content@);
            }
        }
        true
    }

    /// Whether [`Canvas::add_border`] can draw `border` on this canvas.
    pub fn border_drawable(&self, border: (bool, bool, bool, bool, Option<Color>)) -> (r: bool)
        ensures
            r == border_defined(self.rows(), border),
    {
        let ghost rows = self.rows();
        let ghost width = if rows.len() > 0 { units_width(rows[0]) } else { 0 };
        let ghost edged = with_edges(rows, border, width, seq![]);
        let ghost count = edged.len() as int;
        let ghost top = if border.0 { seq![in_color(Seq::new(width, |i: int| seq![][0]), border.4)] } else { seq![] };
        let ghost bottom = if border.1 { seq![in_color(Seq::new(width, |i: int| seq![][1]), border.4)] } else { seq![] };
        proof {
            assert(edged == top + rows + bottom);
        }
        if !(border.3 && border.4.is_some()) {
            return true;
        }
        let n = self.buffer.len();
        proof {
            assert(count == n + (if border.0 { 1int } else { 0 }) + (if border.1 { 1int } else { 0 }));
            if border.0 {
                assert(edged[0] == top[0]);
                assert(top[0].len() >= 2);
            }
            if border.1 {
                assert(edged[count - 1] == bottom[0]);
                assert(bottom[0].len() >= 2);
            }
            if !border.0 && n > 0 {
                assert(edged[0] == rows[0]);
            }
            if !border.1 && n > 0 {
                assert(edged[count - 1] == rows[n - 1]);
            }
            if !border.0 && n == 0 && border.1 {
                assert(edged[0] == bottom[0]);
            }
            if !border.1 && n == 0 && border.0 {
                assert(edged[count - 1] == top[0]);
            }
        }
        if n == 0 && !border.0 && !border.1 {
            return false;
        }
        if border.2 {
            return true;
        }
        let first_ok = border.0 || if n > 0 { self.buffer[0].content.len() > 0 } else { border.1 };
        let last_ok = border.1 || if n > 0 { self.buffer[n - 1].content.len() > 0 } else { border.0 };
        proof {
            if n > 0 {
                assert(rows[0] == self.buffer@[0].content@);
                assert(rows[n - 1] == self.buffer@[n - 1].content@);
            }
        }
        first_ok && last_ok
    }
}

/// Rows all `w` columns wide make a block `w` columns wide.
pub proof fn lemma_max_row_width_uniform(rows: Seq<Seq<StyledUnit>>, w: nat)
    requires
        forall|k: int| 0 <= k < rows.len() ==> units_width(#[trigger] rows[k]) == w,
    ensures
        max_row_width(rows) == if rows.len() > 0 { w } else { 0 },
    decreases rows.len(),
{
    if rows.len() > 0 {
        let prev = rows.drop_last();
        assert forall|k: int| 0 <= k < prev.len() implies units_width(#[trigger] prev[k]) == w by {
            assert(prev[k] == rows[k]);
        }
        lemma_max_row_width_uniform(prev, w);
        assert(units_width(rows.last()) == w);
    }
}

} // verus!
