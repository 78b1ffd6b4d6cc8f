//! A styled line: graphemes interleaved with style codes, addressed by display column.
use vstd::prelude::*;
use crate::code::{Attribute, Code, Color};
use crate::text::visual::{StyledUnit, VisualGrapheme, unit_width};
use crate::unicode::{display_width, grapheme_indices, grapheme_split, str_width};
use vstd::string::StringExecFns;

verus! {

/// A line of styled units.
#[derive(Debug, Default)]
pub struct Line {
    pub content: Vec<StyledUnit>,
}

/// Total number of columns the units take.
pub open spec fn units_width(s: Seq<StyledUnit>) -> nat
    decreases s.len(),
{
    if s.len() == 0 {
        0
    } else {
        units_width(s.drop_last()) + unit_width(s.last())
    }
}

/// Number of graphemes among the units.
pub open spec fn grapheme_count(s: Seq<StyledUnit>) -> nat
    decreases s.len(),
{
    if s.len() == 0 {
        0
    } else {
        grapheme_count(s.drop_last()) + if s.last() is Grapheme { 1nat } else { 0nat }
    }
}

/// A blank one-column grapheme outside any text line.
pub open spec fn is_space(u: StyledUnit) -> bool {
    u matches StyledUnit::Grapheme(g) && g.str@ == seq![' '] && g.width == 1 && g.grapheme_index
        is None
}

/// Every unit is a blank one-column grapheme.
pub open spec fn all_spaces(s: Seq<StyledUnit>) -> bool {
    forall|i: int| 0 <= i < s.len() ==> is_space(#[trigger] s[i])
}

/// The unit at index `i` is the grapheme that covers column `column`.
pub open spec fn locates(s: Seq<StyledUnit>, column: int, i: int) -> bool {
    &&& 0 <= i < s.len()
    &&& s[i] is Grapheme
    &&& units_width(s.take(i)) <= column < units_width(s.take(i)) + unit_width(s[i])
}

/// Index of the grapheme covering column `column`.
pub open spec fn column_index(s: Seq<StyledUnit>, column: int) -> int {
    choose|i: int| locates(s, column, i)
}

/// Columns before the unit at index `i`.
pub open spec fn column_of(s: Seq<StyledUnit>, i: int) -> nat {
    units_width(s.take(i))
}

/// The style codes as units.
pub open spec fn code_units(cs: Seq<Code>) -> Seq<StyledUnit> {
    cs.map_values(|c: Code| StyledUnit::Code(c))
}

/// Style state after a sequence of units: the attribute codes switched on since the last
/// attribute reset (each once, in the order first seen), and the current background and
/// foreground colors (`None` after a color reset).
pub open spec fn code_state(s: Seq<StyledUnit>) -> (Seq<Code>, Option<Color>, Option<Color>)
    decreases s.len(),
{
    if s.len() == 0 {
        (seq![], None, None)
    } else {
        let (attrs, bg, fg) = code_state(s.drop_last());
        match s.last() {
            StyledUnit::Code(Code::Attribute(a)) => if a == Attribute::Reset {
                (seq![], bg, fg)
            } else if attrs.contains(Code::Attribute(a)) {
                (attrs, bg, fg)
            } else {
                (attrs.push(Code::Attribute(a)), bg, fg)
            },
            StyledUnit::Code(Code::Background(c)) => (attrs, if c == Color::Reset {
                None
            } else {
                Some(c)
            }, fg),
            StyledUnit::Code(Code::Foreground(c)) => (attrs, bg, if c == Color::Reset {
                None
            } else {
                Some(c)
            }),
            StyledUnit::Grapheme(_) => (attrs, bg, fg),
        }
    }
}

/// `c` switches an attribute on.
pub open spec fn is_set_attribute(c: Code) -> bool {
    c matches Code::Attribute(a) && a != Attribute::Reset
}

/// The optional color as a one- or zero-element sequence of codes.
pub open spec fn opt_code(c: Option<Color>, foreground: bool) -> Seq<Code> {
    match c {
        Some(color) => if foreground {
            seq![Code::Foreground(color)]
        } else {
            seq![Code::Background(color)]
        },
        None => seq![],
    }
}

/// The codes active after the units `s`: the attribute codes, then the background, then the
/// foreground color.
pub open spec fn active_codes(s: Seq<StyledUnit>) -> Seq<Code> {
    let (attrs, bg, fg) = code_state(s);
    attrs + opt_code(bg, false) + opt_code(fg, true)
}

/// The codes that end the styles active after `s`: a reset of the background and of the
/// foreground color where they are set, then one attribute reset if any attribute is on.
pub open spec fn reset_codes(s: Seq<StyledUnit>) -> Seq<Code> {
    let (attrs, bg, fg) = code_state(s);
    (if bg is Some { seq![Code::Background(Color::Reset)] } else { seq![] }) + (if fg is Some {
        seq![Code::Foreground(Color::Reset)]
    } else {
        seq![]
    }) + (if attrs.len() > 0 { seq![Code::Attribute(Attribute::Reset)] } else { seq![] })
}

/// Taking one more unit adds that unit's width.
pub proof fn lemma_units_width_take_step(s: Seq<StyledUnit>, i: int)
    requires
        0 <= i < s.len(),
    ensures
        units_width(s.take(i + 1)) == units_width(s.take(i)) + unit_width(s[i]),
        grapheme_count(s.take(i + 1)) == grapheme_count(s.take(i)) + if s[i] is Grapheme {
            1nat
        } else {
            0nat
        },
        code_state(s.take(i + 1)) == ({
            let prev = s.take(i);
            let t = prev.push(s[i]);
            code_state(t)
        }),
{
    assert(s.take(i + 1).drop_last() =~= s.take(i));
    assert(s.take(i) .push(s[i]) =~= s.take(i + 1));
}

/// Widths add up over concatenation.
pub proof fn lemma_units_width_concat(a: Seq<StyledUnit>, b: Seq<StyledUnit>)
    ensures
        units_width(a + b) == units_width(a) + units_width(b),
    decreases b.len(),
{
    if b.len() == 0 {
        assert(a + b =~= a);
    } else {
        lemma_units_width_concat(a, b.drop_last());
        assert((a + b).drop_last() =~= a + b.drop_last());
    }
}

/// Widths of prefixes grow with the prefix.
pub proof fn lemma_units_width_take_monotone(s: Seq<StyledUnit>, i: int, j: int)
    requires
        0 <= i <= j <= s.len(),
    ensures
        units_width(s.take(i)) <= units_width(s.take(j)),
    decreases j - i,
{
    if i < j {
        lemma_units_width_take_monotone(s, i, j - 1);
        lemma_units_width_take_step(s, j - 1);
    }
}

/// At most one unit covers a given column.
pub proof fn lemma_locates_unique(s: Seq<StyledUnit>, column: int, i: int, j: int)
    requires
        locates(s, column, i),
        locates(s, column, j),
    ensures
        i == j,
{
    if i < j {
        lemma_units_width_take_step(s, i);
        lemma_units_width_take_monotone(s, i + 1, j);
    } else if j < i {
        lemma_units_width_take_step(s, j);
        lemma_units_width_take_monotone(s, j + 1, i);
    }
}

/// Any column left of the total width is covered by some grapheme.
pub proof fn lemma_locates_exists(s: Seq<StyledUnit>, column: int)
    requires
        0 <= column < units_width(s),
    ensures
        locates(s, column, column_index(s, column)),
    decreases s.len(),
{
    assert(s.take(s.len() as int) =~= s);
    let n = s.len() as int;
    let prev = s.drop_last();
    assert(s.take(n - 1) =~= prev);
    lemma_units_width_take_step(s, n - 1);
    if column < units_width(prev) {
        lemma_locates_exists(prev, column);
        let i = column_index(prev, column);
        assert(prev.take(i) =~= s.take(i));
        assert(locates(s, column, i));
    } else {
        assert(unit_width(s[n - 1]) > 0);
        assert(locates(s, column, n - 1));
    }
}

impl Line {
    /// Total number of columns of the line.
    pub open spec fn spec_width(&self) -> nat {
        units_width(self.content@)
    }

    /// The line's width can be counted in a `usize`.
    pub open spec fn fits(&self) -> bool {
        self.spec_width() <= usize::MAX
    }

    /// Returns a new line with `size` empty chars
    pub fn new(size: usize) -> (r: Self)
        ensures
            r.content@.len() == size,
            all_spaces(r.content@),
            r.spec_width() == size,
            grapheme_count(r.content@) == size,
    {
        proof {
            reveal_strlit(" ");
            assert(" "@ =~= seq![' ']);
        }
        let space = StyledUnit::grapheme(" ");
        let mut content: Vec<StyledUnit> = Vec::new();
        let mut i: usize = 0;
        while i < size
            invariant
                i <= size,
                content@.len() == i,
                is_space(space),
                all_spaces(content@),
                units_width(content@) == i,
                grapheme_count(content@) == i,
            decreases size - i,
        {
            let ghost before = content@;
            content.push(space.clone());
            proof {
                assert(content@.drop_last() =~= before);
            }
            i = i + 1;
        }
        Self { content }
    }

    /// Returns the `grapheme` count of the line
    pub fn count(&self) -> (r: usize)
        ensures
            r == grapheme_count(self.content@),
    {
        let mut n: usize = 0;
        let mut i: usize = 0;
        while i < self.content.len()
            invariant
                i <= self.content@.len(),
                n == grapheme_count(self.content@.take(i as int)),
                n <= i,
            decreases self.content@.len() - i,
        {
            proof {
                lemma_units_width_take_step(self.content@, i as int);
            }
            if self.content[i].is_grapheme() {
                n = n + 1;
            }
            i = i + 1;
        }
        proof {
            assert(self.content@.take(i as int) =~= self.content@);
        }
        n
    }

    /// Returns the `column` width of the line
    /// The line's width, or `None` when it cannot be counted in a `usize`.
    pub fn checked_width(&self) -> (r: Option<usize>)
        ensures
            r == if self.fits() { Some(self.spec_width() as usize) } else { None::<usize> },
    {
        let mut w: usize = 0;
        let mut i: usize = 0;
        while i < self.content.len()
            invariant
                i <= self.content@.len(),
                w == units_width(self.content@.take(i as int)),
            decreases self.content@.len() - i,
        {
            proof {
                lemma_units_width_take_step(self.content@, i as int);
                lemma_units_width_take_monotone(self.content@, i + 1, self.content@.len() as int);
                assert(self.content@.take(self.content@.len() as int) =~= self.content@);
            }
            let u = self.content[i].width();
            if u > usize::MAX - w {
                return None;
            }
            w = w + u;
            i = i + 1;
        }
        proof {
            assert(self.content@.take(i as int) =~= self.content@);
        }
        Some(w)
    }

    pub fn width(&self) -> (r: usize)
        requires
            self.fits(),
        ensures
            r == self.spec_width(),
    {
        let mut w: usize = 0;
        let mut i: usize = 0;
        while i < self.content.len()
            invariant
                i <= self.content@.len(),
                w == units_width(self.content@.take(i as int)),
                self.fits(),
            decreases self.content@.len() - i,
        {
            proof {
                lemma_units_width_take_step(self.content@, i as int);
                lemma_units_width_take_monotone(self.content@, i + 1, self.content@.len() as int);
                assert(self.content@.take(self.content@.len() as int) =~= self.content@);
            }
            w = w + self.content[i].width();
            i = i + 1;
        }
        proof {
            assert(self.content@.take(i as int) =~= self.content@);
        }
        w
    }

    /// Returns the index of the grapheme at `column`, the column where that grapheme starts,
    /// and its width.
    fn column_to_index(&self, column: usize) -> (r: (usize, usize, usize))
        requires
            self.fits(),
            column < self.spec_width(),
        ensures
            r.0 == column_index(self.content@, column as int),
            locates(self.content@, column as int, r.0 as int),
            r.1 == column_of(self.content@, r.0 as int),
            r.2 == unit_width(self.content@[r.0 as int]),
    {
        proof {
            lemma_locates_exists(self.content@, column as int);
        }
        let ghost target = column_index(self.content@, column as int);
        let mut columns: usize = 0;
        let mut i: usize = 0;
        while i < self.content.len()
            invariant
                i <= self.content@.len(),
                columns == units_width(self.content@.take(i as int)),
                columns <= column,
                self.fits(),
                column < self.spec_width(),
                locates(self.content@, column as int, target),
                target == column_index(self.content@, column as int),
                i <= target,
            decreases self.content@.len() - i,
        {
            proof {
                lemma_units_width_take_step(self.content@, i as int);
                lemma_units_width_take_monotone(self.content@, i + 1, self.content@.len() as int);
                assert(self.content@.take(self.content@.len() as int) =~= self.content@);
            }
            if self.content[i].is_grapheme() {
                let width = self.content[i].width();
                if columns + width > column {
                    proof {
                        assert(locates(self.content@, column as int, i as int));
                        lemma_locates_unique(self.content@, column as int, i as int, target);
                    }
                    return (i, columns, width);
                }
                columns = columns + width;
            }
            proof {
                if i == target {
                    assert(false);
                }
            }
            i = i + 1;
        }
        proof {
            assert(false);
        }
        (0, 0, 0)
    }
}

/// `codes` holds `code`.
fn contains_code(codes: &Vec<Code>, code: Code) -> (r: bool)
    ensures
        r == codes@.contains(code),
{
    let mut i: usize = 0;
    while i < codes.len()
        invariant
            i <= codes@.len(),
            forall|k: int| 0 <= k < i ==> codes@[k] != code,
        decreases codes@.len() - i,
    {
        if codes[i] == code {
            return true;
        }
        i = i + 1;
    }
    false
}

impl Line {
    /// Set a grapheme at `column` to `unit`.
    /// If unit is a code, it will be inserted at the grapheme's index, otherwise it will replace
    /// the grapheme.
    pub fn set(&mut self, column: usize, unit: StyledUnit)
        requires
            old(self).fits(),
            column < old(self).spec_width(),
        ensures
            final(self).content@ == ({
                let i = column_index(old(self).content@, column as int);
                if unit is Code {
                    old(self).content@.insert(i, unit)
                } else {
                    old(self).content@.update(i, unit)
                }
            }),
    {
        let (real_index, _, _) = self.column_to_index(column);
        if unit.is_code() {
            self.content.insert(real_index, unit);
        } else {
            self.content.set(real_index, unit);
        }
    }

    /// Returns all relevant codes active at `real_index`: the attribute codes switched on
    /// since the last attribute reset before it (each once, in the order first seen), then the
    /// current background and foreground colors.
    pub fn active_codes_at(&self, real_index: usize) -> (r: Vec<Code>)
        requires
            real_index <= self.content@.len(),
        ensures
            r@ == active_codes(self.content@.take(real_index as int)),
    {
        let mut codes: Vec<Code> = Vec::new();
        let mut bg: Option<Color> = None;
        let mut fg: Option<Color> = None;
        let mut i: usize = 0;
        while i < real_index
            invariant
                i <= real_index <= self.content@.len(),
                (codes@, bg, fg) == code_state(self.content@.take(i as int)),
            decreases real_index - i,
        {
            proof {
                lemma_units_width_take_step(self.content@, i as int);
                assert(self.content@.take(i + 1).drop_last() =~= self.content@.take(i as int));
            }
            match &self.content[i] {
                StyledUnit::Code(code) => match code {
                    Code::Attribute(attr) => {
                        if *attr == Attribute::Reset {
                            codes = Vec::new();
                        } else if !contains_code(&codes, *code) {
                            codes.push(*code);
                        }
                    },
                    Code::Background(color) => {
                        if *color == Color::Reset {
                            bg = None;
                        } else {
                            bg = Some(*color);
                        }
                    },
                    Code::Foreground(color) => {
                        if *color == Color::Reset {
                            fg = None;
                        } else {
                            fg = Some(*color);
                        }
                    },
                },
                _ => {},
            }
            i = i + 1;
            proof {
                assert(codes@ =~= code_state(self.content@.take(i as int)).0);
            }
        }
        if let Some(color) = bg {
            codes.push(Code::Background(color));
        }
        if let Some(color) = fg {
            codes.push(Code::Foreground(color));
        }
        proof {
            assert(codes@ =~= active_codes(self.content@.take(real_index as int)));
        }
        codes
    }

    /// Returns all relevant reset codes to end the style at `real_index`
    pub fn reset_codes_for(&self, real_index: usize) -> (r: Vec<Code>)
        requires
            real_index <= self.content@.len(),
        ensures
            r@ == reset_codes(self.content@.take(real_index as int)),
    {
        let active = self.active_codes_at(real_index);
        let ghost st = code_state(self.content@.take(real_index as int));
        proof {
            lemma_code_state_attrs(self.content@.take(real_index as int));
        }
        let mut resets: Vec<Code> = Vec::new();
        let mut has_attr = false;
        let mut i: usize = 0;
        while i < active.len()
            invariant
                i <= active@.len(),
                active@ == st.0 + opt_code(st.1, false) + opt_code(st.2, true),
                forall|k: int| 0 <= k < st.0.len() ==> is_set_attribute(#[trigger] st.0[k]),
                st.1 != Some(Color::Reset),
                st.2 != Some(Color::Reset),
                has_attr == (i > 0 && st.0.len() > 0),
                i <= st.0.len() ==> resets@ == Seq::<Code>::empty(),
                i > st.0.len() ==> resets@ == ({
                    let bgs = if st.1 is Some { seq![Code::Background(Color::Reset)] } else { seq![] };
                    let fgs = if st.2 is Some { seq![Code::Foreground(Color::Reset)] } else { seq![] };
                    (bgs + fgs).take(i - st.0.len())
                }),
            decreases active@.len() - i,
        {
            let code = active[i];
            if code.is_reset() {
                i = i + 1;
                continue;
            }
            if code.is_attribute() {
                has_attr = true;
            } else {
                resets.push(code.into_reset());
            }
            i = i + 1;
            proof {
                if i > st.0.len() {
                    let bgs = if st.1 is Some { seq![Code::Background(Color::Reset)] } else { seq![] };
                    let fgs = if st.2 is Some { seq![Code::Foreground(Color::Reset)] } else { seq![] };
                    assert(resets@ =~= (bgs + fgs).take(i - st.0.len()));
                }
            }
        }
        if has_attr {
            resets.push(Code::Attribute(Attribute::Reset));
        }
        proof {
            let bgs = if st.1 is Some { seq![Code::Background(Color::Reset)] } else { seq![] };
            let fgs = if st.2 is Some { seq![Code::Foreground(Color::Reset)] } else { seq![] };
            assert((bgs + fgs).take((active@.len() - st.0.len()) as int) =~= bgs + fgs);
            assert(resets@ =~= reset_codes(self.content@.take(real_index as int)));
        }
        resets
    }
}

/// The attribute codes of a style state are non-reset attribute codes, and its colors are not
/// resets.
pub proof fn lemma_code_state_attrs(s: Seq<StyledUnit>)
    ensures
        forall|k: int| 0 <= k < code_state(s).0.len() ==> is_set_attribute(#[trigger] code_state(s).0[k]),
        code_state(s).1 != Some(Color::Reset),
        code_state(s).2 != Some(Color::Reset),
    decreases s.len(),
{
    if s.len() > 0 {
        lemma_code_state_attrs(s.drop_last());
    }
}

/// Columns a cutout of `length` columns from `column` actually takes: what is left of the
/// line after `column`, at most `length`.
pub open spec fn cutout_len(s: Seq<StyledUnit>, column: nat, length: nat) -> nat {
    let rest: nat = if units_width(s) >= column { (units_width(s) - column) as nat } else { 0 };
    if length <= rest { length } else { rest }
}

/// How a non-empty cutout is made: the index of the first and last grapheme it touches, the
/// range `a..b` of units copied, and the number of spaces filled in before and after them
/// where the cut falls inside a wide grapheme. A cut that starts and ends inside the same
/// wide grapheme copies nothing and is all spaces.
pub open spec fn cutout_parts(s: Seq<StyledUnit>, column: nat, length: nat) -> (int, int, int, int, nat, nat) {
    let len = cutout_len(s, column, length);
    let si = column_index(s, column as int);
    let sc = column_of(s, si);
    let sw = unit_width(s[si]);
    let ei = column_index(s, column + len - 1);
    let ec = column_of(s, ei);
    let ew = unit_width(s[ei]);
    let start_gap = sw - (column - sc);
    let end_gap = column + len - ec;
    let a = if sw > 1 && start_gap < sw { si + 1 } else { si };
    let b = if ew > 1 && end_gap < ew { ei } else { ei + 1 };
    let n1: nat = if start_gap < sw { start_gap as nat } else { 0 };
    let n2: nat = if end_gap > 0 && end_gap < ew { end_gap as nat } else { 0 };
    if a > b {
        (si, ei, b, b, len, 0)
    } else {
        (si, ei, a, b, n1, n2)
    }
}

/// `r` is the cutout of `length` columns from `column` of `s`: the codes active at the first
/// grapheme, spaces for the part of a wide first grapheme that is cut, the whole graphemes (and
/// codes between them) inside the range, spaces for the part of a wide last grapheme inside
/// the range, and the reset codes of the styles active at the last grapheme.
pub open spec fn is_cutout_of(s: Seq<StyledUnit>, column: nat, length: nat, r: Seq<StyledUnit>) -> bool {
    let len = cutout_len(s, column, length);
    if len == 0 || column >= units_width(s) {
        r.len() == 0
    } else {
        let (si, ei, a, b, n1, n2) = cutout_parts(s, column, length);
        let pre = code_units(active_codes(s.take(si)));
        let post = code_units(reset_codes(s.take(ei)));
        let p1 = pre.len() as int;
        let p2 = p1 + n1;
        let p3 = p2 + (b - a);
        let p4 = p3 + n2;
        &&& r.len() == p4 + post.len()
        &&& r.subrange(0, p1) == pre
        &&& all_spaces(r.subrange(p1, p2))
        &&& r.subrange(p2, p3) == s.subrange(a, b)
        &&& all_spaces(r.subrange(p3, p4))
        &&& r.subrange(p4, r.len() as int) == post
    }
}

/// Appends `codes` as units.
fn push_codes(v: &mut Vec<StyledUnit>, codes: &Vec<Code>)
    ensures
        final(v)@ == old(v)@ + code_units(codes@),
{
    let mut i: usize = 0;
    while i < codes.len()
        invariant
            i <= codes@.len(),
            v@ == old(v)@ + code_units(codes@.take(i as int)),
        decreases codes@.len() - i,
    {
        v.push(StyledUnit::Code(codes[i]));
        i = i + 1;
        proof {
            assert(codes@.take(i as int) =~= codes@.take(i - 1).push(codes@[i - 1]));
            assert(v@ =~= old(v)@ + code_units(codes@.take(i as int)));
        }
    }
    proof {
        assert(codes@.take(i as int) =~= codes@);
    }
}

/// Appends `n` blank one-column graphemes.
pub(crate) fn push_spaces(v: &mut Vec<StyledUnit>, n: usize)
    ensures
        final(v)@.len() == old(v)@.len() + n,
        final(v)@.subrange(0, old(v)@.len() as int) == old(v)@,
        all_spaces(final(v)@.subrange(old(v)@.len() as int, final(v)@.len() as int)),
{
    proof {
        reveal_strlit(" ");
        assert(" "@ =~= seq![' ']);
    }
    let space = StyledUnit::grapheme(" ");
    let mut i: usize = 0;
    while i < n
        invariant
            i <= n,
            is_space(space),
            v@.len() == old(v)@.len() + i,
            v@.subrange(0, old(v)@.len() as int) == old(v)@,
            all_spaces(v@.subrange(old(v)@.len() as int, v@.len() as int)),
        decreases n - i,
    {
        let ghost before = v@;
        v.push(space.clone());
        i = i + 1;
        proof {
            assert(v@.subrange(0, old(v)@.len() as int) =~= before.subrange(0, old(v)@.len() as int));
            assert forall|k: int| 0 <= k < v@.subrange(old(v)@.len() as int, v@.len() as int).len() implies is_space(
                #[trigger] v@.subrange(old(v)@.len() as int, v@.len() as int)[k],
            ) by {
                if k < i - 1 {
                    assert(v@.subrange(old(v)@.len() as int, v@.len() as int)[k] == before.subrange(
                        old(v)@.len() as int,
                        before.len() as int,
                    )[k]);
                }
            }
        }
    }
}

/// Appends clones of `src[a..b]`.
pub(crate) fn push_range(v: &mut Vec<StyledUnit>, src: &Vec<StyledUnit>, a: usize, b: usize)
    requires
        a <= b <= src@.len(),
    ensures
        final(v)@ == old(v)@ + src@.subrange(a as int, b as int),
{
    let mut i = a;
    while i < b
        invariant
            a <= i <= b <= src@.len(),
            v@ == old(v)@ + src@.subrange(a as int, i as int),
        decreases b - i,
    {
        v.push(src[i].clone());
        i = i + 1;
        proof {
            assert(v@ =~= old(v)@ + src@.subrange(a as int, i as int));
        }
    }
}

impl Line {
    /// Returns a new line with the graphemes between `(column..column + length)` column range, if
    /// a column is not a grapheme boundary, it will be filled with spaces.
    /// The new line will keep the correct codes at the start, all of them will be reset at the
    /// end.
    pub fn cutout(&self, column: usize, length: usize) -> (r: Line)
        requires
            self.fits(),
        ensures
            is_cutout_of(self.content@, column as nat, length as nat, r.content@),
            r.spec_width() == cutout_len(self.content@, column as nat, length as nat),
    {
        let line_width = self.width();
        let rest = if line_width >= column { line_width - column } else { 0 };
        let len = if length <= rest { length } else { rest };
        if len == 0 || column >= line_width {
            return Line::new(0);
        }
        let (start_index, start_column, start_width) = self.column_to_index(column);
        let (end_index, end_column, end_width) = self.column_to_index(column + len - 1);
        let unit_count = self.content.len();
        let start_gap = start_width - (column - start_column);
        let end_gap = (column + len) - end_column;
        let mut a = if start_width > 1 && start_gap < start_width { start_index + 1 } else { start_index };
        let b = if end_width > 1 && end_gap < end_width { end_index } else { end_index + 1 };
        let mut n1: usize = if start_gap < start_width { start_gap } else { 0 };
        let mut n2: usize = if end_gap > 0 && end_gap < end_width { end_gap } else { 0 };
        if a > b {
            a = b;
            n1 = len;
            n2 = 0;
        }
        proof {
            assert(cutout_len(self.content@, column as nat, length as nat) == len);
            assert(cutout_parts(self.content@, column as nat, length as nat) == (
                start_index as int,
                end_index as int,
                a as int,
                b as int,
                n1 as nat,
                n2 as nat,
            ));
        }
        let active = self.active_codes_at(start_index);
        let resets = self.reset_codes_for(end_index);
        let content = assemble(&self.content, &active, n1, a, b, n2, &resets);
        proof {
            lemma_cutout_width(self.content@, column as nat, length as nat, content@);
        }
        Line { content }
    }
}

/// `code_units(pre) ++ n1 spaces ++ src[a..b] ++ n2 spaces ++ code_units(post)`.
fn assemble(src: &Vec<StyledUnit>, pre: &Vec<Code>, n1: usize, a: usize, b: usize, n2: usize, post: &Vec<Code>) -> (r: Vec<StyledUnit>)
    requires
        a <= b <= src@.len(),
    ensures
        ({
            let p1 = pre@.len() as int;
            let p2 = p1 + n1;
            let p3 = p2 + (b - a);
            let p4 = p3 + n2;
            &&& r@.len() == p4 + post@.len()
            &&& r@.subrange(0, p1) == code_units(pre@)
            &&& all_spaces(r@.subrange(p1, p2))
            &&& r@.subrange(p2, p3) == src@.subrange(a as int, b as int)
            &&& all_spaces(r@.subrange(p3, p4))
            &&& r@.subrange(p4, r@.len() as int) == code_units(post@)
        }),
{
    let mut content: Vec<StyledUnit> = Vec::new();
    push_codes(&mut content, pre);
    let ghost c1 = content@;
    push_spaces(&mut content, n1);
    let ghost c2 = content@;
    push_range(&mut content, src, a, b);
    let ghost c3 = content@;
    push_spaces(&mut content, n2);
    let ghost c4 = content@;
    push_codes(&mut content, post);
    proof {
        let c = content@;
        let p1 = c1.len() as int;
        let p2 = c2.len() as int;
        let p3 = c3.len() as int;
        let p4 = c4.len() as int;
        assert(c1 =~= code_units(pre@));
        assert(c2.subrange(0, p1) =~= c1);
        assert(c3.subrange(0, p2) =~= c2);
        assert(c4.subrange(0, p3) =~= c3);
        assert(c.subrange(0, p4) =~= c4);
        assert(c.subrange(0, p1) =~= c1);
        assert(c.subrange(p1, p2) =~= c2.subrange(p1, p2));
        assert(c.subrange(p2, p3) =~= c3.subrange(p2, p3));
        assert(c3.subrange(p2, p3) =~= src@.subrange(a as int, b as int));
        assert(c.subrange(p3, p4) =~= c4.subrange(p3, p4));
        assert(c.subrange(p4, c.len() as int) =~= code_units(post@));
    }
    content
}

/// The part of `s` kept before a paste at `column`: the units up to index `h` (excluding a wide
/// grapheme cut by the column), `hn` spaces standing for the cut grapheme's columns left of
/// the column, and the reset codes of the styles active at that grapheme.
pub open spec fn paste_head(s: Seq<StyledUnit>, column: nat) -> (int, nat, Seq<Code>) {
    if column == 0 {
        (0, 0, seq![])
    } else {
        let si = column_index(s, column - 1);
        let sc = column_of(s, si);
        let sw = unit_width(s[si]);
        let start_gap = column - sc;
        let h = if sw > 1 && start_gap < sw { si } else { si + 1 };
        let hn: nat = if start_gap > 0 && start_gap < sw { start_gap as nat } else { 0 };
        (h, hn, reset_codes(s.take(si)))
    }
}

/// The part of `s` kept after a paste of `ow` columns at `column`: the codes active at the
/// grapheme covering the last pasted column, `tn` spaces for that grapheme's columns right of
/// the paste, and the units after it from index `t`.
pub open spec fn paste_tail(s: Seq<StyledUnit>, column: nat, ow: nat) -> (int, nat, Seq<Code>) {
    if column + ow < units_width(s) {
        let ei = column_index(s, column + ow - 1);
        let ec = column_of(s, ei);
        let ew = unit_width(s[ei]);
        let end_gap = ew - (column + ow - ec);
        let tn: nat = if end_gap < ew && end_gap > 0 { end_gap as nat } else { 0 };
        (ei + 1, tn, active_codes(s.take(ei)))
    } else {
        (s.len() as int, 0, seq![])
    }
}

/// `r` is `s` with `other` pasted on top from column `column`.
pub open spec fn is_paste_of(s: Seq<StyledUnit>, other: Seq<StyledUnit>, column: nat, r: Seq<StyledUnit>) -> bool {
    if units_width(other) == 0 {
        r == s
    } else {
        let (h, hn, resets) = paste_head(s, column);
        let (t, tn, active) = paste_tail(s, column, units_width(other));
        let q1 = h;
        let q2 = q1 + hn;
        let q3 = q2 + resets.len();
        let q4 = q3 + other.len();
        let q5 = q4 + active.len();
        let q6 = q5 + tn;
        &&& r.len() == q6 + (s.len() - t)
        &&& r.subrange(0, q1) == s.subrange(0, h)
        &&& all_spaces(r.subrange(q1, q2))
        &&& r.subrange(q2, q3) == code_units(resets)
        &&& r.subrange(q3, q4) == other
        &&& r.subrange(q4, q5) == code_units(active)
        &&& all_spaces(r.subrange(q5, q6))
        &&& r.subrange(q6, r.len() as int) == s.subrange(t, s.len() as int)
    }
}

impl Line {
    /// Paste another line on top of this one, starting at `column`.
    #[verifier::rlimit(50)]
    pub fn paste_on_top(&mut self, other: &Line, column: usize)
        requires
            old(self).fits(),
            other.fits(),
            column <= old(self).spec_width(),
            column + other.spec_width() <= usize::MAX,
        ensures
            is_paste_of(old(self).content@, other.content@, column as nat, final(self).content@),
    {
        let other_width = other.width();
        if other_width == 0 {
            return;
        }
        let self_width = self.width();
        let unit_count = self.content.len();
        let ghost s = self.content@;
        let ghost head = paste_head(s, column as nat);
        let ghost tail = paste_tail(s, column as nat, other_width as nat);
        let mut content: Vec<StyledUnit> = Vec::new();
        let mut head_len: usize = 0;
        let mut head_spaces: usize = 0;
        let mut head_resets: Vec<Code> = Vec::new();
        if column != 0 {
            let (start_index, start_column, start_width) = self.column_to_index(column - 1);
            let start_gap = column - start_column;
            head_len = if start_width > 1 && start_gap < start_width { start_index } else { start_index + 1 };
            head_spaces = if start_gap > 0 && start_gap < start_width { start_gap } else { 0 };
            head_resets = self.reset_codes_for(start_index);
        }
        proof {
            assert(head == (head_len as int, head_spaces as nat, head_resets@));
        }
        let mut tail_start: usize = unit_count;
        let mut tail_spaces: usize = 0;
        let mut tail_active: Vec<Code> = Vec::new();
        if column + other_width < self_width {
            let (end_index, end_column, end_width) = self.column_to_index(column + other_width - 1);
            tail_active = self.active_codes_at(end_index);
            let end_gap = end_width - (column + other_width - end_column);
            tail_spaces = if end_gap < end_width && end_gap > 0 { end_gap } else { 0 };
            tail_start = end_index + 1;
        }
        proof {
            assert(tail == (tail_start as int, tail_spaces as nat, tail_active@));
        }
        push_range(&mut content, &self.content, 0, head_len);
        let ghost c1 = content@;
        push_spaces(&mut content, head_spaces);
        let ghost c2 = content@;
        push_codes(&mut content, &head_resets);
        let ghost c3 = content@;
        push_range(&mut content, &other.content, 0, other.content.len());
        let ghost c4 = content@;
        push_codes(&mut content, &tail_active);
        let ghost c5 = content@;
        push_spaces(&mut content, tail_spaces);
        let ghost c6 = content@;
        push_range(&mut content, &self.content, tail_start, unit_count);
        proof {
            let c = content@;
            let o = other.content@;
            let q1 = c1.len() as int;
            let q2 = c2.len() as int;
            let q3 = c3.len() as int;
            let q4 = c4.len() as int;
            let q5 = c5.len() as int;
            let q6 = c6.len() as int;
            assert(c.subrange(0, q6) =~= c6);
            assert(c.subrange(0, q5) =~= c5);
            assert(c.subrange(0, q4) =~= c4);
            assert(c.subrange(0, q3) =~= c3);
            assert(c.subrange(0, q2) =~= c2);
            assert(c.subrange(0, q1) =~= c1);
            assert(c3 =~= c2 + code_units(head_resets@));
            assert(c4 =~= c3 + o.subrange(0, o.len() as int));
            assert(c5 =~= c4 + code_units(tail_active@));
            assert(o.subrange(0, o.len() as int) =~= o);
            assert(c.subrange(0, q1) =~= s.subrange(0, head_len as int));
            assert(c.subrange(q1, q2) =~= c2.subrange(q1, q2));
            assert(c.subrange(q2, q3) =~= c3.subrange(q2, q3));
            assert(c.subrange(q3, q4) =~= c4.subrange(q3, q4));
            assert(c.subrange(q4, q5) =~= c5.subrange(q4, q5));
            assert(c.subrange(q5, q6) =~= c6.subrange(q5, q6));
            assert(c.subrange(q6, c.len() as int) =~= s.subrange(tail_start as int, s.len() as int));
            assert(all_spaces(c.subrange(q1, q2)));
            assert(all_spaces(c.subrange(q5, q6)));
            assert(c.subrange(q2, q3) =~= code_units(head.2));
            assert(c.subrange(q3, q4) =~= o);
            assert(c.subrange(q4, q5) =~= code_units(tail.2));
            assert(c.subrange(0, q1) =~= s.subrange(0, head.0));
            assert(c.subrange(q6, c.len() as int) =~= s.subrange(tail.0, s.len() as int));
            assert(units_width(o) != 0);
            assert(q1 == head.0);
            assert(q2 == q1 + head.1);
            assert(q3 == q2 + head.2.len());
            assert(q4 == q3 + o.len());
            assert(q5 == q4 + tail.2.len());
            assert(q6 == q5 + tail.1);
            assert(c.len() == q6 + (s.len() - tail.0));
            assert(is_paste_of(s, o, column as nat, c));
        }
        self.content = content;
    }
}

/// Style codes take no columns.
pub proof fn lemma_code_units_width(cs: Seq<Code>)
    ensures
        units_width(code_units(cs)) == 0,
    decreases cs.len(),
{
    if cs.len() > 0 {
        lemma_code_units_width(cs.drop_last());
        assert(code_units(cs).drop_last() =~= code_units(cs.drop_last()));
    }
}

/// Blank graphemes take one column each.
pub proof fn lemma_spaces_width(s: Seq<StyledUnit>)
    requires
        all_spaces(s),
    ensures
        units_width(s) == s.len(),
    decreases s.len(),
{
    if s.len() > 0 {
        assert(is_space(s[s.len() - 1]));
        lemma_spaces_width(s.drop_last());
    }
}

/// The width of a range of units is the difference of the widths before its ends.
pub proof fn lemma_units_width_subrange(s: Seq<StyledUnit>, a: int, b: int)
    requires
        0 <= a <= b <= s.len(),
    ensures
        units_width(s.subrange(a, b)) + units_width(s.take(a)) == units_width(s.take(b)),
{
    assert(s.take(b) =~= s.take(a) + s.subrange(a, b));
    lemma_units_width_concat(s.take(a), s.subrange(a, b));
}

/// Splitting a sequence of units at `k` splits its width.
pub proof fn lemma_units_width_split(r: Seq<StyledUnit>, k: int)
    requires
        0 <= k <= r.len(),
    ensures
        units_width(r) == units_width(r.subrange(0, k)) + units_width(r.subrange(k, r.len() as int)),
{
    assert(r =~= r.subrange(0, k) + r.subrange(k, r.len() as int));
    lemma_units_width_concat(r.subrange(0, k), r.subrange(k, r.len() as int));
}

/// The whole sequence is its prefix of full length.
pub proof fn lemma_take_all(s: Seq<StyledUnit>)
    ensures
        s.take(s.len() as int) == s,
{
    assert(s.take(s.len() as int) =~= s);
}

/// The columns kept before a paste at `column`: the units up to the head index and the spaces
/// standing for a cut wide grapheme together take exactly `column` columns.
pub proof fn lemma_paste_head_width(s: Seq<StyledUnit>, column: nat)
    requires
        column <= units_width(s),
    ensures
        units_width(s.take(paste_head(s, column).0)) + paste_head(s, column).1 == column,
        0 <= paste_head(s, column).0 <= s.len(),
{
    if column == 0 {
        assert(s.take(0) =~= Seq::<StyledUnit>::empty());
    } else {
        lemma_locates_exists(s, column - 1);
        let si = column_index(s, column - 1);
        lemma_units_width_take_step(s, si);
    }
}

/// The columns kept after a paste of `ow > 0` columns at `column`: the spaces standing for a cut
/// wide grapheme and the units after it take what is left of the line.
pub proof fn lemma_paste_tail_width(s: Seq<StyledUnit>, column: nat, ow: nat)
    requires
        ow > 0,
    ensures
        paste_tail(s, column, ow).1 + units_width(s.subrange(paste_tail(s, column, ow).0, s.len() as int))
            == if column + ow < units_width(s) { units_width(s) - column - ow } else { 0 },
        0 <= paste_tail(s, column, ow).0 <= s.len(),
{
    lemma_take_all(s);
    if column + ow < units_width(s) {
        lemma_locates_exists(s, column + ow - 1);
        let ei = column_index(s, column + ow - 1);
        lemma_units_width_take_step(s, ei);
        lemma_units_width_subrange(s, ei + 1, s.len() as int);
    } else {
        assert(s.subrange(s.len() as int, s.len() as int) =~= Seq::<StyledUnit>::empty());
    }
}

/// The width of the first `k` units, by the parts of an assembled line.
proof fn lemma_width_prefix_codes(r: Seq<StyledUnit>, i: int, j: int, cs: Seq<Code>)
    requires
        0 <= i <= j <= r.len(),
        r.subrange(i, j) == code_units(cs),
    ensures
        units_width(r.take(j)) == units_width(r.take(i)),
{
    lemma_units_width_subrange(r, i, j);
    lemma_code_units_width(cs);
}

proof fn lemma_width_prefix_spaces(r: Seq<StyledUnit>, i: int, j: int)
    requires
        0 <= i <= j <= r.len(),
        all_spaces(r.subrange(i, j)),
    ensures
        units_width(r.take(j)) == units_width(r.take(i)) + (j - i),
{
    lemma_units_width_subrange(r, i, j);
    lemma_spaces_width(r.subrange(i, j));
}

proof fn lemma_width_prefix_copy(r: Seq<StyledUnit>, i: int, j: int, part: Seq<StyledUnit>)
    requires
        0 <= i <= j <= r.len(),
        r.subrange(i, j) == part,
    ensures
        units_width(r.take(j)) == units_width(r.take(i)) + units_width(part),
{
    lemma_units_width_subrange(r, i, j);
}

/// Pasting a line of `ow > 0` columns at a column inside (or at the end of) a line of `w`
/// columns gives a line of `max(w, column + ow)` columns: the pasted line covers its columns,
/// and the line pasted on keeps its columns on both sides, with spaces standing for the parts of
/// wide graphemes that the paste cuts.
pub proof fn lemma_paste_width(s: Seq<StyledUnit>, other: Seq<StyledUnit>, column: nat, r: Seq<StyledUnit>)
    requires
        column <= units_width(s),
        is_paste_of(s, other, column, r),
    ensures
        units_width(r) == if column + units_width(other) > units_width(s) {
            column + units_width(other)
        } else {
            units_width(s)
        },
{
    let ow = units_width(other);
    if ow == 0 {
        return;
    }
    let (h, hn, resets) = paste_head(s, column);
    let (t, tn, active) = paste_tail(s, column, ow);
    let q1 = h;
    let q2 = q1 + hn;
    let q3 = q2 + resets.len();
    let q4 = q3 + other.len();
    let q5 = q4 + active.len();
    let q6 = q5 + tn;
    lemma_paste_head_width(s, column);
    lemma_paste_tail_width(s, column, ow);
    assert(r.take(0) =~= Seq::<StyledUnit>::empty());
    lemma_width_prefix_copy(r, 0, q1, s.take(h));
    lemma_width_prefix_spaces(r, q1, q2);
    lemma_width_prefix_codes(r, q2, q3, resets);
    lemma_width_prefix_copy(r, q3, q4, other);
    lemma_width_prefix_codes(r, q4, q5, active);
    lemma_width_prefix_spaces(r, q5, q6);
    lemma_width_prefix_copy(r, q6, r.len() as int, s.subrange(t, s.len() as int));
    lemma_take_all(r);
}

/// Every unit is a grapheme: the line holds no style code.
pub open spec fn graphemes_only(s: Seq<StyledUnit>) -> bool {
    forall|i: int| 0 <= i < s.len() ==> (#[trigger] s[i]) is Grapheme
}

/// Every unit is a grapheme at least one column wide.
pub open spec fn visible_graphemes(s: Seq<StyledUnit>) -> bool {
    forall|i: int| 0 <= i < s.len() ==> (#[trigger] s[i]) is Grapheme && unit_width(s[i]) >= 1
}

/// No style is active after a line without codes.
proof fn lemma_code_state_plain(s: Seq<StyledUnit>)
    requires
        graphemes_only(s),
    ensures
        code_state(s) == (Seq::<Code>::empty(), None::<Color>, None::<Color>),
        active_codes(s) == Seq::<Code>::empty(),
        reset_codes(s) == Seq::<Code>::empty(),
    decreases s.len(),
{
    if s.len() > 0 {
        assert forall|i: int| 0 <= i < s.drop_last().len() implies (#[trigger] s.drop_last()[i]) is Grapheme by {
            assert(s.drop_last()[i] == s[i]);
        }
        lemma_code_state_plain(s.drop_last());
        assert(s.last() is Grapheme);
    }
    assert(active_codes(s) =~= Seq::<Code>::empty());
    assert(reset_codes(s) =~= Seq::<Code>::empty());
}

/// `n` blanks as text.
pub open spec fn blanks(n: nat) -> Seq<char> {
    Seq::new(n, |i: int| ' ')
}

/// The text of two runs of units is the text of the first, then of the second.
proof fn lemma_shown_text_concat(a: Seq<StyledUnit>, b: Seq<StyledUnit>)
    ensures
        shown_text(a + b) == shown_text(a) + shown_text(b),
    decreases b.len(),
{
    if b.len() == 0 {
        assert(a + b =~= a);
        assert(shown_text(a) + shown_text(b) =~= shown_text(a));
    } else {
        lemma_shown_text_concat(a, b.drop_last());
        assert((a + b).drop_last() =~= a + b.drop_last());
        assert((a + b).last() == b.last());
        assert(shown_text(a + b) =~= shown_text(a) + shown_text(b));
    }
}

/// Blanks show as many spaces.
proof fn lemma_shown_spaces(s: Seq<StyledUnit>)
    requires
        all_spaces(s),
    ensures
        shown_text(s) == blanks(s.len()),
    decreases s.len(),
{
    if s.len() > 0 {
        let prev = s.drop_last();
        assert(all_spaces(prev)) by {
            assert forall|i: int| 0 <= i < prev.len() implies is_space(#[trigger] prev[i]) by {
                assert(prev[i] == s[i]);
            }
        }
        lemma_shown_spaces(prev);
        assert(is_space(s[s.len() - 1]));
        assert(shown_text(s) =~= blanks(s.len()));
    } else {
        assert(shown_text(s) =~= blanks(0));
    }
}

/// The text of a non-empty cutout: blanks for a cut first grapheme, the text of the whole units
/// copied, and blanks for a cut last grapheme.
pub open spec fn cut_text(s: Seq<StyledUnit>, column: nat, length: nat) -> Seq<char> {
    let (si, ei, a, b, n1, n2) = cutout_parts(s, column, length);
    blanks(n1) + shown_text(s.subrange(a, b)) + blanks(n2)
}

/// The text of a cutout of a line without style codes: blanks for a cut first grapheme, the
/// text of the whole units copied, and blanks for a cut last grapheme.
proof fn lemma_cutout_text(s: Seq<StyledUnit>, column: nat, length: nat, c: Seq<StyledUnit>)
    requires
        graphemes_only(s),
        is_cutout_of(s, column, length, c),
    ensures
        ({
            let len = cutout_len(s, column, length);
            let (si, ei, a, b, n1, n2) = cutout_parts(s, column, length);
            if len == 0 || column >= units_width(s) {
                shown_text(c) == Seq::<char>::empty()
            } else {
                0 <= a <= b <= s.len() && shown_text(c) == cut_text(s, column, length)
            }
        }),
{
    let len = cutout_len(s, column, length);
    if len == 0 || column >= units_width(s) {
        assert(c =~= Seq::<StyledUnit>::empty());
        return;
    }
    let (si, ei, a, b, n1, n2) = cutout_parts(s, column, length);
    lemma_cutout_parts_width(s, column, length);
    assert forall|i: int| 0 <= i < s.take(si).len() implies (#[trigger] s.take(si)[i]) is Grapheme by {}
    assert forall|i: int| 0 <= i < s.take(ei).len() implies (#[trigger] s.take(ei)[i]) is Grapheme by {}
    lemma_code_state_plain(s.take(si));
    lemma_code_state_plain(s.take(ei));
    assert(code_units(active_codes(s.take(si))) =~= Seq::<StyledUnit>::empty());
    assert(code_units(reset_codes(s.take(ei))) =~= Seq::<StyledUnit>::empty());
    let p2 = n1 as int;
    let p3 = p2 + (b - a);
    let p4 = p3 + n2;
    assert(c =~= c.subrange(0, p2) + c.subrange(p2, p3) + c.subrange(p3, p4));
    lemma_shown_text_concat(c.subrange(0, p2) + c.subrange(p2, p3), c.subrange(p3, p4));
    lemma_shown_text_concat(c.subrange(0, p2), c.subrange(p2, p3));
    lemma_shown_spaces(c.subrange(0, p2));
    lemma_shown_spaces(c.subrange(p3, p4));
}

/// A column inside a prefix two lines share is covered by the same unit in both.
proof fn lemma_locates_prefix(x: Seq<StyledUnit>, y: Seq<StyledUnit>, k: int, column: int)
    requires
        0 <= k <= x.len(),
        k <= y.len(),
        x.take(k) == y.take(k),
        0 <= column < units_width(x.take(k)),
    ensures
        column_index(x, column) == column_index(y, column),
        column_index(x, column) < k,
        locates(x, column, column_index(x, column)),
{
    let p = x.take(k);
    lemma_locates_exists(p, column);
    let i = column_index(p, column);
    assert(p.take(i) =~= x.take(i));
    assert(p.take(i) =~= y.take(i));
    assert(p[i] == x[i] && p[i] == y[i]);
    assert(locates(x, column, i));
    assert(locates(y, column, i));
    lemma_units_width_take_monotone(x, k, x.len() as int);
    lemma_units_width_take_monotone(y, k, y.len() as int);
    lemma_take_all(x);
    lemma_take_all(y);
    lemma_locates_exists(x, column);
    lemma_locates_exists(y, column);
    lemma_locates_unique(x, column, i, column_index(x, column));
    lemma_locates_unique(y, column, i, column_index(y, column));
}

/// A column after the first `p` units is covered, counting from there, as it is in the rest
/// of the line.
proof fn lemma_locates_suffix(x: Seq<StyledUnit>, p: int, d: int)
    requires
        0 <= p <= x.len(),
        0 <= d < units_width(x.skip(p)),
    ensures
        column_index(x, units_width(x.take(p)) + d) == p + column_index(x.skip(p), d),
        locates(x, units_width(x.take(p)) + d, p + column_index(x.skip(p), d)),
        locates(x.skip(p), d, column_index(x.skip(p), d)),
        units_width(x.take(p + column_index(x.skip(p), d))) == units_width(x.take(p)) + units_width(
            x.skip(p).take(column_index(x.skip(p), d)),
        ),
        x[p + column_index(x.skip(p), d)] == x.skip(p)[column_index(x.skip(p), d)],
{
    let z = x.skip(p);
    lemma_locates_exists(z, d);
    let j = column_index(z, d);
    assert(x.take(p + j) =~= x.take(p) + z.take(j));
    lemma_units_width_concat(x.take(p), z.take(j));
    assert(x[p + j] == z[j]);
    assert(locates(x, units_width(x.take(p)) + d, p + j));
    lemma_units_width_concat(x.take(p), z);
    assert(x =~= x.take(p) + z);
    lemma_take_all(x);
    lemma_locates_exists(x, units_width(x.take(p)) + d);
    lemma_locates_unique(x, units_width(x.take(p)) + d, p + j, column_index(x, units_width(x.take(p)) + d));
}

/// Pasting a line without style codes on another adds no codes: no reset before the pasted
/// line, no code after it, and the result holds graphemes only.
proof fn lemma_paste_plain(s: Seq<StyledUnit>, other: Seq<StyledUnit>, column: nat, r: Seq<StyledUnit>)
    requires
        graphemes_only(s),
        graphemes_only(other),
        units_width(other) > 0,
        column <= units_width(s),
        is_paste_of(s, other, column, r),
    ensures
        paste_head(s, column).2 == Seq::<Code>::empty(),
        paste_tail(s, column, units_width(other)).2 == Seq::<Code>::empty(),
        graphemes_only(r),
{
    let w = units_width(other);
    let (h, hn, resets) = paste_head(s, column);
    let (t, tn, active) = paste_tail(s, column, w);
    lemma_paste_head_width(s, column);
    lemma_paste_tail_width(s, column, w);
    if column > 0 {
        lemma_locates_exists(s, column - 1);
        let si = column_index(s, column - 1);
        assert forall|i: int| 0 <= i < s.take(si).len() implies (#[trigger] s.take(si)[i]) is Grapheme by {}
        lemma_code_state_plain(s.take(si));
    }
    if column + w < units_width(s) {
        lemma_locates_exists(s, column + w - 1);
        let ei = column_index(s, column + w - 1);
        assert forall|i: int| 0 <= i < s.take(ei).len() implies (#[trigger] s.take(ei)[i]) is Grapheme by {}
        lemma_code_state_plain(s.take(ei));
    }
    assert(resets =~= Seq::<Code>::empty());
    assert(active =~= Seq::<Code>::empty());
    let q1 = h;
    let q2 = q1 + hn;
    let q4 = q2 + other.len();
    let q6 = q4 + tn;
    assert forall|i: int| 0 <= i < r.len() implies (#[trigger] r[i]) is Grapheme by {
        if i < q1 {
            assert(r.subrange(0, q1)[i] == s.subrange(0, h)[i]);
        } else if i < q2 {
            assert(r.subrange(q1, q2)[i - q1] == r[i]);
        } else if i < q4 {
            assert(r.subrange(q2, q4)[i - q2] == r[i]);
            assert(other[i - q2] is Grapheme);
        } else if i < q6 {
            assert(r.subrange(q4, q6)[i - q4] == r[i]);
        } else {
            assert(r.subrange(q6, r.len() as int)[i - q6] == r[i]);
            assert(s.subrange(t, s.len() as int)[i - q6] == s[t + i - q6]);
        }
    }
}

/// What a paste keeps before `column`: the first `h` units of `s`, then `hn` blanks standing
/// for the columns of a grapheme the paste cuts, together `column` columns wide.
pub open spec fn keeps_head(s: Seq<StyledUnit>, r: Seq<StyledUnit>, column: nat, h: int, hn: nat) -> bool {
    &&& graphemes_only(s)
    &&& graphemes_only(r)
    &&& 0 < column <= units_width(s)
    &&& column <= units_width(r)
    &&& 0 <= h <= s.len()
    &&& h + hn <= r.len()
    &&& r.take(h) == s.take(h)
    &&& all_spaces(r.subrange(h, h + hn))
    &&& units_width(s.take(h)) + hn == column
    &&& (h, hn) == (paste_head(s, column).0, paste_head(s, column).1)
}

/// The head kept whole: the same units cover the columns before `column`.
proof fn lemma_head_whole(s: Seq<StyledUnit>, r: Seq<StyledUnit>, column: nat, h: int)
    requires
        keeps_head(s, r, column, h, 0),
    ensures
        cut_text(r, 0, column) == cut_text(s, 0, column),
{
    lemma_locates_exists(s, column - 1);
    let si = column_index(s, column - 1);
    lemma_units_width_take_step(s, si);
    assert(h == si + 1);
    lemma_locates_prefix(s, r, h, 0);
    lemma_locates_prefix(s, r, h, column - 1);
    let i0 = column_index(s, 0);
    assert(s.take(i0) =~= s.take(h).take(i0));
    assert(r.take(i0) =~= r.take(h).take(i0));
    assert(s.take(si) =~= s.take(h).take(si));
    assert(r.take(si) =~= r.take(h).take(si));
    assert(s[i0] == s.take(h)[i0] && r[i0] == r.take(h)[i0]);
    assert(s[si] == s.take(h)[si] && r[si] == r.take(h)[si]);
    assert(cutout_len(s, 0, column) == column);
    assert(cutout_len(r, 0, column) == column);
    assert(cutout_parts(r, 0, column) == cutout_parts(s, 0, column));
    let a = cutout_parts(s, 0, column).2;
    let b = cutout_parts(s, 0, column).3;
    assert(r.subrange(a, b) =~= s.subrange(a, b)) by {
        assert forall|k: int| a <= k < b implies r[k] == s[k] by {
            assert(r.take(h)[k] == s.take(h)[k]);
        }
    }
}

/// The last column before a cut grapheme's blanks is the last blank.
proof fn lemma_head_last_blank(s: Seq<StyledUnit>, r: Seq<StyledUnit>, column: nat, h: int, hn: nat)
    requires
        keeps_head(s, r, column, h, hn),
        hn > 0,
    ensures
        column_index(r, column - 1) == h + hn - 1,
        locates(r, column - 1, h + hn - 1),
        unit_width(r[h + hn - 1]) == 1,
        units_width(r.take(h)) == units_width(s.take(h)),
{
    let q1 = h;
    let q2 = h + hn;
    assert(r.take(h) =~= r.subrange(0, q1));
    assert(r[q2 - 1] == r.subrange(q1, q2)[hn - 1]);
    assert(all_spaces(r.subrange(q1, q2 - 1))) by {
        assert forall|k: int| 0 <= k < hn - 1 implies is_space(#[trigger] r.subrange(q1, q2 - 1)[k]) by {
            assert(r.subrange(q1, q2 - 1)[k] == r.subrange(q1, q2)[k]);
        }
    }
    lemma_width_prefix_spaces(r, q1, q2 - 1);
    assert(r.take(0) =~= Seq::<StyledUnit>::empty());
    lemma_width_prefix_copy(r, 0, q1, s.take(h));
    lemma_width_prefix_spaces(r, q1, q2);
    lemma_units_width_take_step(r, q2 - 1);
    assert(locates(r, column - 1, q2 - 1));
    lemma_locates_exists(r, column - 1);
    lemma_locates_unique(r, column - 1, q2 - 1, column_index(r, column - 1));
}

/// A cut grapheme after some columns: the blanks replace the cut grapheme's columns.
proof fn lemma_head_cut(s: Seq<StyledUnit>, r: Seq<StyledUnit>, column: nat, h: int, hn: nat)
    requires
        keeps_head(s, r, column, h, hn),
        hn > 0,
        units_width(s.take(h)) > 0,
    ensures
        cut_text(r, 0, column) == cut_text(s, 0, column),
{
    lemma_locates_exists(s, column - 1);
    let si = column_index(s, column - 1);
    lemma_units_width_take_step(s, si);
    assert(h == si);
    lemma_head_last_blank(s, r, column, h, hn);
    let q2 = h + hn;
    lemma_locates_prefix(s, r, h, 0);
    let i0 = column_index(s, 0);
    assert(s.take(i0) =~= s.take(h).take(i0));
    assert(r.take(i0) =~= r.take(h).take(i0));
    assert(s[i0] == s.take(h)[i0] && r[i0] == r.take(h)[i0]);
    assert(cutout_len(s, 0, column) == column);
    assert(cutout_len(r, 0, column) == column);
    assert(cutout_parts(s, 0, column) == (i0, si, i0, h, 0nat, hn));
    assert(cutout_parts(r, 0, column) == (i0, q2 - 1, i0, q2, 0nat, 0nat));
    assert(r.subrange(i0, q2) =~= r.subrange(i0, h) + r.subrange(h, q2));
    assert(r.subrange(i0, h) =~= s.subrange(i0, h)) by {
        assert forall|k: int| i0 <= k < h implies r[k] == s[k] by {
            assert(r.take(h)[k] == s.take(h)[k]);
        }
    }
    lemma_shown_text_concat(r.subrange(i0, h), r.subrange(h, q2));
    lemma_shown_spaces(r.subrange(h, q2));
    assert(cut_text(r, 0, column) =~= cut_text(s, 0, column));
}

/// A cut grapheme at the start of the line: the cutout is blanks only.
proof fn lemma_head_cut_at_start(s: Seq<StyledUnit>, r: Seq<StyledUnit>, column: nat, h: int, hn: nat)
    requires
        keeps_head(s, r, column, h, hn),
        hn > 0,
        units_width(s.take(h)) == 0,
    ensures
        cut_text(r, 0, column) == cut_text(s, 0, column),
{
    lemma_locates_exists(s, column - 1);
    let si = column_index(s, column - 1);
    lemma_units_width_take_step(s, si);
    assert(h == si);
    lemma_head_last_blank(s, r, column, h, hn);
    let q2 = h + hn;
    assert(locates(s, 0, si));
    lemma_locates_exists(s, 0);
    lemma_locates_unique(s, 0, si, column_index(s, 0));
    assert(cutout_len(s, 0, column) == column);
    assert(cutout_len(r, 0, column) == column);
    assert(cutout_parts(s, 0, column) == (si, si, si, si, 0nat, hn));
    assert(r[h] == r.subrange(h, q2)[0]);
    lemma_units_width_take_step(r, h);
    assert(locates(r, 0, h));
    lemma_locates_exists(r, 0);
    lemma_locates_unique(r, 0, h, column_index(r, 0));
    assert(cutout_parts(r, 0, column) == (h, q2 - 1, h, q2, 0nat, 0nat));
    lemma_shown_spaces(r.subrange(h, q2));
    assert(s.subrange(si, si) =~= Seq::<StyledUnit>::empty());
    assert(cut_text(r, 0, column) =~= cut_text(s, 0, column));
}

/// The columns before a paste show the same text as before it.
proof fn lemma_paste_keeps_head(
    s: Seq<StyledUnit>,
    other: Seq<StyledUnit>,
    column: nat,
    r: Seq<StyledUnit>,
    before: Seq<StyledUnit>,
    after: Seq<StyledUnit>,
)
    requires
        graphemes_only(s),
        graphemes_only(other),
        units_width(other) > 0,
        column <= units_width(s),
        is_paste_of(s, other, column, r),
        is_cutout_of(s, 0, column, before),
        is_cutout_of(r, 0, column, after),
    ensures
        shown_text(after) == shown_text(before),
{
    lemma_paste_plain(s, other, column, r);
    lemma_paste_width(s, other, column, r);
    lemma_cutout_text(s, 0, column, before);
    lemma_cutout_text(r, 0, column, after);
    if column == 0 {
        return;
    }
    let (h, hn, resets) = paste_head(s, column);
    lemma_paste_head_width(s, column);
    lemma_paste_tail_width(s, column, units_width(other));
    assert(r.take(h) =~= s.take(h)) by {
        assert(r.subrange(0, h) == s.subrange(0, h));
    }
    assert(keeps_head(s, r, column, h, hn));
    if hn == 0 {
        lemma_head_whole(s, r, column, h);
    } else if units_width(s.take(h)) > 0 {
        lemma_head_cut(s, r, column, h, hn);
    } else {
        lemma_head_cut_at_start(s, r, column, h, hn);
    }
}

/// What a paste keeps after the pasted columns, which end at column `e` inside the line: from
/// index `t` of `s`, and from index `q + tn` of `r` after `tn` blanks standing for the columns
/// of a grapheme the paste cuts, the same units.
pub open spec fn keeps_tail(s: Seq<StyledUnit>, r: Seq<StyledUnit>, e: nat, t: int, q: int, tn: nat) -> bool {
    &&& graphemes_only(s)
    &&& graphemes_only(r)
    &&& 0 < e < units_width(s)
    &&& units_width(s) <= usize::MAX
    &&& units_width(r) == units_width(s)
    &&& 1 <= t <= s.len()
    &&& 0 <= q
    &&& q + tn <= r.len()
    &&& locates(s, e - 1, t - 1)
    &&& units_width(s.take(t)) == e + tn
    &&& units_width(r.take(q)) == e
    &&& all_spaces(r.subrange(q, q + tn))
    &&& r.skip(q + tn) == s.skip(t)
}

/// The last column of a line lies in its units after index `p` when they have columns: the
/// unit covering it is the last unit with columns there, and it ends the line.
proof fn lemma_tail_end(x: Seq<StyledUnit>, p: int)
    requires
        0 <= p <= x.len(),
        units_width(x.skip(p)) > 0,
    ensures
        ({
            let z = x.skip(p);
            let j = column_index(z, units_width(z) - 1);
            &&& units_width(x) == units_width(x.take(p)) + units_width(z)
            &&& 0 <= j < z.len()
            &&& column_index(x, units_width(x) - 1) == p + j
            &&& units_width(x.take(p + j)) == units_width(x.take(p)) + units_width(z.take(j))
            &&& x[p + j] == z[j]
            &&& units_width(x.take(p + j + 1)) == units_width(x)
            &&& units_width(x.take(p + j + 1)) == units_width(x.take(p + j)) + unit_width(x[p + j])
            &&& locates(z, units_width(z) - 1, j)
        }),
{
    let z = x.skip(p);
    assert(x =~= x.take(p) + z);
    lemma_units_width_concat(x.take(p), z);
    lemma_locates_suffix(x, p, units_width(z) - 1);
    let j = column_index(z, units_width(z) - 1);
    lemma_units_width_take_step(x, p + j);
    lemma_units_width_take_monotone(x, p + j + 1, x.len() as int);
    lemma_take_all(x);
}

/// Text of units after index `p` of two lines that share them.
proof fn lemma_shared_tail_text(x: Seq<StyledUnit>, p: int, y: Seq<StyledUnit>, q: int, a: int, b: int)
    requires
        0 <= p <= x.len(),
        0 <= q <= y.len(),
        x.skip(p) == y.skip(q),
        0 <= a <= b <= x.len() - p,
    ensures
        x.subrange(p + a, p + b) == y.subrange(q + a, q + b),
{
    assert(x.skip(p).len() == x.len() - p);
    assert(y.skip(q).len() == y.len() - q);
    assert(q + b <= y.len());
    assert forall|k: int| 0 <= k < b - a implies #[trigger] x.subrange(p + a, p + b)[k] == y.subrange(q + a, q + b)[k] by {
        assert(x.skip(p)[a + k] == x[p + a + k]);
        assert(y.skip(q)[a + k] == y[q + a + k]);
        assert(x.skip(p)[a + k] == y.skip(q)[a + k]);
    }
    assert(x.subrange(p + a, p + b) =~= y.subrange(q + a, q + b));
}

/// A cut grapheme at the end of the paste, with more columns after it.
proof fn lemma_tail_cut(s: Seq<StyledUnit>, r: Seq<StyledUnit>, e: nat, t: int, q: int, tn: nat)
    requires
        keeps_tail(s, r, e, t, q, tn),
        tn > 0,
        units_width(s.skip(t)) > 0,
    ensures
        cut_text(r, e, usize::MAX as nat) == cut_text(s, e, usize::MAX as nat),
{
    let len = usize::MAX as nat;
    let p = q + tn;
    let z = s.skip(t);
    lemma_tail_end(s, t);
    lemma_tail_end(r, p);
    assert(r.subrange(q, p) =~= r.subrange(q, q + tn));
    lemma_width_prefix_spaces(r, q, p);
    let j = column_index(z, units_width(z) - 1);
    lemma_units_width_take_step(s, t - 1);
    assert(locates(s, e as int, t - 1));
    lemma_locates_exists(s, e as int);
    lemma_locates_unique(s, e as int, t - 1, column_index(s, e as int));
    assert(r[q] == r.subrange(q, p)[0]);
    lemma_units_width_take_step(r, q);
    assert(locates(r, e as int, q));
    lemma_locates_exists(r, e as int);
    lemma_locates_unique(r, e as int, q, column_index(r, e as int));
    assert(cutout_len(s, e, len) == units_width(s) - e);
    assert(cutout_len(r, e, len) == units_width(s) - e);
    assert(cutout_parts(s, e, len) == (t - 1, t + j, t, t + j + 1, tn, 0nat));
    assert(cutout_parts(r, e, len) == (q, p + j, q, p + j + 1, 0nat, 0nat));
    lemma_shared_tail_text(s, t, r, p, 0, j + 1);
    assert(r.subrange(q, p + j + 1) =~= r.subrange(q, p) + r.subrange(p, p + j + 1));
    lemma_shown_text_concat(r.subrange(q, p), r.subrange(p, p + j + 1));
    lemma_shown_spaces(r.subrange(q, p));
    assert(cut_text(r, e, len) =~= cut_text(s, e, len));
}

/// A cut grapheme ends the line: the cutout is blanks only.
proof fn lemma_tail_cut_at_end(s: Seq<StyledUnit>, r: Seq<StyledUnit>, e: nat, t: int, q: int, tn: nat)
    requires
        keeps_tail(s, r, e, t, q, tn),
        tn > 0,
        units_width(s.skip(t)) == 0,
    ensures
        cut_text(r, e, usize::MAX as nat) == cut_text(s, e, usize::MAX as nat),
{
    let len = usize::MAX as nat;
    let p = q + tn;
    let w = units_width(s);
    assert(s =~= s.take(t) + s.skip(t));
    lemma_units_width_concat(s.take(t), s.skip(t));
    assert(w == e + tn);
    assert(r.subrange(q, p) =~= r.subrange(q, q + tn));
    lemma_width_prefix_spaces(r, q, p);
    lemma_units_width_take_step(s, t - 1);
    assert(locates(s, e as int, t - 1));
    lemma_locates_exists(s, e as int);
    lemma_locates_unique(s, e as int, t - 1, column_index(s, e as int));
    assert(locates(s, w - 1, t - 1));
    lemma_locates_exists(s, w - 1);
    lemma_locates_unique(s, w - 1, t - 1, column_index(s, w - 1));
    assert(r[q] == r.subrange(q, p)[0]);
    lemma_units_width_take_step(r, q);
    assert(locates(r, e as int, q));
    lemma_locates_exists(r, e as int);
    lemma_locates_unique(r, e as int, q, column_index(r, e as int));
    assert(r[p - 1] == r.subrange(q, p)[tn - 1]);
    assert(all_spaces(r.subrange(q, p - 1))) by {
        assert forall|k: int| 0 <= k < tn - 1 implies is_space(#[trigger] r.subrange(q, p - 1)[k]) by {
            assert(r.subrange(q, p - 1)[k] == r.subrange(q, p)[k]);
        }
    }
    lemma_width_prefix_spaces(r, q, p - 1);
    lemma_units_width_take_step(r, p - 1);
    assert(locates(r, w - 1, p - 1));
    lemma_locates_exists(r, w - 1);
    lemma_locates_unique(r, w - 1, p - 1, column_index(r, w - 1));
    assert(cutout_len(s, e, len) == tn);
    assert(cutout_len(r, e, len) == tn);
    assert(cutout_parts(s, e, len) == (t - 1, t - 1, t, t, tn, 0nat));
    assert(cutout_parts(r, e, len) == (q, p - 1, q, p, 0nat, 0nat));
    lemma_shown_spaces(r.subrange(q, p));
    assert(s.subrange(t, t) =~= Seq::<StyledUnit>::empty());
    assert(cut_text(r, e, len) =~= cut_text(s, e, len));
}

/// No grapheme is cut at the end of the paste: the same units follow it.
proof fn lemma_tail_whole(s: Seq<StyledUnit>, r: Seq<StyledUnit>, e: nat, t: int, q: int)
    requires
        keeps_tail(s, r, e, t, q, 0),
    ensures
        cut_text(r, e, usize::MAX as nat) == cut_text(s, e, usize::MAX as nat),
{
    let len = usize::MAX as nat;
    let z = s.skip(t);
    assert(s =~= s.take(t) + z);
    lemma_units_width_concat(s.take(t), z);
    assert(units_width(z) > 0);
    assert(r.subrange(q, q) =~= Seq::<StyledUnit>::empty());
    lemma_tail_end(s, t);
    lemma_tail_end(r, q);
    let j = column_index(z, units_width(z) - 1);
    lemma_locates_suffix(s, t, 0);
    lemma_locates_suffix(r, q, 0);
    let j0 = column_index(z, 0);
    assert(units_width(z.take(j0)) == 0);
    assert(j0 <= j) by {
        if j < j0 {
            lemma_units_width_take_step(z, j);
            lemma_units_width_take_monotone(z, j + 1, j0);
        }
    }
    assert(cutout_len(s, e, len) == units_width(s) - e);
    assert(cutout_len(r, e, len) == units_width(s) - e);
    assert(cutout_parts(s, e, len) == (t + j0, t + j, t + j0, t + j + 1, 0nat, 0nat));
    assert(cutout_parts(r, e, len) == (q + j0, q + j, q + j0, q + j + 1, 0nat, 0nat));
    lemma_shared_tail_text(s, t, r, q, j0, j + 1);
}

/// The columns after a paste show the same text as before it.
proof fn lemma_paste_keeps_tail(
    s: Seq<StyledUnit>,
    other: Seq<StyledUnit>,
    column: nat,
    r: Seq<StyledUnit>,
    before: Seq<StyledUnit>,
    after: Seq<StyledUnit>,
)
    requires
        graphemes_only(s),
        graphemes_only(other),
        units_width(other) > 0,
        column <= units_width(s),
        units_width(s) <= usize::MAX,
        is_paste_of(s, other, column, r),
        is_cutout_of(s, column + units_width(other), usize::MAX as nat, before),
        is_cutout_of(r, column + units_width(other), usize::MAX as nat, after),
    ensures
        shown_text(after) == shown_text(before),
{
    let w = units_width(other);
    let e = column + w;
    lemma_paste_plain(s, other, column, r);
    lemma_paste_width(s, other, column, r);
    lemma_cutout_text(s, e, usize::MAX as nat, before);
    lemma_cutout_text(r, e, usize::MAX as nat, after);
    if e >= units_width(s) {
        return;
    }
    let (h, hn, resets) = paste_head(s, column);
    let (t, tn, active) = paste_tail(s, column, w);
    lemma_paste_head_width(s, column);
    lemma_paste_tail_width(s, column, w);
    let q1 = h;
    let q2 = q1 + hn;
    let q4 = q2 + other.len();
    let q6 = q4 + tn;
    assert(r.take(0) =~= Seq::<StyledUnit>::empty());
    assert(r.subrange(0, q1) =~= s.take(h));
    lemma_width_prefix_copy(r, 0, q1, s.take(h));
    lemma_width_prefix_spaces(r, q1, q2);
    assert(code_units(resets) =~= Seq::<StyledUnit>::empty());
    assert(code_units(active) =~= Seq::<StyledUnit>::empty());
    lemma_width_prefix_copy(r, q2, q4, other);
    lemma_locates_exists(s, e - 1);
    let ei = column_index(s, e - 1);
    lemma_units_width_take_step(s, ei);
    assert(t == ei + 1);
    assert(r.skip(q6) =~= s.skip(t)) by {
        assert(r.subrange(q6, r.len() as int) == s.subrange(t, s.len() as int));
    }
    assert(keeps_tail(s, r, e, t, q4, tn));
    if tn == 0 {
        lemma_tail_whole(s, r, e, t, q4);
    } else if units_width(s.skip(t)) > 0 {
        lemma_tail_cut(s, r, e, t, q4, tn);
    } else {
        lemma_tail_cut_at_end(s, r, e, t, q4, tn);
    }
}

/// Cutting out the columns a line was just pasted on gives the pasted line back, when neither
/// line holds a style code and every pasted grapheme takes a column.
proof fn lemma_cutout_of_paste(s: Seq<StyledUnit>, other: Seq<StyledUnit>, column: nat, r: Seq<StyledUnit>, c: Seq<StyledUnit>)
    requires
        graphemes_only(s),
        visible_graphemes(other),
        other.len() > 0,
        column <= units_width(s),
        is_paste_of(s, other, column, r),
        is_cutout_of(r, column, units_width(other), c),
    ensures
        c == other,
{
    let w = units_width(other);
    let n = other.len() as int;
    assert(w > 0) by {
        assert(other.take(n - 1 + 1) =~= other);
        lemma_units_width_take_step(other, n - 1);
    }
    let (h, hn, resets) = paste_head(s, column);
    let (t, tn, active) = paste_tail(s, column, w);
    lemma_paste_head_width(s, column);
    lemma_paste_tail_width(s, column, w);
    lemma_paste_width(s, other, column, r);
    if column > 0 {
        lemma_locates_exists(s, column - 1);
        assert forall|i: int| 0 <= i < s.take(column_index(s, column - 1)).len() implies (#[trigger] s.take(
            column_index(s, column - 1),
        )[i]) is Grapheme by {}
        lemma_code_state_plain(s.take(column_index(s, column - 1)));
    }
    assert(resets =~= Seq::<Code>::empty());
    if column + w < units_width(s) {
        lemma_locates_exists(s, column + w - 1);
        let ei = column_index(s, column + w - 1);
        assert forall|i: int| 0 <= i < s.take(ei).len() implies (#[trigger] s.take(ei)[i]) is Grapheme by {}
        lemma_code_state_plain(s.take(ei));
    }
    assert(active =~= Seq::<Code>::empty());
    let q1 = h;
    let q2 = q1 + hn;
    let q3 = q2;
    let q4 = q3 + n;
    assert(code_units(resets) =~= Seq::<StyledUnit>::empty());
    assert(r.take(0) =~= Seq::<StyledUnit>::empty());
    lemma_width_prefix_copy(r, 0, q1, s.take(h));
    assert(s.subrange(0, h) =~= s.take(h));
    lemma_width_prefix_spaces(r, q1, q2);
    lemma_width_prefix_copy(r, q3, q4, other);
    assert(units_width(r.take(q3)) == column);
    assert(units_width(r.take(q4)) == column + w);
    // the first pasted grapheme covers `column`, the last one covers the last pasted column
    assert(r[q3] == other[0]);
    lemma_units_width_take_step(r, q3);
    assert(locates(r, column as int, q3));
    lemma_locates_exists(r, column as int);
    lemma_locates_unique(r, column as int, q3, column_index(r, column as int));
    assert(r[q4 - 1] == other[n - 1]);
    lemma_units_width_take_step(r, q4 - 1);
    assert(locates(r, column + w - 1, q4 - 1));
    lemma_locates_exists(r, column + w - 1);
    lemma_locates_unique(r, column + w - 1, q4 - 1, column_index(r, column + w - 1));
    assert(cutout_len(r, column, w) == w);
    assert(cutout_parts(r, column, w) == (q3, q4 - 1, q3, q4, 0nat, 0nat));
    // no style is active before or inside the pasted line
    assert forall|i: int| 0 <= i < r.take(q3).len() implies (#[trigger] r.take(q3)[i]) is Grapheme by {
        if i < q1 {
            assert(r.subrange(0, q1)[i] == s.subrange(0, h)[i]);
        } else {
            assert(r.subrange(q1, q2)[i - q1] == r[i]);
        }
    }
    lemma_code_state_plain(r.take(q3));
    assert forall|i: int| 0 <= i < r.take(q4 - 1).len() implies (#[trigger] r.take(q4 - 1)[i]) is Grapheme by {
        if i < q3 {
            assert(r.take(q3)[i] == r[i]);
        } else {
            assert(r.subrange(q3, q4)[i - q3] == r[i]);
            assert(other[i - q3] is Grapheme);
        }
    }
    lemma_code_state_plain(r.take(q4 - 1));
    assert(code_units(active_codes(r.take(q3))) =~= Seq::<StyledUnit>::empty());
    assert(code_units(reset_codes(r.take(q4 - 1))) =~= Seq::<StyledUnit>::empty());
    assert(c.len() == n);
    assert(c =~= c.subrange(0, n));
    assert(c =~= other);
}

/// Pasting a line on another, neither holding style codes, from a column inside (or at the end
/// of) the line: pasting an empty line changes nothing; otherwise the line becomes as wide as
/// the wider of itself and the end of the pasted columns, the columns before and after the
/// pasted ones show the same text as before, and, when every pasted grapheme takes a column,
/// cutting out the pasted columns gives the pasted line back.
pub proof fn lemma_paste_then_cutout(
    s: Seq<StyledUnit>,
    other: Seq<StyledUnit>,
    column: nat,
    r: Seq<StyledUnit>,
    pasted: Seq<StyledUnit>,
    head_before: Seq<StyledUnit>,
    head_after: Seq<StyledUnit>,
    tail_before: Seq<StyledUnit>,
    tail_after: Seq<StyledUnit>,
)
    requires
        graphemes_only(s),
        graphemes_only(other),
        column <= units_width(s),
        units_width(s) <= usize::MAX,
        is_paste_of(s, other, column, r),
        is_cutout_of(r, column, units_width(other), pasted),
        is_cutout_of(s, 0, column, head_before),
        is_cutout_of(r, 0, column, head_after),
        is_cutout_of(s, column + units_width(other), usize::MAX as nat, tail_before),
        is_cutout_of(r, column + units_width(other), usize::MAX as nat, tail_after),
    ensures
        units_width(other) == 0 ==> r == s,
        units_width(other) > 0 ==> units_width(r) == if column + units_width(other) > units_width(s) {
            column + units_width(other)
        } else {
            units_width(s)
        },
        units_width(other) > 0 ==> shown_text(head_after) == shown_text(head_before),
        units_width(other) > 0 ==> shown_text(tail_after) == shown_text(tail_before),
        visible_graphemes(other) && other.len() > 0 ==> pasted == other,
{
    if units_width(other) > 0 {
        lemma_paste_width(s, other, column, r);
        lemma_paste_keeps_head(s, other, column, r, head_before, head_after);
        lemma_paste_keeps_tail(s, other, column, r, tail_before, tail_after);
    }
    if visible_graphemes(other) && other.len() > 0 {
        lemma_cutout_of_paste(s, other, column, r, pasted);
    }
}

/// The columns of a non-empty cutout: the spaces for a cut first grapheme, the whole units
/// copied and the spaces for a cut last grapheme take the cutout's length.
proof fn lemma_cutout_parts_width(s: Seq<StyledUnit>, column: nat, length: nat)
    requires
        cutout_len(s, column, length) > 0,
        column < units_width(s),
    ensures
        ({
            let (si, ei, a, b, n1, n2) = cutout_parts(s, column, length);
            &&& 0 <= si <= ei < s.len()
            &&& 0 <= a <= b <= s.len()
            &&& n1 + units_width(s.subrange(a, b)) + n2 == cutout_len(s, column, length)
        }),
{
    let len = cutout_len(s, column, length);
    let (si, ei, a, b, n1, n2) = cutout_parts(s, column, length);
    lemma_locates_exists(s, column as int);
    lemma_locates_exists(s, column + len - 1);
    lemma_units_width_take_step(s, si);
    lemma_units_width_take_step(s, ei);
    if ei < si {
        lemma_units_width_take_monotone(s, ei + 1, si);
    }
    lemma_units_width_subrange(s, a, b);
}

/// A cutout of `length` columns from `column` is exactly as wide as the part of the line it
/// covers: `length` columns, or fewer where the line ends first.
pub proof fn lemma_cutout_width(s: Seq<StyledUnit>, column: nat, length: nat, r: Seq<StyledUnit>)
    requires
        is_cutout_of(s, column, length, r),
    ensures
        units_width(r) == cutout_len(s, column, length),
{
    let len = cutout_len(s, column, length);
    if len == 0 || column >= units_width(s) {
        assert(r =~= Seq::<StyledUnit>::empty());
        return;
    }
    let (si, ei, a, b, n1, n2) = cutout_parts(s, column, length);
    lemma_cutout_parts_width(s, column, length);
    let pre = active_codes(s.take(si));
    let post = reset_codes(s.take(ei));
    let p1 = pre.len() as int;
    let p2 = p1 + n1;
    let p3 = p2 + (b - a);
    let p4 = p3 + n2;
    assert(r.take(0) =~= Seq::<StyledUnit>::empty());
    lemma_width_prefix_codes(r, 0, p1, pre);
    lemma_width_prefix_spaces(r, p1, p2);
    lemma_width_prefix_copy(r, p2, p3, s.subrange(a, b));
    lemma_width_prefix_spaces(r, p3, p4);
    lemma_width_prefix_codes(r, p4, r.len() as int, post);
    lemma_take_all(r);
}

/// `s` with its last `k` graphemes removed, together with the codes that follow the earliest of
/// them; stops early when `s` runs out.
pub open spec fn pop_graphemes(s: Seq<StyledUnit>, k: nat) -> Seq<StyledUnit>
    decreases s.len(),
{
    if k == 0 || s.len() == 0 {
        s
    } else if s.last() is Code {
        pop_graphemes(s.drop_last(), k)
    } else {
        pop_graphemes(s.drop_last(), (k - 1) as nat)
    }
}

/// `s` without the codes at its end.
pub open spec fn strip_trailing_codes(s: Seq<StyledUnit>) -> Seq<StyledUnit>
    decreases s.len(),
{
    if s.len() > 0 && s.last() is Code {
        strip_trailing_codes(s.drop_last())
    } else {
        s
    }
}

/// `r` is `s` resized towards `width` columns: a line wider than `width` loses one grapheme
/// per column of excess (from the end, with the codes after them, and then any codes left at
/// its end); a narrower line gets one blank per missing column.
pub open spec fn is_resize_of(s: Seq<StyledUnit>, width: nat, r: Seq<StyledUnit>) -> bool {
    let w = units_width(s);
    if width < w {
        r == strip_trailing_codes(pop_graphemes(s, (w - width) as nat))
    } else {
        &&& r.len() == s.len() + (width - w)
        &&& r.take(s.len() as int) == s
        &&& all_spaces(r.skip(s.len() as int))
    }
}

/// Every grapheme is one column wide.
pub open spec fn all_narrow(s: Seq<StyledUnit>) -> bool {
    forall|i: int| 0 <= i < s.len() && (#[trigger] s[i]) is Grapheme ==> unit_width(s[i]) == 1
}

/// In a line of one-column graphemes, the width is the number of graphemes.
pub proof fn lemma_narrow_width(s: Seq<StyledUnit>)
    requires
        all_narrow(s),
    ensures
        units_width(s) == grapheme_count(s),
    decreases s.len(),
{
    if s.len() > 0 {
        assert(s.last() == s[s.len() - 1]);
        lemma_narrow_width(s.drop_last());
    }
}

/// Popping `k` one-column graphemes removes `k` columns.
pub proof fn lemma_pop_graphemes_width(s: Seq<StyledUnit>, k: nat)
    requires
        all_narrow(s),
        k <= grapheme_count(s),
    ensures
        units_width(pop_graphemes(s, k)) + k == units_width(s),
    decreases s.len(),
{
    if k > 0 && s.len() > 0 {
        assert(s.last() == s[s.len() - 1]);
        lemma_pop_graphemes_width(s.drop_last(), if s.last() is Code { k } else { (k - 1) as nat });
    }
}

/// Codes at the end take no columns.
pub proof fn lemma_strip_trailing_codes_width(s: Seq<StyledUnit>)
    ensures
        units_width(strip_trailing_codes(s)) == units_width(s),
    decreases s.len(),
{
    if s.len() > 0 && s.last() is Code {
        lemma_strip_trailing_codes_width(s.drop_last());
    }
}

impl Line {
    /// Resize the line to fit exactly `width` in grapheme column width.
    pub fn resize_to_fit(&mut self, width: usize)
        requires
            width <= isize::MAX,
            old(self).spec_width() <= isize::MAX,
        ensures
            is_resize_of(old(self).content@, width as nat, final(self).content@),
            all_narrow(old(self).content@) ==> final(self).spec_width() == width,
    {
        let w = self.width();
        let ghost s = self.content@;
        if width < w {
            let mut k: usize = w - width;
            while k > 0 && self.content.len() > 0
                invariant
                    pop_graphemes(self.content@, k as nat) == pop_graphemes(s, (w - width) as nat),
                decreases self.content@.len(),
            {
                let ghost before = self.content@;
                match self.content.pop() {
                    Some(unit) => {
                        proof {
                            assert(before.drop_last() =~= self.content@);
                        }
                        if unit.is_grapheme() {
                            k = k - 1;
                        }
                    },
                    None => {},
                }
            }
            let ghost popped = self.content@;
            while self.content.len() > 0 && self.content[self.content.len() - 1].is_code()
                invariant
                    strip_trailing_codes(self.content@) == strip_trailing_codes(popped),
                decreases self.content@.len(),
            {
                let ghost before = self.content@;
                self.content.pop();
                proof {
                    assert(before.drop_last() =~= self.content@);
                }
            }
            proof {
                if all_narrow(s) {
                    lemma_narrow_width(s);
                    lemma_pop_graphemes_width(s, (w - width) as nat);
                    lemma_strip_trailing_codes_width(popped);
                }
            }
        } else {
            let ghost before = self.content@;
            push_spaces(&mut self.content, width - w);
            proof {
                assert(self.content@.take(s.len() as int) =~= self.content@.subrange(0, s.len() as int));
                assert(self.content@.skip(s.len() as int) =~= self.content@.subrange(s.len() as int, self.content@.len() as int));
                lemma_units_width_split(self.content@, s.len() as int);
                lemma_spaces_width(self.content@.skip(s.len() as int));
            }
        }
    }
}

/// No unit is an attribute code.
pub open spec fn no_attributes(s: Seq<StyledUnit>) -> bool {
    forall|i: int| 0 <= i < s.len() ==> !((#[trigger] s[i]) matches StyledUnit::Code(Code::Attribute(_)))
}

/// The color a color code leaves in effect: none after a reset.
pub open spec fn effect(c: Color) -> Option<Color> {
    if c == Color::Reset { None } else { Some(c) }
}

/// The color in effect after the optional color code `o`.
pub open spec fn effect_of(o: Option<Color>) -> Option<Color> {
    match o {
        Some(c) => effect(c),
        None => None,
    }
}

/// The color in effect given a pending color `cur` and the last one written, `set`.
pub open spec fn pending_effect(cur: Option<Color>, set: Option<Color>) -> Option<Color> {
    match cur {
        Some(c) => effect(c),
        None => effect_of(set),
    }
}

/// The graphemes of `s`, each with the background and foreground colors in effect where it
/// stands.
pub open spec fn styled_graphemes(s: Seq<StyledUnit>) -> Seq<(VisualGrapheme, Option<Color>, Option<Color>)>
    decreases s.len(),
{
    if s.len() == 0 {
        seq![]
    } else {
        let prev = s.drop_last();
        match s.last() {
            StyledUnit::Grapheme(g) => styled_graphemes(prev).push((g, code_state(prev).1, code_state(prev).2)),
            StyledUnit::Code(_) => styled_graphemes(prev),
        }
    }
}

/// State of the pruning pass: the foreground and background last written, the pending
/// foreground and background, and the units written so far.
pub type PruneState = (Option<Color>, Option<Color>, Option<Color>, Option<Color>, Seq<StyledUnit>);

/// Writes the pending color `cur` (as a code made by `code`) before a grapheme unless it is
/// already the last one written; returns the units and the last color written.
pub open spec fn flush_color(out: Seq<StyledUnit>, set: Option<Color>, cur: Option<Color>, foreground: bool) -> (Seq<StyledUnit>, Option<Color>) {
    match cur {
        Some(c) => if set != Some(c) {
            (out.push(StyledUnit::Code(if foreground { Code::Foreground(c) } else { Code::Background(c) })), Some(c))
        } else {
            (out, set)
        },
        None => (out, set),
    }
}

/// One step of the pruning pass. A color code becomes pending, except a reset before any color
/// was written, which clears the pending color; a grapheme writes the pending foreground and
/// background where they differ from the last ones written, then itself.
pub open spec fn prune_step(st: PruneState, u: StyledUnit) -> PruneState {
    let (set_fg, set_bg, cur_fg, cur_bg, out) = st;
    match u {
        StyledUnit::Code(Code::Foreground(c)) => if set_fg is None && c == Color::Reset {
            (set_fg, set_bg, None, cur_bg, out)
        } else {
            (set_fg, set_bg, Some(c), cur_bg, out)
        },
        StyledUnit::Code(Code::Background(c)) => if set_bg is None && c == Color::Reset {
            (set_fg, set_bg, cur_fg, None, out)
        } else {
            (set_fg, set_bg, cur_fg, Some(c), out)
        },
        StyledUnit::Code(Code::Attribute(_)) => st,
        StyledUnit::Grapheme(_) => {
            let (out1, set_fg1) = flush_color(out, set_fg, cur_fg, true);
            let (out2, set_bg1) = flush_color(out1, set_bg, cur_bg, false);
            (set_fg1, set_bg1, None, None, out2.push(u))
        },
    }
}

/// The pruning pass over all of `s`.
pub open spec fn prune_fold(s: Seq<StyledUnit>) -> PruneState
    decreases s.len(),
{
    if s.len() == 0 {
        (None, None, None, None, seq![])
    } else {
        prune_step(prune_fold(s.drop_last()), s.last())
    }
}

/// The pruned line: the units written by the pass, then, when any were written, a foreground
/// and a background reset that is pending and ends a color that was written.
pub open spec fn pruned(s: Seq<StyledUnit>) -> Seq<StyledUnit> {
    let (set_fg, set_bg, cur_fg, cur_bg, out) = prune_fold(s);
    if out.len() == 0 {
        out
    } else {
        let out1 = if cur_fg == Some(Color::Reset) && set_fg != Some(Color::Reset) && set_fg is Some {
            out.push(StyledUnit::Code(Code::Foreground(Color::Reset)))
        } else {
            out
        };
        if cur_bg == Some(Color::Reset) && set_bg != Some(Color::Reset) && set_bg is Some {
            out1.push(StyledUnit::Code(Code::Background(Color::Reset)))
        } else {
            out1
        }
    }
}

/// What the pruning pass keeps at every step: the graphemes written so far, with their
/// colors, are those of the input; the colors in effect at the end of the output are those
/// last written; and the colors in effect at the end of the input are the pending ones, or
/// else those last written.
pub proof fn lemma_prune_fold(s: Seq<StyledUnit>)
    requires
        no_attributes(s),
    ensures
        ({
            let (set_fg, set_bg, cur_fg, cur_bg, out) = prune_fold(s);
            &&& styled_graphemes(out) == styled_graphemes(s)
            &&& code_state(out).2 == effect_of(set_fg)
            &&& code_state(out).1 == effect_of(set_bg)
            &&& code_state(s).2 == pending_effect(cur_fg, set_fg)
            &&& code_state(s).1 == pending_effect(cur_bg, set_bg)
        }),
    decreases s.len(),
{
    if s.len() > 0 {
        let prev = s.drop_last();
        assert(no_attributes(prev)) by {
            assert forall|i: int| 0 <= i < prev.len() implies !((#[trigger] prev[i]) matches StyledUnit::Code(Code::Attribute(_))) by {
                assert(prev[i] == s[i]);
            }
        }
        assert(s.last() == s[s.len() - 1]);
        lemma_prune_fold(prev);
        let (set_fg, set_bg, cur_fg, cur_bg, out) = prune_fold(prev);
        match s.last() {
            StyledUnit::Grapheme(g) => {
                let (out1, set_fg1) = flush_color(out, set_fg, cur_fg, true);
                let (out2, set_bg1) = flush_color(out1, set_bg, cur_bg, false);
                if cur_fg is Some && set_fg != cur_fg {
                    assert(out1.drop_last() =~= out);
                    assert(out1.last() == StyledUnit::Code(Code::Foreground(cur_fg->0)));
                }
                assert(code_state(out1).2 == pending_effect(cur_fg, set_fg));
                assert(code_state(out1).1 == effect_of(set_bg));
                assert(styled_graphemes(out1) == styled_graphemes(out));
                if cur_bg is Some && set_bg != cur_bg {
                    assert(out2.drop_last() =~= out1);
                    assert(out2.last() == StyledUnit::Code(Code::Background(cur_bg->0)));
                }
                assert(code_state(out2).2 == pending_effect(cur_fg, set_fg));
                assert(code_state(out2).1 == pending_effect(cur_bg, set_bg));
                assert(styled_graphemes(out2) == styled_graphemes(out));
                let fin = out2.push(s.last());
                assert(fin.drop_last() =~= out2);
                assert(fin.last() == s.last());
                assert(code_state(fin) == code_state(out2));
                assert(styled_graphemes(fin) == styled_graphemes(out2).push((g, code_state(out2).1, code_state(out2).2)));
                assert(set_fg1 == set_fg || set_fg1 == cur_fg);
                assert(effect_of(set_fg1) == pending_effect(cur_fg, set_fg));
                assert(effect_of(set_bg1) == pending_effect(cur_bg, set_bg));
            },
            _ => {},
        }
    }
}

/// Codes added at the end change no grapheme's colors.
proof fn lemma_styled_push_code(s: Seq<StyledUnit>, c: Code)
    ensures
        styled_graphemes(s.push(StyledUnit::Code(c))) == styled_graphemes(s),
{
    assert(s.push(StyledUnit::Code(c)).drop_last() =~= s);
}

/// Pruning keeps every grapheme, in order, with the background and foreground colors in effect
/// where it stands: the codes it drops had no effect on what is shown.
pub proof fn lemma_prune_keeps_styled_graphemes(s: Seq<StyledUnit>)
    requires
        no_attributes(s),
    ensures
        styled_graphemes(pruned(s)) == styled_graphemes(s),
{
    lemma_prune_fold(s);
    let (set_fg, set_bg, cur_fg, cur_bg, out) = prune_fold(s);
    lemma_styled_push_code(out, Code::Foreground(Color::Reset));
    let out1 = if cur_fg == Some(Color::Reset) && set_fg != Some(Color::Reset) && set_fg is Some {
        out.push(StyledUnit::Code(Code::Foreground(Color::Reset)))
    } else {
        out
    };
    lemma_styled_push_code(out1, Code::Background(Color::Reset));
}

/// Every code of `p` changes the colors in effect where it stands.
pub open spec fn codes_effective(p: Seq<StyledUnit>) -> bool {
    forall|k: int| 0 <= k < p.len() && (#[trigger] p[k]) is Code ==> code_state(p.take(k + 1)) != code_state(p.take(k))
}

/// Appending a unit keeps every code effective when the unit, if a code, changes the colors.
proof fn lemma_codes_effective_push(p: Seq<StyledUnit>, u: StyledUnit)
    requires
        codes_effective(p),
        u is Code ==> code_state(p.push(u)) != code_state(p),
    ensures
        codes_effective(p.push(u)),
{
    let q = p.push(u);
    assert forall|k: int| 0 <= k < q.len() && (#[trigger] q[k]) is Code implies code_state(q.take(k + 1)) != code_state(q.take(k)) by {
        if k < p.len() {
            assert(q.take(k + 1) =~= p.take(k + 1));
            assert(q.take(k) =~= p.take(k));
            assert(q[k] == p[k]);
        } else {
            assert(q.take(k + 1) =~= q);
            assert(q.take(k) =~= p);
        }
    }
}

/// The pruning pass writes only codes that change the colors, never has a reset pending before
/// a color was written, and has written something exactly when a grapheme came.
proof fn lemma_prune_fold_effective(s: Seq<StyledUnit>)
    requires
        no_attributes(s),
    ensures
        ({
            let (set_fg, set_bg, cur_fg, cur_bg, out) = prune_fold(s);
            &&& codes_effective(out)
            &&& set_fg is None ==> cur_fg != Some(Color::Reset)
            &&& set_bg is None ==> cur_bg != Some(Color::Reset)
            &&& (out.len() == 0) == (forall|i: int| 0 <= i < s.len() ==> (#[trigger] s[i]) is Code)
        }),
    decreases s.len(),
{
    if s.len() == 0 {
        return;
    }
    let prev = s.drop_last();
    assert(no_attributes(prev)) by {
        assert forall|i: int| 0 <= i < prev.len() implies !((#[trigger] prev[i]) matches StyledUnit::Code(Code::Attribute(_))) by {
            assert(prev[i] == s[i]);
        }
    }
    assert(s.last() == s[s.len() - 1]);
    lemma_prune_fold_effective(prev);
    lemma_prune_fold(prev);
    let (set_fg, set_bg, cur_fg, cur_bg, out) = prune_fold(prev);
    match s.last() {
        StyledUnit::Grapheme(g) => {
            let (out1, set_fg1) = flush_color(out, set_fg, cur_fg, true);
            let (out2, set_bg1) = flush_color(out1, set_bg, cur_bg, false);
            if cur_fg is Some && set_fg != cur_fg {
                let u = StyledUnit::Code(Code::Foreground(cur_fg->0));
                assert(out1 == out.push(u));
                assert(out.push(u).drop_last() =~= out);
                lemma_codes_effective_push(out, u);
            }
            assert(codes_effective(out1));
            assert(code_state(out1).1 == effect_of(set_bg)) by {
                if cur_fg is Some && set_fg != cur_fg {
                    assert(out1.drop_last() =~= out);
                }
            }
            if cur_bg is Some && set_bg != cur_bg {
                let u = StyledUnit::Code(Code::Background(cur_bg->0));
                assert(out2 == out1.push(u));
                assert(out1.push(u).drop_last() =~= out1);
                lemma_codes_effective_push(out1, u);
            }
            assert(codes_effective(out2));
            lemma_codes_effective_push(out2, s.last());
            assert(s[s.len() - 1] is Grapheme);
        },
        _ => {
            assert((out.len() == 0) == (forall|i: int| 0 <= i < s.len() ==> (#[trigger] s[i]) is Code)) by {
                if out.len() == 0 {
                    assert forall|i: int| 0 <= i < s.len() implies (#[trigger] s[i]) is Code by {
                        if i < prev.len() {
                            assert(prev[i] == s[i]);
                        }
                    }
                } else {
                    let i = choose|i: int| 0 <= i < prev.len() && !((#[trigger] prev[i]) is Code);
                    assert(prev[i] == s[i]);
                }
            }
        },
    }
}

/// Pruning keeps only codes that change the colors in effect where they stand, and leaves
/// nothing exactly of a line without graphemes.
pub proof fn lemma_pruned_codes_effective(s: Seq<StyledUnit>)
    requires
        no_attributes(s),
    ensures
        codes_effective(pruned(s)),
        (pruned(s).len() == 0) == (forall|i: int| 0 <= i < s.len() ==> (#[trigger] s[i]) is Code),
{
    lemma_prune_fold_effective(s);
    lemma_prune_fold(s);
    let (set_fg, set_bg, cur_fg, cur_bg, out) = prune_fold(s);
    if out.len() > 0 {
        let fg_reset = cur_fg == Some(Color::Reset) && set_fg != Some(Color::Reset) && set_fg is Some;
        let u1 = StyledUnit::Code(Code::Foreground(Color::Reset));
        let out1 = if fg_reset { out.push(u1) } else { out };
        if fg_reset {
            assert(out.push(u1).drop_last() =~= out);
            lemma_codes_effective_push(out, u1);
        }
        assert(code_state(out1).1 == effect_of(set_bg)) by {
            if fg_reset {
                assert(out1.drop_last() =~= out);
            }
        }
        let u2 = StyledUnit::Code(Code::Background(Color::Reset));
        if cur_bg == Some(Color::Reset) && set_bg != Some(Color::Reset) && set_bg is Some {
            assert(out1.push(u2).drop_last() =~= out1);
            lemma_codes_effective_push(out1, u2);
        }
    }
}

/// Whether `set` is the color `c`.
fn is_color(set: Option<Color>, c: Color) -> (r: bool)
    ensures
        r == (set == Some(c)),
{
    match set {
        Some(x) => x == c,
        None => false,
    }
}

impl Line {
    /// Prune redundant codes in the line, removing any codes with no effect, such as duplicates.
    pub fn prune_redundant_codes(&mut self)
        requires
            no_attributes(old(self).content@),
        ensures
            final(self).content@ == pruned(old(self).content@),
            styled_graphemes(final(self).content@) == styled_graphemes(old(self).content@),
    {
        let ghost s = self.content@;
        let mut set_fg: Option<Color> = None;
        let mut set_bg: Option<Color> = None;
        let mut cur_fg: Option<Color> = None;
        let mut cur_bg: Option<Color> = None;
        let mut content: Vec<StyledUnit> = Vec::new();
        let mut i: usize = 0;
        while i < self.content.len()
            invariant
                s == self.content@,
                i <= s.len(),
                (set_fg, set_bg, cur_fg, cur_bg, content@) == prune_fold(s.take(i as int)),
            decreases s.len() - i,
        {
            proof {
                assert(s.take(i + 1).drop_last() =~= s.take(i as int));
                assert(s.take(i + 1).last() == s[i as int]);
            }
            let unit = self.content[i].clone();
            match unit {
                StyledUnit::Code(Code::Foreground(fg)) => {
                    if set_fg.is_none() && fg == Color::Reset {
                        cur_fg = None;
                    } else {
                        cur_fg = Some(fg);
                    }
                },
                StyledUnit::Code(Code::Background(bg)) => {
                    if set_bg.is_none() && bg == Color::Reset {
                        cur_bg = None;
                    } else {
                        cur_bg = Some(bg);
                    }
                },
                StyledUnit::Code(Code::Attribute(_)) => {},
                StyledUnit::Grapheme(_) => {
                    if let Some(fg) = cur_fg {
                        if !is_color(set_fg, fg) {
                            content.push(StyledUnit::Code(Code::Foreground(fg)));
                            set_fg = Some(fg);
                        }
                    }
                    if let Some(bg) = cur_bg {
                        if !is_color(set_bg, bg) {
                            content.push(StyledUnit::Code(Code::Background(bg)));
                            set_bg = Some(bg);
                        }
                    }
                    cur_fg = None;
                    cur_bg = None;
                    content.push(unit);
                },
            }
            i = i + 1;
        }
        proof {
            assert(s.take(i as int) =~= s);
        }
        if content.len() != 0 {
            if is_color(cur_fg, Color::Reset) && !is_color(set_fg, Color::Reset) && set_fg.is_some() {
                content.push(StyledUnit::Code(Code::Foreground(Color::Reset)));
            }
            if is_color(cur_bg, Color::Reset) && !is_color(set_bg, Color::Reset) && set_bg.is_some() {
                content.push(StyledUnit::Code(Code::Background(Color::Reset)));
            }
        }
        self.content = content;
        proof {
            lemma_prune_keeps_styled_graphemes(s);
        }
    }
}

/// The text the graphemes of `s` show, one after the other.
pub open spec fn shown_text(s: Seq<StyledUnit>) -> Seq<char>
    decreases s.len(),
{
    if s.len() == 0 {
        seq![]
    } else {
        shown_text(s.drop_last()) + match s.last() {
            StyledUnit::Grapheme(g) => g.str@,
            StyledUnit::Code(_) => seq![],
        }
    }
}

/// `u` is a grapheme showing `text`.
pub open spec fn shows(u: StyledUnit, text: Seq<char>) -> bool {
    u matches StyledUnit::Grapheme(g) && g.str@ == text
}

/// `u` is the grapheme unit of the cluster `cluster`: showing it, as wide as it is displayed,
/// with no index into a text line.
pub open spec fn is_cluster_unit(u: StyledUnit, cluster: Seq<char>) -> bool {
    u matches StyledUnit::Grapheme(g) && g.str@ == cluster && g.width == display_width(cluster)
        && g.grapheme_index is None
}

/// `r` holds one grapheme unit per extended grapheme cluster of `text`, in order.
pub open spec fn is_line_of(text: Seq<char>, r: Seq<StyledUnit>) -> bool {
    &&& r.len() == grapheme_split(text).len()
    &&& forall|i: int| 0 <= i < r.len() ==> is_cluster_unit(#[trigger] r[i], grapheme_split(text)[i])
}

impl Line {
    /// Returns a line built from a string
    pub fn from_string(string: &str) -> (r: Self)
        ensures
            is_line_of(string@, r.content@),
            shown_text(r.content@) == string@,
    {
        let parts = grapheme_indices(string);
        let mut content: Vec<StyledUnit> = Vec::new();
        let mut i: usize = 0;
        while i < parts.len()
            invariant
                i <= parts@.len(),
                parts@.len() == grapheme_split(string@).len(),
                forall|j: int| 0 <= j < parts@.len() ==> #[trigger] parts@[j].1@ == grapheme_split(string@)[j],
                content@.len() == i,
                forall|j: int| 0 <= j < i ==> is_cluster_unit(#[trigger] content@[j], grapheme_split(string@)[j]),
            decreases parts@.len() - i,
        {
            let cluster = &parts[i].1;
            let width = str_width(cluster.as_str());
            content.push(StyledUnit::Grapheme(VisualGrapheme::new(cluster.clone(), width, None)));
            i = i + 1;
        }
        proof {
            let c = parts@.map_values(|p: (usize, String)| p.1@);
            assert forall|j: int| 0 <= j < content@.len() implies shows(#[trigger] content@[j], c[j]) by {
                assert(parts@[j].1@ == grapheme_split(string@)[j]);
            }
            lemma_shown_clusters(content@, c);
        }
        Line { content }
    }

    /// The text the line shows: its graphemes, one after the other (style codes are not text).
    pub fn text(&self) -> (r: String)
        ensures
            r@ == shown_text(self.content@),
    {
        let mut out = String::new();
        let mut i: usize = 0;
        while i < self.content.len()
            invariant
                i <= self.content@.len(),
                out@ == shown_text(self.content@.take(i as int)),
            decreases self.content@.len() - i,
        {
            proof {
                assert(self.content@.take(i + 1).drop_last() =~= self.content@.take(i as int));
            }
            match &self.content[i] {
                StyledUnit::Grapheme(g) => out.append(g.str.as_str()),
                StyledUnit::Code(_) => {},
            }
            i = i + 1;
            proof {
                assert(out@ =~= shown_text(self.content@.take(i as int)));
            }
        }
        proof {
            assert(self.content@.take(i as int) =~= self.content@);
        }
        out
    }
}

/// Graphemes showing the strings `c`, one each, show their concatenation.
proof fn lemma_shown_clusters(r: Seq<StyledUnit>, c: Seq<Seq<char>>)
    requires
        r.len() == c.len(),
        forall|i: int| 0 <= i < r.len() ==> shows(#[trigger] r[i], c[i]),
    ensures
        shown_text(r) == c.flatten(),
    decreases r.len(),
{
    if r.len() > 0 {
        lemma_shown_clusters(r.drop_last(), c.drop_last());
        c.lemma_flatten_and_flatten_alt_are_equivalent();
        c.drop_last().lemma_flatten_and_flatten_alt_are_equivalent();
        assert(r.last() == r[r.len() - 1]);
    }
}

} // verus!
