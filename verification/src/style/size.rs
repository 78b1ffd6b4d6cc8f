//! Size values of nodes.
use vstd::prelude::*;
use vstd::std_specs::convert::IntoSpec;
use crate::strings::chars_of;

verus! {

/// Defines a size value for a node.
#[derive(Debug, Clone, Copy, PartialEq, Eq, Structural)]
pub enum SizeValue {
    /// Size determined by the contents of the node, the inner value is the computed size in cells
    Auto(u16),
    /// Size in cells
    Cells(u16),
    /// Percentage of the parent node, or the viewport. The second value is the computed size in
    /// cells
    Percent(u16, u16),
}

/// Represents the size of a node's style, defined by its width and height.
#[derive(Debug, Clone, Copy, PartialEq, Eq, Structural)]
pub struct Size {
    pub width: SizeValue,
    pub height: SizeValue,
}

/// `c` is an ASCII decimal digit.
pub open spec fn is_digit(c: char) -> bool {
    '0' <= c <= '9'
}

/// The number written by a sequence of ASCII decimal digits.
pub open spec fn digits_value(s: Seq<char>) -> nat
    decreases s.len(),
{
    if s.len() == 0 {
        0
    } else {
        digits_value(s.drop_last()) * 10 + ((s.last() as u32) - ('0' as u32)) as nat
    }
}

/// Every character of `s` is an ASCII decimal digit.
pub open spec fn all_digits(s: Seq<char>) -> bool {
    forall|i: int| 0 <= i < s.len() ==> is_digit(#[trigger] s[i])
}

/// Decimal parse of a `u16` as `str::parse::<u16>` does it: an optional leading `+`, then one or
/// more ASCII digits whose value fits in `u16`.
pub open spec fn parse_u16_spec(s: Seq<char>) -> Option<u16> {
    let digits = if s.len() > 0 && s[0] == '+' { s.drop_first() } else { s };
    if digits.len() > 0 && all_digits(digits) && digits_value(digits) <= u16::MAX {
        Some(digits_value(digits) as u16)
    } else {
        None
    }
}

/// What `SizeValue::parse` gives for `s`: `auto`, `N%` or `N` cells.
pub open spec fn parse_size_value_spec(s: Seq<char>) -> Option<SizeValue> {
    if s == seq!['a', 'u', 't', 'o'] {
        Some(SizeValue::Auto(0))
    } else if s.len() > 0 && s.last() == '%' {
        match parse_u16_spec(s.drop_last()) {
            Some(v) => Some(SizeValue::Percent(v, 0)),
            None => None,
        }
    } else if all_digits(s) {
        match parse_u16_spec(s) {
            Some(v) => Some(SizeValue::Cells(v)),
            None => None,
        }
    } else {
        None
    }
}

/// `floor(parent * percent / 100)`, saturated at `u16::MAX`.
pub open spec fn percent_of(parent: u16, percent: u16) -> u16 {
    let v = (parent as nat * percent as nat) / 100;
    if v > u16::MAX { u16::MAX } else { v as u16 }
}

/// The smaller of two `u16` values.
pub open spec fn min_u16(a: u16, b: u16) -> u16 {
    if a <= b { a } else { b }
}

/// The larger of two `u16` values.
pub open spec fn max_u16(a: u16, b: u16) -> u16 {
    if a >= b { a } else { b }
}

proof fn lemma_digits_value_push(s: Seq<char>, c: char)
    ensures
        digits_value(s.push(c)) == digits_value(s) * 10 + ((c as u32) - ('0' as u32)) as nat,
{
    assert(s.push(c).drop_last() =~= s);
}

/// Parses `s` as `str::parse::<u16>` would.
fn parse_u16(s: &Vec<char>) -> (r: Option<u16>)
    ensures
        r == parse_u16_spec(s@),
{
    let n = s.len();
    let start: usize = if n > 0 && s[0] == '+' { 1 } else { 0 };
    let ghost digits = if s@.len() > 0 && s@[0] == '+' { s@.drop_first() } else { s@ };
    if start >= n {
        return None;
    }
    let mut value: u32 = 0;
    let mut i = start;
    while i < n
        invariant
            start <= i <= n,
            n == s@.len(),
            start == n - digits.len(),
            digits == (if s@.len() > 0 && s@[0] == '+' { s@.drop_first() } else { s@ }),
            digits == s@.subrange(start as int, n as int),
            all_digits(s@.subrange(start as int, i as int)),
            value == digits_value(s@.subrange(start as int, i as int)),
            value <= u16::MAX,
        decreases n - i,
    {
        let c = s[i];
        if !('0' <= c && c <= '9') {
            proof {
                assert(digits[i - start] == c);
                assert(!is_digit(digits[i - start]));
            }
            return None;
        }
        let d = (c as u32) - ('0' as u32);
        proof {
            assert(s@.subrange(start as int, i + 1) =~= s@.subrange(start as int, i as int).push(c));
            lemma_digits_value_push(s@.subrange(start as int, i as int), c);
        }
        let next = value * 10 + d;
        if next > 65535 {
            proof {
                if all_digits(digits) {
                    lemma_digits_value_monotone(digits, (i + 1 - start) as int);
                    assert(digits.subrange(0, (i + 1 - start) as int) =~= s@.subrange(
                        start as int,
                        i + 1,
                    ));
                }
            }
            return None;
        }
        value = next;
        i = i + 1;
    }
    assert(s@.subrange(start as int, n as int) =~= digits);
    Some(value as u16)
}

/// Appending digits never decreases the value of a digit string.
proof fn lemma_digits_value_monotone(s: Seq<char>, k: int)
    requires
        0 <= k <= s.len(),
        all_digits(s),
    ensures
        digits_value(s.subrange(0, k)) <= digits_value(s),
    decreases s.len() - k,
{
    if k < s.len() {
        lemma_digits_value_monotone(s, k + 1);
        let t = s.subrange(0, k + 1);
        assert(t.drop_last() =~= s.subrange(0, k));
        assert(is_digit(s[k]));
    } else {
        assert(s.subrange(0, k) =~= s);
    }
}

impl SizeValue {
    /// The computed size in cells, whatever the variant.
    pub open spec fn spec_computed_size(self) -> u16 {
        match self {
            SizeValue::Auto(v) => v,
            SizeValue::Cells(v) => v,
            SizeValue::Percent(_, v) => v,
        }
    }

    /// The same variant with the computed size replaced by `value`.
    pub open spec fn spec_set_computed_size(self, value: u16) -> SizeValue {
        match self {
            SizeValue::Auto(_) => SizeValue::Auto(value),
            SizeValue::Cells(_) => SizeValue::Cells(value),
            SizeValue::Percent(p, _) => SizeValue::Percent(p, value),
        }
    }

    /// The computed size of `self` from the parent's computed size, `default` standing for
    /// auto sizes.
    pub open spec fn spec_compute_size(self, parent: SizeValue, default: u16) -> SizeValue {
        match self {
            SizeValue::Auto(_) => SizeValue::Auto(default),
            SizeValue::Cells(c) => SizeValue::Cells(c),
            SizeValue::Percent(p, _) => SizeValue::Percent(p, percent_of(parent.spec_computed_size(), p)),
        }
    }

    /// The computed size clamped as `size.min(max).max(min)`.
    pub open spec fn spec_clamp_computed_size(self, min: SizeValue, max: SizeValue) -> SizeValue {
        self.spec_set_computed_size(
            max_u16(min_u16(self.spec_computed_size(), max.spec_computed_size()), min.spec_computed_size()),
        )
    }

    /// Parses a string into a [`SizeValue`]
    /// Valid values are `auto, 50%, 42`
    pub fn parse(value: &str) -> (r: Option<Self>)
        ensures
            r == parse_size_value_spec(value@),
    {
        let chars = chars_of(value);
        let n = chars.len();
        let is_auto = n == 4 && chars[0] == 'a' && chars[1] == 'u' && chars[2] == 't' && chars[3] == 'o';
        proof {
            if value@ == seq!['a', 'u', 't', 'o'] {
                assert(chars@.len() == 4);
            }
            if is_auto {
                assert(chars@ =~= seq!['a', 'u', 't', 'o']);
            }
        }
        if is_auto {
            Some(Self::auto())
        } else if n > 0 && chars[n - 1] == '%' {
            let mut digits = chars;
            digits.pop();
            proof {
                assert(digits@ =~= value@.drop_last());
            }
            match parse_u16(&digits) {
                Some(v) => Some(Self::percent(v)),
                None => None,
            }
        } else {
            let mut i: usize = 0;
            while i < n
                invariant
                    i <= n,
                    n == chars@.len(),
                    chars@ == value@,
                    value@ != seq!['a', 'u', 't', 'o'],
                    !(value@.len() > 0 && value@.last() == '%'),
                    forall|j: int| 0 <= j < i ==> is_digit(#[trigger] chars@[j]),
                decreases n - i,
            {
                if !(chars[i] >= '0' && chars[i] <= '9') {
                    proof {
                        assert(!is_digit(value@[i as int]));
                    }
                    return None;
                }
                i = i + 1;
            }
            match parse_u16(&chars) {
                Some(v) => Some(SizeValue::Cells(v)),
                None => None,
            }
        }
    }

    pub fn auto() -> (r: Self)
        ensures
            r == SizeValue::Auto(0),
    {
        SizeValue::Auto(0)
    }

    pub fn percent(value: u16) -> (r: Self)
        ensures
            r == SizeValue::Percent(value, 0),
    {
        SizeValue::Percent(value, 0)
    }

    pub fn cells(value: u16) -> (r: Self)
        ensures
            r == SizeValue::Cells(value),
    {
        SizeValue::Cells(value)
    }

    /// Gets the computed size in cells.
    pub fn computed_size(self) -> (r: u16)
        ensures
            r == self.spec_computed_size(),
    {
        match self {
            Self::Auto(v) => v,
            Self::Cells(v) => v,
            Self::Percent(_, v) => v,
        }
    }

    /// Sets the computed size in cells for the current size value.
    pub fn set_computed_size(self, value: u16) -> (r: Self)
        ensures
            r == self.spec_set_computed_size(value),
    {
        match self {
            Self::Auto(_) => Self::Auto(value),
            Self::Cells(_) => Self::Cells(value),
            Self::Percent(p, _) => Self::Percent(p, value),
        }
    }

    pub fn is_auto(self) -> (r: bool)
        ensures
            r == (self is Auto),
    {
        match self {
            Self::Auto(_) => true,
            _ => false,
        }
    }

    pub fn is_cells(self) -> (r: bool)
        ensures
            r == (self is Cells),
    {
        match self {
            Self::Cells(_) => true,
            _ => false,
        }
    }

    pub fn is_percent(self) -> (r: bool)
        ensures
            r == (self is Percent),
    {
        match self {
            Self::Percent(..) => true,
            _ => false,
        }
    }

    /// Computes the size based on parent's size, if self is auto, default is used.
    pub fn compute_size(self, parent: Self, default: u16) -> (r: Self)
        ensures
            r == self.spec_compute_size(parent, default),
    {
        match self {
            Self::Auto(_) => self.set_computed_size(default),
            Self::Cells(cells) => self.set_computed_size(cells),
            Self::Percent(p, _) => {
                let size = parent.computed_size();
                proof {
                    assert(size as u32 * p as u32 <= 65535 * 65535) by (nonlinear_arith)
                        requires size <= 65535, p <= 65535;
                }
                let product: u32 = size as u32 * p as u32;
                let scaled: u32 = product / 100;
                let size: u16 = if scaled > 65535 { 65535 } else { scaled as u16 };
                self.set_computed_size(size)
            },
        }
    }

    /// Clamp computed size between min and max
    pub fn clamp_computed_size(self, min: Self, max: Self) -> (r: Self)
        ensures
            r == self.spec_clamp_computed_size(min, max),
    {
        let size = self.computed_size();
        let min = min.computed_size();
        let max = max.computed_size();
        let upper = if size <= max { size } else { max };
        let clamped = if upper >= min { upper } else { min };
        self.set_computed_size(clamped)
    }
}

impl Default for SizeValue {
    fn default() -> (r: Self)
        ensures
            r == SizeValue::Auto(0),
    {
        SizeValue::Auto(0)
    }
}


impl Size {
    /// Both dimensions computed from the parent's size, `default` standing for auto sizes.
    pub open spec fn spec_compute_size(self, parent: Size, default: (u16, u16)) -> Size {
        Size {
            width: self.width.spec_compute_size(parent.width, default.0),
            height: self.height.spec_compute_size(parent.height, default.1),
        }
    }

    /// Both dimensions clamped between `min` and `max`.
    pub open spec fn spec_clamp_computed_size(self, min: Size, max: Size) -> Size {
        Size {
            width: self.width.spec_clamp_computed_size(min.width, max.width),
            height: self.height.spec_clamp_computed_size(min.height, max.height),
        }
    }

    /// Parses strings into a [`Size`]
    pub fn parse(width: &str, height: &str) -> (r: Option<Self>)
        ensures
            r == (match (parse_size_value_spec(width@), parse_size_value_spec(height@)) {
                (Some(w), Some(h)) => Some(Size { width: w, height: h }),
                _ => None,
            }),
    {
        let width = match SizeValue::parse(width) {
            Some(w) => w,
            None => return None,
        };
        let height = match SizeValue::parse(height) {
            Some(h) => h,
            None => return None,
        };
        Some(Self::new(width, height))
    }

    pub fn new(width: SizeValue, height: SizeValue) -> (r: Self)
        ensures
            r == (Size { width, height }),
    {
        Size { width, height }
    }

    /// A size from any two values that convert into size values.
    pub fn new_from<W: Into<SizeValue>, H: Into<SizeValue>>(width: W, height: H) -> (r: Self)
        ensures
            W::obeys_into_spec() ==> r.width == width.into_spec(),
            H::obeys_into_spec() ==> r.height == height.into_spec(),
    {
        Size { width: width.into(), height: height.into() }
    }

    pub fn from_cells(width: u16, height: u16) -> (r: Self)
        ensures
            r == (Size { width: SizeValue::Cells(width), height: SizeValue::Cells(height) }),
    {
        Size { width: SizeValue::Cells(width), height: SizeValue::Cells(height) }
    }

    pub fn from_percent(width: u16, height: u16) -> (r: Self)
        ensures
            r == (Size { width: SizeValue::Percent(width, 0), height: SizeValue::Percent(height, 0) }),
    {
        Size { width: SizeValue::Percent(width, 0), height: SizeValue::Percent(height, 0) }
    }

    pub fn width(&self) -> (r: SizeValue)
        ensures
            r == self.width,
    {
        self.width
    }

    pub fn height(&self) -> (r: SizeValue)
        ensures
            r == self.height,
    {
        self.height
    }

    /// The computed `(width, height)` in cells.
    pub fn tuple(&self) -> (r: (u16, u16))
        ensures
            r == (self.width.spec_computed_size(), self.height.spec_computed_size()),
    {
        (self.width.computed_size(), self.height.computed_size())
    }

    /// Computes the size based on parent's size, if self is auto, default (width, height) is used.
    pub fn compute_size(self, parent: Self, default: (u16, u16)) -> (r: Self)
        ensures
            r == self.spec_compute_size(parent, default),
    {
        let width = self.width.compute_size(parent.width, default.0);
        let height = self.height.compute_size(parent.height, default.1);
        Self::new(width, height)
    }

    /// Clamp computed size between min and max
    pub fn clamp_computed_size(self, min: Self, max: Self) -> (r: Self)
        ensures
            r == self.spec_clamp_computed_size(min, max),
    {
        let width = self.width.clamp_computed_size(min.width, max.width);
        let height = self.height.clamp_computed_size(min.height, max.height);
        Self::new(width, height)
    }
}

impl Default for Size {
    fn default() -> (r: Self)
        ensures
            r == (Size { width: SizeValue::Auto(0), height: SizeValue::Auto(0) }),
    {
        Size { width: SizeValue::Auto(0), height: SizeValue::Auto(0) }
    }
}

/// Setting the computed size keeps the variant (and a percentage's ratio), and the value set
/// is the value read back.
pub proof fn lemma_set_then_get_computed_size(v: SizeValue, value: u16)
    ensures
        v.spec_set_computed_size(value).spec_computed_size() == value,
        (v.spec_set_computed_size(value) is Auto) == (v is Auto),
        (v.spec_set_computed_size(value) is Cells) == (v is Cells),
        (v.spec_set_computed_size(value) is Percent) == (v is Percent),
        v is Percent ==> v.spec_set_computed_size(value)->Percent_0 == v->Percent_0,
        v.spec_set_computed_size(v.spec_computed_size()) == v,
{
}

/// Clamping between a lower and an upper bound that are ordered lands between them, and
/// leaves a size that is already between them unchanged.
pub proof fn lemma_clamp_between(v: SizeValue, min: SizeValue, max: SizeValue)
    requires
        min.spec_computed_size() <= max.spec_computed_size(),
    ensures
        min.spec_computed_size() <= v.spec_clamp_computed_size(min, max).spec_computed_size()
            <= max.spec_computed_size(),
        min.spec_computed_size() <= v.spec_computed_size() <= max.spec_computed_size()
            ==> v.spec_clamp_computed_size(min, max) == v,
{
}

/// A percentage of at most 100 never exceeds the parent's size, and 100 percent is exactly the
/// parent's size.
pub proof fn lemma_percent_bounded(parent: u16, p: u16)
    requires
        p <= 100,
    ensures
        percent_of(parent, p) <= parent,
        percent_of(parent, 100) == parent,
{
    assert((parent as nat * p as nat) <= parent as nat * 100) by (nonlinear_arith)
        requires p <= 100;
    assert((parent as nat * p as nat) / 100 <= parent) by (nonlinear_arith)
        requires (parent as nat * p as nat) <= parent as nat * 100;
    assert((parent as nat * 100) / 100 == parent) by (nonlinear_arith);
}

} // verus!
