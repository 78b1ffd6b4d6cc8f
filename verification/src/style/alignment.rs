//! Justification and alignment of children inside a flex container.
use vstd::prelude::*;

verus! {

/// Justify content in the direction of the flex container
#[derive(Debug, Clone, Copy, PartialEq, Eq, Structural, Hash)]
pub enum Justify {
    /// Start of the container
    Start,
    /// Center of the container
    Center,
    /// End of the container
    End,
    /// Space between items
    SpaceBetween,
    /// Space around items
    SpaceAround,
    /// Space evenly distributed
    SpaceEvenly,
}

/// Align items in the cross axis of the flex container
#[derive(Debug, Clone, Copy, PartialEq, Eq, Structural, Hash)]
pub enum Align {
    /// Start of the cross axis
    Start,
    /// Center of the cross axis
    Center,
    /// End of the cross axis
    End,
}

/// Integer division rounding toward zero, as Rust's `/` on signed integers does.
pub open spec fn div_trunc(a: int, b: int) -> int {
    if a >= 0 {
        if b > 0 { a / b } else { -(a / (-b)) }
    } else {
        if b > 0 { -((-a) / b) } else { (-a) / (-b) }
    }
}

/// The larger of `v` and zero.
pub open spec fn clamp_non_negative(v: int) -> int {
    if v < 0 { 0 } else { v }
}

/// Signed division of `i16` values, rounding toward zero.
pub(crate) fn div_i16(a: i16, b: i16) -> (r: i16)
    requires
        b != 0,
        !(a == i16::MIN && b == -1),
    ensures
        r == div_trunc(a as int, b as int),
{
    let q = div_i32(a as i32, b as i32);
    proof {
        lemma_div_trunc_bound(a as int, b as int);
    }
    q as i16
}

/// Signed division of `i32` values that are not extreme, rounding toward zero.
pub(crate) fn div_i32(a: i32, b: i32) -> (r: i32)
    requires
        b != 0,
        -0x4000_0000 <= a <= 0x4000_0000,
        -0x4000_0000 <= b <= 0x4000_0000,
    ensures
        r == div_trunc(a as int, b as int),
{
    let ua: i32 = if a < 0 { -a } else { a };
    let ub: i32 = if b < 0 { -b } else { b };
    let q: i32 = ua / ub;
    proof {
        assert(0 <= q <= ua) by (nonlinear_arith)
            requires
                ua >= 0,
                ub >= 1,
                q == ua / ub,
        ;
    }
    if (a < 0) != (b < 0) {
        -q
    } else {
        q
    }
}

/// A quotient rounded toward zero is no larger in magnitude than the dividend, and it is
/// `-dividend` only for a divisor of `-1`.
proof fn lemma_div_trunc_bound(a: int, b: int)
    requires
        b != 0,
        -32768 <= a <= 32767,
        !(a == -32768 && b == -1),
    ensures
        -32768 <= div_trunc(a, b) <= 32767,
{
    if a >= 0 {
        if b > 0 {
            assert(a / b <= a) by (nonlinear_arith)
                requires a >= 0, b > 0;
        } else {
            assert(a / (-b) <= a) by (nonlinear_arith)
                requires a >= 0, -b > 0;
        }
    } else {
        if b > 0 {
            assert((-a) / b <= -a) by (nonlinear_arith)
                requires -a > 0, b > 0;
        } else if b == -1 {
        } else {
            assert((-a) / (-b) <= (-a) / 2) by (nonlinear_arith)
                requires -a > 0, -b >= 2;
        }
    }
}

impl Justify {
    /// The main-axis start offset `get_start_offset` computes for `free` free space and `count`
    /// items.
    pub open spec fn spec_start_offset(self, free: i16, count: usize) -> int {
        match self {
            Justify::Center => div_trunc(free as int, 2),
            Justify::End => free as int,
            Justify::SpaceAround => clamp_non_negative(
                div_trunc(div_trunc(free as int, (count as i16) as int), 2),
            ),
            Justify::SpaceEvenly => clamp_non_negative(
                div_trunc(free as int, ((count + 1) as i16) as int),
            ),
            _ => 0,
        }
    }

    /// The inputs on which `get_start_offset` divides by a non-zero value without overflow.
    pub open spec fn start_offset_defined(self, free: i16, count: usize) -> bool {
        match self {
            Justify::SpaceAround => (count as i16) != 0 && !(free == i16::MIN && (count as i16)
                == -1),
            Justify::SpaceEvenly => count < usize::MAX && ((count + 1) as i16) != 0 && !(free
                == i16::MIN && ((count + 1) as i16) == -1),
            _ => true,
        }
    }

    /// True if self is [Justify::Start] variant
    pub fn is_start(self) -> (r: bool)
        ensures
            r == (self is Start),
    {
        match self {
            Justify::Start => true,
            _ => false,
        }
    }

    /// True if self is [Justify::Center] variant
    pub fn is_center(self) -> (r: bool)
        ensures
            r == (self is Center),
    {
        match self {
            Justify::Center => true,
            _ => false,
        }
    }

    /// True if self is [Justify::End] variant
    pub fn is_end(self) -> (r: bool)
        ensures
            r == (self is End),
    {
        match self {
            Justify::End => true,
            _ => false,
        }
    }

    /// True if self is [Justify::SpaceBetween] variant
    pub fn is_space_between(self) -> (r: bool)
        ensures
            r == (self is SpaceBetween),
    {
        match self {
            Justify::SpaceBetween => true,
            _ => false,
        }
    }

    /// True if self is [Justify::SpaceAround] variant
    pub fn is_space_around(self) -> (r: bool)
        ensures
            r == (self is SpaceAround),
    {
        match self {
            Justify::SpaceAround => true,
            _ => false,
        }
    }

    /// True if self is [Justify::SpaceEvenly] variant
    pub fn is_space_evenly(self) -> (r: bool)
        ensures
            r == (self is SpaceEvenly),
    {
        match self {
            Justify::SpaceEvenly => true,
            _ => false,
        }
    }

    /// True if self is any of the space variants
    pub fn is_spaced(self) -> (r: bool)
        ensures
            r == (self is SpaceBetween || self is SpaceAround || self is SpaceEvenly),
    {
        self.is_space_between() || self.is_space_around() || self.is_space_evenly()
    }

    /// Returns the offset for justifying an item within a container of given size.
    pub fn get_start_offset(self, free_content_size: i16, item_count: usize, flex_row: bool) -> (r: (
        i16,
        i16,
    ))
        requires
            self.start_offset_defined(free_content_size, item_count),
        ensures
            flex_row ==> r.0 == self.spec_start_offset(free_content_size, item_count) && r.1 == 0,
            !flex_row ==> r.0 == 0 && r.1 == self.spec_start_offset(free_content_size, item_count),
    {
        let offset: i16 = match self {
            Self::Center => div_i16(free_content_size, 2),
            Self::End => free_content_size,
            Self::SpaceAround => {
                let per_item = div_i16(free_content_size, item_count as i16);
                let half = div_i16(per_item, 2);
                if half < 0 { 0 } else { half }
            },
            Self::SpaceEvenly => {
                let v = div_i16(free_content_size, (item_count + 1) as i16);
                if v < 0 { 0 } else { v }
            },
            _ => 0,
        };
        if flex_row {
            (offset, 0)
        } else {
            (0, offset)
        }
    }
}

impl Default for Justify {
    fn default() -> (r: Self)
        ensures
            r == Justify::Start,
    {
        Justify::Start
    }
}

impl Align {
    /// The cross-axis offset of an item of `item` cells inside a container of `container` cells.
    pub open spec fn spec_alignment_offset(self, container: u16, item: u16) -> int {
        match self {
            Align::Start => 0,
            Align::Center => div_trunc(container - item, 2),
            Align::End => container - item,
        }
    }

    /// True if self is [Align::Start] variant
    pub fn is_start(self) -> (r: bool)
        ensures
            r == (self is Start),
    {
        match self {
            Align::Start => true,
            _ => false,
        }
    }

    /// True if self is [Align::Center] variant
    pub fn is_center(self) -> (r: bool)
        ensures
            r == (self is Center),
    {
        match self {
            Align::Center => true,
            _ => false,
        }
    }

    /// True if self is [Align::End] variant
    pub fn is_end(self) -> (r: bool)
        ensures
            r == (self is End),
    {
        match self {
            Align::End => true,
            _ => false,
        }
    }

    /// Returns the offset for aligning an item within a container of given size.
    pub fn alignment_offset(self, container_size: u16, item_size: u16) -> (r: i32)
        ensures
            r == self.spec_alignment_offset(container_size, item_size),
    {
        match self {
            Self::Start => 0,
            Self::Center => {
                let d = container_size as i32 - item_size as i32;
                div_i32(d, 2)
            },
            Self::End => container_size as i32 - item_size as i32,
        }
    }
}

impl Default for Align {
    fn default() -> (r: Self)
        ensures
            r == Align::Start,
    {
        Align::Start
    }
}

/// An item no larger than its container is placed inside it: the start alignment offset is
/// zero, the end one leaves exactly the free space before the item, and the center one splits
/// it with the smaller half before the item.
pub proof fn lemma_alignment_within_container(container: u16, item: u16)
    requires
        item <= container,
    ensures
        Align::Start.spec_alignment_offset(container, item) == 0,
        Align::End.spec_alignment_offset(container, item) + item == container,
        0 <= Align::Center.spec_alignment_offset(container, item),
        2 * Align::Center.spec_alignment_offset(container, item) <= container - item,
{
}

} // verus!
