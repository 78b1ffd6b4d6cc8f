//! Bitfield of the text attributes active on a character.
use vstd::prelude::*;
use crate::code::Attribute;

verus! {

/// A bitfield representing the supported [`attributes`](Attribute) of a character: bit `n`
/// stands for `attrs_table()[n]`.
#[derive(Debug, Clone, Copy, PartialEq, Eq, Structural, Hash, Default)]
pub struct Attrs(pub u16);

/// Supported attribute flags (in bit order).
pub open spec fn attrs_table() -> Seq<Attribute> {
    seq![
        Attribute::Bold,
        Attribute::Dim,
        Attribute::Italic,
        Attribute::Underlined,
        Attribute::DoubleUnderlined,
        Attribute::Undercurled,
        Attribute::Underdotted,
        Attribute::Underdashed,
        Attribute::SlowBlink,
        Attribute::RapidBlink,
        Attribute::Reverse,
        Attribute::Hidden,
        Attribute::CrossedOut,
        Attribute::OverLined,
    ]
}

/// Bit `n` of `v` is set.
pub open spec fn bit(v: u16, n: u16) -> bool {
    v & (1u16 << n) != 0
}

/// The attribute that switches off `attr`, for the supported attributes.
pub open spec fn spec_reset_attr(attr: Attribute) -> Attribute {
    match attr {
        Attribute::Bold | Attribute::Dim => Attribute::NormalIntensity,
        Attribute::Italic => Attribute::NoItalic,
        Attribute::Underlined | Attribute::DoubleUnderlined | Attribute::Undercurled
        | Attribute::Underdotted | Attribute::Underdashed => Attribute::NoUnderline,
        Attribute::SlowBlink | Attribute::RapidBlink => Attribute::NoBlink,
        Attribute::Reverse => Attribute::NoReverse,
        Attribute::Hidden => Attribute::NoHidden,
        Attribute::CrossedOut => Attribute::NotCrossedOut,
        _ => Attribute::NotOverLined,
    }
}

/// `attr` is one of the supported attributes.
pub open spec fn is_supported(attr: Attribute) -> bool {
    attrs_table().contains(attr)
}

/// Codes that turn the attributes of `from` into those of `to`, looking at bits `0..n`: the
/// reset codes (in bit order) followed by the set codes (in bit order).
pub open spec fn change_codes(from: u16, to: u16, n: nat) -> (Seq<Attribute>, Seq<Attribute>)
    decreases n,
{
    if n == 0 {
        (seq![], seq![])
    } else {
        let (resets, sets) = change_codes(from, to, (n - 1) as nat);
        let i = (n - 1) as u16;
        if bit(from, i) && !bit(to, i) {
            (resets.push(spec_reset_attr(attrs_table()[i as int])), sets)
        } else if !bit(from, i) && bit(to, i) {
            (resets, sets.push(attrs_table()[i as int]))
        } else {
            (resets, sets)
        }
    }
}

impl Attrs {
    /// Bit `n` is set and stands for a supported attribute.
    pub open spec fn spec_get_bit(self, n: u16) -> bool {
        n < 14 && bit(self.0, n)
    }

    /// `self` with bit `n` set.
    pub open spec fn spec_set(self, n: u16) -> Attrs {
        Attrs(self.0 | (1u16 << n))
    }

    /// `self` with bit `n` cleared.
    pub open spec fn spec_unset(self, n: u16) -> Attrs {
        Attrs(self.0 & !(1u16 << n))
    }

    /// `self` with every underline bit (3 to 7) cleared.
    pub open spec fn spec_unset_underlined(self) -> Attrs {
        self.spec_unset(3).spec_unset(4).spec_unset(5).spec_unset(6).spec_unset(7)
    }

    /// The attributes after the terminal applies `attr`.
    pub open spec fn spec_apply(self, attr: Attribute) -> Attrs {
        match attr {
            Attribute::Reset => Attrs(0),
            Attribute::Bold => self.spec_unset(1).spec_set(0),
            Attribute::NoBold => self.spec_unset(0),
            Attribute::Dim => self.spec_unset(0).spec_set(1),
            Attribute::NormalIntensity => self.spec_unset(0).spec_unset(1),
            Attribute::Italic => self.spec_set(2),
            Attribute::NoItalic => self.spec_unset(2),
            Attribute::Underlined => self.spec_unset_underlined().spec_set(3),
            Attribute::DoubleUnderlined => self.spec_unset_underlined().spec_set(4),
            Attribute::Undercurled => self.spec_unset_underlined().spec_set(5),
            Attribute::Underdotted => self.spec_unset_underlined().spec_set(6),
            Attribute::Underdashed => self.spec_unset_underlined().spec_set(7),
            Attribute::NoUnderline => self.spec_unset_underlined(),
            Attribute::SlowBlink => self.spec_unset(9).spec_set(8),
            Attribute::RapidBlink => self.spec_unset(8).spec_set(9),
            Attribute::NoBlink => self.spec_unset(8).spec_unset(9),
            Attribute::Reverse => self.spec_set(10),
            Attribute::NoReverse => self.spec_unset(10),
            Attribute::Hidden => self.spec_set(11),
            Attribute::NoHidden => self.spec_unset(11),
            Attribute::CrossedOut => self.spec_set(12),
            Attribute::NotCrossedOut => self.spec_unset(12),
            Attribute::OverLined => self.spec_set(13),
            Attribute::NotOverLined => self.spec_unset(13),
            _ => self,
        }
    }

    /// The attribute at bit `n`, if that bit is set.
    pub open spec fn spec_get(self, n: u16) -> Option<Attribute> {
        if self.spec_get_bit(n) { Some(attrs_table()[n as int]) } else { None }
    }

    /// Supported attribute flags (in order).
    pub fn attrs() -> (r: [Attribute; 14])
        ensures
            r@ == attrs_table(),
    {
        let r = [
            Attribute::Bold,
            Attribute::Dim,
            Attribute::Italic,
            Attribute::Underlined,
            Attribute::DoubleUnderlined,
            Attribute::Undercurled,
            Attribute::Underdotted,
            Attribute::Underdashed,
            Attribute::SlowBlink,
            Attribute::RapidBlink,
            Attribute::Reverse,
            Attribute::Hidden,
            Attribute::CrossedOut,
            Attribute::OverLined,
        ];
        proof {
            assert(r@ =~= attrs_table());
        }
        r
    }

    /// Returns true if the attributes are empty.
    pub fn is_empty(self) -> (r: bool)
        ensures
            r == (self.0 == 0),
    {
        self.0 == 0
    }

    /// Returns `get(i)` for every supported position `i`, in order.
    pub fn extract(self) -> (r: Vec<Option<Attribute>>)
        ensures
            r@ == Seq::new(14, |i: int| self.spec_get(i as u16)),
    {
        let mut out: Vec<Option<Attribute>> = Vec::new();
        let mut i: u16 = 0;
        while i < 14
            invariant
                i <= 14,
                out@ == Seq::new(i as nat, |k: int| self.spec_get(k as u16)),
            decreases 14 - i,
        {
            out.push(self.get(i));
            i = i + 1;
            proof {
                assert(out@ =~= Seq::new(i as nat, |k: int| self.spec_get(k as u16)));
            }
        }
        out
    }

    /// Returns whether the attribute at position `n` in the bitfield is set.
    pub fn get_bit(self, n: u16) -> (r: bool)
        ensures
            r == self.spec_get_bit(n),
    {
        n < 14 && (self.0 & (1u16 << n)) != 0
    }

    /// Returns the attribute at position `n` in the bitfield, if it is set.
    pub fn get(self, n: u16) -> (r: Option<Attribute>)
        ensures
            r == self.spec_get(n),
    {
        if self.get_bit(n) {
            let table = Self::attrs();
            Some(table[n as usize])
        } else {
            None
        }
    }

    /// Sets the bit at position `n` in the bitfield.
    pub fn set(self, n: u16) -> (r: Self)
        requires
            n < 16,
        ensures
            r == self.spec_set(n),
    {
        Self(self.0 | (1u16 << n))
    }

    /// Unsets the bit at position `n` in the bitfield.
    pub fn unset(self, n: u16) -> (r: Self)
        requires
            n < 16,
        ensures
            r == self.spec_unset(n),
    {
        Self(self.0 & !(1u16 << n))
    }

    /// Unsets all underlined attributes.
    pub fn unset_underlined(self) -> (r: Attrs)
        ensures
            r == self.spec_unset_underlined(),
    {
        self.unset(3).unset(4).unset(5).unset(6).unset(7)
    }

    /// Applies the given attribute to the current attributes and returns a new `Attrs` bitfield.
    pub fn apply(self, attr: Attribute) -> (r: Self)
        ensures
            r == self.spec_apply(attr),
    {
        match attr {
            Attribute::Reset => Attrs(0),
            Attribute::Bold => self.unset(1).set(0),
            Attribute::NoBold => self.unset(0),
            Attribute::Dim => self.unset(0).set(1),
            Attribute::NormalIntensity => self.unset(0).unset(1),
            Attribute::Italic => self.set(2),
            Attribute::NoItalic => self.unset(2),
            Attribute::Underlined => self.unset_underlined().set(3),
            Attribute::DoubleUnderlined => self.unset_underlined().set(4),
            Attribute::Undercurled => self.unset_underlined().set(5),
            Attribute::Underdotted => self.unset_underlined().set(6),
            Attribute::Underdashed => self.unset_underlined().set(7),
            Attribute::NoUnderline => self.unset_underlined(),
            Attribute::SlowBlink => self.unset(9).set(8),
            Attribute::RapidBlink => self.unset(8).set(9),
            Attribute::NoBlink => self.unset(8).unset(9),
            Attribute::Reverse => self.set(10),
            Attribute::NoReverse => self.unset(10),
            Attribute::Hidden => self.set(11),
            Attribute::NoHidden => self.unset(11),
            Attribute::CrossedOut => self.set(12),
            Attribute::NotCrossedOut => self.unset(12),
            Attribute::OverLined => self.set(13),
            Attribute::NotOverLined => self.unset(13),
            _ => self,
        }
    }

    /// Returns the reset attribute for the given supported attribute.
    pub fn get_reset_attr(attr: Attribute) -> (r: Attribute)
        requires
            is_supported(attr),
        ensures
            r == spec_reset_attr(attr),
    {
        match attr {
            Attribute::Bold | Attribute::Dim => Attribute::NormalIntensity,
            Attribute::Italic => Attribute::NoItalic,
            Attribute::Underlined | Attribute::DoubleUnderlined | Attribute::Undercurled
            | Attribute::Underdotted | Attribute::Underdashed => Attribute::NoUnderline,
            Attribute::SlowBlink | Attribute::RapidBlink => Attribute::NoBlink,
            Attribute::Reverse => Attribute::NoReverse,
            Attribute::Hidden => Attribute::NoHidden,
            Attribute::CrossedOut => Attribute::NotCrossedOut,
            _ => Attribute::NotOverLined,
        }
    }

    /// Returns the codes that change the terminal from `self` to `other`: the reset codes of
    /// the attributes set in `self` but not in `other`, then the attributes set in `other` but
    /// not in `self`, each group in bit order.
    pub fn into_change_codes(self, other: Self) -> (r: Vec<Attribute>)
        ensures
            r@ == change_codes(self.0, other.0, 14).0 + change_codes(self.0, other.0, 14).1,
    {
        let table = Self::attrs();
        let mut reset_codes: Vec<Attribute> = Vec::new();
        let mut set_codes: Vec<Attribute> = Vec::new();
        let mut i: u16 = 0;
        while i < 14
            invariant
                i <= 14,
                table@ == attrs_table(),
                (reset_codes@, set_codes@) == change_codes(self.0, other.0, i as nat),
            decreases 14 - i,
        {
            let self_bit = self.0 & (1u16 << i) != 0;
            let other_bit = other.0 & (1u16 << i) != 0;
            let attr = table[i as usize];
            if self_bit {
                if !other_bit {
                    proof {
                        assert(attrs_table().contains(attr)) by {
                            assert(attrs_table()[i as int] == attr);
                        }
                    }
                    reset_codes.push(Self::get_reset_attr(attr));
                }
            } else if other_bit {
                set_codes.push(attr);
            }
            i = i + 1;
        }
        reset_codes.append(&mut set_codes);
        reset_codes
    }

    /// Removes the lowest set supported attribute from the bitfield and returns it.
    pub fn next(&mut self) -> (r: Option<Attribute>)
        ensures
            match r {
                Some(a) => exists|n: u16|
                    #![trigger old(self).spec_get(n)]
                    n < 14 && old(self).spec_get(n) == Some(a) && *final(self) == old(self).spec_unset(
                        n,
                    ) && forall|k: u16| k < n ==> !old(self).spec_get_bit(k),
                None => *final(self) == *old(self) && forall|k: u16| k < 14 ==> !old(self).spec_get_bit(k),
            },
    {
        if self.is_empty() {
            proof {
                assert forall|k: u16| k < 14 implies !old(self).spec_get_bit(k) by {
                    assert(0u16 & (1u16 << k) == 0) by (bit_vector);
                }
            }
            return None;
        }
        let table = Self::attrs();
        let mut i: u16 = 0;
        while i < 14
            invariant
                i <= 14,
                *self == *old(self),
                table@ == attrs_table(),
                forall|k: u16| k < i ==> !old(self).spec_get_bit(k),
            decreases 14 - i,
        {
            if self.0 & (1u16 << i) != 0 {
                let attr = table[i as usize];
                let n = i;
                *self = self.unset(i);
                proof {
                    assert(old(self).spec_get(n) == Some(attr));
                }
                return Some(attr);
            }
            i = i + 1;
        }
        None
    }
}

/// Setting a supported bit makes it read as set, unsetting makes it read as clear, and neither
/// touches any other bit.
pub proof fn lemma_set_unset_bits(a: Attrs, n: u16, k: u16)
    requires
        n < 16,
        k < 16,
    ensures
        bit(a.spec_set(n).0, n),
        !bit(a.spec_unset(n).0, n),
        k != n ==> bit(a.spec_set(n).0, k) == bit(a.0, k),
        k != n ==> bit(a.spec_unset(n).0, k) == bit(a.0, k),
{
    let v = a.0;
    assert(v | (1u16 << n) & (1u16 << n) != 0) by (bit_vector)
        requires
            n < 16,
    ;
    assert((v | (1u16 << n)) & (1u16 << n) != 0) by (bit_vector)
        requires
            n < 16,
    ;
    assert((v & !(1u16 << n)) & (1u16 << n) == 0) by (bit_vector)
        requires
            n < 16,
    ;
    assert(k != n ==> (((v | (1u16 << n)) & (1u16 << k) != 0) == (v & (1u16 << k) != 0))) by (bit_vector)
        requires
            n < 16,
            k < 16,
    ;
    assert(k != n ==> (((v & !(1u16 << n)) & (1u16 << k) != 0) == (v & (1u16 << k) != 0))) by (bit_vector)
        requires
            n < 16,
            k < 16,
    ;
}

/// Applying `Reset` clears every attribute, and applying an underline style leaves exactly one
/// underline bit set among bits 3 to 7.
pub proof fn lemma_apply_reset_and_underline(a: Attrs, k: u16)
    requires
        3 <= k <= 7,
    ensures
        a.spec_apply(Attribute::Reset) == Attrs(0),
        bit(a.spec_apply(Attribute::Underlined).0, k) == (k == 3),
        bit(a.spec_apply(Attribute::NoUnderline).0, k) == false,
{
    let v = a.0;
    let u = a.spec_unset_underlined().0;
    assert(u == ((((v & !(1u16 << 3)) & !(1u16 << 4)) & !(1u16 << 5)) & !(1u16 << 6)) & !(1u16 << 7));
    assert((((((v & !(1u16 << 3)) & !(1u16 << 4)) & !(1u16 << 5)) & !(1u16 << 6)) & !(1u16 << 7)) & (1u16 << k) == 0) by (bit_vector)
        requires
            3 <= k <= 7,
    ;
    assert(((u | (1u16 << 3)) & (1u16 << k) != 0) == (k == 3)) by (bit_vector)
        requires
            3 <= k <= 7,
            u & (1u16 << k) == 0,
    ;
}

} // verus!
