//! Borders: four lengths for the top, right, bottom and left side of a
//! rectangle, used for padding, margins and border strokes.

use vstd::prelude::*;

verus! {

use crate::units::length::{Length, LengthUnit, length_repr};
use vstd::string::StringExecFns;

/// Four lengths, one per side, in clockwise order starting at the top.
#[derive(Debug, PartialEq, Eq, Clone, Copy, Structural)]
pub struct Borders {
    pub top: Length,
    pub right: Length,
    pub bottom: Length,
    pub left: Length,
}

/// The four sides cycled one step clockwise: what was on the left moves to
/// the top.
pub open spec fn spec_rotate_borders(b: Borders) -> Borders {
    Borders { top: b.left, right: b.top, bottom: b.right, left: b.bottom }
}

impl Borders {
    /// Well-formed: all four lengths are well-formed.
    pub open spec fn wf(self) -> bool {
        self.top.wf() && self.right.wf() && self.bottom.wf() && self.left.wf()
    }

    /// All four sides are pixel lengths.
    pub open spec fn is_px(self) -> bool {
        &&& self.top.unit is Px
        &&& self.right.unit is Px
        &&& self.bottom.unit is Px
        &&& self.left.unit is Px
    }

    /// Creates borders from one length per side.
    pub fn each(top: Length, right: Length, bottom: Length, left: Length) -> (r: Borders)
        ensures
            r == (Borders { top, right, bottom, left }),
    {
        Borders { top, right, bottom, left }
    }

    /// Creates borders in pixels.
    pub fn px(top: i64, right: i64, bottom: i64, left: i64) -> (r: Borders)
        ensures
            r.wf(),
            r.is_px(),
            r.top.value.is_int(top as int),
            r.right.value.is_int(right as int),
            r.bottom.value.is_int(bottom as int),
            r.left.value.is_int(left as int),
    {
        Borders {
            top: Length::px(top),
            right: Length::px(right),
            bottom: Length::px(bottom),
            left: Length::px(left),
        }
    }

    /// Creates borders with the same length on every side.
    pub fn all(border: Length) -> (r: Borders)
        ensures
            r == (Borders { top: border, right: border, bottom: border, left: border }),
    {
        Borders { top: border, right: border, bottom: border, left: border }
    }

    /// Top border.
    pub fn top(&self) -> (r: &Length)
        ensures
            r == self.top,
    {
        &self.top
    }

    /// Right border.
    pub fn right(&self) -> (r: &Length)
        ensures
            r == self.right,
    {
        &self.right
    }

    /// Bottom border.
    pub fn bottom(&self) -> (r: &Length)
        ensures
            r == self.bottom,
    {
        &self.bottom
    }

    /// Left border.
    pub fn left(&self) -> (r: &Length)
        ensures
            r == self.left,
    {
        &self.left
    }

    /// All four sides can be converted to `unit`.
    pub open spec fn to_fits(self, unit: LengthUnit, dpi: int) -> bool {
        &&& self.top.to_fits(unit, dpi)
        &&& self.right.to_fits(unit, dpi)
        &&& self.bottom.to_fits(unit, dpi)
        &&& self.left.to_fits(unit, dpi)
    }

    /// Converts these borders to another unit.
    pub fn to(&self, unit: &LengthUnit, dpi: u32) -> (r: Borders)
        requires
            self.wf(),
            dpi >= 1,
            self.to_fits(*unit, dpi as int),
        ensures
            r.wf(),
            self.top.converts_to(r.top, *unit, dpi as int),
            self.right.converts_to(r.right, *unit, dpi as int),
            self.bottom.converts_to(r.bottom, *unit, dpi as int),
            self.left.converts_to(r.left, *unit, dpi as int),
    {
        Borders {
            top: self.top.to(unit, dpi),
            right: self.right.to(unit, dpi),
            bottom: self.bottom.to(unit, dpi),
            left: self.left.to(unit, dpi),
        }
    }

    /// Converts these borders to pixels.
    pub fn to_px(&self, dpi: u32) -> (r: Borders)
        requires
            self.wf(),
            dpi >= 1,
            self.to_fits(LengthUnit::Px, dpi as int),
        ensures
            r.wf(),
            r.is_px(),
            r.top.value.is_int(self.top.px_val(dpi as int)),
            r.right.value.is_int(self.right.px_val(dpi as int)),
            r.bottom.value.is_int(self.bottom.px_val(dpi as int)),
            r.left.value.is_int(self.left.px_val(dpi as int)),
    {
        self.to(&LengthUnit::Px, dpi)
    }

    /// Rotates these borders by 90 degrees clockwise.
    pub fn rotate_90(&self) -> (r: Borders)
        ensures
            r == spec_rotate_borders(*self),
    {
        Borders::each(self.left, self.top, self.right, self.bottom)
    }

    /// Rotates these borders by 270 degrees clockwise.
    pub fn rotate_270(&self) -> (r: Borders)
        ensures
            r == spec_rotate_borders(spec_rotate_borders(spec_rotate_borders(*self))),
    {
        Borders::each(self.right, self.bottom, self.left, self.top)
    }

    /// Do these borders require a dpi value for conversion to px?
    pub fn needs_dpi(&self) -> (r: bool)
        ensures
            r == !self.is_px(),
    {
        self.top.needs_dpi() || self.right.needs_dpi() || self.bottom.needs_dpi()
            || self.left.needs_dpi()
    }
}

/// Rotating borders four times yields the borders themselves.
pub proof fn lemma_borders_rotate_involution(b: Borders)
    ensures
        spec_rotate_borders(spec_rotate_borders(spec_rotate_borders(spec_rotate_borders(b)))) == b,
{
}

/// The rendering of borders: the four sides joined by slashes, clockwise
/// from the top.
pub open spec fn borders_repr(b: Borders) -> Seq<char> {
    length_repr(b.top) + seq!['/'] + length_repr(b.right) + seq!['/'] + length_repr(b.bottom)
        + seq!['/'] + length_repr(b.left)
}

impl Borders {
    /// Renders these borders: `1cm/2cm/1cm/2cm`.
    pub fn to_string(&self) -> (r: String)
        requires
            self.wf(),
        ensures
            r@ == borders_repr(*self),
    {
        proof {
            reveal_strlit("/");
        }
        let mut out = self.top.to_string();
        out.append("/");
        let t1 = self.right.to_string();
        out.append(t1.as_str());
        out.append("/");
        let t2 = self.bottom.to_string();
        out.append(t2.as_str());
        out.append("/");
        let t3 = self.left.to_string();
        out.append(t3.as_str());
        proof {
            assert(out@ =~= borders_repr(*self));
        }
        out
    }
}

} // verus!
