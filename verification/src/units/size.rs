//! Sizes: free-form (possibly partial) and fixed.
//!
//! A [`Size`] holds an optional width and an optional height, at least one of
//! which must be present; the missing dimension is later inferred from an
//! aspect ratio. A [`FixSize`] has both dimensions mandatory.

use vstd::prelude::*;

verus! {

use crate::ParseStructError;
use crate::units::length::{Length, LengthUnit, length_repr};
use vstd::string::StringExecFns;

/// A size where one of the two dimensions may be left open.
#[derive(Debug, PartialEq, Eq, Clone, Copy, Structural)]
pub struct Size {
    pub width: Option<Length>,
    pub height: Option<Length>,
}

/// Swapped width and height.
pub open spec fn spec_rotate_size(s: Size) -> Size {
    Size { width: s.height, height: s.width }
}

impl Size {
    /// Well-formed: present dimensions are well-formed lengths, and at least
    /// one dimension is present.
    pub open spec fn wf(self) -> bool {
        &&& self.width is Some ==> self.width->0.wf()
        &&& self.height is Some ==> self.height->0.wf()
        &&& self.width is Some || self.height is Some
    }

    /// Creates a size; fails when both dimensions are absent.
    pub fn new(width: Option<Length>, height: Option<Length>) -> (r: Result<
        Size,
        ParseStructError,
    >)
        ensures
            r is Err <==> width is None && height is None,
            r is Ok ==> r->Ok_0 == (Size { width, height }),
    {
        if width.is_none() && height.is_none() {
            return Err(
                ParseStructError(
                    "Unable to create size, at least one of width or height must be given".to_owned(),
                ),
            );
        }
        Ok(Size { width, height })
    }

    /// Width of this size.
    pub fn width(&self) -> (r: &Option<Length>)
        ensures
            r == self.width,
    {
        &self.width
    }

    /// Height of this size.
    pub fn height(&self) -> (r: &Option<Length>)
        ensures
            r == self.height,
    {
        &self.height
    }

    /// Both present dimensions can be converted to `unit`.
    pub open spec fn to_fits(self, unit: LengthUnit, dpi: int) -> bool {
        &&& self.width is Some ==> self.width->0.to_fits(unit, dpi)
        &&& self.height is Some ==> self.height->0.to_fits(unit, dpi)
    }

    /// Converts this size to another unit; absent dimensions stay absent.
    pub fn to(&self, unit: &LengthUnit, dpi: u32) -> (r: Size)
        requires
            self.wf(),
            dpi >= 1,
            self.to_fits(*unit, dpi as int),
        ensures
            r.wf(),
            r.width is Some <==> self.width is Some,
            r.height is Some <==> self.height is Some,
            self.width is Some ==> self.width->0.converts_to(r.width->0, *unit, dpi as int),
            self.height is Some ==> self.height->0.converts_to(r.height->0, *unit, dpi as int),
    {
        let width = match &self.width {
            Some(w) => Some(w.to(unit, dpi)),
            None => None,
        };
        let height = match &self.height {
            Some(h) => Some(h.to(unit, dpi)),
            None => None,
        };
        Size { width, height }
    }

    /// Rotates this size by 90 degrees clockwise (i.e. swaps width and
    /// height).
    pub fn rotate_90(&self) -> (r: Size)
        requires
            self.wf(),
        ensures
            r.wf(),
            r == spec_rotate_size(*self),
    {
        Size { width: self.height, height: self.width }
    }

    /// Does this size require a dpi value for conversion to px?
    pub fn needs_dpi(&self) -> (r: bool)
        ensures
            r == (self.width is Some && !(self.width->0.unit is Px) || self.height is Some && !(
            self.height->0.unit is Px)),
    {
        let mut needs = false;
        if let Some(w) = &self.width {
            if w.needs_dpi() {
                needs = true;
            }
        }
        if let Some(h) = &self.height {
            if h.needs_dpi() {
                needs = true;
            }
        }
        needs
    }
}

/// Rotating a size four times yields the size itself.
pub proof fn lemma_size_rotate_involution(s: Size)
    ensures
        spec_rotate_size(spec_rotate_size(spec_rotate_size(spec_rotate_size(s)))) == s,
{
}

/// A size with both dimensions mandatory.
#[derive(Debug, PartialEq, Eq, Clone, Copy, Structural)]
pub struct FixSize {
    pub width: Length,
    pub height: Length,
}

/// Swapped width and height.
pub open spec fn spec_rotate_fix_size(s: FixSize) -> FixSize {
    FixSize { width: s.height, height: s.width }
}

impl FixSize {
    /// Well-formed: both lengths are well-formed.
    pub open spec fn wf(self) -> bool {
        self.width.wf() && self.height.wf()
    }

    /// Both dimensions are pixel lengths.
    pub open spec fn is_px(self) -> bool {
        self.width.unit is Px && self.height.unit is Px
    }

    /// Creates a size from two lengths.
    pub fn new(width: Length, height: Length) -> (r: FixSize)
        ensures
            r == (FixSize { width, height }),
    {
        FixSize { width, height }
    }

    /// Creates a size in pixels.
    pub fn px(width: i64, height: i64) -> (r: FixSize)
        ensures
            r.wf(),
            r.is_px(),
            r.width.value.is_int(width as int),
            r.height.value.is_int(height as int),
    {
        FixSize { width: Length::px(width), height: Length::px(height) }
    }

    /// Width of this size.
    pub fn width(&self) -> (r: &Length)
        ensures
            r == self.width,
    {
        &self.width
    }

    /// Height of this size.
    pub fn height(&self) -> (r: &Length)
        ensures
            r == self.height,
    {
        &self.height
    }

    /// Both dimensions can be converted to `unit`.
    pub open spec fn to_fits(self, unit: LengthUnit, dpi: int) -> bool {
        self.width.to_fits(unit, dpi) && self.height.to_fits(unit, dpi)
    }

    /// Converts this size to another unit.
    pub fn to(&self, unit: &LengthUnit, dpi: u32) -> (r: FixSize)
        requires
            self.wf(),
            dpi >= 1,
            self.to_fits(*unit, dpi as int),
        ensures
            r.wf(),
            self.width.converts_to(r.width, *unit, dpi as int),
            self.height.converts_to(r.height, *unit, dpi as int),
    {
        FixSize { width: self.width.to(unit, dpi), height: self.height.to(unit, dpi) }
    }

    /// Converts this size to pixels.
    pub fn to_px(&self, dpi: u32) -> (r: FixSize)
        requires
            self.wf(),
            dpi >= 1,
            self.to_fits(LengthUnit::Px, dpi as int),
        ensures
            r.wf(),
            r.is_px(),
            r.width.value.is_int(self.width.px_val(dpi as int)),
            r.height.value.is_int(self.height.px_val(dpi as int)),
    {
        self.to(&LengthUnit::Px, dpi)
    }

    /// Rotates this size by 90 degrees clockwise (i.e. swaps width and
    /// height).
    pub fn rotate_90(&self) -> (r: FixSize)
        ensures
            r == spec_rotate_fix_size(*self),
    {
        FixSize { width: self.height, height: self.width }
    }

    /// Does this size require a dpi value for conversion to px?
    pub fn needs_dpi(&self) -> (r: bool)
        ensures
            r == (!(self.width.unit is Px) || !(self.height.unit is Px)),
    {
        self.width.needs_dpi() || self.height.needs_dpi()
    }
}

/// Rotating a fixed size four times yields the size itself.
pub proof fn lemma_fix_size_rotate_involution(s: FixSize)
    ensures
        spec_rotate_fix_size(spec_rotate_fix_size(spec_rotate_fix_size(spec_rotate_fix_size(s))))
            == s,
{
}

/// The rendering of an optional dimension: the length, or `.` when absent.
pub open spec fn opt_length_repr(l: Option<Length>) -> Seq<char> {
    match l {
        Some(v) => length_repr(v),
        None => seq!['.'],
    }
}

/// The rendering of a free-form size: both dimensions joined by a slash.
pub open spec fn size_repr(z: Size) -> Seq<char> {
    opt_length_repr(z.width) + seq!['/'] + opt_length_repr(z.height)
}

/// The rendering of a fixed size: both dimensions joined by a slash.
pub open spec fn fix_size_repr(z: FixSize) -> Seq<char> {
    length_repr(z.width) + seq!['/'] + length_repr(z.height)
}

impl Size {
    /// Renders this size: `15cm/10cm`, `10in/.`.
    pub fn to_string(&self) -> (r: String)
        requires
            self.wf(),
        ensures
            r@ == size_repr(*self),
    {
        let mut out = match &self.width {
            Some(l) => l.to_string(),
            None => {
                proof {
                    reveal_strlit(".");
                }
                let mut o = String::new();
                o.append(".");
                proof {
                    assert(o@ =~= seq!['.']);
                }
                o
            },
        };
        out.append("/");
        proof {
            reveal_strlit("/");
        }
        match &self.height {
            Some(l) => {
                let t = l.to_string();
                out.append(t.as_str());
            },
            None => {
                out.append(".");
                proof {
                    reveal_strlit(".");
                }
            },
        }
        proof {
            assert(out@ =~= size_repr(*self));
        }
        out
    }
}

impl FixSize {
    /// Renders this size: `15cm/10cm`.
    pub fn to_string(&self) -> (r: String)
        requires
            self.wf(),
        ensures
            r@ == fix_size_repr(*self),
    {
        let mut out = self.width.to_string();
        out.append("/");
        proof {
            reveal_strlit("/");
        }
        let t = self.height.to_string();
        out.append(t.as_str());
        proof {
            assert(out@ =~= fix_size_repr(*self));
        }
        out
    }
}

} // verus!
