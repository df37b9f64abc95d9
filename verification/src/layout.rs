//! The box-model layout solver.
//!
//! Given a target canvas in pixels, the photo's native pixel dimensions, and
//! exactly two constraints — one of {image-size, framed-size} and one of
//! {padding, margins}, where framed-size together with margins is forbidden —
//! the solver derives a mutually consistent layout: the scaled photo
//! rectangle, the framed rectangle (photo plus padding), the padding and the
//! margins, all in whole pixels.
//!
//! The derivation works on mathematical integers and is modelled by
//! [`LayoutInputs`], whose spec functions mirror the solver steps: resolve
//! the maximal framed rectangle, resolve the maximal photo rectangle, resolve
//! padding, fit the photo preserving its aspect ratio, recompute the framed
//! rectangle, and resolve margins. Halving steps round to the nearest whole
//! pixel, ties away from zero.

use vstd::prelude::*;

verus! {

use crate::rational::{round_ratio, abs_int};
use crate::rational::{
    lemma_round_ratio_err,
    lemma_round_ratio_exact,
    lemma_round_ratio_le,
    lemma_round_ratio_ge,
    lemma_round_ratio_abs_le,
    round_div,
};
use crate::units::border::{Borders, spec_rotate_borders};
use crate::units::format::PrintFormatError;
use crate::units::length::LengthUnit;
use crate::units::size::{FixSize, spec_rotate_fix_size};
use crate::units::length::Length;

/// Largest pixel magnitude the solver accepts for the canvas, the photo and
/// every constraint: one billion pixels per axis.
pub const MAX_PX: i64 = 1_000_000_000;

/// Rounds `d / 2` to the nearest integer, ties away from zero.
pub open spec fn half_round(d: int) -> int {
    round_ratio(d, 2)
}

/// Computes [`half_round`].
fn half_i64(d: i64) -> (r: i64)
    ensures
        r == half_round(d as int),
{
    proof {
        lemma_round_ratio_abs_le(d as int, 2);
    }
    round_div(d as i128, 2) as i64
}

/// The two chosen layout constraints.
///
/// Exactly one of `image_size` and `framed_size` and exactly one of `padding`
/// and `margins` must be given; `framed_size` together with `margins` is the
/// one forbidden pair.
#[derive(Debug, Clone, Copy, PartialEq, Eq, Structural)]
pub struct LayoutConstraints {
    /// Maximum photo size, excluding padding.
    pub image_size: Option<FixSize>,
    /// Maximum photo size, including padding.
    pub framed_size: Option<FixSize>,
    /// Padding between the photo and the framed rectangle.
    pub padding: Option<Borders>,
    /// Minimum margins between the framed rectangle and the canvas edge.
    pub margins: Option<Borders>,
}

/// A solved layout, all values in whole pixels.
#[derive(Debug, Clone, Copy, PartialEq, Eq, Structural)]
pub struct LayoutResult {
    /// The scaled photo.
    pub image: FixSize,
    /// The photo plus padding.
    pub framed: FixSize,
    /// The resolved padding.
    pub padding: Borders,
    /// The resolved margins.
    pub margins: Borders,
}

impl LayoutConstraints {
    /// Exactly one of each constraint bracket is given, and the forbidden
    /// pair framed-size with margins is not.
    pub open spec fn arity_ok(self) -> bool {
        &&& (self.image_size is Some) != (self.framed_size is Some)
        &&& (self.padding is Some) != (self.margins is Some)
        &&& !(self.framed_size is Some && self.margins is Some)
    }

    /// Every given constraint is well-formed, convertible to pixels at
    /// resolution `dpi`, and within [`MAX_PX`] per component.
    pub open spec fn inputs_ok(self, dpi: int) -> bool {
        &&& self.image_size is Some ==> fix_size_ok(self.image_size->0, dpi)
        &&& self.framed_size is Some ==> fix_size_ok(self.framed_size->0, dpi)
        &&& self.padding is Some ==> borders_ok(self.padding->0, dpi)
        &&& self.margins is Some ==> borders_ok(self.margins->0, dpi)
    }
}

/// The size is well-formed and its pixel values at resolution `dpi` stay
/// within [`MAX_PX`] in magnitude.
pub open spec fn fix_size_ok(s: FixSize, dpi: int) -> bool {
    &&& s.wf()
    &&& s.to_fits(LengthUnit::Px, dpi)
    &&& abs_int(s.width.px_val(dpi)) <= MAX_PX as int
    &&& abs_int(s.height.px_val(dpi)) <= MAX_PX as int
}

/// The borders are well-formed and their pixel values at resolution `dpi`
/// stay within [`MAX_PX`] in magnitude.
pub open spec fn borders_ok(b: Borders, dpi: int) -> bool {
    &&& b.wf()
    &&& b.to_fits(LengthUnit::Px, dpi)
    &&& abs_int(b.top.px_val(dpi)) <= MAX_PX as int
    &&& abs_int(b.right.px_val(dpi)) <= MAX_PX as int
    &&& abs_int(b.bottom.px_val(dpi)) <= MAX_PX as int
    &&& abs_int(b.left.px_val(dpi)) <= MAX_PX as int
}

/// The integer model of one solver run: canvas and constraints after unit
/// conversion to pixels and after the rotation decision has been applied.
pub ghost struct LayoutInputs {
    /// Canvas width in pixels, after rotation.
    pub w: int,
    /// Canvas height in pixels, after rotation.
    pub h: int,
    /// Native photo width in pixels.
    pub iw: int,
    /// Native photo height in pixels.
    pub ih: int,
    /// The image-size constraint in pixels (width, height), if given.
    pub img: Option<(int, int)>,
    /// The framed-size constraint in pixels (width, height), if given.
    pub frm: Option<(int, int)>,
    /// The padding constraint in pixels (top, right, bottom, left), if given.
    pub pad: Option<(int, int, int, int)>,
    /// The margins constraint in pixels (top, right, bottom, left), if given.
    pub mar: Option<(int, int, int, int)>,
}

impl LayoutInputs {
    /// Arity of the model's constraints, as for [`LayoutConstraints`].
    pub open spec fn valid_arity(self) -> bool {
        &&& (self.img is Some) != (self.frm is Some)
        &&& (self.pad is Some) != (self.mar is Some)
        &&& !(self.frm is Some && self.mar is Some)
    }

    /// The maximal photo-plus-padding rectangle: the framed-size constraint
    /// when given; else the canvas less the margins; else the image-size
    /// constraint plus the padding.
    pub open spec fn framed_max(self) -> (int, int) {
        if self.frm is Some {
            self.frm->0
        } else if self.mar is Some {
            let (t, r, b, l) = self.mar->0;
            (self.w - r - l, self.h - t - b)
        } else {
            let (t, r, b, l) = self.pad->0;
            let (gw, gh) = self.img->0;
            (gw + r + l, gh + t + b)
        }
    }

    /// The maximal photo rectangle: the framed-size constraint doubles as
    /// this bound when given; else the maximal framed rectangle less the
    /// padding; else the image-size constraint itself.
    pub open spec fn image_max(self) -> (int, int) {
        if self.frm is Some {
            self.frm->0
        } else if self.pad is Some {
            let (t, r, b, l) = self.pad->0;
            (self.framed_max().0 - r - l, self.framed_max().1 - t - b)
        } else {
            self.img->0
        }
    }

    /// The resolved padding: the constraint when given, otherwise the gap
    /// between the maximal framed and photo rectangles, split evenly per
    /// axis.
    pub open spec fn padding(self) -> (int, int, int, int) {
        if self.pad is Some {
            self.pad->0
        } else {
            let hor = half_round(self.framed_max().0 - self.image_max().0);
            let ver = half_round(self.framed_max().1 - self.image_max().1);
            (ver, hor, ver, hor)
        }
    }

    /// The photo is at least as wide, relative to its height, as the maximal
    /// photo rectangle.
    pub open spec fn wider(self) -> bool {
        self.iw * self.image_max().1 >= self.image_max().0 * self.ih
    }

    /// The photo scaled to the largest size that fits the maximal photo
    /// rectangle while preserving the native aspect ratio: the relatively
    /// wider side fills its axis and the other side is scaled down, rounded
    /// to the nearest pixel.
    pub open spec fn photo(self) -> (int, int) {
        if self.wider() {
            (self.image_max().0, round_ratio(self.image_max().0 * self.ih, self.iw))
        } else {
            (round_ratio(self.image_max().1 * self.iw, self.ih), self.image_max().1)
        }
    }

    /// The final framed rectangle: the scaled photo plus the resolved
    /// padding.
    pub open spec fn framed(self) -> (int, int) {
        let (t, r, b, l) = self.padding();
        (self.photo().0 + l + r, self.photo().1 + t + b)
    }

    /// The resolved margins: half the gap between canvas and framed
    /// rectangle per axis; a given margins constraint shifts each axis by
    /// half the difference of its two requested sides, preserving the
    /// requested skew.
    pub open spec fn margins(self) -> (int, int, int, int) {
        let hor = half_round(self.w - self.framed().0);
        let ver = half_round(self.h - self.framed().1);
        if self.mar is Some {
            let (t, r, b, l) = self.mar->0;
            let dh = half_round(r - l);
            let dv = half_round(t - b);
            (ver + dv, hor + dh, ver - dv, hor - dh)
        } else {
            (ver, hor, ver, hor)
        }
    }

    /// All model inputs are within the solver's bounds.
    pub open spec fn bounded(self) -> bool {
        &&& 1 <= self.w <= MAX_PX as int
        &&& 1 <= self.h <= MAX_PX as int
        &&& 1 <= self.iw <= MAX_PX as int
        &&& 1 <= self.ih <= MAX_PX as int
        &&& self.img is Some ==> pair_bounded(self.img->0)
        &&& self.frm is Some ==> pair_bounded(self.frm->0)
        &&& self.pad is Some ==> quad_bounded(self.pad->0)
        &&& self.mar is Some ==> quad_bounded(self.mar->0)
    }
}

/// Both components within [`MAX_PX`] in magnitude.
pub open spec fn pair_bounded(p: (int, int)) -> bool {
    abs_int(p.0) <= MAX_PX as int && abs_int(p.1) <= MAX_PX as int
}

/// All four components within [`MAX_PX`] in magnitude.
pub open spec fn quad_bounded(q: (int, int, int, int)) -> bool {
    &&& abs_int(q.0) <= MAX_PX as int
    &&& abs_int(q.1) <= MAX_PX as int
    &&& abs_int(q.2) <= MAX_PX as int
    &&& abs_int(q.3) <= MAX_PX as int
}

/// The rotation decision: rotate when the photo's orientation differs from
/// the canvas's and rotation is not disabled. Orientation is portrait when
/// the height exceeds the width.
pub open spec fn spec_rotate_decision(
    canvas: FixSize,
    iw: int,
    ih: int,
    no_rotation: bool,
) -> bool {
    !(no_rotation || ((ih > iw) == (canvas.height.value.num > canvas.width.value.num)))
}

/// The pixel values of a fixed size at resolution `dpi`.
pub open spec fn px_pair(s: FixSize, dpi: int) -> (int, int) {
    (s.width.px_val(dpi), s.height.px_val(dpi))
}

/// The pixel values of borders at resolution `dpi`, clockwise from the top.
pub open spec fn px_quad(b: Borders, dpi: int) -> (int, int, int, int) {
    (b.top.px_val(dpi), b.right.px_val(dpi), b.bottom.px_val(dpi), b.left.px_val(dpi))
}

/// The integer model of a solver run: canvas and constraints in pixels, with
/// the rotation decision applied to the canvas, to the size constraints
/// (dimension swap) and to the border constraints (clockwise cycle).
pub open spec fn layout_model(
    canvas: FixSize,
    iw: int,
    ih: int,
    c: LayoutConstraints,
    no_rotation: bool,
    dpi: int,
) -> LayoutInputs {
    let rot = spec_rotate_decision(canvas, iw, ih, no_rotation);
    let cw = canvas.width.value.num as int;
    let ch = canvas.height.value.num as int;
    LayoutInputs {
        w: if rot {
            ch
        } else {
            cw
        },
        h: if rot {
            cw
        } else {
            ch
        },
        iw: iw,
        ih: ih,
        img: match c.image_size {
            Some(s) => Some(rot_pair(px_pair(s, dpi), rot)),
            None => None,
        },
        frm: match c.framed_size {
            Some(s) => Some(rot_pair(px_pair(s, dpi), rot)),
            None => None,
        },
        pad: match c.padding {
            Some(b) => Some(rot_quad(px_quad(b, dpi), rot)),
            None => None,
        },
        mar: match c.margins {
            Some(b) => Some(rot_quad(px_quad(b, dpi), rot)),
            None => None,
        },
    }
}

/// Swaps the two components when `rot` holds.
pub open spec fn rot_pair(p: (int, int), rot: bool) -> (int, int) {
    if rot {
        (p.1, p.0)
    } else {
        p
    }
}

/// Cycles the four sides one step clockwise when `rot` holds: the left side
/// becomes the top.
pub open spec fn rot_quad(q: (int, int, int, int), rot: bool) -> (int, int, int, int) {
    if rot {
        (q.3, q.0, q.1, q.2)
    } else {
        q
    }
}

/// Validates the constraint arity: exactly one of {image-size, framed-size},
/// exactly one of {padding, margins}, and not framed-size together with
/// margins.
pub fn check_constraints(c: &LayoutConstraints) -> (r: Result<(), PrintFormatError>)
    ensures
        r is Ok <==> c.arity_ok(),
{
    let mut count: u32 = 0;
    if c.image_size.is_some() {
        count = count + 1;
    }
    if c.framed_size.is_some() {
        count = count + 1;
    }
    if c.padding.is_some() {
        count = count + 1;
    }
    if c.margins.is_some() {
        count = count + 1;
    }
    if count != 2 || (c.image_size.is_some() == c.framed_size.is_some()) || (
    c.padding.is_some() == c.margins.is_some()) {
        return Err(
            PrintFormatError(
                "Over- or under-determined print format. Exactly two of the following options must be given: `image-size`, `framed-size`, `padding`, `margins`. The only invalid combination is `framed-size` and `margins`".to_owned(),
            ),
        );
    }
    if c.framed_size.is_some() && c.margins.is_some() {
        return Err(
            PrintFormatError(
                "Invalid combination of print format options. Exactly two of the following options must be given: `image-size`, `framed-size`, `padding`, `margins`. The only invalid combination is `framed-size` and `margins`".to_owned(),
            ),
        );
    }
    Ok(())
}

/// Solves the layout for one photo.
///
/// `canvas` is the print format already converted to pixels; `img_width` and
/// `img_height` are the photo's native pixel dimensions. The solver decides
/// rotation by comparing orientations, converts the given constraints to
/// pixels, resolves the box model, fits the photo preserving its aspect
/// ratio, and returns photo, framed rectangle, padding and margins, all in
/// whole pixels, as modelled by [`layout_model`]. It fails exactly when the
/// constraint arity is invalid.
pub fn solve_layout(
    canvas: &FixSize,
    img_width: u32,
    img_height: u32,
    c: &LayoutConstraints,
    no_rotation: bool,
    dpi: u32,
) -> (r: Result<LayoutResult, PrintFormatError>)
    requires
        canvas.wf(),
        canvas.is_px(),
        1 <= canvas.width.value.num <= MAX_PX,
        1 <= canvas.height.value.num <= MAX_PX,
        1 <= img_width as int <= MAX_PX as int,
        1 <= img_height as int <= MAX_PX as int,
        dpi >= 1,
        c.inputs_ok(dpi as int),
    ensures
        r is Err <==> !c.arity_ok(),
        r is Ok ==> ({
            let m = layout_model(
                *canvas,
                img_width as int,
                img_height as int,
                *c,
                no_rotation,
                dpi as int,
            );
            let res = r->Ok_0;
            &&& res.image.wf() && res.image.is_px()
            &&& res.framed.wf() && res.framed.is_px()
            &&& res.padding.wf() && res.padding.is_px()
            &&& res.margins.wf() && res.margins.is_px()
            &&& res.image.width.value.is_int(m.photo().0)
            &&& res.image.height.value.is_int(m.photo().1)
            &&& res.framed.width.value.is_int(m.framed().0)
            &&& res.framed.height.value.is_int(m.framed().1)
            &&& res.padding.top.value.is_int(m.padding().0)
            &&& res.padding.right.value.is_int(m.padding().1)
            &&& res.padding.bottom.value.is_int(m.padding().2)
            &&& res.padding.left.value.is_int(m.padding().3)
            &&& res.margins.top.value.is_int(m.margins().0)
            &&& res.margins.right.value.is_int(m.margins().1)
            &&& res.margins.bottom.value.is_int(m.margins().2)
            &&& res.margins.left.value.is_int(m.margins().3)
        }),
{
    match check_constraints(c) {
        Ok(_) => {},
        Err(e) => {
            return Err(e);
        },
    }
    let ghost m = layout_model(
        *canvas,
        img_width as int,
        img_height as int,
        *c,
        no_rotation,
        dpi as int,
    );

    let cw: i64 = canvas.width.value.num;
    let ch: i64 = canvas.height.value.num;
    let in_portrait = img_height > img_width;
    let out_portrait = ch > cw;
    let rot = !(no_rotation || in_portrait == out_portrait);
    let w: i64 = if rot { ch } else { cw };
    let h: i64 = if rot { cw } else { ch };
    proof {
        assert(rot == spec_rotate_decision(
            *canvas,
            img_width as int,
            img_height as int,
            no_rotation,
        ));
        assert(m.w == w as int && m.h == h as int);
    }

    let img_px: Option<(i64, i64)> = match &c.image_size {
        Some(s) => {
            let p = s.to_px(dpi);
            let p = if rot {
                p.rotate_90()
            } else {
                p
            };
            Some((p.width.value.num, p.height.value.num))
        },
        None => None,
    };
    let frm_px: Option<(i64, i64)> = match &c.framed_size {
        Some(s) => {
            let p = s.to_px(dpi);
            let p = if rot {
                p.rotate_90()
            } else {
                p
            };
            Some((p.width.value.num, p.height.value.num))
        },
        None => None,
    };
    let pad_px: Option<(i64, i64, i64, i64)> = match &c.padding {
        Some(b) => {
            let q = b.to_px(dpi);
            let q = if rot {
                q.rotate_90()
            } else {
                q
            };
            Some((q.top.value.num, q.right.value.num, q.bottom.value.num, q.left.value.num))
        },
        None => None,
    };
    let mar_px: Option<(i64, i64, i64, i64)> = match &c.margins {
        Some(b) => {
            let q = b.to_px(dpi);
            let q = if rot {
                q.rotate_90()
            } else {
                q
            };
            Some((q.top.value.num, q.right.value.num, q.bottom.value.num, q.left.value.num))
        },
        None => None,
    };
    proof {
        assert(match img_px {
            Some(p) => m.img == Some((p.0 as int, p.1 as int)) && pair_bounded(m.img->0),
            None => m.img is None,
        });
        assert(match frm_px {
            Some(p) => m.frm == Some((p.0 as int, p.1 as int)) && pair_bounded(m.frm->0),
            None => m.frm is None,
        });
        assert(match pad_px {
            Some(q) => m.pad == Some((q.0 as int, q.1 as int, q.2 as int, q.3 as int))
                && quad_bounded(m.pad->0),
            None => m.pad is None,
        });
        assert(match mar_px {
            Some(q) => m.mar == Some((q.0 as int, q.1 as int, q.2 as int, q.3 as int))
                && quad_bounded(m.mar->0),
            None => m.mar is None,
        });
        assert(m.valid_arity());
        assert(m.bounded());
    }
    let res = solve_core(
        w,
        h,
        img_width,
        img_height,
        img_px,
        frm_px,
        pad_px,
        mar_px,
        Ghost(m),
    );
    Ok(res)
}

/// The integer core of the solver, operating on the already-converted,
/// already-rotated pixel model.
#[verifier::rlimit(100)]
fn solve_core(
    w: i64,
    h: i64,
    iw: u32,
    ih: u32,
    img_px: Option<(i64, i64)>,
    frm_px: Option<(i64, i64)>,
    pad_px: Option<(i64, i64, i64, i64)>,
    mar_px: Option<(i64, i64, i64, i64)>,
    Ghost(m): Ghost<LayoutInputs>,
) -> (res: LayoutResult)
    requires
        m.valid_arity(),
        m.bounded(),
        m.w == w as int,
        m.h == h as int,
        m.iw == iw as int,
        m.ih == ih as int,
        match img_px {
            Some(p) => m.img == Some((p.0 as int, p.1 as int)),
            None => m.img is None,
        },
        match frm_px {
            Some(p) => m.frm == Some((p.0 as int, p.1 as int)),
            None => m.frm is None,
        },
        match pad_px {
            Some(q) => m.pad == Some((q.0 as int, q.1 as int, q.2 as int, q.3 as int)),
            None => m.pad is None,
        },
        match mar_px {
            Some(q) => m.mar == Some((q.0 as int, q.1 as int, q.2 as int, q.3 as int)),
            None => m.mar is None,
        },
    ensures
        res.image.wf() && res.image.is_px(),
        res.framed.wf() && res.framed.is_px(),
        res.padding.wf() && res.padding.is_px(),
        res.margins.wf() && res.margins.is_px(),
        res.image.width.value.is_int(m.photo().0),
        res.image.height.value.is_int(m.photo().1),
        res.framed.width.value.is_int(m.framed().0),
        res.framed.height.value.is_int(m.framed().1),
        res.padding.top.value.is_int(m.padding().0),
        res.padding.right.value.is_int(m.padding().1),
        res.padding.bottom.value.is_int(m.padding().2),
        res.padding.left.value.is_int(m.padding().3),
        res.margins.top.value.is_int(m.margins().0),
        res.margins.right.value.is_int(m.margins().1),
        res.margins.bottom.value.is_int(m.margins().2),
        res.margins.left.value.is_int(m.margins().3),
{
    // Maximal photo-plus-padding rectangle.
    let (fmw, fmh): (i64, i64) = match (&frm_px, &mar_px) {
        (Some(p), _) => (p.0, p.1),
        (None, Some(q)) => (w - q.1 - q.3, h - q.0 - q.2),
        (None, None) => {
            let q = pad_px.unwrap();
            let p = img_px.unwrap();
            (p.0 + q.1 + q.3, p.1 + q.0 + q.2)
        },
    };
    proof {
        assert((fmw as int, fmh as int) == m.framed_max());
        assert(-3 * (MAX_PX as int) <= fmw as int <= 3 * (MAX_PX as int));
        assert(-3 * (MAX_PX as int) <= fmh as int <= 3 * (MAX_PX as int));
    }

    // Maximal photo rectangle.
    let (imw, imh): (i64, i64) = match (&frm_px, &pad_px) {
        (Some(p), _) => (p.0, p.1),
        (None, Some(q)) => (fmw - q.1 - q.3, fmh - q.0 - q.2),
        (None, None) => {
            let p = img_px.unwrap();
            (p.0, p.1)
        },
    };
    proof {
        assert((imw as int, imh as int) == m.image_max());
        assert(-5 * (MAX_PX as int) <= imw as int <= 5 * (MAX_PX as int));
        assert(-5 * (MAX_PX as int) <= imh as int <= 5 * (MAX_PX as int));
    }

    // Resolved padding.
    let (pt, pr, pb, pl): (i64, i64, i64, i64) = match &pad_px {
        Some(q) => (q.0, q.1, q.2, q.3),
        None => {
            let hor = half_i64(fmw - imw);
            let ver = half_i64(fmh - imh);
            proof {
                lemma_round_ratio_abs_le((fmw - imw) as int, 2);
                lemma_round_ratio_abs_le((fmh - imh) as int, 2);
            }
            (ver, hor, ver, hor)
        },
    };
    proof {
        assert((pt as int, pr as int, pb as int, pl as int) == m.padding());
        assert(-8 * (MAX_PX as int) <= pt as int <= 8 * (MAX_PX as int));
        assert(-8 * (MAX_PX as int) <= pr as int <= 8 * (MAX_PX as int));
        assert(-8 * (MAX_PX as int) <= pb as int <= 8 * (MAX_PX as int));
        assert(-8 * (MAX_PX as int) <= pl as int <= 8 * (MAX_PX as int));
    }

    // Fit the photo into the maximal photo rectangle, preserving the native
    // aspect ratio.
    let iww: i128 = iw as i128;
    let ihh: i128 = ih as i128;
    proof {
        assert(-5_000_000_000_000_000_000int <= iww * (imh as int) <= 5_000_000_000_000_000_000int
            && -5_000_000_000_000_000_000int <= (imw as int) * ihh
            <= 5_000_000_000_000_000_000int && -5_000_000_000_000_000_000int <= (imh as int) * iww
            <= 5_000_000_000_000_000_000int) by (nonlinear_arith)
            requires
                1 <= iww <= 1_000_000_000i128 && 1 <= ihh <= 1_000_000_000i128
                    && -5_000_000_000int <= imw as int <= 5_000_000_000int && -5_000_000_000int
                    <= imh as int <= 5_000_000_000int;
    }
    let wider = iww * (imh as i128) >= (imw as i128) * ihh;
    proof {
        assert(wider == m.wider());
    }
    let (pw, ph): (i64, i64) = if wider {
        let p: i128 = (imw as i128) * ihh;
        proof {
            assert(-5_000_000_000_000_000_000int <= p <= 5_000_000_000_000_000_000int)
                by (nonlinear_arith)
                requires
                    p == imw as int * ihh && -5_000_000_000i128 <= imw as i128
                        <= 5_000_000_000i128 && 1 <= ihh <= 1_000_000_000i128;
            lemma_round_ratio_abs_le(p as int, iww as int);
        }
        let q = round_div(p, iww);
        (imw, q as i64)
    } else {
        let p: i128 = (imh as i128) * iww;
        proof {
            assert(-5_000_000_000_000_000_000int <= p <= 5_000_000_000_000_000_000int)
                by (nonlinear_arith)
                requires
                    p == imh as int * iww && -5_000_000_000i128 <= imh as i128
                        <= 5_000_000_000i128 && 1 <= iww <= 1_000_000_000i128;
            lemma_round_ratio_abs_le(p as int, ihh as int);
        }
        let q = round_div(p, ihh);
        (q as i64, imh)
    };
    proof {
        assert((pw as int, ph as int) == m.photo());
        assert(-5_000_000_000_000_000_000 <= pw as int <= 5_000_000_000_000_000_000);
        assert(-5_000_000_000_000_000_000 <= ph as int <= 5_000_000_000_000_000_000);
    }

    // Final framed rectangle.
    let frw: i64 = pw + pl + pr;
    let frh: i64 = ph + pt + pb;
    proof {
        assert((frw as int, frh as int) == m.framed());
    }

    // Resolved margins.
    let hor = half_i64(w - frw);
    let ver = half_i64(h - frh);
    proof {
        lemma_round_ratio_abs_le((w - frw) as int, 2);
        lemma_round_ratio_abs_le((h - frh) as int, 2);
    }
    let (mt, mr, mb, ml): (i64, i64, i64, i64) = match &mar_px {
        Some(q) => {
            let dh = half_i64(q.1 - q.3);
            let dv = half_i64(q.0 - q.2);
            proof {
                lemma_round_ratio_abs_le((q.1 - q.3) as int, 2);
                lemma_round_ratio_abs_le((q.0 - q.2) as int, 2);
            }
            (ver + dv, hor + dh, ver - dv, hor - dh)
        },
        None => (ver, hor, ver, hor),
    };
    proof {
        assert((mt as int, mr as int, mb as int, ml as int) == m.margins());
    }

    LayoutResult {
        image: FixSize::px(pw, ph),
        framed: FixSize::px(frw, frh),
        padding: Borders::px(pt, pr, pb, pl),
        margins: Borders::px(mt, mr, mb, ml),
    }
}

/// Box-model consistency: the framed rectangle is exactly the photo plus the
/// resolved padding, and the resolved margins plus the framed rectangle
/// reproduce the canvas on each axis up to one pixel of rounding, exactly
/// when the gap is even.
pub proof fn lemma_box_model(m: LayoutInputs)
    requires
        m.valid_arity(),
    ensures
        m.framed().0 == m.photo().0 + m.padding().3 + m.padding().1,
        m.framed().1 == m.photo().1 + m.padding().0 + m.padding().2,
        abs_int(m.w - (m.margins().3 + m.framed().0 + m.margins().1)) <= 1,
        abs_int(m.h - (m.margins().0 + m.framed().1 + m.margins().2)) <= 1,
        (m.w - m.framed().0) % 2 == 0 ==> m.margins().3 + m.framed().0 + m.margins().1 == m.w,
        (m.h - m.framed().1) % 2 == 0 ==> m.margins().0 + m.framed().1 + m.margins().2 == m.h,
{
    let dw = m.w - m.framed().0;
    let dh = m.h - m.framed().1;
    lemma_round_ratio_err(dw, 2);
    lemma_round_ratio_err(dh, 2);
    assert(m.margins().3 + m.margins().1 == 2 * half_round(dw));
    assert(m.margins().0 + m.margins().2 == 2 * half_round(dh));
    if dw % 2 == 0 {
        lemma_round_ratio_exact(dw, 2, dw / 2);
        assert(2 * (dw / 2) == dw) by {
            vstd::arithmetic::div_mod::lemma_fundamental_div_mod(dw, 2);
        }
    }
    if dh % 2 == 0 {
        lemma_round_ratio_exact(dh, 2, dh / 2);
        assert(2 * (dh / 2) == dh) by {
            vstd::arithmetic::div_mod::lemma_fundamental_div_mod(dh, 2);
        }
    }
}

/// Aspect-preserving fit: the scaled photo fits inside the maximal photo
/// rectangle, touches it on at least one axis, and its aspect ratio matches
/// the native one up to half a pixel of rounding on the scaled axis.
pub proof fn lemma_contain_fit(m: LayoutInputs)
    requires
        1 <= m.iw,
        1 <= m.ih,
        1 <= m.image_max().0,
        1 <= m.image_max().1,
    ensures
        0 <= m.photo().0 <= m.image_max().0,
        0 <= m.photo().1 <= m.image_max().1,
        m.photo().0 == m.image_max().0 || m.photo().1 == m.image_max().1,
        2 * abs_int(m.photo().1 * m.iw - m.photo().0 * m.ih) <= if m.wider() {
            m.iw
        } else {
            m.ih
        },
{
    let mw = m.image_max().0;
    let mh = m.image_max().1;
    if m.wider() {
        let p = mw * m.ih;
        assert(p >= 0) by (nonlinear_arith)
            requires p == mw * m.ih && mw >= 1 && m.ih >= 1;
        lemma_round_ratio_ge(p, m.iw, 0);
        assert(p <= mh * m.iw) by (nonlinear_arith)
            requires m.iw * mh >= mw * m.ih && p == mw * m.ih;
        lemma_round_ratio_le(p, m.iw, mh);
        lemma_round_ratio_err(p, m.iw);
    } else {
        let p = mh * m.iw;
        assert(p >= 0) by (nonlinear_arith)
            requires p == mh * m.iw && mh >= 1 && m.iw >= 1;
        lemma_round_ratio_ge(p, m.ih, 0);
        assert(p <= mw * m.ih) by (nonlinear_arith)
            requires m.iw * mh < mw * m.ih && p == mh * m.iw;
        lemma_round_ratio_le(p, m.ih, mw);
        lemma_round_ratio_err(p, m.ih);
    }
}

} // verus!
