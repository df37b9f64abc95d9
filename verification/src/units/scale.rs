//! Relative scaling: modes and width/height multipliers.

use vstd::prelude::*;

verus! {

use crate::rational::{Rational, round_ratio, abs_int, round_div, lemma_round_ratio_abs_le};
use crate::units::length::LengthUnit;
use crate::units::size::Size;
use crate::OperationParametersError;

/// Scaling modes.
#[derive(Debug, PartialEq, Eq, Clone, Copy, Structural)]
pub enum ScaleMode {
    /// Keeps the original aspect ratio.
    /// The resulting image may be smaller than given by scale/size in one
    /// dimension.
    Keep,
    /// Keeps the original aspect ratio.
    /// The resulting image has exactly the given size, but additional space
    /// is filled uniformly.
    Fill,
    /// Keeps the original aspect ratio.
    /// The resulting image has exactly the given size, but surplus image
    /// space is cropped.
    Crop,
    /// Aspect ratio is changed.
    /// The resulting image has exactly the given size, and the image is
    /// stretched.
    Stretch,
}

/// Relative scaling parameters: a positive multiplier per axis.
#[derive(Debug, PartialEq, Eq, Clone, Copy, Structural)]
pub struct Scale {
    pub width: Rational,
    pub height: Rational,
}

impl Scale {
    /// Well-formed: both multipliers are fractions in lowest terms.
    pub open spec fn wf(self) -> bool {
        self.width.wf() && self.height.wf()
    }

    /// Width multiplier of this scaling.
    pub fn width(&self) -> (r: Rational)
        ensures
            r == self.width,
    {
        self.width
    }

    /// Height multiplier of this scaling.
    pub fn height(&self) -> (r: Rational)
        ensures
            r == self.height,
    {
        self.height
    }
}

/// An integer clamped to the range of `u32`.
pub open spec fn clamp_u32(v: int) -> int {
    if v < 0 {
        0
    } else if v > 0xffff_ffff {
        0xffff_ffff
    } else {
        v
    }
}

/// Clamps a pixel count to the `u32` range.
fn clamp_u32_exec(v: i64) -> (r: u32)
    ensures
        r == clamp_u32(v as int),
{
    if v < 0 {
        0
    } else if v > 0xffff_ffff {
        0xffff_ffff
    } else {
        v as u32
    }
}

/// The target width and height in pixels that a scale operation resolves
/// to, together with the effective scaling mode.
///
/// Exactly one of `size` and `scale` must be given. An absolute size may
/// leave one dimension open; it is inferred from the photo's aspect ratio,
/// and the mode then falls back to `Keep`. A relative scale multiplies each
/// photo dimension. All results are rounded to the nearest pixel and clamped
/// to the range of `u32`.
pub fn resolve_scale_size(
    size: &Option<Size>,
    scale: &Option<Scale>,
    img_width: u32,
    img_height: u32,
    mode: ScaleMode,
    dpi: u32,
) -> (r: Result<(u32, u32, ScaleMode), OperationParametersError>)
    requires
        dpi >= 1,
        img_width >= 1,
        img_height >= 1,
        size is Some ==> scale_size_ok(size->0, dpi as int),
        scale is Some ==> scale->0.wf(),
    ensures
        r is Err <==> (size is Some) == (scale is Some),
        r is Ok && size is Some ==> resolved_from_size(
            size->0,
            img_width as int,
            img_height as int,
            mode,
            dpi as int,
            r->Ok_0,
        ),
        r is Ok && scale is Some ==> resolved_from_scale(
            scale->0,
            img_width as int,
            img_height as int,
            mode,
            r->Ok_0,
        ),
{
    let both_or_neither = size.is_some() == scale.is_some();
    if both_or_neither {
        return Err(
            OperationParametersError(
                "Exactly one of `--size` and `--scale` must be given!".to_owned(),
            ),
        );
    }
    if let Some(sz) = size {
        let px = sz.to(&LengthUnit::Px, dpi);
        let (w, any_w) = match &px.width {
            Some(l) => (clamp_u32_exec(l.value.num), false),
            None => {
                let h = match &px.height {
                    Some(l) => l.value.num,
                    None => 0,
                };
                proof {
                    assert(-5_000_000_000_000_000_000int <= (h as int) * (img_width as int)
                        <= 5_000_000_000_000_000_000int) by (nonlinear_arith)
                        requires
                            -1_000_000_000i64 <= h <= 1_000_000_000i64 && 1 <= img_width as int
                                <= 0x1_0000_0000int;
                }
                let p: i128 = (h as i128) * (img_width as i128);
                proof {
                    lemma_round_ratio_abs_le(p as int, img_height as int);
                }
                let v = round_div(p, img_height as i128);
                (clamp_u32_exec(v as i64), true)
            },
        };
        let (h, any_h) = match &px.height {
            Some(l) => (clamp_u32_exec(l.value.num), false),
            None => {
                let w0 = match &px.width {
                    Some(l) => l.value.num,
                    None => 0,
                };
                proof {
                    assert(-5_000_000_000_000_000_000int <= (w0 as int) * (img_height as int)
                        <= 5_000_000_000_000_000_000int) by (nonlinear_arith)
                        requires
                            -1_000_000_000i64 <= w0 <= 1_000_000_000i64 && 1 <= img_height as int
                                <= 0x1_0000_0000int;
                }
                let p: i128 = (w0 as i128) * (img_height as i128);
                proof {
                    lemma_round_ratio_abs_le(p as int, img_width as int);
                }
                let v = round_div(p, img_width as i128);
                (clamp_u32_exec(v as i64), true)
            },
        };
        let eff = if any_w || any_h {
            ScaleMode::Keep
        } else {
            mode
        };
        Ok((w, h, eff))
    } else {
        let sc = match scale {
            Some(sc) => *sc,
            None => {
                return Err(
                    OperationParametersError(
                        "Exactly one of `--size` and `--scale` must be given!".to_owned(),
                    ),
                );
            },
        };
        proof {
            assert(-0x8000_0000_0000_0000_0000_0000int <= (img_width as int) * (
            sc.width.num as int) <= 0x8000_0000_0000_0000_0000_0000int
                && -0x8000_0000_0000_0000_0000_0000int <= (img_height as int) * (
            sc.height.num as int) <= 0x8000_0000_0000_0000_0000_0000int) by (nonlinear_arith)
                requires
                    1 <= img_width as i128 <= 0x1_0000_0000i128 && 1
                        <= img_height as i128 <= 0x1_0000_0000i128
                        && -0x8000_0000_0000_0000i128 <= sc.width.num as i128
                        <= 0x8000_0000_0000_0000i128 && -0x8000_0000_0000_0000i128
                        <= sc.height.num as i128 <= 0x8000_0000_0000_0000i128;
        }
        let pw: i128 = (img_width as i128) * (sc.width.num as i128);
        let ph: i128 = (img_height as i128) * (sc.height.num as i128);
        proof {
            lemma_round_ratio_abs_le(pw as int, sc.width.den as int);
            lemma_round_ratio_abs_le(ph as int, sc.height.den as int);
        }
        let w = round_div(pw, sc.width.den as i128);
        let h = round_div(ph, sc.height.den as i128);
        let w32 = if w < 0 {
            0
        } else if w > 0xffff_ffff {
            0xffff_ffffu32
        } else {
            w as u32
        };
        let h32 = if h < 0 {
            0
        } else if h > 0xffff_ffff {
            0xffff_ffffu32
        } else {
            h as u32
        };
        Ok((w32, h32, mode))
    }
}

/// The size constraint is well-formed, convertible to pixels, and within a
/// billion pixels per present dimension.
pub open spec fn scale_size_ok(z: Size, dpi: int) -> bool {
    &&& z.wf()
    &&& z.to_fits(LengthUnit::Px, dpi)
    &&& z.width is Some ==> abs_int(z.width->0.px_val(dpi)) <= 1_000_000_000
    &&& z.height is Some ==> abs_int(z.height->0.px_val(dpi)) <= 1_000_000_000
}

/// What resolving an absolute size yields: present dimensions are their
/// pixel values; a missing one is inferred from the photo's aspect ratio;
/// the mode falls back to `Keep` when anything was inferred.
pub open spec fn resolved_from_size(
    z: Size,
    iw: int,
    ih: int,
    mode: ScaleMode,
    dpi: int,
    r: (u32, u32, ScaleMode),
) -> bool {
    let wv = if z.width is Some {
        clamp_u32(z.width->0.px_val(dpi))
    } else {
        clamp_u32(round_ratio(z.height->0.px_val(dpi) * iw, ih))
    };
    let hv = if z.height is Some {
        clamp_u32(z.height->0.px_val(dpi))
    } else {
        clamp_u32(round_ratio(z.width->0.px_val(dpi) * ih, iw))
    };
    &&& r.0 == wv
    &&& r.1 == hv
    &&& r.2 == (if z.width is None || z.height is None {
        ScaleMode::Keep
    } else {
        mode
    })
}

/// What resolving a relative scale yields: each photo dimension multiplied
/// by its factor, rounded to the nearest pixel and clamped.
pub open spec fn resolved_from_scale(
    sc: Scale,
    iw: int,
    ih: int,
    mode: ScaleMode,
    r: (u32, u32, ScaleMode),
) -> bool {
    &&& r.0 == clamp_u32(round_ratio(iw * sc.width.num, sc.width.den as int))
    &&& r.1 == clamp_u32(round_ratio(ih * sc.height.num, sc.height.den as int))
    &&& r.2 == mode
}

} // verus!
