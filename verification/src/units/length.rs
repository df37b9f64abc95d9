//! Length units and conversions.
//!
//! A length is an exact rational value tagged with a unit. Conversion between
//! units goes through a common physical base (meters): every unit has a
//! meters-per-unit factor, expressed as a ratio of integers. The pixel factor
//! depends on the resolution in dots per inch, supplied at conversion time.
//! Values converted to pixels are rounded to the nearest integer; all other
//! conversions are exact.

use vstd::prelude::*;

verus! {

use crate::rational::{Rational, round_ratio, abs_int, RATIO_MAX};
use crate::rational::{lemma_round_ratio_abs_le, lemma_round_ratio_exact, lemma_unique_reduced};
use crate::rational::{lemma_round_eq_ratio, rat_repr};
use vstd::string::StringExecFns;

/// Length units.
#[derive(Debug, PartialEq, Eq, Clone, Copy, Structural)]
pub enum LengthUnit {
    /// Pixels.
    Px,
    /// Centimeters.
    Cm,
    /// Millimeters.
    Mm,
    /// Inches.
    Inch,
}

/// One inch is exactly 127 / 5000 meters.
pub const INCH_NUM: u64 = 127;

/// Denominator of the meters-per-inch ratio.
pub const INCH_DEN: u64 = 5000;

impl LengthUnit {
    /// Numerator of the meters-per-unit factor of this unit.
    pub open spec fn factor_num(self, dpi: int) -> int {
        match self {
            LengthUnit::Px => 127,
            LengthUnit::Cm => 1,
            LengthUnit::Mm => 1,
            LengthUnit::Inch => 127,
        }
    }

    /// Denominator of the meters-per-unit factor of this unit. A pixel is
    /// `1 / dpi` inches, so its denominator carries the resolution.
    pub open spec fn factor_den(self, dpi: int) -> int {
        match self {
            LengthUnit::Px => 5000 * dpi,
            LengthUnit::Cm => 100,
            LengthUnit::Mm => 1000,
            LengthUnit::Inch => 5000,
        }
    }

    /// Does this unit require a dpi value for conversion to px?
    pub fn needs_dpi(&self) -> (r: bool)
        ensures
            r == !(*self is Px),
    {
        match self {
            LengthUnit::Px => false,
            _ => true,
        }
    }

    /// The meters-per-unit factor of this unit at the given resolution.
    pub fn metric_factor(&self, dpi: u32) -> (r: Rational)
        requires
            dpi >= 1,
        ensures
            r.wf(),
            r.is_ratio(self.factor_num(dpi as int), self.factor_den(dpi as int)),
    {
        match self {
            LengthUnit::Cm => Rational::new(1, 100),
            LengthUnit::Mm => Rational::new(1, 1000),
            LengthUnit::Inch => Rational::new(127, 5000),
            LengthUnit::Px => Rational::new(127, 5000 * (dpi as u64)),
        }
    }
}

/// Numerator of the exact ratio that converts a value in unit `u` to unit `v`.
pub open spec fn conv_num(u: LengthUnit, v: LengthUnit, dpi: int) -> int {
    u.factor_num(dpi) * v.factor_den(dpi)
}

/// Denominator of the exact ratio that converts a value in unit `u` to unit `v`.
pub open spec fn conv_den(u: LengthUnit, v: LengthUnit, dpi: int) -> int {
    u.factor_den(dpi) * v.factor_num(dpi)
}

/// Computes the conversion ratio from `u` to `v` at resolution `dpi`.
fn conv_ratio(u: LengthUnit, v: LengthUnit, dpi: u32) -> (r: (u64, u64))
    requires
        dpi >= 1,
    ensures
        r.0 == conv_num(u, v, dpi as int),
        r.1 == conv_den(u, v, dpi as int),
        1 <= r.0 <= RATIO_MAX,
        1 <= r.1 <= RATIO_MAX,
{
    let d = dpi as u64;
    let fn_u: u64 = match u {
        LengthUnit::Px => 127,
        LengthUnit::Cm => 1,
        LengthUnit::Mm => 1,
        LengthUnit::Inch => 127,
    };
    let fd_u: u64 = match u {
        LengthUnit::Px => 5000 * d,
        LengthUnit::Cm => 100,
        LengthUnit::Mm => 1000,
        LengthUnit::Inch => 5000,
    };
    let fn_v: u64 = match v {
        LengthUnit::Px => 127,
        LengthUnit::Cm => 1,
        LengthUnit::Mm => 1,
        LengthUnit::Inch => 127,
    };
    let fd_v: u64 = match v {
        LengthUnit::Px => 5000 * d,
        LengthUnit::Cm => 100,
        LengthUnit::Mm => 1000,
        LengthUnit::Inch => 5000,
    };
    proof {
        assert(fd_u <= 5000 * 0xffff_ffffint && fd_v <= 5000 * 0xffff_ffffint);
        assert(fn_u * fd_v <= 127 * (5000 * 0xffff_ffffint) && fn_u * fd_v >= 1 && fd_u * fn_v
            <= 127 * (5000 * 0xffff_ffffint) && fd_u * fn_v >= 1) by (nonlinear_arith)
            requires
                1 <= fn_u <= 127 && 1 <= fn_v <= 127 && 1 <= fd_u <= 5000 * 0xffff_ffffint && 1
                    <= fd_v <= 5000 * 0xffff_ffffint;
    }
    (fn_u * fd_v, fd_u * fn_v)
}

/// A length with unit.
#[derive(Debug, PartialEq, Eq, Clone, Copy, Structural)]
pub struct Length {
    pub value: Rational,
    pub unit: LengthUnit,
}

impl Length {
    /// Well-formed: the value is in lowest terms and pixel lengths are
    /// integral.
    pub open spec fn wf(self) -> bool {
        &&& self.value.wf()
        &&& self.unit is Px ==> self.value.den == 1
    }

    /// The value of this length, as a spec-level field access.
    pub open spec fn spec_value(self) -> Rational {
        self.value
    }

    /// The unit of this length, as a spec-level field access.
    pub open spec fn spec_unit(self) -> LengthUnit {
        self.unit
    }

    /// The length value.
    pub fn value(&self) -> (r: Rational)
        ensures
            r == self.value,
    {
        self.value
    }

    /// The length unit.
    pub fn unit(&self) -> (r: &LengthUnit)
        ensures
            r == self.unit,
    {
        &self.unit
    }

    /// Creates a new length; a pixel value is rounded to the nearest integer.
    pub fn new(value: Rational, unit: LengthUnit) -> (r: Length)
        requires
            value.wf(),
        ensures
            r.wf(),
            r.unit == unit,
            unit is Px ==> r.value.is_int(round_ratio(value.num as int, value.den as int)),
            !(unit is Px) ==> r.value == value,
    {
        match unit {
            LengthUnit::Px => {
                proof {
                    lemma_round_ratio_abs_le(value.num as int, value.den as int);
                }
                let v = value.round_mul_ratio(1, 1);
                proof {
                    assert(value.num as int * 1 == value.num as int);
                    assert(value.den as int * 1 == value.den as int);
                }
                Length { value: Rational::from_int(v), unit }
            },
            _ => Length { value, unit },
        }
    }

    /// Creates a new length in centimeters.
    pub fn cm(value: Rational) -> (r: Length)
        requires
            value.wf(),
        ensures
            r.wf(),
            r.value == value,
            r.unit is Cm,
    {
        Length { value, unit: LengthUnit::Cm }
    }

    /// Creates a new length in millimeters.
    pub fn mm(value: Rational) -> (r: Length)
        requires
            value.wf(),
        ensures
            r.wf(),
            r.value == value,
            r.unit is Mm,
    {
        Length { value, unit: LengthUnit::Mm }
    }

    /// Creates a new length in inches.
    pub fn inch(value: Rational) -> (r: Length)
        requires
            value.wf(),
        ensures
            r.wf(),
            r.value == value,
            r.unit is Inch,
    {
        Length { value, unit: LengthUnit::Inch }
    }

    /// Creates a new length in pixels.
    pub fn px(value: i64) -> (r: Length)
        ensures
            r.wf(),
            r.value.is_int(value as int),
            r.unit is Px,
    {
        Length { value: Rational::from_int(value), unit: LengthUnit::Px }
    }

    /// The exact value of this length in unit `unit`, before any rounding:
    /// the pair (numerator, denominator).
    pub open spec fn conv_exact_num(self, unit: LengthUnit, dpi: int) -> int {
        self.value.num as int * conv_num(self.unit, unit, dpi)
    }

    /// Denominator companion of [`Self::conv_exact_num`].
    pub open spec fn conv_exact_den(self, unit: LengthUnit, dpi: int) -> int {
        self.value.den as int * conv_den(self.unit, unit, dpi)
    }

    /// The value of this length converted to pixels at resolution `dpi` and
    /// rounded to the nearest integer, ties away from zero.
    pub open spec fn px_val(self, dpi: int) -> int {
        if self.unit is Px {
            self.value.num as int
        } else {
            round_ratio(
                self.conv_exact_num(LengthUnit::Px, dpi),
                self.conv_exact_den(LengthUnit::Px, dpi),
            )
        }
    }

    /// The conversion result can be represented: for a pixel target the
    /// rounded value fits an `i64`, otherwise the reduced fraction fits.
    pub open spec fn to_fits(self, unit: LengthUnit, dpi: int) -> bool {
        if unit == self.unit {
            true
        } else if unit is Px {
            i64::MIN <= round_ratio(self.conv_exact_num(unit, dpi), self.conv_exact_den(unit, dpi))
                <= i64::MAX
        } else {
            self.value.mul_fits(conv_num(self.unit, unit, dpi), conv_den(self.unit, unit, dpi))
        }
    }

    /// What [`Self::to`] returns: an identical copy for the unit the length
    /// already has, the rounded pixel count for a pixel target, and the exact
    /// converted rational otherwise.
    pub open spec fn converts_to(self, r: Length, unit: LengthUnit, dpi: int) -> bool {
        &&& r.wf()
        &&& r.unit == unit
        &&& unit == self.unit ==> r == self
        &&& unit != self.unit && unit is Px ==> r.value.is_int(self.px_val(dpi))
        &&& unit != self.unit && !(unit is Px) ==> r.value.num as int * self.conv_exact_den(
            unit,
            dpi,
        ) == self.conv_exact_num(unit, dpi) * r.value.den
    }

    /// Converts this length to another unit.
    ///
    /// A conversion to the unit the length already has returns the length
    /// unchanged, with no precision loss. A conversion to pixels rounds to
    /// the nearest integer. Any other conversion is exact.
    pub fn to(&self, unit: &LengthUnit, dpi: u32) -> (r: Length)
        requires
            self.wf(),
            dpi >= 1,
            self.to_fits(*unit, dpi as int),
        ensures
            self.converts_to(r, *unit, dpi as int),
    {
        if self.unit.eq_unit(unit) {
            *self
        } else {
            let (rn, rd) = conv_ratio(self.unit, *unit, dpi);
            match unit {
                LengthUnit::Px => {
                    let v = self.value.round_mul_ratio(rn, rd);
                    Length { value: Rational::from_int(v), unit: LengthUnit::Px }
                },
                _ => {
                    let v = self.value.mul_ratio(rn, rd);
                    Length { value: v, unit: *unit }
                },
            }
        }
    }

    /// Converts this length to pixels.
    pub fn to_px(&self, dpi: u32) -> (r: Length)
        requires
            self.wf(),
            dpi >= 1,
            self.to_fits(LengthUnit::Px, dpi as int),
        ensures
            r.wf(),
            r.unit is Px,
            r.value.is_int(self.px_val(dpi as int)),
    {
        let r = self.to(&LengthUnit::Px, dpi);
        r
    }

    /// Does this length require a dpi value for conversion to px?
    pub fn needs_dpi(&self) -> (r: bool)
        ensures
            r == !(self.unit is Px),
    {
        self.unit.needs_dpi()
    }
}

impl LengthUnit {
    /// Unit equality test usable from executable code.
    pub fn eq_unit(&self, other: &LengthUnit) -> (r: bool)
        ensures
            r == (self == other),
    {
        match (self, other) {
            (LengthUnit::Px, LengthUnit::Px) => true,
            (LengthUnit::Cm, LengthUnit::Cm) => true,
            (LengthUnit::Mm, LengthUnit::Mm) => true,
            (LengthUnit::Inch, LengthUnit::Inch) => true,
            _ => false,
        }
    }
}

/// Trait to convert numbers to lengths with unit.
pub trait ToLength {
    /// Converts the number to a length in centimeters.
    fn cm(&self) -> (r: Length)
        ensures
            r.wf(),
            r.spec_unit() is Cm,
    ;

    /// Converts the number to a length in millimeters.
    fn mm(&self) -> (r: Length)
        ensures
            r.wf(),
            r.spec_unit() is Mm,
    ;

    /// Converts the number to a length in inches.
    fn inch(&self) -> (r: Length)
        ensures
            r.wf(),
            r.spec_unit() is Inch,
    ;

    /// Converts the number to a length in pixels.
    fn px(&self) -> (r: Length)
        ensures
            r.wf(),
            r.spec_unit() is Px,
    ;
}

impl ToLength for i32 {
    /// An integral number of centimeters.
    fn cm(&self) -> (r: Length)
        ensures
            r.wf(),
            r.spec_unit() is Cm,
            r.spec_value().is_int(*self as int),
    {
        Length::cm(Rational::from_int(*self as i64))
    }

    /// An integral number of millimeters.
    fn mm(&self) -> (r: Length)
        ensures
            r.wf(),
            r.spec_unit() is Mm,
            r.spec_value().is_int(*self as int),
    {
        Length::mm(Rational::from_int(*self as i64))
    }

    /// An integral number of inches.
    fn inch(&self) -> (r: Length)
        ensures
            r.wf(),
            r.spec_unit() is Inch,
            r.spec_value().is_int(*self as int),
    {
        Length::inch(Rational::from_int(*self as i64))
    }

    /// An integral number of pixels.
    fn px(&self) -> (r: Length)
        ensures
            r.wf(),
            r.spec_unit() is Px,
            r.spec_value().is_int(*self as int),
    {
        Length::px(*self as i64)
    }
}

/// Every unit factor is a ratio of two positive integers.
proof fn lemma_factor_pos(u: LengthUnit, dpi: int)
    requires
        dpi >= 1,
    ensures
        1 <= u.factor_num(dpi),
        1 <= u.factor_den(dpi),
{
    assert(5000 * dpi >= 5000) by (nonlinear_arith)
        requires dpi >= 1;
}

/// Conversion is deterministic: two results that both satisfy the conversion
/// contract for the same length, target unit and resolution are identical.
pub proof fn lemma_converts_to_unique(l: Length, r1: Length, r2: Length, u: LengthUnit, dpi: int)
    requires
        l.wf(),
        dpi >= 1,
        l.converts_to(r1, u, dpi),
        l.converts_to(r2, u, dpi),
    ensures
        r1 == r2,
{
    if u == l.unit {
    } else if u is Px {
        assert(r1.value == r2.value);
    } else {
        let nn = l.value.num as int * conv_num(l.unit, u, dpi);
        let qq = l.value.den as int * conv_den(l.unit, u, dpi);
        lemma_factor_pos(l.unit, dpi);
        lemma_factor_pos(u, dpi);
        assert(qq >= 1) by (nonlinear_arith)
            requires
                qq == l.value.den as int * (l.unit.factor_den(dpi) * u.factor_num(dpi))
                    && l.value.den >= 1 && l.unit.factor_den(dpi) >= 1 && u.factor_num(dpi) >= 1;
        lemma_exact_unique(
            r1.value.num as int,
            r1.value.den as int,
            r2.value.num as int,
            r2.value.den as int,
            nn,
            qq,
        );
        assert(r1.value == r2.value);
    }
}

/// Two fractions in lowest terms that satisfy the same exact linear relation
/// `x * Q == N * d` with `Q >= 1` are identical.
proof fn lemma_exact_unique(n1: int, d1: int, n2: int, d2: int, nn: int, qq: int)
    requires
        qq >= 1,
        d1 >= 1,
        d2 >= 1,
        n1 * qq == nn * d1,
        n2 * qq == nn * d2,
        crate::rational::gcd(abs_int(n1) as nat, d1 as nat) == 1,
        crate::rational::gcd(abs_int(n2) as nat, d2 as nat) == 1,
    ensures
        n1 == n2,
        d1 == d2,
{
    assert((n1 * d2) * qq == (n2 * d1) * qq) by (nonlinear_arith)
        requires n1 * qq == nn * d1 && n2 * qq == nn * d2;
    crate::rational::lemma_mul_cancel(n1 * d2, n2 * d1, qq);
    lemma_unique_reduced(n1, d1, n2, d2);
}

/// Round-trip unit conversion: converting a length first to `u1` and then to
/// `u2` gives the very same result as converting directly to `u2`, whenever
/// the intermediate step loses nothing: either `u1` is not the pixel unit,
/// or the length is already a pixel length, or the final target is the pixel
/// unit. (Converting a physical length through pixels to another physical
/// unit rounds once in between and is exact only up to that one pixel.)
pub proof fn lemma_convert_round_trip(
    l: Length,
    m1: Length,
    r1: Length,
    r2: Length,
    u1: LengthUnit,
    u2: LengthUnit,
    dpi: int,
)
    requires
        l.wf(),
        dpi >= 1,
        l.converts_to(m1, u1, dpi),
        m1.converts_to(r1, u2, dpi),
        l.converts_to(r2, u2, dpi),
        !(u1 is Px) || l.unit is Px || u2 is Px,
    ensures
        r1 == r2,
{
    if u1 == l.unit {
        lemma_converts_to_unique(l, r1, r2, u2, dpi);
    } else if u1 is Px {
        // Here the length has a physical unit, so the final target is Px:
        // the second conversion is the identity on the rounded pixel length.
        assert(r1 == m1);
        assert(r1.value == r2.value);
    } else {
        let n = l.value.num as int;
        let d = l.value.den as int;
        let mm = m1.value.num as int;
        let dm = m1.value.den as int;
        let fnl = l.unit.factor_num(dpi);
        let fdl = l.unit.factor_den(dpi);
        let fn1 = u1.factor_num(dpi);
        let fd1 = u1.factor_den(dpi);
        let fn2 = u2.factor_num(dpi);
        let fd2 = u2.factor_den(dpi);
        lemma_factor_pos(l.unit, dpi);
        lemma_factor_pos(u1, dpi);
        lemma_factor_pos(u2, dpi);
        // The first conversion is exact.
        assert(mm * (d * (fdl * fn1)) == (n * (fnl * fd1)) * dm);
        assert(dm >= 1 && d >= 1);
        if u2 == u1 {
            // The intermediate result already is the direct conversion.
            assert(l.converts_to(m1, u2, dpi));
            lemma_converts_to_unique(l, m1, r2, u2, dpi);
            assert(r1 == m1);
        } else if u2 is Px {
            // Both sides round the same exact ratio.
            assert(u2 == LengthUnit::Px);
            let p1 = mm * (fn1 * fd2);
            let q1 = dm * (fd1 * fn2);
            let p2 = n * (fnl * fd2);
            let q2 = d * (fdl * fn2);
            assert(q1 >= 1 && q2 >= 1) by (nonlinear_arith)
                requires
                    q1 == dm * (fd1 * fn2) && q2 == d * (fdl * fn2) && dm >= 1 && d >= 1 && fd1
                        >= 1 && fn2 >= 1 && fdl >= 1;
            let aa = fdl * fn1;
            let bb = fnl * fd1;
            let gg = fd2 * fn2;
            assert((fn1 * fd2) * (fdl * fn2) == aa * gg) by (nonlinear_arith)
                requires aa == fdl * fn1 && gg == fd2 * fn2;
            assert((fnl * fd2) * (fd1 * fn2) == bb * gg) by (nonlinear_arith)
                requires bb == fnl * fd1 && gg == fd2 * fn2;
            assert(p1 * q2 == (mm * d) * (aa * gg)) by (nonlinear_arith)
                requires
                    p1 == mm * (fn1 * fd2) && q2 == d * (fdl * fn2) && (fn1 * fd2) * (fdl * fn2)
                        == aa * gg;
            assert(p2 * q1 == (n * dm) * (bb * gg)) by (nonlinear_arith)
                requires
                    p2 == n * (fnl * fd2) && q1 == dm * (fd1 * fn2) && (fnl * fd2) * (fd1 * fn2)
                        == bb * gg;
            assert((mm * d) * (aa * gg) == (n * dm) * (bb * gg)) by (nonlinear_arith)
                requires mm * (d * aa) == (n * bb) * dm;
            lemma_round_eq_ratio(p1, q1, p2, q2);
            if u2 == l.unit {
                // The length already is a pixel length: the direct conversion
                // is the identity, and the chained one rounds an exact
                // integer ratio.
                assert(d == 1);
                assert(p2 * 1 == n * q2) by (nonlinear_arith)
                    requires
                        p2 == n * (fnl * fd2) && q2 == d * (fdl * fn2) && d == 1 && fnl == fn2
                            && fd2 == fdl;
                lemma_round_eq_ratio(p2, q2, n, 1);
                lemma_round_ratio_exact(n, 1, n);
                assert(r1.value == r2.value);
            } else {
                assert(r1.value == r2.value);
            }
        } else {
            // Chain the two exact relations into the direct one.
            let rn = r1.value.num as int;
            let rd = r1.value.den as int;
            let nn = n * (fnl * fd2);
            let qq = d * (fdl * fn2);
            assert(rn * (dm * (fd1 * fn2)) == (mm * (fn1 * fd2)) * rd);
            // Chain the two exact relations, cancelling the intermediate
            // denominator and the factors of the intermediate unit.
            let x2 = rn * (dm * (fd1 * fn2));
            let y2 = (mm * (fn1 * fd2)) * rd;
            let zz = fdl * fn2;
            let ff = fd1 * fn2;
            assert(zz * fd1 == ff * fdl) by (nonlinear_arith)
                requires zz == fdl * fn2 && ff == fd1 * fn2;
            assert((rn * (d * zz)) * (dm * fd1) == ((rn * d) * dm) * (zz * fd1))
                by (nonlinear_arith);
            assert((rn * (dm * ff)) * (d * fdl) == ((rn * d) * dm) * (ff * fdl))
                by (nonlinear_arith);
            assert((rn * qq) * (dm * fd1) == x2 * (d * fdl));
            let uu = fn1 * fd2;
            let vv = fdl * fn1;
            assert(uu * fdl == vv * fd2) by (nonlinear_arith)
                requires uu == fn1 * fd2 && vv == fdl * fn1;
            assert(((mm * uu) * rd) * (d * fdl) == ((mm * d) * rd) * (uu * fdl))
                by (nonlinear_arith);
            assert((mm * (d * vv)) * (fd2 * rd) == ((mm * d) * rd) * (vv * fd2))
                by (nonlinear_arith);
            assert(y2 * (d * fdl) == (mm * (d * (fdl * fn1))) * (fd2 * rd));
            let w1 = fnl * fd1;
            let w2 = fnl * fd2;
            assert(w1 * fd2 == w2 * fd1) by (nonlinear_arith)
                requires w1 == fnl * fd1 && w2 == fnl * fd2;
            assert(((n * w1) * dm) * (fd2 * rd) == ((n * dm) * rd) * (w1 * fd2))
                by (nonlinear_arith);
            assert(((n * w2) * rd) * (dm * fd1) == ((n * dm) * rd) * (w2 * fd1))
                by (nonlinear_arith);
            assert(((n * (fnl * fd1)) * dm) * (fd2 * rd) == (nn * rd) * (dm * fd1));
            assert((rn * qq) * (dm * fd1) == (nn * rd) * (dm * fd1));
            assert(dm * fd1 >= 1) by (nonlinear_arith)
                requires dm >= 1 && fd1 >= 1;
            crate::rational::lemma_mul_cancel(rn * qq, nn * rd, dm * fd1);
            assert(qq >= 1) by (nonlinear_arith)
                requires qq == d * (fdl * fn2) && d >= 1 && fdl >= 1 && fn2 >= 1;
            // The direct conversion result satisfies the same relation.
            let sn = r2.value.num as int;
            let sd = r2.value.den as int;
            if u2 == l.unit {
                assert(r2 == l);
                assert(sn * qq == nn * sd) by (nonlinear_arith)
                    requires
                        sn == n && sd == d && nn == n * (fnl * fd2) && qq == d * (fdl * fn2)
                            && fnl == fn2 && fdl == fd2;
            } else {
                assert(sn * qq == nn * sd);
            }
            lemma_exact_unique(rn, rd, sn, sd, nn, qq);
            assert(r1.value == r2.value);
        }
    }
}

/// The two-letter name of a unit, as characters.
pub open spec fn unit_chars(u: LengthUnit) -> Seq<char> {
    match u {
        LengthUnit::Px => seq!['p', 'x'],
        LengthUnit::Cm => seq!['c', 'm'],
        LengthUnit::Mm => seq!['m', 'm'],
        LengthUnit::Inch => seq!['i', 'n'],
    }
}

/// The rendering of a length: its decimal value followed by its unit name.
pub open spec fn length_repr(l: Length) -> Seq<char> {
    rat_repr(l.value) + unit_chars(l.unit)
}

impl LengthUnit {
    /// The unit's two-letter name.
    pub fn unit_str(&self) -> (r: &'static str)
        ensures
            r@ == unit_chars(*self),
    {
        match self {
            LengthUnit::Px => {
                proof {
                    reveal_strlit("px");
                    assert("px"@ =~= unit_chars(LengthUnit::Px));
                }
                "px"
            },
            LengthUnit::Cm => {
                proof {
                    reveal_strlit("cm");
                    assert("cm"@ =~= unit_chars(LengthUnit::Cm));
                }
                "cm"
            },
            LengthUnit::Mm => {
                proof {
                    reveal_strlit("mm");
                    assert("mm"@ =~= unit_chars(LengthUnit::Mm));
                }
                "mm"
            },
            LengthUnit::Inch => {
                proof {
                    reveal_strlit("in");
                    assert("in"@ =~= unit_chars(LengthUnit::Inch));
                }
                "in"
            },
        }
    }
}

impl Length {
    /// Renders this length, value first, unit name last: `5cm`, `1024px`.
    pub fn to_string(&self) -> (r: String)
        requires
            self.wf(),
        ensures
            r@ == length_repr(*self),
    {
        let mut out = self.value.to_decimal_string();
        out.append(self.unit.unit_str());
        out
    }
}

/// Round-trip conversion through the pixel unit: converting a physical
/// length to pixels and then to another physical unit differs from the
/// direct conversion by at most half of one pixel, the rounding applied in
/// between. With `S` the pixel density factor and `C` the pixel size
/// factor of the target unit, the difference of the two results `r1` and
/// `r2` satisfies `2 * |r1 - r2| <= (127 * fd2) / (5000 * dpi * fn2)`,
/// written below with both sides cross-multiplied.
pub proof fn lemma_convert_round_trip_px(
    l: Length,
    m1: Length,
    r1: Length,
    r2: Length,
    u2: LengthUnit,
    dpi: int,
)
    requires
        l.wf(),
        dpi >= 1,
        !(l.unit is Px),
        !(u2 is Px),
        l.converts_to(m1, LengthUnit::Px, dpi),
        m1.converts_to(r1, u2, dpi),
        l.converts_to(r2, u2, dpi),
    ensures
        r1.unit == u2,
        r2.unit == u2,
        2 * abs_int(
            r1.value.num as int * r2.value.den - r2.value.num as int * r1.value.den,
        ) * ((5000 * dpi) * u2.factor_num(dpi)) <= (127 * u2.factor_den(dpi)) * (
        r1.value.den as int * r2.value.den as int),
{
    let n = l.value.num as int;
    let d = l.value.den as int;
    let fnl = l.unit.factor_num(dpi);
    let fdl = l.unit.factor_den(dpi);
    let fn2 = u2.factor_num(dpi);
    let fd2 = u2.factor_den(dpi);
    lemma_factor_pos(l.unit, dpi);
    lemma_factor_pos(u2, dpi);
    lemma_factor_pos(LengthUnit::Px, dpi);
    let mm = m1.value.num as int;
    assert(m1.value.den == 1 && m1.unit is Px);
    // The intermediate pixel value rounds the exact ratio.
    let a = fnl * (5000 * dpi);
    let b = fdl * 127;
    let kk = d * b;
    assert(b >= 1 && kk >= 1) by (nonlinear_arith)
        requires b == fdl * 127 && fdl >= 1 && kk == d * b && d >= 1;
    assert(mm == round_ratio(n * a, kk));
    crate::rational::lemma_round_ratio_err(n * a, kk);
    let e = 2 * (mm * kk - n * a);
    assert(-kk <= e <= kk);
    let rn1 = r1.value.num as int;
    let rd1 = r1.value.den as int;
    let rn2 = r2.value.num as int;
    let rd2 = r2.value.den as int;
    let ss = (5000 * dpi) * fn2;
    let pp = 127 * fd2;
    // The second conversion is exact: R1 * S == (mm * P) * D1.
    assert(rn1 * (1 * ((5000 * dpi) * fn2)) == (mm * (127 * fd2)) * rd1);
    let ww = (mm * pp) * rd1;
    assert(rn1 * ss == ww) by (nonlinear_arith)
        requires
            rn1 * (1 * ((5000 * dpi) * fn2)) == (mm * (127 * fd2)) * rd1 && ss == (5000 * dpi)
                * fn2 && pp == 127 * fd2 && ww == (mm * pp) * rd1;
    // The direct conversion is exact as well: R2 * (d * F) == (n * E) * D2.
    let ff = fdl * fn2;
    let ee2 = fnl * fd2;
    let qq = d * ff;
    if u2 == l.unit {
        assert(r2 == l);
        assert(rn2 * qq == (n * ee2) * rd2) by (nonlinear_arith)
            requires
                rn2 == n && rd2 == d && qq == d * ff && ff == fdl * fn2 && ee2 == fnl * fd2 && fnl
                    == fn2 && fdl == fd2;
    } else {
        assert(rn2 * (d * (fdl * fn2)) == (n * (fnl * fd2)) * rd2);
        assert(rn2 * qq == (n * ee2) * rd2) by (nonlinear_arith)
            requires
                rn2 * (d * (fdl * fn2)) == (n * (fnl * fd2)) * rd2 && qq == d * (fdl * fn2) && ee2
                    == fnl * fd2;
    }
    let vv = (n * ee2) * rd2;
    // Link identities among the factor products.
    let gg = 127 * (5000 * dpi);
    assert(kk * ss == qq * gg) by (nonlinear_arith)
        requires
            kk == d * (fdl * 127) && ss == (5000 * dpi) * fn2 && qq == d * (fdl * fn2) && gg == 127
                * (5000 * dpi);
    assert(ee2 * gg == a * pp) by (nonlinear_arith)
        requires ee2 == fnl * fd2 && gg == 127 * (5000 * dpi) && a == fnl * (5000 * dpi) && pp == 127 * fd2;
    // Chain both exact relations against the rounding error.
    let aa = 2 * (rn1 * rd2 - rn2 * rd1);
    assert(aa * (kk * ss) == 2 * ((rn1 * rd2) * (kk * ss)) - 2 * ((rn2 * rd1) * (kk * ss)))
        by (nonlinear_arith)
        requires aa == 2 * (rn1 * rd2 - rn2 * rd1);
    assert((rn1 * rd2) * (kk * ss) == ww * (rd2 * kk)) by (nonlinear_arith)
        requires rn1 * ss == ww;
    assert((rn2 * rd1) * (kk * ss) == (rn2 * qq) * (rd1 * gg)) by (nonlinear_arith)
        requires kk * ss == qq * gg;
    assert((rn2 * qq) * (rd1 * gg) == vv * (rd1 * gg)) by (nonlinear_arith)
        requires rn2 * qq == vv;
    let cc = pp * (rd1 * rd2);
    assert(ww * (rd2 * kk) == cc * (mm * kk)) by (nonlinear_arith)
        requires ww == (mm * pp) * rd1 && cc == pp * (rd1 * rd2);
    assert(vv * (rd1 * gg) == ((n * rd2) * rd1) * (ee2 * gg)) by (nonlinear_arith)
        requires vv == (n * ee2) * rd2;
    assert(((n * rd2) * rd1) * (ee2 * gg) == ((n * rd2) * rd1) * (a * pp));
    assert(((n * rd2) * rd1) * (a * pp) == cc * (n * a)) by (nonlinear_arith)
        requires cc == pp * (rd1 * rd2);
    assert(aa * (kk * ss) == 2 * (cc * (mm * kk)) - 2 * (cc * (n * a)));
    assert(2 * (cc * (mm * kk)) - 2 * (cc * (n * a)) == cc * e) by (nonlinear_arith)
        requires e == 2 * (mm * kk - n * a);
    assert(aa * (kk * ss) == cc * e);
    // Take magnitudes and cancel the shared positive factors.
    assert(ss >= 1 && pp >= 1 && cc >= 1) by (nonlinear_arith)
        requires
            ss == (5000 * dpi) * fn2 && dpi >= 1 && fn2 >= 1 && pp == 127 * fd2 && fd2 >= 1 && cc
                == pp * (rd1 * rd2) && rd1 >= 1 && rd2 >= 1;
    assert(abs_int(aa) * (kk * ss) == cc * abs_int(e)) by (nonlinear_arith)
        requires aa * (kk * ss) == cc * e && cc >= 1 && kk >= 1 && ss >= 1;
    assert(cc * abs_int(e) <= cc * kk) by (nonlinear_arith)
        requires abs_int(e) <= kk && cc >= 1;
    assert(abs_int(aa) * ss <= cc) by (nonlinear_arith)
        requires abs_int(aa) * (kk * ss) <= cc * kk && kk >= 1 && ss >= 1 && abs_int(aa) >= 0;
    assert(2 * abs_int(rn1 * rd2 - rn2 * rd1) == abs_int(aa)) by (nonlinear_arith)
        requires aa == 2 * (rn1 * rd2 - rn2 * rd1);
    assert(2 * abs_int(rn1 * rd2 - rn2 * rd1) * ((5000 * dpi) * fn2) <= (127 * fd2) * (rd1 * rd2))
        by (nonlinear_arith)
        requires
            abs_int(aa) * ss <= cc && 2 * abs_int(rn1 * rd2 - rn2 * rd1) == abs_int(aa) && ss == (
            5000 * dpi) * fn2 && cc == pp * (rd1 * rd2) && pp == 127 * fd2;
}

/// Identity conversion: converting a length to the unit it already has
/// returns the very same length, for any resolution.
pub proof fn lemma_convert_identity(l: Length, r: Length, dpi: int)
    requires
        l.wf(),
        dpi >= 1,
        l.converts_to(r, l.unit, dpi),
    ensures
        r == l,
{
}

} // verus!
