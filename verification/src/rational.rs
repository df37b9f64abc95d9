//! Exact rational arithmetic for length values.
//!
//! A `Rational` is a signed numerator over a positive denominator, kept in
//! lowest terms. Keeping values normalized makes structural equality coincide
//! with equality of the represented numbers.

use vstd::prelude::*;

verus! {

use vstd::arithmetic::div_mod::{
    lemma_fundamental_div_mod,
    lemma_fundamental_div_mod_converse,
    lemma_mod_self_0,
    lemma_small_mod,
    lemma_mod_multiples_basic,
    lemma_mul_mod_noop_right,
    lemma_add_mod_noop,
    lemma_sub_mod_noop,
    lemma_breakdown,
    lemma_div_multiples_vanish,
};
use crate::text::{pow10, repr_scaled, strip_zeros};
use vstd::arithmetic::mul::{lemma_mul_is_commutative, lemma_mul_inequality};

/// Greatest common divisor by Euclid's algorithm; `gcd(0, 0) == 0`.
pub open spec fn gcd(a: nat, b: nat) -> nat
    decreases b,
{
    if b == 0 {
        a
    } else {
        gcd(b, ((a as int) % (b as int)) as nat)
    }
}

/// `d` divides `a`.
pub open spec fn divides(d: nat, a: nat) -> bool {
    d > 0 && (a as int) % (d as int) == 0
}

/// The gcd of two numbers, one of them nonzero, is positive.
proof fn lemma_gcd_pos(a: nat, b: nat)
    requires
        a > 0 || b > 0,
    ensures
        gcd(a, b) > 0,
    decreases b,
{
    if b > 0 {
        if (a as int) % (b as int) == 0 {
            assert(gcd(b, ((a as int) % (b as int)) as nat) == gcd(b, 0));
        }
        lemma_gcd_pos(b, ((a as int) % (b as int)) as nat);
    }
}

/// `gcd(a, 1) == 1`.
proof fn lemma_gcd_one_right(a: nat)
    ensures
        gcd(a, 1) == 1,
{
    lemma_small_mod(0, 1);
    lemma_mod_multiples_basic(a as int, 1);
    assert((a as int) % 1int == 0);
    assert(gcd(a, 1) == gcd(1, 0));
}

/// The gcd divides both of its arguments.
proof fn lemma_gcd_divides(a: nat, b: nat)
    requires
        a > 0 || b > 0,
    ensures
        divides(gcd(a, b), a),
        divides(gcd(a, b), b),
    decreases b,
{
    lemma_gcd_pos(a, b);
    let g = gcd(a, b);
    if b == 0 {
        lemma_mod_self_0(a as int);
        lemma_small_mod(0, a);
    } else {
        let r = ((a as int) % (b as int)) as nat;
        lemma_gcd_divides(b, r);
        // a == (a / b) * b + r, and g divides both b and r, so g divides a.
        lemma_fundamental_div_mod(a as int, b as int);
        let q = a as int / b as int;
        lemma_mul_mod_noop_right(q, b as int, g as int);
        assert((q * (b as int)) % (g as int) == (q * ((b as int) % (g as int))) % (g as int));
        assert(q * 0int == 0) by (nonlinear_arith);
        lemma_small_mod(0, g);
        lemma_add_mod_noop(q * (b as int), r as int, g as int);
        lemma_mul_is_commutative(q, b as int);
        assert(a as int == q * (b as int) + r);
    }
}

/// Any common divisor of `a` and `b` divides their gcd.
proof fn lemma_gcd_greatest(a: nat, b: nat, d: nat)
    requires
        divides(d, a),
        divides(d, b),
    ensures
        gcd(a, b) == 0 || divides(d, gcd(a, b)),
    decreases b,
{
    if b == 0 {
    } else {
        let r = ((a as int) % (b as int)) as nat;
        // r == a - (a / b) * b, and d divides both a and b, so d divides r.
        lemma_fundamental_div_mod(a as int, b as int);
        let q = a as int / b as int;
        lemma_mul_mod_noop_right(q, b as int, d as int);
        assert(q * 0int == 0) by (nonlinear_arith);
        lemma_small_mod(0, d);
        lemma_sub_mod_noop(a as int, q * (b as int), d as int);
        lemma_mul_is_commutative(q, b as int);
        assert(r as int == a as int - q * (b as int));
        lemma_gcd_greatest(b, r, d);
    }
}

/// Scaling both arguments scales the gcd: `gcd(k*a, k*b) == k * gcd(a, b)`.
proof fn lemma_gcd_mul(k: nat, a: nat, b: nat)
    requires
        k > 0,
    ensures
        gcd(k * a, k * b) == k * gcd(a, b),
    decreases b,
{
    if b == 0 {
        assert(k * b == 0) by (nonlinear_arith)
            requires b == 0nat;
    } else {
        assert(k * b > 0) by (nonlinear_arith)
            requires k > 0 && b > 0;
        let r = ((a as int) % (b as int)) as nat;
        let ka = (k * a) as int;
        let ki = k as int;
        let bi = b as int;
        // (k*a) % (k*b) == k * (a % b)
        lemma_breakdown(ka, ki, bi);
        assert(ka % (ki * bi) == ki * ((ka / ki) % bi) + ka % ki);
        lemma_mul_is_commutative(ki, a as int);
        lemma_div_multiples_vanish(a as int, ki);
        assert(ka / ki == a);
        lemma_mod_multiples_basic(a as int, ki);
        assert(ka % ki == 0);
        assert(ki * bi == (k * b) as int) by (nonlinear_arith)
            requires ki == k as int && bi == b as int;
        assert(ki * ((a as int) % bi) == (k * r) as int) by (nonlinear_arith)
            requires ki == k as int && r == (a as int) % bi && r >= 0;
        assert(ka % (((k * b) as nat) as int) == (k * r) as int);
        lemma_gcd_mul(k, b, r);
        assert(gcd(k * a, k * b) == gcd(k * b, k * r));
    }
}

/// Dividing two numbers by their gcd leaves coprime parts that still
/// multiply back to the originals.
proof fn lemma_gcd_reduce(a: nat, b: nat)
    requires
        b > 0,
    ensures
        gcd(a, b) > 0,
        a / gcd(a, b) * gcd(a, b) == a,
        b / gcd(a, b) * gcd(a, b) == b,
        b / gcd(a, b) > 0,
        gcd(a / gcd(a, b), b / gcd(a, b)) == 1,
{
    let g = gcd(a, b);
    lemma_gcd_divides(a, b);
    lemma_fundamental_div_mod(a as int, g as int);
    lemma_fundamental_div_mod(b as int, g as int);
    let x = a / g;
    let y = b / g;
    assert(a == g * x + 0);
    assert(b == g * y + 0);
    assert(x * g == a) by (nonlinear_arith)
        requires a == g * x;
    assert(y * g == b) by (nonlinear_arith)
        requires b == g * y;
    assert(y > 0) by (nonlinear_arith)
        requires b == g * y && b > 0;
    lemma_gcd_mul(g, x, y);
    assert(g * gcd(x, y) == g) by {
        assert(g * x == a && g * y == b) by (nonlinear_arith)
            requires x * g == a && y * g == b;
    }
    assert(gcd(x, y) == 1) by (nonlinear_arith)
        requires g * gcd(x, y) == g && g > 0;
}

/// The gcd is symmetric in its arguments.
proof fn lemma_gcd_sym(a: nat, b: nat)
    ensures
        gcd(a, b) == gcd(b, a),
    decreases a + b,
{
    if a == 0 && b == 0 {
    } else if b == 0 {
        lemma_small_mod(0, a);
        assert(gcd(b, a) == gcd(a, ((b as int) % (a as int)) as nat));
        assert((b as int) % (a as int) == 0);
        assert(gcd(a, 0) == a);
    } else if a == 0 {
        lemma_small_mod(0, b);
        assert(gcd(a, b) == gcd(b, ((a as int) % (b as int)) as nat));
        assert(gcd(b, 0) == b);
    } else if a == b {
        lemma_mod_self_0(a as int);
        assert(gcd(a, b) == gcd(b, 0));
        assert(gcd(b, a) == gcd(a, 0));
    } else if a < b {
        lemma_small_mod(a, b);
        assert(gcd(a, b) == gcd(b, a));
    } else {
        lemma_small_mod(b, a);
        assert(gcd(b, a) == gcd(a, b));
    }
}

/// A positive number that another positive number divides is at least as large.
proof fn lemma_divides_le(d: nat, a: nat)
    requires
        divides(d, a),
        a > 0,
    ensures
        d <= a,
{
    lemma_fundamental_div_mod(a as int, d as int);
    let q = a as int / d as int;
    assert(a as int == d as int * q);
    assert(q > 0) by (nonlinear_arith)
        requires a as int == d as int * q && a > 0 && d > 0;
    lemma_mul_inequality(1, q, d as int);
    lemma_mul_is_commutative(q, d as int);
}

/// Two fractions in lowest terms that denote the same number are identical.
pub proof fn lemma_unique_reduced(an: int, ad: int, bn: int, bd: int)
    requires
        ad >= 1,
        bd >= 1,
        gcd(abs_int(an) as nat, ad as nat) == 1,
        gcd(abs_int(bn) as nat, bd as nat) == 1,
        an * bd == bn * ad,
    ensures
        an == bn,
        ad == bd,
{
    let la: nat = abs_int(an) as nat;
    let lb: nat = abs_int(bn) as nat;
    // Magnitudes cross-multiply equally.
    assert(la * bd == lb * ad) by (nonlinear_arith)
        requires
            an * bd == bn * ad && ad >= 1 && bd >= 1 && la == abs_int(an) && lb == abs_int(bn);
    lemma_divides_both(la, ad as nat, lb, bd as nat);
    lemma_divides_both(lb, bd as nat, la, ad as nat);
    // ad | bd and bd | ad, both positive, hence equal.
    lemma_divides_le(ad as nat, bd as nat);
    lemma_divides_le(bd as nat, ad as nat);
    assert(ad == bd);
    assert(an == bn) by (nonlinear_arith)
        requires an * bd == bn * ad && ad == bd && ad >= 1;
}

/// From `a*d' == b*d` with `gcd(a, d) == 1` conclude that `d` divides `d'`.
proof fn lemma_divides_both(a: nat, d: nat, b: nat, dd: nat)
    requires
        d >= 1,
        dd >= 1,
        gcd(a, d) == 1,
        a * dd == b * d,
    ensures
        divides(d, dd),
{
    // d divides a * dd because a * dd == b * d.
    lemma_mod_multiples_basic(b as int, d as int);
    assert(((b * d) as int) % (d as int) == 0);
    assert(((a * dd) as int) % (d as int) == 0);
    // gcd(a * dd, d * dd) == dd * gcd(a, d) == dd.
    lemma_gcd_mul(dd, a, d);
    assert(gcd(dd * a, dd * d) == dd * 1);
    assert(dd * a == a * dd && dd * d == d * dd && dd * 1 == dd) by (nonlinear_arith);
    lemma_gcd_sym(dd * a, dd * d);
    lemma_gcd_sym(a * dd, d * dd);
    // d divides both a * dd and d * dd, hence divides their gcd, which is dd.
    lemma_mod_multiples_basic(dd as int, d as int);
    lemma_mul_is_commutative(dd as int, d as int);
    assert(((d * dd) as int) % (d as int) == 0);
    lemma_gcd_greatest(a * dd, d * dd, d);
    assert(gcd(a * dd, d * dd) == dd);
    assert(dd > 0);
}

/// Absolute value of a mathematical integer.
pub open spec fn abs_int(x: int) -> int {
    if x >= 0 {
        x
    } else {
        -x
    }
}

/// A signed rational number in lowest terms: `num / den` with `den >= 1`.
#[derive(Debug, Clone, Copy, PartialEq, Eq, Structural)]
pub struct Rational {
    pub num: i64,
    pub den: u64,
}

/// Nearest integer to `p / q` for `q > 0`, ties rounded away from zero.
pub open spec fn round_ratio(p: int, q: int) -> int {
    if p >= 0 {
        (2 * p + q) / (2 * q)
    } else {
        -((2 * (-p) + q) / (2 * q))
    }
}

impl Rational {
    /// Well-formed: positive denominator and fraction in lowest terms.
    pub open spec fn wf(self) -> bool {
        self.den >= 1 && gcd(abs_int(self.num as int) as nat, self.den as nat) == 1
    }

    /// The fractions `self` and `n / d` denote the same number.
    pub open spec fn is_ratio(self, n: int, d: int) -> bool {
        self.num as int * d == n * self.den as int
    }

    /// `self` denotes an integer, namely `num` over a denominator of one.
    pub open spec fn is_int(self, n: int) -> bool {
        self.num == n && self.den == 1
    }

    /// The rational with value `n`.
    pub fn from_int(n: i64) -> (r: Rational)
        ensures
            r.wf(),
            r.is_int(n as int),
    {
        proof {
            lemma_gcd_one_right(abs_int(n as int) as nat);
        }
        Rational { num: n, den: 1 }
    }

    /// The rational `num / den`, brought to lowest terms.
    pub fn new(num: i64, den: u64) -> (r: Rational)
        requires
            den >= 1,
        ensures
            r.wf(),
            r.is_ratio(num as int, den as int),
    {
        let neg = num < 0;
        let mag: u128 = if neg {
            (-(num as i128)) as u128
        } else {
            num as u128
        };
        let (rm, rd) = reduce_frac(mag, den as u128);
        let ghost g: int = gcd(mag as nat, den as nat) as int;
        proof {
            assert(rm as int * g == mag as int && rd as int * g == den as int && g >= 1);
            assert(rm <= mag) by (nonlinear_arith)
                requires rm as int * g == mag as int && g >= 1 && rm >= 0;
            assert(rd <= den) by (nonlinear_arith)
                requires rd as int * g == den as int && g >= 1 && rd >= 0;
        }
        let rnum: i64 = if neg {
            (-(rm as i128)) as i64
        } else {
            rm as i64
        };
        let r = Rational { num: rnum, den: rd as u64 };
        proof {
            assert(abs_int(r.num as int) == rm as int);
            // (sign * rm) * den == (sign * mag) * rd
            assert(rm as int * (den as int) == mag as int * (rd as int)) by (nonlinear_arith)
                requires rm as int * g == mag as int && rd as int * g == den as int;
            if neg {
                assert(r.num as int * (den as int) == (num as int) * (rd as int))
                    by (nonlinear_arith)
                    requires
                        rm as int * (den as int) == mag as int * (rd as int)
                            && r.num as int == -(rm as int) && num as int == -(mag as int);
            }
        }
        r
    }

    /// The exact product `self * (rn / rd)` can be represented after reduction.
    pub open spec fn mul_fits(self, rn: int, rd: int) -> bool {
        let p = abs_int(self.num as int * rn);
        let q = self.den as int * rd;
        let g = gcd(p as nat, q as nat) as int;
        p / g <= i64::MAX as int && q / g <= u64::MAX as int
    }

    /// Multiplies by the ratio `rn / rd`, exactly.
    pub fn mul_ratio(&self, rn: u64, rd: u64) -> (r: Rational)
        requires
            self.wf(),
            1 <= rn <= RATIO_MAX,
            1 <= rd <= RATIO_MAX,
            self.mul_fits(rn as int, rd as int),
        ensures
            r.wf(),
            r.num as int * (self.den as int * rd) == (self.num as int * rn) * r.den,
    {
        let neg = self.num < 0;
        let mag64: u128 = if neg {
            (-(self.num as i128)) as u128
        } else {
            self.num as u128
        };
        let rnw: u128 = rn as u128;
        let rdw: u128 = rd as u128;
        let denw: u128 = self.den as u128;
        proof {
            assert(mag64 * rnw <= 0x8000_0000_0000_0000int * 0x20_0000_0000_0000int && denw
                * rdw <= 0xffff_ffff_ffff_ffffint * 0x20_0000_0000_0000int && denw * rdw >= 1)
                by (nonlinear_arith)
                requires
                    mag64 <= 0x8000_0000_0000_0000u128 && rnw <= 0x20_0000_0000_0000u128 && 1
                        <= denw <= 0xffff_ffff_ffff_ffffu128 && 1 <= rdw
                        <= 0x20_0000_0000_0000u128;
        }
        let p: u128 = mag64 * rnw;
        let q: u128 = denw * rdw;
        proof {
            assert(p == abs_int(self.num as int * rn as int) && q == self.den as int * rd as int
                && (if neg {
                    self.num as int * rn as int == -(p as int)
                } else {
                    self.num as int * rn as int == p as int
                })) by (nonlinear_arith)
                requires
                    p == mag64 * rnw && q == denw * rdw && rnw == rn as int && denw
                        == self.den as int && rdw == rd as int && mag64 == abs_int(
                        self.num as int) && rn >= 1 && rd >= 1 && self.den >= 1 && (neg <==> self.num
                        < 0);
        }
        let (rm, rdn) = reduce_frac(p, q);
        let ghost g: int = gcd(p as nat, q as nat) as int;
        proof {
            lemma_div_exact(rm as int, g, p as int);
            lemma_div_exact(rdn as int, g, q as int);
            assert(rm <= i64::MAX && rdn <= u64::MAX);
        }
        let rnum: i64 = if neg {
            (-(rm as i128)) as i64
        } else {
            rm as i64
        };
        let r = Rational { num: rnum, den: rdn as u64 };
        proof {
            assert(abs_int(r.num as int) == rm as int);
            assert(rm as int * q == p as int * rdn as int) by (nonlinear_arith)
                requires rm as int * g == p as int && rdn as int * g == q as int;
            let sp = self.num as int * rn as int;
            assert(r.num as int * q == sp * (rdn as int)) by (nonlinear_arith)
                requires
                    rm as int * q == p as int * rdn as int && (if neg {
                        r.num as int == -(rm as int) && sp == -(p as int)
                    } else {
                        r.num as int == rm as int && sp == p as int
                    });
        }
        r
    }

    /// Multiplies by the ratio `rn / rd` and rounds to the nearest integer,
    /// ties away from zero.
    pub fn round_mul_ratio(&self, rn: u64, rd: u64) -> (r: i64)
        requires
            self.wf(),
            1 <= rn <= RATIO_MAX,
            1 <= rd <= RATIO_MAX,
            i64::MIN <= round_ratio(self.num as int * rn, self.den as int * rd) <= i64::MAX,
        ensures
            r as int == round_ratio(self.num as int * rn, self.den as int * rd),
    {
        let numw: i128 = self.num as i128;
        let rnw: i128 = rn as i128;
        let rdw: i128 = rd as i128;
        let denw: i128 = self.den as i128;
        proof {
            assert(-(0x8000_0000_0000_0000int * 0x20_0000_0000_0000int) <= numw * rnw
                <= 0x8000_0000_0000_0000int * 0x20_0000_0000_0000int && 0 <= denw * rdw
                <= 0xffff_ffff_ffff_ffffint * 0x20_0000_0000_0000int) by (nonlinear_arith)
                requires
                    -0x8000_0000_0000_0000i128 <= numw <= 0x7fff_ffff_ffff_ffffi128 && 1 <= rnw
                        <= 0x20_0000_0000_0000i128 && 0 <= denw <= 0xffff_ffff_ffff_ffffi128 && 1
                        <= rdw <= 0x20_0000_0000_0000i128;
        }
        let p: i128 = numw * rnw;
        let q: i128 = denw * rdw;
        proof {
            assert(-0x100_0000_0000_0000_0000_0000_0000_0000i128 < p
                < 0x100_0000_0000_0000_0000_0000_0000_0000i128 && 1 <= q
                < 0x100_0000_0000_0000_0000_0000_0000_0000i128) by (nonlinear_arith)
                requires
                    p == self.num as int * rn as int && q == self.den as int * rd as int
                        && -0x8000_0000_0000_0000i128 <= self.num as int
                        <= 0x7fff_ffff_ffff_ffffi128 && 1 <= self.den as int
                        <= 0xffff_ffff_ffff_ffffi128 && 1 <= rn as int <= RATIO_MAX as int && 1
                        <= rd as int <= RATIO_MAX as int;
        }
        let r = round_div(p, q);
        r as i64
    }
}

/// The largest scaling factor the ratio operations accept.
pub const RATIO_MAX: u64 = 0x20_0000_0000_0000;

/// From `x * g == p` with `g >= 1` conclude `x == p / g` and `x <= p`.
proof fn lemma_div_exact(x: int, g: int, p: int)
    requires
        g >= 1,
        x >= 0,
        x * g == p,
    ensures
        x == p / g,
        x <= p,
{
    lemma_div_multiples_vanish(x, g);
    assert(g * x == p) by (nonlinear_arith)
        requires x * g == p;
    assert(x <= p) by (nonlinear_arith)
        requires x * g == p && g >= 1 && x >= 0;
}

/// Divides `a` and `b` (with `b > 0`) by their gcd.
fn reduce_frac(a: u128, b: u128) -> (r: (u128, u128))
    requires
        b >= 1,
    ensures
        gcd(a as nat, b as nat) >= 1,
        r.0 as int * (gcd(a as nat, b as nat) as int) == a as int,
        r.1 as int * (gcd(a as nat, b as nat) as int) == b as int,
        r.1 >= 1,
        gcd(r.0 as nat, r.1 as nat) == 1,
{
    let g = gcd_exec(a, b);
    proof {
        lemma_gcd_reduce(a as nat, b as nat);
        assert(g >= 1);
        assert((a / g) as nat == (a as nat) / (g as nat));
        assert((b / g) as nat == (b as nat) / (g as nat));
    }
    let x = a / g;
    let y = b / g;
    (x, y)
}

/// Euclid's algorithm.
fn gcd_exec(a: u128, b: u128) -> (g: u128)
    ensures
        g as nat == gcd(a as nat, b as nat),
{
    let mut x = a;
    let mut y = b;
    while y != 0
        invariant
            gcd(x as nat, y as nat) == gcd(a as nat, b as nat),
        decreases y,
    {
        let t = x % y;
        x = y;
        y = t;
    }
    x
}

/// Rounding error bound: the rounded value differs from the exact ratio by
/// at most one half, i.e. `|round_ratio(p, q) * q - p| * 2 <= q`.
pub proof fn lemma_round_ratio_err(p: int, q: int)
    requires
        q >= 1,
    ensures
        -q <= 2 * (round_ratio(p, q) * q - p) <= q,
{
    if p >= 0 {
        lemma_round_nonneg_err(p, q);
    } else {
        lemma_round_nonneg_err(-p, q);
        let r = round_ratio(-p, q);
        assert(round_ratio(p, q) == -r);
        assert(-r * q == -(r * q)) by (nonlinear_arith);
    }
}

proof fn lemma_round_nonneg_err(p: int, q: int)
    requires
        q >= 1,
        p >= 0,
    ensures
        -q <= 2 * (round_ratio(p, q) * q - p) <= q,
{
    let r = (2 * p + q) / (2 * q);
    lemma_fundamental_div_mod(2 * p + q, 2 * q);
    let m = (2 * p + q) % (2 * q);
    assert(0 <= m < 2 * q);
    assert(2 * p + q == 2 * q * r + m);
    assert(2 * (r * q - p) == q - m) by (nonlinear_arith)
        requires 2 * p + q == 2 * q * r + m;
}

/// `p <= m * q` implies `round_ratio(p, q) <= m`, and symmetrically from below.
pub proof fn lemma_round_ratio_le(p: int, q: int, m: int)
    requires
        q >= 1,
        p <= m * q,
    ensures
        round_ratio(p, q) <= m,
{
    lemma_round_ratio_err(p, q);
    let r = round_ratio(p, q);
    assert(r <= m) by (nonlinear_arith)
        requires 2 * (r * q - p) <= q && p <= m * q && q >= 1;
}

/// `p >= m * q` implies `round_ratio(p, q) >= m`.
pub proof fn lemma_round_ratio_ge(p: int, q: int, m: int)
    requires
        q >= 1,
        p >= m * q,
    ensures
        round_ratio(p, q) >= m,
{
    lemma_round_ratio_err(p, q);
    let r = round_ratio(p, q);
    assert(r >= m) by (nonlinear_arith)
        requires -q <= 2 * (r * q - p) && p >= m * q && q >= 1;
}

/// The magnitude of a rounded ratio never exceeds the magnitude of the
/// numerator, because the denominator is at least one.
pub proof fn lemma_round_ratio_abs_le(p: int, q: int)
    requires
        q >= 1,
    ensures
        abs_int(round_ratio(p, q)) <= abs_int(p),
{
    lemma_round_ratio_err(p, q);
    let r = round_ratio(p, q);
    if p >= 0 {
        assert(0 <= r <= p) by (nonlinear_arith)
            requires -q <= 2 * (r * q - p) <= q && q >= 1 && p >= 0;
    } else {
        assert(p <= r <= 0) by (nonlinear_arith)
            requires -q <= 2 * (r * q - p) <= q && q >= 1 && p < 0;
    }
}

/// Rounding an exact integer ratio returns that integer.
pub proof fn lemma_round_ratio_exact(p: int, q: int, m: int)
    requires
        q >= 1,
        p == m * q,
    ensures
        round_ratio(p, q) == m,
{
    lemma_round_ratio_le(p, q, m);
    lemma_round_ratio_ge(p, q, m);
}

/// Computes `round_ratio(p, q)`.
pub fn round_div(p: i128, q: i128) -> (r: i128)
    requires
        1 <= q < 0x100_0000_0000_0000_0000_0000_0000_0000i128,
        -0x100_0000_0000_0000_0000_0000_0000_0000i128 < p
            < 0x100_0000_0000_0000_0000_0000_0000_0000i128,
    ensures
        r == round_ratio(p as int, q as int),
{
    if p >= 0 {
        let n = (2 * p + q) as u128;
        let d = (2 * q) as u128;
        let r = n / d;
        proof {
            assert(r < 0x8000_0000_0000_0000_0000_0000_0000_0000u128) by (nonlinear_arith)
                requires
                    r == n / d && n == 2 * p + q && d == 2 * q && q >= 1 && p
                        < 0x100_0000_0000_0000_0000_0000_0000_0000i128;
        }
        r as i128
    } else {
        let n = (2 * (-p) + q) as u128;
        let d = (2 * q) as u128;
        let r = n / d;
        proof {
            assert(r < 0x8000_0000_0000_0000_0000_0000_0000_0000u128) by (nonlinear_arith)
                requires
                    r == n / d && n == 2 * (-p) + q && d == 2 * q && q >= 1 && -p
                        < 0x100_0000_0000_0000_0000_0000_0000_0000i128;
        }
        -(r as i128)
    }
}

pub proof fn lemma_round_scale_nonneg(p: int, q: int, k: int)
    requires
        p >= 0,
        q >= 1,
        k >= 1,
    ensures
        round_ratio(p * k, q * k) == round_ratio(p, q),
{
    let r = (2 * p + q) / (2 * q);
    let m = (2 * p + q) % (2 * q);
    lemma_fundamental_div_mod(2 * p + q, 2 * q);
    assert(2 * (p * k) + q * k == (2 * (q * k)) * r + m * k) by (nonlinear_arith)
        requires 2 * p + q == (2 * q) * r + m;
    assert(0 <= m * k < 2 * (q * k)) by (nonlinear_arith)
        requires 0 <= m < 2 * q && k >= 1;
    lemma_fundamental_div_mod_converse(2 * (p * k) + q * k, 2 * (q * k), r, m * k);
    assert(p * k >= 0) by (nonlinear_arith)
        requires p >= 0 && k >= 1;
}

/// Rounding is invariant under scaling numerator and denominator alike.
pub proof fn lemma_round_scale(p: int, q: int, k: int)
    requires
        q >= 1,
        k >= 1,
    ensures
        round_ratio(p * k, q * k) == round_ratio(p, q),
{
    if p >= 0 {
        lemma_round_scale_nonneg(p, q, k);
    } else {
        lemma_round_scale_nonneg(-p, q, k);
        assert(-(p * k) == (-p) * k && p * k < 0) by (nonlinear_arith)
            requires p < 0 && k >= 1;
    }
}

/// Two ratios that denote the same number round to the same integer.
pub proof fn lemma_round_eq_ratio(p: int, q: int, p2: int, q2: int)
    requires
        q >= 1,
        q2 >= 1,
        p * q2 == p2 * q,
    ensures
        round_ratio(p, q) == round_ratio(p2, q2),
{
    lemma_round_scale(p, q, q2);
    lemma_round_scale(p2, q2, q);
    assert(p * q2 == p2 * q ==> round_ratio(p * q2, q * q2) == round_ratio(p2 * q, q2 * q)) by {
        assert(q * q2 == q2 * q) by (nonlinear_arith);
    }
}


/// Cancellation: from `x * k == y * k` with positive `k` conclude `x == y`.
pub proof fn lemma_mul_cancel(x: int, y: int, k: int)
    requires
        k >= 1,
        x * k == y * k,
    ensures
        x == y,
{
    assert(x == y) by (nonlinear_arith)
        requires k >= 1 && x * k == y * k;
}

/// The denominator of a fraction in lowest terms divides the denominator of
/// any equal fraction.
pub proof fn lemma_reduced_den_divides(r: Rational, n0: int, d0: int)
    requires
        r.wf(),
        d0 >= 1,
        r.is_ratio(n0, d0),
    ensures
        d0 % (r.den as int) == 0,
        r.den as int <= d0,
{
    let a = abs_int(r.num as int) as nat;
    let b = abs_int(n0) as nat;
    assert(a * d0 == b * (r.den as int)) by (nonlinear_arith)
        requires
            r.num as int * d0 == n0 * (r.den as int) && d0 >= 1 && r.den >= 1 && a == abs_int(
                r.num as int) && b == abs_int(n0);
    lemma_divides_both(a, r.den as nat, b, d0 as nat);
    lemma_divides_le(r.den as nat, d0 as nat);
}

/// The smallest exponent `k` at or above `from`, up to 18, for which `d`
/// divides `10^k`; 19 when there is none.
pub open spec fn scale_of_from(d: int, k: int) -> int
    decreases 19 - k,
{
    if k >= 19 {
        19
    } else if pow10(k as nat) % d == 0 {
        k
    } else {
        scale_of_from(d, k + 1)
    }
}

/// The canonical decimal rendering of a rational number.
///
/// A value whose denominator divides a power of ten up to `10^18` renders
/// exactly, with the fewest possible fractional digits. Any other value is
/// rounded to six fractional digits, trailing zeros removed.
pub open spec fn rat_repr(r: Rational) -> Seq<char> {
    let neg = r.num < 0;
    let mag = abs_int(r.num as int);
    let k = scale_of_from(r.den as int, 0);
    if k <= 18 {
        repr_scaled((mag * (pow10(k as nat) / r.den as int)) as nat, k as nat, neg)
    } else {
        let m6 = round_ratio(mag * pow10(6), r.den as int);
        let st = strip_zeros(m6 as nat, 6);
        repr_scaled(st.0, st.1, neg)
    }
}

impl Rational {
    /// Renders this number as a decimal string: exact when the denominator
    /// divides a power of ten, otherwise rounded to six fractional digits.
    pub fn to_decimal_string(&self) -> (out: String)
        requires
            self.wf(),
        ensures
            out@ == rat_repr(*self),
    {
        let neg = self.num < 0;
        let mag: u128 = if neg {
            (-(self.num as i128)) as u128
        } else {
            self.num as u128
        };
        let mut out = String::new();
        let mut k: u32 = 0;
        let mut q: u64 = 0;
        let mut found = false;
        while k < 19 && !found
            invariant
                0 <= k <= 19,
                self.den >= 1,
                scale_of_from(self.den as int, 0) == (if found {
                    k as int
                } else {
                    scale_of_from(self.den as int, k as int)
                }),
                found ==> k <= 18 && q as int == pow10(k as nat) / self.den as int && q as int
                    * self.den as int == pow10(k as nat),
            decreases 19 - k, (if found { 0int } else { 1int }),
        {
            proof {
                crate::text::lemma_pow10_bound(k as nat);
            }
            let p = crate::text::pow10_u64(k);
            if p % self.den == 0 {
                q = p / self.den;
                found = true;
                proof {
                    vstd::arithmetic::div_mod::lemma_fundamental_div_mod(
                        p as int,
                        self.den as int,
                    );
                }
            } else {
                k = k + 1;
            }
        }
        if found {
            proof {
                crate::text::lemma_pow10_bound(k as nat);
                assert(q as int <= 1_000_000_000_000_000_000int) by (nonlinear_arith)
                    requires
                        q as int * self.den as int == pow10(k as nat) && pow10(k as nat)
                            <= 1_000_000_000_000_000_000int && self.den >= 1 && q >= 0;
                assert(mag * (q as u128) <= 0x8000_0000_0000_0000int
                    * 1_000_000_000_000_000_000int) by (nonlinear_arith)
                    requires
                        mag <= 0x8000_0000_0000_0000u128 && 0 <= q as int
                            <= 1_000_000_000_000_000_000int;
                assert(mag as int * (q as int) == abs_int(self.num as int) * (pow10(k as nat)
                    / self.den as int));
            }
            let m: u128 = mag * (q as u128);
            crate::text::push_scaled(m, k, neg, &mut out);
            out
        } else {
            proof {
                assert(mag * 1_000_000 == abs_int(self.num as int) * pow10(6)) by {
                    crate::text::lemma_pow10_16();
                    reveal_with_fuel(crate::text::pow10, 8);
                };
                lemma_round_ratio_ge(mag as int * 1_000_000, self.den as int, 0);
                lemma_round_ratio_abs_le(mag as int * 1_000_000, self.den as int);
            }
            let p6: i128 = (mag as i128) * 1_000_000;
            let m6 = round_div(p6, self.den as i128);
            let mut m: u128 = m6 as u128;
            let mut kk: u32 = 6;
            while kk > 0 && m % 10 == 0
                invariant
                    0 <= kk <= 6,
                    strip_zeros((m6 as u128) as nat, 6) == strip_zeros(m as nat, kk as nat),
                decreases kk,
            {
                m = m / 10;
                kk = kk - 1;
            }
            crate::text::push_scaled(m, kk, neg, &mut out);
            out
        }
    }
}

} // verus!
