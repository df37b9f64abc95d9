//! String grammars for the geometric value types.
//!
//! A numeric literal is an optional sign, decimal digits, and at most one
//! decimal point, with at least one digit and at most 18 digits in all. A
//! length is a numeric literal with an optional unit suffix (`px`, `cm`,
//! `mm`, `in`); without a suffix the unit is pixels. Sizes, borders and
//! scales are slash-separated lists of such fields.

use vstd::prelude::*;

verus! {

use vstd::string::StrSliceExecFns;
use crate::{ParseEnumError, ParseStructError};
use crate::rational::{Rational, round_ratio, lemma_round_eq_ratio};
use crate::text::split_char;
use crate::units::length::{Length, LengthUnit};
use crate::units::size::{Size, FixSize};
use crate::units::border::Borders;
use crate::units::scale::{Scale, ScaleMode};
use crate::rational::{lemma_reduced_den_divides, lemma_mul_cancel};
use crate::text::{find_char_str, str_eq, lemma_pow10_le, lemma_pow10_16, lemma_pow10_pos};
use crate::text::{contains_seq, error_msg, lemma_contains_extend};
use vstd::string::StringExecFns;
use crate::text::{is_digit, digit_val, digits_val, pow10, pow10_u64, find_idx, spec_split};
use crate::text::{lemma_digits_val_push, lemma_find_idx, lemma_pow10_bound};

/// The sequence without its leading sign character, if any.
pub open spec fn strip_sign(s: Seq<char>) -> Seq<char> {
    if s.len() > 0 && (s[0] == '-' || s[0] == '+') {
        s.subrange(1, s.len() as int)
    } else {
        s
    }
}

/// The literal denotes a negative number.
pub open spec fn number_neg(s: Seq<char>) -> bool {
    s.len() > 0 && s[0] == '-'
}

/// The unsigned body of a numeric literal: nonempty, only digits and at most
/// one decimal point, and at least one digit.
pub open spec fn body_ok(t: Seq<char>) -> bool {
    &&& t.len() > 0
    &&& forall|i: int| 0 <= i < t.len() ==> is_digit(#[trigger] t[i]) || t[i] == '.'
    &&& forall|i: int, j: int|
        0 <= i < j < t.len() && #[trigger] t[i] == '.' ==> #[trigger] t[j] != '.'
    &&& exists|i: int| 0 <= i < t.len() && is_digit(#[trigger] t[i])
}

/// The digits of the literal body, with the decimal point removed.
pub open spec fn mant_digits(t: Seq<char>) -> Seq<char> {
    let k = find_idx(t, '.');
    if k < t.len() {
        t.subrange(0, k) + t.subrange(k + 1, t.len() as int)
    } else {
        t
    }
}

/// The number of digits after the decimal point.
pub open spec fn frac_len(t: Seq<char>) -> int {
    let k = find_idx(t, '.');
    if k < t.len() {
        t.len() - k - 1
    } else {
        0
    }
}

/// A valid numeric literal: optional sign, then a valid body of at most 18
/// digits.
pub open spec fn number_ok(s: Seq<char>) -> bool {
    body_ok(strip_sign(s)) && mant_digits(strip_sign(s)).len() <= 18
}

/// The exact value of a numeric literal, as a fraction: the numerator...
pub open spec fn number_num(s: Seq<char>) -> int {
    if number_neg(s) {
        -digits_val(mant_digits(strip_sign(s)))
    } else {
        digits_val(mant_digits(strip_sign(s)))
    }
}

/// ... and the denominator, ten to the number of fractional digits.
pub open spec fn number_den(s: Seq<char>) -> int {
    pow10(frac_len(strip_sign(s)) as nat)
}

/// Parses a numeric literal into an exact rational number.
///
/// Returns an error exactly when the literal is malformed or holds more than
/// 18 digits.
pub fn parse_number(s: &str) -> (r: Result<Rational, ParseStructError>)
    ensures
        r is Ok <==> number_ok(s@),
        r is Ok ==> r->Ok_0.wf() && r->Ok_0.is_ratio(number_num(s@), number_den(s@)),
        r is Err ==> contains_seq(r->Err_0.0@, s@),
{
    let len = s.unicode_len();
    let mut start: usize = 0;
    let mut neg = false;
    if len > 0 {
        let c0 = s.get_char(0);
        if c0 == '-' {
            neg = true;
            start = 1;
        } else if c0 == '+' {
            start = 1;
        }
    }
    let ghost u = strip_sign(s@);
    proof {
        assert(u =~= s@.subrange(start as int, len as int));
    }
    let mut mant: u64 = 0;
    let mut digits: u32 = 0;
    let mut flen: u32 = 0;
    let mut seen_dot = false;
    let ghost mut dpos: int = 0;
    let ghost mut dseq: Seq<char> = Seq::empty();
    let mut j: usize = start;
    while j < len
        invariant
            start <= j <= len,
            len == s@.len(),
            u == strip_sign(s@),
            neg == number_neg(s@),
            u == s@.subrange(start as int, len as int),
            u.len() == len - start,
            forall|k: int| 0 <= k < j - start ==> is_digit(#[trigger] u[k]) || u[k] == '.',
            seen_dot ==> 0 <= dpos < j - start && u[dpos] == '.',
            forall|k: int| 0 <= k < j - start && u[k] == '.' ==> seen_dot && k == dpos,
            dseq == (if seen_dot {
                u.subrange(0, dpos) + u.subrange(dpos + 1, j - start)
            } else {
                u.subrange(0, j - start)
            }),
            forall|k: int| 0 <= k < dseq.len() ==> is_digit(#[trigger] dseq[k]),
            digits == dseq.len() <= 18,
            mant == digits_val(dseq),
            mant < pow10(digits as nat),
            flen == (if seen_dot {
                j - start - dpos - 1
            } else {
                0
            }),
            flen <= digits,
            digits > 0 ==> exists|k: int| 0 <= k < j - start && is_digit(#[trigger] u[k]),
        decreases len - j,
    {
        let c = s.get_char(j);
        if c == '.' {
            if seen_dot {
                proof {
                    assert(u[dpos] == '.' && u[j - start] == '.' && dpos < j - start);
                    assert(!body_ok(u));
                }
                return Err(
                    ParseStructError(
                        error_msg("Invalid number `", s, "`: more than one decimal point"),
                    ),
                );
            }
            seen_dot = true;
            proof {
                dpos = j - start;
                assert(u.subrange(0, dpos) + u.subrange(dpos + 1, j + 1 - start) =~= dseq);
            }
        } else if '0' <= c && c <= '9' {
            if digits == 18 {
                proof {
                    lemma_not_number_ok_too_long(u, j - start, seen_dot, dpos);
                }
                return Err(
                    ParseStructError(error_msg("Invalid number `", s, "`: too many digits")),
                );
            }
            let d: u64 = (c as u32 as u64) - 48;
            proof {
                lemma_digits_val_push(dseq, c);
                lemma_pow10_bound((digits + 1) as nat);
                assert(mant * 10 + d < pow10((digits + 1) as nat)) by (nonlinear_arith)
                    requires
                        mant < pow10(digits as nat) && d <= 9 && pow10((digits + 1) as nat) == 10
                            * pow10(digits as nat);
                lemma_pow10_bound(digits as nat);
            }
            mant = mant * 10 + d;
            digits = digits + 1;
            if seen_dot {
                flen = flen + 1;
            }
            proof {
                assert(d == digit_val(c));
                dseq = dseq.push(c);
                if seen_dot {
                    assert(u.subrange(0, dpos) + u.subrange(dpos + 1, j + 1 - start) =~= dseq);
                } else {
                    assert(u.subrange(0, j + 1 - start) =~= dseq);
                }
            }
        } else {
            proof {
                assert(!is_digit(u[j - start]) && u[j - start] != '.');
                assert(!body_ok(u));
            }
            return Err(
                ParseStructError(error_msg("Invalid number `", s, "`: unexpected character")),
            );
        }
        j = j + 1;
    }
    if digits == 0 {
        proof {
            if body_ok(u) {
                let k = choose|k: int| 0 <= k < u.len() && is_digit(u[k]);
                assert(u[k] == '.' ==> !is_digit(u[k]));
            }
        }
        return Err(ParseStructError(error_msg("Invalid number `", s, "`: no digits")));
    }
    proof {
        // The processed body is valid and matches the grammar's view of it.
        assert(body_ok(u));
        if seen_dot {
            lemma_find_idx(u, '.');
            assert(find_idx(u, '.') == dpos) by {
                let k = find_idx(u, '.');
                if k < u.len() {
                    assert(u[k] == '.');
                }
                if k < dpos {
                    assert(u[k] != '.');
                }
            }
            assert(mant_digits(u) == dseq);
        } else {
            lemma_find_idx(u, '.');
            assert(find_idx(u, '.') == u.len()) by {
                let k = find_idx(u, '.');
                if k < u.len() {
                    assert(u[k] == '.');
                }
            }
            assert(u.subrange(0, u.len() as int) =~= u);
            assert(mant_digits(u) == dseq);
        }
        assert(frac_len(u) == flen);
        lemma_pow10_bound(flen as nat);
    }
    proof {
        lemma_pow10_bound(digits as nat);
    }
    let den = pow10_u64(flen);
    let num: i64 = if neg {
        -(mant as i64)
    } else {
        mant as i64
    };
    proof {
        assert(number_neg(s@) == neg);
        assert(number_num(s@) == num as int);
        assert(number_den(s@) == den as int);
    }
    let r = Rational::new(num, den);
    Ok(r)
}

/// A body that already holds 18 digits before yet another digit has more
/// than 18 digits in all, or is invalid.
proof fn lemma_not_number_ok_too_long(u: Seq<char>, pos: int, seen_dot: bool, dpos: int)
    requires
        0 <= pos < u.len(),
        is_digit(u[pos]),
        seen_dot ==> 0 <= dpos < pos && u[dpos] == '.',
        forall|k: int| 0 <= k < pos && #[trigger] u[k] == '.' ==> seen_dot && k == dpos,
        pos == 18 + (if seen_dot {
            1int
        } else {
            0int
        }),
    ensures
        !(body_ok(u) && mant_digits(u).len() <= 18),
{
    if body_ok(u) {
        lemma_find_idx(u, '.');
        let k = find_idx(u, '.');
        if k < u.len() {
            // A decimal point exists somewhere; the mantissa drops exactly
            // one character from the body.
            assert(mant_digits(u).len() == u.len() - 1);
            if seen_dot {
                assert(u.len() >= pos + 1 == 20);
            } else {
                // The point can only come after the current digit.
                assert(u[k] == '.');
                assert(k > pos);
                assert(u.len() >= k + 1 >= 20);
            }
        } else {
            assert(mant_digits(u).len() == u.len() >= pos + 1);
            assert(!seen_dot) by {
                if seen_dot {
                    assert(u[dpos] == '.');
                }
            }
        }
    }
}

/// An ASCII letter.
pub open spec fn is_alpha(c: char) -> bool {
    ('a' <= c && c <= 'z') || ('A' <= c && c <= 'Z')
}

/// The start of the maximal trailing run of ASCII letters.
pub open spec fn suff_start(s: Seq<char>) -> int
    decreases s.len(),
{
    if s.len() > 0 && is_alpha(s.last()) {
        suff_start(s.drop_last())
    } else {
        s.len() as int
    }
}

/// The trailing letter run really is one: everything from the start index on
/// is a letter, and the character before it, if any, is not.
pub proof fn lemma_suff_start(s: Seq<char>)
    ensures
        0 <= suff_start(s) <= s.len(),
        forall|j: int| suff_start(s) <= j < s.len() ==> is_alpha(#[trigger] s[j]),
        suff_start(s) > 0 ==> !is_alpha(s[suff_start(s) - 1]),
    decreases s.len(),
{
    if s.len() > 0 && is_alpha(s.last()) {
        lemma_suff_start(s.drop_last());
        assert(forall|j: int| 0 <= j < s.len() - 1 ==> s.drop_last()[j] == #[trigger] s[j]);
    }
}

/// The unit denoted by a two-letter suffix, if any.
pub open spec fn unit_of(u: Seq<char>) -> Option<LengthUnit> {
    if u.len() == 2 && u[0] == 'p' && u[1] == 'x' {
        Some(LengthUnit::Px)
    } else if u.len() == 2 && u[0] == 'c' && u[1] == 'm' {
        Some(LengthUnit::Cm)
    } else if u.len() == 2 && u[0] == 'm' && u[1] == 'm' {
        Some(LengthUnit::Mm)
    } else if u.len() == 2 && u[0] == 'i' && u[1] == 'n' {
        Some(LengthUnit::Inch)
    } else {
        None
    }
}

/// Parses a unit name: one of `px`, `cm`, `mm`, `in`.
pub fn parse_unit(s: &str) -> (r: Result<LengthUnit, ParseEnumError>)
    ensures
        r is Ok <==> unit_of(s@) is Some,
        r is Ok ==> unit_of(s@) == Some(r->Ok_0),
        r is Err ==> contains_seq(r->Err_0.0@, s@),
{
    if s.unicode_len() == 2 {
        let c0 = s.get_char(0);
        let c1 = s.get_char(1);
        if c0 == 'p' && c1 == 'x' {
            return Ok(LengthUnit::Px);
        }
        if c0 == 'c' && c1 == 'm' {
            return Ok(LengthUnit::Cm);
        }
        if c0 == 'm' && c1 == 'm' {
            return Ok(LengthUnit::Mm);
        }
        if c0 == 'i' && c1 == 'n' {
            return Ok(LengthUnit::Inch);
        }
    }
    Err(ParseEnumError(error_msg("`", s, "` is not a valid length unit. Must be one of `(px|cm|mm|in)`")))
}

/// Wraps an inner error message, keeping the offending input visible:
/// `prefix` + input + the inner message.
fn wrap_error(prefix: &str, detail: &str, inner: String) -> (r: String)
    ensures
        contains_seq(r@, detail@),
{
    let mut m = error_msg(prefix, detail, "`: ");
    m.append(inner.as_str());
    proof {
        lemma_contains_extend(prefix@ + detail@ + "`: "@, detail@, inner@);
    }
    m
}

/// The unit of a length literal: the trailing letter run when there is one,
/// pixels otherwise.
pub open spec fn length_unit(s: Seq<char>) -> Option<LengthUnit> {
    if suff_start(s) == s.len() {
        Some(LengthUnit::Px)
    } else {
        unit_of(s.subrange(suff_start(s), s.len() as int))
    }
}

/// The numeric part of a length literal.
pub open spec fn length_value_part(s: Seq<char>) -> Seq<char> {
    s.subrange(0, suff_start(s))
}

/// A valid length literal: a numeric literal, then a known unit suffix or
/// none.
pub open spec fn length_ok(s: Seq<char>) -> bool {
    length_unit(s) is Some && number_ok(length_value_part(s))
}

/// `l` is the length denoted by the literal `s`: it carries the literal's
/// unit, and its value is the literal's number, rounded to an integer for
/// pixels and exact otherwise.
pub open spec fn is_parsed_length(s: Seq<char>, l: Length) -> bool {
    let n = number_num(length_value_part(s));
    let d = number_den(length_value_part(s));
    &&& l.wf()
    &&& length_unit(s) == Some(l.unit)
    &&& l.unit is Px ==> l.value.is_int(round_ratio(n, d))
    &&& !(l.unit is Px) ==> l.value.is_ratio(n, d)
}

/// Parses a length literal such as `1024`, `5cm` or `3.5in`.
///
/// Fails exactly when the numeric part is malformed or too long, or the
/// suffix is not a known unit. A pixel value is rounded to the nearest whole
/// pixel.
pub fn parse_length(s: &str) -> (r: Result<Length, ParseStructError>)
    ensures
        r is Ok <==> length_ok(s@),
        r is Ok ==> is_parsed_length(s@, r->Ok_0),
        r is Err ==> contains_seq(r->Err_0.0@, s@),
{
    let len = s.unicode_len();
    let mut k: usize = len;
    proof {
        assert(s@.subrange(0, len as int) =~= s@);
    }
    loop
        invariant
            0 <= k <= len,
            len == s@.len(),
            suff_start(s@) == suff_start(s@.subrange(0, k as int)),
            forall|j: int| k <= j < len ==> is_alpha(#[trigger] s@[j]),
        ensures
            k == 0 || !is_alpha(s@[k - 1]),
        decreases k,
    {
        if k == 0 {
            break ;
        }
        let c = s.get_char(k - 1);
        if !(('a' <= c && c <= 'z') || ('A' <= c && c <= 'Z')) {
            break ;
        }
        proof {
            let pre = s@.subrange(0, k as int);
            assert(pre.last() == s@[k - 1]);
            assert(pre.drop_last() =~= s@.subrange(0, k - 1));
        }
        k = k - 1;
    }
    proof {
        let pre = s@.subrange(0, k as int);
        if k > 0 {
            assert(pre.last() == s@[k - 1]);
            assert(!is_alpha(pre.last()));
        }
        assert(suff_start(pre) == pre.len());
        assert(suff_start(s@) == k);
    }
    let unit: LengthUnit = if k == len {
        LengthUnit::Px
    } else {
        let suffix = s.substring_char(k, len);
        match parse_unit(suffix) {
            Ok(u) => u,
            Err(e) => {
                return Err(ParseStructError(wrap_error("Unable to parse length `", s, e.0)));
            },
        }
    };
    let value_str = s.substring_char(0, k);
    let value = match parse_number(value_str) {
        Ok(v) => v,
        Err(e) => {
            return Err(ParseStructError(wrap_error("Unable to parse length `", s, e.0)));
        },
    };
    proof {
        if unit is Px && !(length_unit(s@) == Some(LengthUnit::Px)) {
            assert(false);
        }
        crate::text::lemma_pow10_pos(frac_len(strip_sign(length_value_part(s@))) as nat);
        lemma_round_eq_ratio(
            value.num as int,
            value.den as int,
            number_num(length_value_part(s@)),
            number_den(length_value_part(s@)),
        );
    }
    Ok(Length::new(value, unit))
}

/// The placeholder part: a single full stop, standing for an omitted
/// dimension.
pub open spec fn part_dot(p: Seq<char>) -> bool {
    p.len() == 1 && p[0] == '.'
}

/// Tests for the placeholder part.
fn is_dot(p: &str) -> (r: bool)
    ensures
        r == part_dot(p@),
{
    p.unicode_len() == 1 && p.get_char(0) == '.'
}

/// A valid free-form size literal: two slash-separated fields, each a length
/// or the placeholder, not both placeholders.
pub open spec fn size_ok(s: Seq<char>) -> bool {
    let ps = spec_split(s, '/');
    &&& ps.len() == 2
    &&& part_dot(ps[0]) || length_ok(ps[0])
    &&& part_dot(ps[1]) || length_ok(ps[1])
    &&& !(part_dot(ps[0]) && part_dot(ps[1]))
}

/// `z` is the size denoted by the literal `s`.
pub open spec fn is_parsed_size(s: Seq<char>, z: Size) -> bool {
    let ps = spec_split(s, '/');
    &&& z.wf()
    &&& part_dot(ps[0]) ==> z.width is None
    &&& !part_dot(ps[0]) ==> z.width is Some && is_parsed_length(ps[0], z.width->0)
    &&& part_dot(ps[1]) ==> z.height is None
    &&& !part_dot(ps[1]) ==> z.height is Some && is_parsed_length(ps[1], z.height->0)
}

/// Parses a free-form size literal such as `10cm/5cm` or `10in/.`.
///
/// Fails exactly when the literal does not have two slash-separated fields,
/// a field is neither a valid length nor the `.` placeholder, or both fields
/// are placeholders.
pub fn parse_size(s: &str) -> (r: Result<Size, ParseStructError>)
    ensures
        r is Ok <==> size_ok(s@),
        r is Ok ==> is_parsed_size(s@, r->Ok_0),
        r is Err ==> contains_seq(r->Err_0.0@, s@),
{
    let parts = split_char(s, '/');
    if parts.len() != 2 {
        return Err(
            ParseStructError(
                error_msg("Unexpected size format in `", s, "`, expects `width/height`"),
            ),
        );
    }
    proof {
        assert(parts@.map_values(|p: String| p@)[0] == parts@[0]@);
        assert(parts@.map_values(|p: String| p@)[1] == parts@[1]@);
    }
    let width: Option<Length> = if is_dot(parts[0].as_str()) {
        None
    } else {
        match parse_length(parts[0].as_str()) {
            Ok(l) => Some(l),
            Err(e) => {
                return Err(ParseStructError(wrap_error("Unable to parse size `", s, e.0)));
            },
        }
    };
    let height: Option<Length> = if is_dot(parts[1].as_str()) {
        None
    } else {
        match parse_length(parts[1].as_str()) {
            Ok(l) => Some(l),
            Err(e) => {
                return Err(ParseStructError(wrap_error("Unable to parse size `", s, e.0)));
            },
        }
    };
    if width.is_none() && height.is_none() {
        return Err(
            ParseStructError(
                error_msg(
                    "Unable to parse size from `",
                    s,
                    "`, at least one of width or height must be given",
                ),
            ),
        );
    }
    Ok(Size { width, height })
}

/// A valid fixed-size literal: two slash-separated length fields.
pub open spec fn fix_size_ok(s: Seq<char>) -> bool {
    let ps = spec_split(s, '/');
    ps.len() == 2 && length_ok(ps[0]) && length_ok(ps[1])
}

/// `z` is the fixed size denoted by the literal `s`.
pub open spec fn is_parsed_fix_size(s: Seq<char>, z: FixSize) -> bool {
    let ps = spec_split(s, '/');
    &&& z.wf()
    &&& is_parsed_length(ps[0], z.width)
    &&& is_parsed_length(ps[1], z.height)
}

/// Parses a fixed-size literal such as `15cm/10cm`; both dimensions are
/// mandatory.
pub fn parse_fix_size(s: &str) -> (r: Result<FixSize, ParseStructError>)
    ensures
        r is Ok <==> fix_size_ok(s@),
        r is Ok ==> is_parsed_fix_size(s@, r->Ok_0),
        r is Err ==> contains_seq(r->Err_0.0@, s@),
{
    let parts = split_char(s, '/');
    if parts.len() != 2 {
        return Err(
            ParseStructError(
                error_msg("Unexpected size format in `", s, "`, expects `width/height`"),
            ),
        );
    }
    proof {
        assert(parts@.map_values(|p: String| p@)[0] == parts@[0]@);
        assert(parts@.map_values(|p: String| p@)[1] == parts@[1]@);
    }
    let width = match parse_length(parts[0].as_str()) {
        Ok(l) => l,
        Err(e) => {
            return Err(ParseStructError(wrap_error("Unable to parse size `", s, e.0)));
        },
    };
    let height = match parse_length(parts[1].as_str()) {
        Ok(l) => l,
        Err(e) => {
            return Err(ParseStructError(wrap_error("Unable to parse size `", s, e.0)));
        },
    };
    Ok(FixSize { width, height })
}

/// A valid borders literal: one, two or four slash-separated length fields.
pub open spec fn borders_ok(s: Seq<char>) -> bool {
    let ps = spec_split(s, '/');
    &&& ps.len() == 1 || ps.len() == 2 || ps.len() == 4
    &&& forall|i: int| 0 <= i < ps.len() ==> length_ok(#[trigger] ps[i])
}

/// `b` is the borders value denoted by the literal `s`: one field for all
/// four sides, two fields for the vertical and horizontal pairs, or four
/// fields clockwise from the top.
pub open spec fn is_parsed_borders(s: Seq<char>, b: Borders) -> bool {
    let ps = spec_split(s, '/');
    &&& b.wf()
    &&& ps.len() == 1 ==> is_parsed_length(ps[0], b.top) && b.right == b.top && b.bottom == b.top
        && b.left == b.top
    &&& ps.len() == 2 ==> is_parsed_length(ps[0], b.top) && is_parsed_length(ps[1], b.right)
        && b.bottom == b.top && b.left == b.right
    &&& ps.len() == 4 ==> is_parsed_length(ps[0], b.top) && is_parsed_length(ps[1], b.right)
        && is_parsed_length(ps[2], b.bottom) && is_parsed_length(ps[3], b.left)
}

/// Parses a borders literal: `<all>`, `<top-bottom>/<right-left>` or
/// `<top>/<right>/<bottom>/<left>`.
pub fn parse_borders(s: &str) -> (r: Result<Borders, ParseStructError>)
    ensures
        r is Ok <==> borders_ok(s@),
        r is Ok ==> is_parsed_borders(s@, r->Ok_0),
        r is Err ==> contains_seq(r->Err_0.0@, s@),
{
    let parts = split_char(s, '/');
    proof {
        assert(forall|i: int|
            0 <= i < parts@.len() ==> parts@.map_values(|p: String| p@)[i] == #[trigger] parts@[i]@);
    }
    if parts.len() == 1 {
        let v = match parse_length(parts[0].as_str()) {
            Ok(l) => l,
            Err(e) => {
                return Err(ParseStructError(wrap_error("Unable to parse borders `", s, e.0)));
            },
        };
        Ok(Borders { top: v, right: v, bottom: v, left: v })
    } else if parts.len() == 2 {
        let tb = match parse_length(parts[0].as_str()) {
            Ok(l) => l,
            Err(e) => {
                return Err(ParseStructError(wrap_error("Unable to parse borders `", s, e.0)));
            },
        };
        let rl = match parse_length(parts[1].as_str()) {
            Ok(l) => l,
            Err(e) => {
                return Err(ParseStructError(wrap_error("Unable to parse borders `", s, e.0)));
            },
        };
        Ok(Borders { top: tb, right: rl, bottom: tb, left: rl })
    } else if parts.len() == 4 {
        let top = match parse_length(parts[0].as_str()) {
            Ok(l) => l,
            Err(e) => {
                return Err(ParseStructError(wrap_error("Unable to parse borders `", s, e.0)));
            },
        };
        let right = match parse_length(parts[1].as_str()) {
            Ok(l) => l,
            Err(e) => {
                return Err(ParseStructError(wrap_error("Unable to parse borders `", s, e.0)));
            },
        };
        let bottom = match parse_length(parts[2].as_str()) {
            Ok(l) => l,
            Err(e) => {
                return Err(ParseStructError(wrap_error("Unable to parse borders `", s, e.0)));
            },
        };
        let left = match parse_length(parts[3].as_str()) {
            Ok(l) => l,
            Err(e) => {
                return Err(ParseStructError(wrap_error("Unable to parse borders `", s, e.0)));
            },
        };
        Ok(Borders { top, right, bottom, left })
    } else {
        Err(
            ParseStructError(
                error_msg(
                    "Unexpected borders format in `",
                    s,
                    "`, expects `<all>`, `<top-bottom>/<right-left>` or `<top>/<right>/<bottom>/<left>`",
                ),
            ),
        )
    }
}

/// The part carries a percent sign.
pub open spec fn part_percent(p: Seq<char>) -> bool {
    p.len() > 0 && p.last() == '%'
}

/// The numeric portion of a scale part, with a trailing percent sign
/// removed.
pub open spec fn scale_num_str(p: Seq<char>) -> Seq<char> {
    if part_percent(p) {
        p.drop_last()
    } else {
        p
    }
}

/// A valid scale part: a numeric literal denoting a positive multiplier,
/// optionally ending in `%`; a percentage may carry at most 16 fractional
/// digits.
pub open spec fn scale_part_ok(p: Seq<char>) -> bool {
    &&& number_ok(scale_num_str(p))
    &&& number_num(scale_num_str(p)) > 0
    &&& part_percent(p) ==> frac_len(strip_sign(scale_num_str(p))) <= 16
}

/// `r` is the multiplier denoted by the scale part `p`: the plain number,
/// or the number over a hundred for a percentage.
pub open spec fn is_parsed_scale_part(p: Seq<char>, r: Rational) -> bool {
    &&& r.wf()
    &&& r.is_ratio(
        number_num(scale_num_str(p)),
        number_den(scale_num_str(p)) * (if part_percent(p) {
            100int
        } else {
            1int
        }),
    )
}

/// Relates the fractional length of a sign-stripped literal to the position
/// of the decimal point in the full literal.
proof fn lemma_frac_len_strip(p: Seq<char>)
    requires
        p.len() > 0 && (p[0] == '-' || p[0] == '+') ==> p[0] != '.',
    ensures
        frac_len(strip_sign(p)) == (if find_idx(p, '.') < p.len() {
            p.len() - find_idx(p, '.') - 1
        } else {
            0
        }),
{
    lemma_find_idx(p, '.');
    let t = strip_sign(p);
    lemma_find_idx(t, '.');
    if p.len() > 0 && (p[0] == '-' || p[0] == '+') {
        assert(forall|j: int| 0 <= j < t.len() ==> t[j] == p[j + 1]);
        let k = find_idx(p, '.');
        let kt = find_idx(t, '.');
        if k < p.len() {
            assert(k >= 1);
            assert(t[k - 1] == '.');
            assert(kt == k - 1) by {
                if kt < k - 1 {
                    assert(p[kt + 1] == t[kt] && t[kt] == '.');
                }
                if kt > k - 1 {
                    assert(t[k - 1] != '.');
                }
            }
        } else {
            assert(kt == t.len()) by {
                if kt < t.len() {
                    assert(t[kt] == '.' && p[kt + 1] == '.');
                }
            }
        }
    }
}

/// Parses one scale part: the placeholder `.`, a fraction such as `0.5`, or
/// a percentage such as `50%`.
pub fn parse_scale_part(p: &str) -> (r: Result<Option<Rational>, ParseStructError>)
    ensures
        r is Ok <==> part_dot(p@) || scale_part_ok(p@),
        r is Ok ==> ((r->Ok_0 is None) <==> part_dot(p@)),
        r is Ok && r->Ok_0 is Some ==> is_parsed_scale_part(p@, r->Ok_0->0),
        r is Err ==> contains_seq(r->Err_0.0@, p@),
{
    if is_dot(p) {
        return Ok(None);
    }
    let len = p.unicode_len();
    let percent = len > 0 && p.get_char(len - 1) == '%';
    proof {
        if percent {
            assert(p@.last() == '%');
        }
        assert(percent == part_percent(p@));
    }
    if percent {
        let num_str = p.substring_char(0, len - 1);
        proof {
            assert(num_str@ =~= p@.drop_last());
        }
        let idx = find_char_str(num_str, '.');
        let nl = num_str.unicode_len();
        let flen: usize = if idx < nl {
            nl - idx - 1
        } else {
            0
        };
        proof {
            if num_str@.len() > 0 && (num_str@[0] == '-' || num_str@[0] == '+') {
            }
            lemma_frac_len_strip(num_str@);
        }
        if flen > 16 {
            return Err(
                ParseStructError(
                    error_msg(
                        "Unable to parse scale value `",
                        p,
                        "`: a percentage may carry at most 16 fractional digits",
                    ),
                ),
            );
        }
        let v = match parse_number(num_str) {
            Ok(v) => v,
            Err(e) => {
                return Err(ParseStructError(wrap_error("Unable to parse scale value `", p, e.0)));
            },
        };
        proof {
            lemma_pow10_pos(frac_len(strip_sign(num_str@)) as nat);
            assert((v.num > 0) == (number_num(num_str@) > 0)) by (nonlinear_arith)
                requires
                    v.num as int * number_den(num_str@) == number_num(num_str@) * (v.den as int)
                        && v.den >= 1 && number_den(num_str@) >= 1;
        }
        if v.num <= 0 {
            return Err(
                ParseStructError(
                    error_msg("Unable to parse scale value `", p, "`: a multiplier must be positive"),
                ),
            );
        }
        proof {
            let n0 = number_num(num_str@);
            let d0 = number_den(num_str@);
            lemma_pow10_pos(frac_len(strip_sign(num_str@)) as nat);
            lemma_pow10_le(frac_len(strip_sign(num_str@)) as nat, 16);
            lemma_pow10_16();
            lemma_reduced_den_divides(v, n0, d0);
        }
        let scaled = Rational::new(v.num, v.den * 100);
        proof {
            let n0 = number_num(num_str@);
            let d0 = number_den(num_str@);
            let sn = scaled.num as int;
            let sd = scaled.den as int;
            let vn = v.num as int;
            let vd = v.den as int;
            assert(sn * (vd * 100) == vn * sd);
            assert(vn * d0 == n0 * vd);
            assert((sn * (d0 * 100)) * vd == (sn * (vd * 100)) * d0) by (nonlinear_arith);
            assert((vn * sd) * d0 == (vn * d0) * sd) by (nonlinear_arith);
            assert((n0 * vd) * sd == (n0 * sd) * vd) by (nonlinear_arith);
            assert((sn * (d0 * 100)) * vd == (n0 * sd) * vd);
            lemma_mul_cancel(sn * (d0 * 100), n0 * sd, vd);
            assert(scaled.is_ratio(n0, d0 * 100));
        }
        Ok(Some(scaled))
    } else {
        let v = match parse_number(p) {
            Ok(v) => v,
            Err(e) => {
                return Err(e);
            },
        };  // the inner message already carries the whole part
        proof {
            crate::text::lemma_pow10_pos(frac_len(strip_sign(p@)) as nat);
            assert((v.num > 0) == (number_num(p@) > 0)) by (nonlinear_arith)
                requires
                    v.num as int * number_den(p@) == number_num(p@) * (v.den as int) && v.den >= 1
                        && number_den(p@) >= 1;
            assert(number_den(p@) * 1 == number_den(p@));
        }
        if v.num <= 0 {
            return Err(
                ParseStructError(
                    error_msg("Unable to parse scale value `", p, "`: a multiplier must be positive"),
                ),
            );
        }
        Ok(Some(v))
    }
}

/// A valid scale literal: one or two slash-separated scale parts, with not
/// every part the placeholder.
pub open spec fn scale_ok(s: Seq<char>) -> bool {
    let ps = spec_split(s, '/');
    if ps.len() == 1 {
        scale_part_ok(ps[0]) && !part_dot(ps[0])
    } else if ps.len() == 2 {
        &&& part_dot(ps[0]) || scale_part_ok(ps[0])
        &&& part_dot(ps[1]) || scale_part_ok(ps[1])
        &&& !(part_dot(ps[0]) && part_dot(ps[1]))
    } else {
        false
    }
}

/// `sc` is the scaling denoted by the literal `s`; a single value and the
/// placeholder replicate to both axes.
pub open spec fn is_parsed_scale(s: Seq<char>, sc: Scale) -> bool {
    let ps = spec_split(s, '/');
    &&& sc.wf()
    &&& ps.len() == 1 ==> is_parsed_scale_part(ps[0], sc.width) && sc.height == sc.width
    &&& ps.len() == 2 ==> {
        &&& !part_dot(ps[0]) ==> is_parsed_scale_part(ps[0], sc.width)
        &&& !part_dot(ps[1]) ==> is_parsed_scale_part(ps[1], sc.height)
        &&& part_dot(ps[0]) ==> sc.width == sc.height
        &&& part_dot(ps[1]) ==> sc.height == sc.width
    }
}

/// Parses a scale literal such as `0.5`, `50%`, `20%/50%` or `./20%`.
pub fn parse_scale(s: &str) -> (r: Result<Scale, ParseStructError>)
    ensures
        r is Ok <==> scale_ok(s@),
        r is Ok ==> is_parsed_scale(s@, r->Ok_0),
        r is Err ==> contains_seq(r->Err_0.0@, s@),
{
    let parts = split_char(s, '/');
    proof {
        assert(forall|i: int|
            0 <= i < parts@.len() ==> parts@.map_values(|p: String| p@)[i] == #[trigger] parts@[i]@);
    }
    if parts.len() == 1 {
        let w = match parse_scale_part(parts[0].as_str()) {
            Ok(v) => v,
            Err(e) => {
                return Err(ParseStructError(wrap_error("Unable to parse scale `", s, e.0)));
            },
        };
        match w {
            Some(v) => Ok(Scale { width: v, height: v }),
            None => Err(
                ParseStructError(
                    error_msg(
                        "Unable to parse scale from `",
                        s,
                        "`, at least one of width or height must be given",
                    ),
                ),
            ),
        }
    } else if parts.len() == 2 {
        let w = match parse_scale_part(parts[0].as_str()) {
            Ok(v) => v,
            Err(e) => {
                return Err(ParseStructError(wrap_error("Unable to parse scale `", s, e.0)));
            },
        };
        let h = match parse_scale_part(parts[1].as_str()) {
            Ok(v) => v,
            Err(e) => {
                return Err(ParseStructError(wrap_error("Unable to parse scale `", s, e.0)));
            },
        };
        match (w, h) {
            (Some(wv), Some(hv)) => Ok(Scale { width: wv, height: hv }),
            (Some(wv), None) => Ok(Scale { width: wv, height: wv }),
            (None, Some(hv)) => Ok(Scale { width: hv, height: hv }),
            (None, None) => Err(
                ParseStructError(
                    error_msg(
                        "Unable to parse scale from `",
                        s,
                        "`, at least one of width or height must be given",
                    ),
                ),
            ),
        }
    } else {
        Err(
            ParseStructError(
                error_msg("Unexpected scale format in `", s, "`, expects `width/height` or `scale`"),
            ),
        )
    }
}

/// Parses a scaling mode: one of `keep`, `fill`, `crop`, `stretch`.
pub fn parse_scale_mode(s: &str) -> (r: Result<ScaleMode, ParseEnumError>)
    ensures
        r is Ok <==> (s@ == "keep"@ || s@ == "fill"@ || s@ == "crop"@ || s@ == "stretch"@),
        r is Err ==> contains_seq(r->Err_0.0@, s@),
        s@ == "keep"@ ==> r == Ok::<ScaleMode, ParseEnumError>(ScaleMode::Keep),
        s@ == "fill"@ ==> r == Ok::<ScaleMode, ParseEnumError>(ScaleMode::Fill),
        s@ == "crop"@ ==> r == Ok::<ScaleMode, ParseEnumError>(ScaleMode::Crop),
        s@ == "stretch"@ ==> r == Ok::<ScaleMode, ParseEnumError>(ScaleMode::Stretch),
{
    proof {
        reveal_strlit("keep");
        reveal_strlit("fill");
        reveal_strlit("crop");
        reveal_strlit("stretch");
        assert("keep"@[0] == 'k' && "fill"@[0] == 'f' && "crop"@[0] == 'c' && "stretch"@[0]
            == 's');
    }
    if str_eq(s, "keep") {
        Ok(ScaleMode::Keep)
    } else if str_eq(s, "fill") {
        Ok(ScaleMode::Fill)
    } else if str_eq(s, "crop") {
        Ok(ScaleMode::Crop)
    } else if str_eq(s, "stretch") {
        Ok(ScaleMode::Stretch)
    } else {
        Err(
            ParseEnumError(
                error_msg("`", s, "` is not a valid scale mode. Must be one of `(keep|fill|crop|stretch)`"),
            ),
        )
    }
}

} // verus!
