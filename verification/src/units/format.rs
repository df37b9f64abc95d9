//! Named print formats.
//!
//! Common metric print sizes are internationally manufactured to exact
//! imperial dimensions: a nominal 15 cm by 10 cm print is really 6 in by
//! 4 in. Resolving a nominal metric size to its exact imperial equivalent
//! avoids rounding artifacts downstream. The lookup is exact: only a size
//! whose dimensions equal a table key, value and unit alike, is replaced.

use vstd::prelude::*;

verus! {

use crate::rational::{Rational, gcd};
use crate::text::{contains_seq, error_msg};
use crate::units::length::{Length, LengthUnit};
use crate::units::size::{Size, size_repr};

/// Error type for invalid print formats (missing dimensions).
#[derive(Debug, Clone, PartialEq, Eq)]
pub struct PrintFormatError(pub String);

/// A whole number of centimeters.
pub open spec fn cm_len(v: int) -> Length {
    Length { value: Rational { num: v as i64, den: 1 }, unit: LengthUnit::Cm }
}

/// A whole number of inches.
pub open spec fn in_len(v: int) -> Length {
    Length { value: Rational { num: v as i64, den: 1 }, unit: LengthUnit::Inch }
}

/// An odd number of half inches.
pub open spec fn in_half_len(n: int) -> Length {
    Length { value: Rational { num: n as i64, den: 2 }, unit: LengthUnit::Inch }
}

/// A size with both dimensions present.
pub open spec fn full_size(w: Length, h: Length) -> Size {
    Size { width: Some(w), height: Some(h) }
}

/// The named print formats: nominal metric sizes in centimeters, each with
/// its exact imperial equivalent, in both orientations.
pub open spec fn format_table() -> Seq<(Size, Size)> {
    seq![
        (full_size(cm_len(13), cm_len(9)), full_size(in_len(5), in_half_len(7))),
        (full_size(cm_len(9), cm_len(13)), full_size(in_half_len(7), in_len(5))),
        (full_size(cm_len(15), cm_len(10)), full_size(in_len(6), in_len(4))),
        (full_size(cm_len(10), cm_len(15)), full_size(in_len(4), in_len(6))),
        (full_size(cm_len(18), cm_len(13)), full_size(in_len(7), in_len(5))),
        (full_size(cm_len(13), cm_len(18)), full_size(in_len(5), in_len(7))),
        (full_size(cm_len(21), cm_len(15)), full_size(in_half_len(17), in_len(6))),
        (full_size(cm_len(15), cm_len(21)), full_size(in_len(6), in_half_len(17))),
        (full_size(cm_len(24), cm_len(18)), full_size(in_half_len(19), in_len(7))),
        (full_size(cm_len(18), cm_len(24)), full_size(in_len(7), in_half_len(19))),
    ]
}

/// A size matches a table key when both dimensions are equal, value and
/// unit alike.
pub open spec fn key_match(s: Size, k: Size) -> bool {
    s.width == k.width && s.height == k.height
}

/// The substitution the table defines from entry `i` on: the replacement of
/// the first matching key, or the size itself.
pub open spec fn subst_idx(s: Size, t: Seq<(Size, Size)>, i: int) -> Size
    decreases t.len() - i,
{
    if i < 0 || i >= t.len() {
        s
    } else if key_match(s, t[i].0) {
        t[i].1
    } else {
        subst_idx(s, t, i + 1)
    }
}

/// Every size in the table is well-formed.
proof fn lemma_table_wf()
    ensures
        forall|i: int|
            0 <= i < format_table().len() ==> (#[trigger] format_table()[i]).0.wf()
                && format_table()[i].1.wf(),
{
    reveal_with_fuel(gcd, 6);
    assert(gcd(13, 1) == 1 && gcd(9, 1) == 1 && gcd(15, 1) == 1 && gcd(10, 1) == 1 && gcd(18, 1)
        == 1 && gcd(21, 1) == 1 && gcd(24, 1) == 1);
    assert(gcd(5, 1) == 1 && gcd(6, 1) == 1 && gcd(4, 1) == 1 && gcd(7, 1) == 1);
    assert(gcd(7, 2) == 1 && gcd(17, 2) == 1 && gcd(19, 2) == 1);
}

/// Builds the named print format table.
pub fn create_formats() -> (r: Vec<(Size, Size)>)
    ensures
        r@ == format_table(),
        forall|i: int| 0 <= i < r@.len() ==> (#[trigger] r@[i]).0.wf() && r@[i].1.wf(),
{
    proof {
        lemma_table_wf();
    }
    let mut v: Vec<(Size, Size)> = Vec::new();
    v.push((full_size_x(cm_l(13), cm_l(9)), full_size_x(in_l(5), in_h(7))));
    v.push((full_size_x(cm_l(9), cm_l(13)), full_size_x(in_h(7), in_l(5))));
    v.push((full_size_x(cm_l(15), cm_l(10)), full_size_x(in_l(6), in_l(4))));
    v.push((full_size_x(cm_l(10), cm_l(15)), full_size_x(in_l(4), in_l(6))));
    v.push((full_size_x(cm_l(18), cm_l(13)), full_size_x(in_l(7), in_l(5))));
    v.push((full_size_x(cm_l(13), cm_l(18)), full_size_x(in_l(5), in_l(7))));
    v.push((full_size_x(cm_l(21), cm_l(15)), full_size_x(in_h(17), in_l(6))));
    v.push((full_size_x(cm_l(15), cm_l(21)), full_size_x(in_l(6), in_h(17))));
    v.push((full_size_x(cm_l(24), cm_l(18)), full_size_x(in_h(19), in_l(7))));
    v.push((full_size_x(cm_l(18), cm_l(24)), full_size_x(in_l(7), in_h(19))));
    proof {
        assert(v@ =~= format_table());
    }
    v
}

/// A whole number of centimeters.
fn cm_l(v: i64) -> (r: Length)
    ensures
        r == cm_len(v as int),
{
    Length { value: Rational { num: v, den: 1 }, unit: LengthUnit::Cm }
}

/// A whole number of inches.
fn in_l(v: i64) -> (r: Length)
    ensures
        r == in_len(v as int),
{
    Length { value: Rational { num: v, den: 1 }, unit: LengthUnit::Inch }
}

/// An odd number of half inches.
fn in_h(n: i64) -> (r: Length)
    ensures
        r == in_half_len(n as int),
{
    Length { value: Rational { num: n, den: 2 }, unit: LengthUnit::Inch }
}

/// A size with both dimensions present.
fn full_size_x(w: Length, h: Length) -> (r: Size)
    ensures
        r == full_size(w, h),
{
    Size { width: Some(w), height: Some(h) }
}

/// Resolves a nominal metric size to its exact imperial print format.
///
/// Requires both dimensions present, failing otherwise. A size equal to a
/// table key is replaced by the table's exact equivalent; any other size is
/// returned unchanged.
pub fn to_print_format(size: &Size) -> (r: Result<Size, PrintFormatError>)
    requires
        size.wf(),
    ensures
        r is Err <==> (size.width is None || size.height is None),
        r is Ok ==> r->Ok_0 == subst_idx(*size, format_table(), 0) && r->Ok_0.wf(),
        r is Err ==> contains_seq(r->Err_0.0@, size_repr(*size)),
{
    if size.width.is_none() || size.height.is_none() {
        let rendered = size.to_string();
        return Err(
            PrintFormatError(
                error_msg(
                    "Unable to determine print size. Missing dimension in size `",
                    rendered.as_str(),
                    "`",
                ),
            ),
        );
    }
    let table = create_formats();
    let n = table.len();
    let mut i: usize = 0;
    while i < n
        invariant
            0 <= i <= n,
            n == format_table().len(),
            table@ == format_table(),
            forall|j: int| 0 <= j < table@.len() ==> (#[trigger] table@[j]).0.wf()
                && table@[j].1.wf(),
            subst_idx(*size, format_table(), 0) == subst_idx(*size, format_table(), i as int),
        decreases n - i,
    {
        let key = &table[i].0;
        let kw_eq = match (&size.width, &key.width) {
            (Some(a), Some(b)) => length_eq(a, b),
            _ => false,
        };
        let kh_eq = match (&size.height, &key.height) {
            (Some(a), Some(b)) => length_eq(a, b),
            _ => false,
        };
        if kw_eq && kh_eq {
            proof {
                assert(key_match(*size, table@[i as int].0));
            }
            return Ok(table[i].1);
        }
        i = i + 1;
    }
    Ok(*size)
}

/// Structural length equality usable from executable code.
fn length_eq(a: &Length, b: &Length) -> (r: bool)
    ensures
        r == (a == b),
{
    let units = match (&a.unit, &b.unit) {
        (LengthUnit::Px, LengthUnit::Px) => true,
        (LengthUnit::Cm, LengthUnit::Cm) => true,
        (LengthUnit::Mm, LengthUnit::Mm) => true,
        (LengthUnit::Inch, LengthUnit::Inch) => true,
        _ => false,
    };
    units && a.value.num == b.value.num && a.value.den == b.value.den
}

} // verus!
