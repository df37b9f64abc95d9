//! Color data structure and numeric color parsing.
//!
//! A color literal is one, three or four slash-separated channel values from
//! 0 to 255: a single value replicates to a grey tone, three values are red,
//! green and blue, four add alpha; alpha defaults to 255. Named colors are a
//! lookup owned by the surrounding application, not part of this parser.

use vstd::prelude::*;

verus! {

use vstd::string::StrSliceExecFns;
use crate::ParseStructError;
use crate::text::{is_digit, digit_val, digits_val, spec_split, split_char};
use crate::text::{lemma_digits_val_push, lemma_digits_val_nonneg};
use crate::text::{contains_seq, error_msg, lemma_contains_extend};
use vstd::string::StringExecFns;

/// An RGBA color.
#[derive(Debug, Clone, Copy, PartialEq, Eq)]
pub struct Color {
    pub channels: [u8; 4],
}

impl Color {
    /// Creates a color from its four channels.
    pub fn new(r: u8, g: u8, b: u8, a: u8) -> (c: Color)
        ensures
            c.channels@ == seq![r, g, b, a],
    {
        let c = Color { channels: [r, g, b, a] };
        proof {
            assert(c.channels@ =~= seq![r, g, b, a]);
        }
        c
    }

    /// The four channels: red, green, blue, alpha.
    pub fn channels(&self) -> (r: &[u8; 4])
        ensures
            r == self.channels,
    {
        &self.channels
    }
}

/// A valid channel literal: decimal digits denoting a value up to 255.
pub open spec fn u8_ok(p: Seq<char>) -> bool {
    &&& p.len() > 0
    &&& forall|i: int| 0 <= i < p.len() ==> is_digit(#[trigger] p[i])
    &&& digits_val(p) <= 255
}

/// The value of a longer digit sequence dominates the value of any prefix.
proof fn lemma_digits_val_prefix(s: Seq<char>, i: int)
    requires
        forall|k: int| 0 <= k < s.len() ==> is_digit(#[trigger] s[k]),
        0 <= i <= s.len(),
    ensures
        digits_val(s.subrange(0, i)) <= digits_val(s),
    decreases s.len(),
{
    lemma_digits_val_nonneg(s);
    if i < s.len() {
        let d = s.drop_last();
        assert(forall|k: int| 0 <= k < d.len() ==> d[k] == s[k]);
        assert(s.subrange(0, i) =~= d.subrange(0, i));
        lemma_digits_val_prefix(d, i);
        lemma_digits_val_nonneg(d);
        assert(digits_val(d) * 10 >= digits_val(d)) by (nonlinear_arith)
            requires digits_val(d) >= 0;
    } else {
        assert(s.subrange(0, i) =~= s);
    }
}

/// Parses one channel value from 0 to 255.
pub fn parse_u8(p: &str) -> (r: Result<u8, ParseStructError>)
    ensures
        r is Ok <==> u8_ok(p@),
        r is Ok ==> r->Ok_0 == digits_val(p@),
        r is Err ==> contains_seq(r->Err_0.0@, p@),
{
    let len = p.unicode_len();
    if len == 0 {
        return Err(ParseStructError(error_msg("Empty color channel in `", p, "`")));
    }
    let mut val: u32 = 0;
    let mut i: usize = 0;
    while i < len
        invariant
            0 <= i <= len,
            len == p@.len(),
            forall|k: int| 0 <= k < i ==> is_digit(#[trigger] p@[k]),
            val == digits_val(p@.subrange(0, i as int)),
            val <= 255,
        decreases len - i,
    {
        let c = p.get_char(i);
        if !('0' <= c && c <= '9') {
            return Err(
                ParseStructError(error_msg("Invalid color channel `", p, "`: not a number")),
            );
        }
        let d: u32 = (c as u32) - 48;
        proof {
            lemma_digits_val_push(p@.subrange(0, i as int), c);
            assert(p@.subrange(0, i as int).push(c) =~= p@.subrange(0, i + 1));
        }
        let next = val * 10 + d;
        if next > 255 {
            proof {
                if u8_ok(p@) {
                    lemma_digits_val_prefix(p@, i + 1);
                }
            }
            return Err(
                ParseStructError(error_msg("Invalid color channel `", p, "`: above 255")),
            );
        }
        val = next;
        i = i + 1;
    }
    proof {
        assert(p@.subrange(0, len as int) =~= p@);
    }
    Ok(val as u8)
}

/// A valid color literal: one, three or four valid channel values.
pub open spec fn color_ok(s: Seq<char>) -> bool {
    let ps = spec_split(s, '/');
    &&& ps.len() == 1 || ps.len() == 3 || ps.len() == 4
    &&& forall|i: int| 0 <= i < ps.len() ==> u8_ok(#[trigger] ps[i])
}

/// `c` is the color denoted by the literal `s`.
pub open spec fn is_parsed_color(s: Seq<char>, c: Color) -> bool {
    let ps = spec_split(s, '/');
    if ps.len() == 1 {
        c.channels@ == seq![
            digits_val(ps[0]) as u8,
            digits_val(ps[0]) as u8,
            digits_val(ps[0]) as u8,
            255u8,
        ]
    } else if ps.len() == 3 {
        c.channels@ == seq![
            digits_val(ps[0]) as u8,
            digits_val(ps[1]) as u8,
            digits_val(ps[2]) as u8,
            255u8,
        ]
    } else {
        c.channels@ == seq![
            digits_val(ps[0]) as u8,
            digits_val(ps[1]) as u8,
            digits_val(ps[2]) as u8,
            digits_val(ps[3]) as u8,
        ]
    }
}

/// Parses a numeric color literal: `<grey>`, `<r>/<g>/<b>` or
/// `<r>/<g>/<b>/<a>`, each channel from 0 to 255.
pub fn parse_color(s: &str) -> (r: Result<Color, ParseStructError>)
    ensures
        r is Ok <==> color_ok(s@),
        r is Ok ==> is_parsed_color(s@, r->Ok_0),
        r is Err ==> contains_seq(r->Err_0.0@, s@),
{
    let parts = split_char(s, '/');
    proof {
        assert(forall|i: int|
            0 <= i < parts@.len() ==> parts@.map_values(|p: String| p@)[i] == #[trigger] parts@[i]@);
    }
    if parts.len() == 1 {
        let v = match parse_u8(parts[0].as_str()) {
            Ok(v) => v,
            Err(e) => {
                return Err(ParseStructError(wrap_color_error(s, e.0)));
            },
        };
        Ok(Color::new(v, v, v, 255))
    } else if parts.len() == 3 {
        let r0 = match parse_u8(parts[0].as_str()) {
            Ok(v) => v,
            Err(e) => {
                return Err(ParseStructError(wrap_color_error(s, e.0)));
            },
        };
        let g0 = match parse_u8(parts[1].as_str()) {
            Ok(v) => v,
            Err(e) => {
                return Err(ParseStructError(wrap_color_error(s, e.0)));
            },
        };
        let b0 = match parse_u8(parts[2].as_str()) {
            Ok(v) => v,
            Err(e) => {
                return Err(ParseStructError(wrap_color_error(s, e.0)));
            },
        };
        Ok(Color::new(r0, g0, b0, 255))
    } else if parts.len() == 4 {
        let r0 = match parse_u8(parts[0].as_str()) {
            Ok(v) => v,
            Err(e) => {
                return Err(ParseStructError(wrap_color_error(s, e.0)));
            },
        };
        let g0 = match parse_u8(parts[1].as_str()) {
            Ok(v) => v,
            Err(e) => {
                return Err(ParseStructError(wrap_color_error(s, e.0)));
            },
        };
        let b0 = match parse_u8(parts[2].as_str()) {
            Ok(v) => v,
            Err(e) => {
                return Err(ParseStructError(wrap_color_error(s, e.0)));
            },
        };
        let a0 = match parse_u8(parts[3].as_str()) {
            Ok(v) => v,
            Err(e) => {
                return Err(ParseStructError(wrap_color_error(s, e.0)));
            },
        };
        Ok(Color::new(r0, g0, b0, a0))
    } else {
        Err(ParseStructError(error_msg("Can't parse color from `", s, "`, requires 1, 3 or 4 elements")))
    }
}

/// Wraps a channel error, keeping the whole color literal visible.
fn wrap_color_error(s: &str, inner: String) -> (r: String)
    ensures
        contains_seq(r@, s@),
{
    let mut m = error_msg("Can't parse color from `", s, "`: ");
    m.append(inner.as_str());
    proof {
        lemma_contains_extend("Can't parse color from `"@ + s@ + "`: "@, s@, inner@);
    }
    m
}

} // verus!
