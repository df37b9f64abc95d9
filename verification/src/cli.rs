//! Command-line helpers that are pure computation: splitting a command file
//! line into arguments, and naming scaling filters.

use vstd::prelude::*;

verus! {

use vstd::string::StrSliceExecFns;
use vstd::string::StringExecFns;
use crate::ParseEnumError;
use crate::text::{contains_seq, error_msg, str_eq};

/// Error type for failed parsing of a command line.
#[derive(Debug, Clone, PartialEq, Eq)]
pub struct ParseCliError(pub String);

/// Filter kinds for image scaling, named as the common resampling filters.
#[derive(Debug, Clone, Copy, PartialEq, Eq, Structural)]
pub enum FilterType {
    /// Nearest-neighbor sampling.
    Nearest,
    /// Linear (triangle) interpolation.
    Triangle,
    /// Cubic (Catmull-Rom) interpolation.
    CatmullRom,
    /// Lanczos resampling with a window of 3.
    Lanczos3,
}

/// Parses a filter name: one of `nearest`, `linear`, `cubic`, `gauss`,
/// `lanczos`. Both `cubic` and `gauss` name the Catmull-Rom filter.
pub fn parse_filter_type(s: &str) -> (r: Result<FilterType, ParseEnumError>)
    ensures
        r is Ok <==> (s@ == "nearest"@ || s@ == "linear"@ || s@ == "cubic"@ || s@ == "gauss"@
            || s@ == "lanczos"@),
        s@ == "nearest"@ ==> r == Ok::<FilterType, ParseEnumError>(FilterType::Nearest),
        s@ == "linear"@ ==> r == Ok::<FilterType, ParseEnumError>(FilterType::Triangle),
        s@ == "cubic"@ ==> r == Ok::<FilterType, ParseEnumError>(FilterType::CatmullRom),
        s@ == "gauss"@ ==> r == Ok::<FilterType, ParseEnumError>(FilterType::CatmullRom),
        s@ == "lanczos"@ ==> r == Ok::<FilterType, ParseEnumError>(FilterType::Lanczos3),
        r is Err ==> contains_seq(r->Err_0.0@, s@),
{
    proof {
        reveal_strlit("nearest");
        reveal_strlit("linear");
        reveal_strlit("cubic");
        reveal_strlit("gauss");
        reveal_strlit("lanczos");
        assert("nearest"@[0] == 'n' && "linear"@[0] == 'l' && "cubic"@[0] == 'c' && "gauss"@[0]
            == 'g' && "lanczos"@[0] == 'l' && "linear"@[1] == 'i' && "lanczos"@[1] == 'a');
    }
    if str_eq(s, "nearest") {
        Ok(FilterType::Nearest)
    } else if str_eq(s, "linear") {
        Ok(FilterType::Triangle)
    } else if str_eq(s, "cubic") {
        Ok(FilterType::CatmullRom)
    } else if str_eq(s, "gauss") {
        Ok(FilterType::CatmullRom)
    } else if str_eq(s, "lanczos") {
        Ok(FilterType::Lanczos3)
    } else {
        Err(
            ParseEnumError(
                error_msg(
                    "`",
                    s,
                    "` is not a valid filter type. Must be one of `(nearest|linear|cubic|gauss|lanczos)`",
                ),
            ),
        )
    }
}

/// The arguments a command line denotes from position `i` on, with `cur`
/// the pending argument text and `inq` whether a quoted argument is open:
/// double quotes delimit arguments that may hold spaces; outside quotes,
/// runs of spaces separate arguments and empty pieces are dropped.
pub open spec fn split_args_from(s: Seq<char>, i: int, cur: Seq<char>, inq: bool) -> Seq<
    Seq<char>,
>
    decreases s.len() - i,
{
    if i < 0 || i >= s.len() {
        if cur.len() > 0 {
            seq![cur]
        } else {
            Seq::empty()
        }
    } else if s[i] == '"' {
        if inq {
            seq![cur] + split_args_from(s, i + 1, Seq::empty(), false)
        } else if cur.len() > 0 {
            seq![cur] + split_args_from(s, i + 1, Seq::empty(), true)
        } else {
            split_args_from(s, i + 1, Seq::empty(), true)
        }
    } else if s[i] == ' ' && !inq {
        if cur.len() > 0 {
            seq![cur] + split_args_from(s, i + 1, Seq::empty(), inq)
        } else {
            split_args_from(s, i + 1, Seq::empty(), inq)
        }
    } else {
        split_args_from(s, i + 1, cur.push(s[i]), inq)
    }
}

/// Splits a command line into arguments: double quotes delimit arguments
/// that may hold spaces; outside quotes, runs of spaces separate arguments
/// and empty pieces are dropped. A closing quote ends its argument even
/// when it is empty.
pub fn split_cli_args(s: &str) -> (args: Vec<String>)
    ensures
        args@.map_values(|a: String| a@) == split_args_from(s@, 0, Seq::empty(), false),
{
    let len = s.unicode_len();
    let mut args: Vec<String> = Vec::new();
    let mut current = String::new();
    let mut in_quotes = false;
    let mut i: usize = 0;
    while i < len
        invariant
            0 <= i <= len,
            len == s@.len(),
            split_args_from(s@, 0, Seq::empty(), false) == args@.map_values(|a: String| a@)
                + split_args_from(s@, i as int, current@, in_quotes),
        decreases len - i,
    {
        let c = s.get_char(i);
        let ghost old_args = args@;
        let ghost old_cur = current@;
        let ghost old_inq = in_quotes;
        if c == '"' {
            if in_quotes {
                // A closing quote ends the quoted argument; even an empty
                // one is kept.
                args.push(current);
                current = String::new();
                in_quotes = false;
                proof {
                    assert(args@.map_values(|a: String| a@) =~= old_args.map_values(
                        |a: String| a@,
                    ).push(old_cur));
                }
            } else {
                // An opening quote ends any pending unquoted argument.
                if current.as_str().unicode_len() > 0 {
                    args.push(current);
                    current = String::new();
                    proof {
                        assert(args@.map_values(|a: String| a@) =~= old_args.map_values(
                            |a: String| a@,
                        ).push(old_cur));
                    }
                }
                in_quotes = true;
            }
        } else if c == ' ' && !in_quotes {
            if current.as_str().unicode_len() > 0 {
                args.push(current);
                current = String::new();
                proof {
                    assert(args@.map_values(|a: String| a@) =~= old_args.map_values(
                        |a: String| a@,
                    ).push(old_cur));
                }
            }
        } else {
            let mut t = current;
            push_char_raw(c, &mut t);
            current = t;
        }
        proof {
            if old_cur.len() == 0 {
                assert(old_cur =~= Seq::<char>::empty());
            }
            if current@.len() == 0 {
                assert(current@ =~= Seq::<char>::empty());
            }
            assert(old_args.map_values(|a: String| a@) + split_args_from(
                s@,
                i as int,
                old_cur,
                old_inq,
            ) =~= args@.map_values(|a: String| a@) + split_args_from(
                s@,
                i + 1,
                current@,
                in_quotes,
            ));
        }
        i = i + 1;
    }
    if current.as_str().unicode_len() > 0 {
        args.push(current);
        proof {
            assert(args@.map_values(|a: String| a@) =~= split_args_from(
                s@,
                0,
                Seq::empty(),
                false,
            ));
        }
    } else {
        proof {
            assert(args@.map_values(|a: String| a@) =~= split_args_from(
                s@,
                0,
                Seq::empty(),
                false,
            ));
        }
    }
    args
}

/// Relies on `String::push`: appends exactly the given character at the
/// end of the string.
#[verifier::external_body]
fn push_char_raw(c: char, out: &mut String)
    ensures
        final(out)@ == old(out)@.push(c),
{
    out.push(c);
}

} // verus!
