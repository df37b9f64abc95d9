//! Path and file name utilities, as character-level operations on path
//! strings. Both `/` and `\` count as separators, so Windows-style paths
//! work too. Enumerating real files on disk is the surrounding
//! application's job.

use vstd::prelude::*;

verus! {

use vstd::string::StrSliceExecFns;
use vstd::string::StringExecFns;

/// A path separator.
pub open spec fn is_sep(c: char) -> bool {
    c == '/' || c == '\\'
}

/// The index just after the last occurrence of a character class, or zero
/// when there is none.
pub open spec fn after_last_sep(s: Seq<char>) -> int
    decreases s.len(),
{
    if s.len() == 0 {
        0
    } else if is_sep(s.last()) {
        s.len() as int
    } else {
        after_last_sep(s.drop_last())
    }
}

/// What [`after_last_sep`] returns: no separator at or after it, and a
/// separator right before it when it is positive.
pub proof fn lemma_after_last_sep(s: Seq<char>)
    ensures
        0 <= after_last_sep(s) <= s.len(),
        forall|j: int| after_last_sep(s) <= j < s.len() ==> !is_sep(#[trigger] s[j]),
        after_last_sep(s) > 0 ==> is_sep(s[after_last_sep(s) - 1]),
    decreases s.len(),
{
    if s.len() > 0 && !is_sep(s.last()) {
        lemma_after_last_sep(s.drop_last());
        assert(forall|j: int| 0 <= j < s.len() - 1 ==> s.drop_last()[j] == #[trigger] s[j]);
    }
}

/// The file name of a path: everything after the last separator.
pub open spec fn spec_name(s: Seq<char>) -> Seq<char> {
    s.subrange(after_last_sep(s), s.len() as int)
}

/// The index just after the last dot of a name, or zero when there is none.
pub open spec fn after_last_dot(s: Seq<char>) -> int
    decreases s.len(),
{
    if s.len() == 0 {
        0
    } else if s.last() == '.' {
        s.len() as int
    } else {
        after_last_dot(s.drop_last())
    }
}

/// What [`after_last_dot`] returns.
pub proof fn lemma_after_last_dot(s: Seq<char>)
    ensures
        0 <= after_last_dot(s) <= s.len(),
        forall|j: int| after_last_dot(s) <= j < s.len() ==> #[trigger] s[j] != '.',
        after_last_dot(s) > 0 ==> s[after_last_dot(s) - 1] == '.',
    decreases s.len(),
{
    if s.len() > 0 && s.last() != '.' {
        lemma_after_last_dot(s.drop_last());
        assert(forall|j: int| 0 <= j < s.len() - 1 ==> s.drop_last()[j] == #[trigger] s[j]);
    }
}

/// A name has an extension when a dot stands after its first character.
pub open spec fn has_ext(name: Seq<char>) -> bool {
    after_last_dot(name) >= 2
}

/// The extension of a name, not lowercased; meaningful only when
/// [`has_ext`] holds.
pub open spec fn spec_ext(name: Seq<char>) -> Seq<char> {
    name.subrange(after_last_dot(name), name.len() as int)
}

/// The stem of a name: everything before its extension's dot, or the whole
/// name without one.
pub open spec fn spec_stem(name: Seq<char>) -> Seq<char> {
    if has_ext(name) {
        name.subrange(0, after_last_dot(name) - 1)
    } else {
        name
    }
}

/// An ASCII letter lowercased; any other character unchanged.
pub open spec fn lower_char(c: char) -> char {
    if 'A' <= c && c <= 'Z' {
        ((c as u8) + 32) as char
    } else {
        c
    }
}

/// A sequence of characters, each lowercased.
pub open spec fn lower_seq(s: Seq<char>) -> Seq<char> {
    s.map_values(|c: char| lower_char(c))
}

/// Path and file utilities.
pub struct PathUtil {}

impl PathUtil {
    /// The file's name (with extension), or nothing for an empty or
    /// separator-terminated path.
    pub fn name(path: &str) -> (r: Option<String>)
        ensures
            r is Some <==> spec_name(path@).len() > 0,
            r is Some ==> r->0@ == spec_name(path@),
    {
        let len = path.unicode_len();
        let mut k: usize = len;
        proof {
            assert(path@.subrange(0, len as int) =~= path@);
        }
        loop
            invariant
                0 <= k <= len,
                len == path@.len(),
                after_last_sep(path@) == after_last_sep(path@.subrange(0, k as int)),
                forall|j: int| k <= j < len ==> !is_sep(#[trigger] path@[j]),
            ensures
                k == 0 || is_sep(path@[k - 1]),
                after_last_sep(path@) == k,
            decreases k,
        {
            if k == 0 {
                proof {
                    assert(after_last_sep(path@.subrange(0, 0)) == 0);
                }
                break ;
            }
            let c = path.get_char(k - 1);
            if c == '/' || c == '\\' {
                proof {
                    let pre = path@.subrange(0, k as int);
                    assert(pre.last() == path@[k - 1]);
                }
                break ;
            }
            proof {
                let pre = path@.subrange(0, k as int);
                assert(pre.last() == path@[k - 1]);
                assert(pre.drop_last() =~= path@.subrange(0, k - 1));
            }
            k = k - 1;
        }
        if k == len {
            proof {
                assert(spec_name(path@) =~= Seq::<char>::empty());
            }
            None
        } else {
            let n = path.substring_char(k, len);
            Some(n.to_owned())
        }
    }

    /// The file's base name: its name without the extension.
    pub fn stem(path: &str) -> (r: Option<String>)
        ensures
            r is Some <==> spec_name(path@).len() > 0,
            r is Some ==> r->0@ == spec_stem(spec_name(path@)),
    {
        let name = match Self::name(path) {
            Some(n) => n,
            None => {
                return None;
            },
        };
        let nref = name.as_str();
        let nlen = nref.unicode_len();
        let d = last_dot_end(nref);
        proof {
            lemma_after_last_dot(nref@);
        }
        if d >= 2 {
            Some(nref.substring_char(0, d - 1).to_owned())
        } else {
            Some(name.clone())
        }
    }

    /// The file's extension, lowercased; nothing when the name has no dot
    /// after its first character.
    pub fn extension(path: &str) -> (r: Option<String>)
        ensures
            r is Some <==> spec_name(path@).len() > 0 && has_ext(spec_name(path@)),
            r is Some ==> r->0@ == lower_seq(spec_ext(spec_name(path@))),
    {
        let name = match Self::name(path) {
            Some(n) => n,
            None => {
                return None;
            },
        };
        let nref = name.as_str();
        let nlen = nref.unicode_len();
        let d = last_dot_end(nref);
        proof {
            lemma_after_last_dot(nref@);
        }
        if d < 2 {
            return None;
        }
        let ext = nref.substring_char(d, nlen);
        Some(lowercase_ascii(ext))
    }

    /// The output path for a file: the pattern, with every `*` replaced by
    /// the file's stem.
    pub fn out_path(in_path: &str, out_pattern: &str) -> (r: Option<String>)
        ensures
            r is Some <==> spec_name(in_path@).len() > 0,
            r is Some ==> r->0@ == replace_star(
                out_pattern@,
                spec_stem(spec_name(in_path@)),
            ),
    {
        let stem = match Self::stem(in_path) {
            Some(st) => st,
            None => {
                return None;
            },
        };
        Some(replace_star_exec(out_pattern, stem.as_str()))
    }
}

/// The index just after the last dot of a string.
fn last_dot_end(s: &str) -> (d: usize)
    ensures
        d == after_last_dot(s@),
{
    let len = s.unicode_len();
    let mut k: usize = len;
    proof {
        assert(s@.subrange(0, len as int) =~= s@);
    }
    loop
        invariant
            0 <= k <= len,
            len == s@.len(),
            after_last_dot(s@) == after_last_dot(s@.subrange(0, k as int)),
        ensures
            after_last_dot(s@) == k,
        decreases k,
    {
        if k == 0 {
            proof {
                assert(after_last_dot(s@.subrange(0, 0)) == 0);
            }
            break ;
        }
        let c = s.get_char(k - 1);
        proof {
            let pre = s@.subrange(0, k as int);
            assert(pre.last() == s@[k - 1]);
            assert(pre.drop_last() =~= s@.subrange(0, k - 1));
        }
        if c == '.' {
            break ;
        }
        k = k - 1;
    }
    k
}

/// Lowercases the ASCII letters of a string.
fn lowercase_ascii(s: &str) -> (r: String)
    ensures
        r@ == lower_seq(s@),
{
    let len = s.unicode_len();
    let mut out = String::new();
    let mut i: usize = 0;
    while i < len
        invariant
            0 <= i <= len,
            len == s@.len(),
            out@ == lower_seq(s@.subrange(0, i as int)),
        decreases len - i,
    {
        let c = s.get_char(i);
        let lc: char = if 'A' <= c && c <= 'Z' {
            ((c as u8) + 32) as char
        } else {
            c
        };
        proof {
            assert(lc == lower_char(c));
        }
        let mut t = out;
        push_char_low(lc, &mut t);
        out = t;
        proof {
            assert(lower_seq(s@.subrange(0, i + 1)) =~= lower_seq(s@.subrange(0, i as int)).push(
                lower_char(c),
            ));
        }
        i = i + 1;
    }
    proof {
        assert(s@.subrange(0, len as int) =~= s@);
    }
    out
}

/// Relies on `String::push`: appends exactly the given character at the
/// end of the string.
#[verifier::external_body]
fn push_char_low(c: char, out: &mut String)
    ensures
        final(out)@ == old(out)@.push(c),
{
    out.push(c);
}

/// The pattern with every `*` replaced by the given text.
pub open spec fn replace_star(p: Seq<char>, st: Seq<char>) -> Seq<char>
    decreases p.len(),
{
    if p.len() == 0 {
        Seq::empty()
    } else if p[0] == '*' {
        st + replace_star(p.subrange(1, p.len() as int), st)
    } else {
        seq![p[0]] + replace_star(p.subrange(1, p.len() as int), st)
    }
}

/// Appending one more pattern character extends the replacement at the end.
proof fn lemma_replace_star_push(p: Seq<char>, st: Seq<char>, c: char)
    ensures
        replace_star(p.push(c), st) == replace_star(p, st) + (if c == '*' {
            st
        } else {
            seq![c]
        }),
    decreases p.len(),
{
    let pc = p.push(c);
    let x: Seq<char> = if c == '*' {
        st
    } else {
        seq![c]
    };
    if p.len() == 0 {
        assert(pc[0] == c);
        assert(pc.subrange(1, pc.len() as int) =~= Seq::<char>::empty());
        assert(replace_star(Seq::<char>::empty(), st) == Seq::<char>::empty());
        if c == '*' {
            assert(replace_star(pc, st) == st + replace_star(
                pc.subrange(1, pc.len() as int),
                st,
            ));
            assert(st + Seq::<char>::empty() =~= st);
        } else {
            assert(replace_star(pc, st) == seq![pc[0]] + replace_star(
                pc.subrange(1, pc.len() as int),
                st,
            ));
            assert(seq![c] + Seq::<char>::empty() =~= seq![c]);
        }
        assert(replace_star(p, st) + x =~= x);
    } else {
        let t = p.subrange(1, p.len() as int);
        assert(pc[0] == p[0]);
        assert(pc.subrange(1, pc.len() as int) =~= t.push(c));
        lemma_replace_star_push(t, st, c);
        let h: Seq<char> = if p[0] == '*' {
            st
        } else {
            seq![p[0]]
        };
        assert(replace_star(pc, st) == h + replace_star(t.push(c), st));
        assert(replace_star(p, st) == h + replace_star(t, st));
        assert(h + (replace_star(t, st) + x) =~= (h + replace_star(t, st)) + x);
    }
}

/// Replaces every `*` of the pattern by the given text.
fn replace_star_exec(p: &str, st: &str) -> (r: String)
    ensures
        r@ == replace_star(p@, st@),
{
    let len = p.unicode_len();
    let mut out = String::new();
    let mut i: usize = 0;
    proof {
        assert(replace_star(p@.subrange(0, 0), st@) =~= Seq::<char>::empty());
    }
    while i < len
        invariant
            0 <= i <= len,
            len == p@.len(),
            out@ == replace_star(p@.subrange(0, i as int), st@),
        decreases len - i,
    {
        let c = p.get_char(i);
        proof {
            assert(p@.subrange(0, i as int).push(c) =~= p@.subrange(0, i + 1));
            lemma_replace_star_push(p@.subrange(0, i as int), st@, c);
        }
        if c == '*' {
            let mut t = out;
            t.append(st);
            out = t;
        } else {
            let mut t = out;
            push_char_low(c, &mut t);
            out = t;
            proof {
                assert(out@ =~= replace_star(p@.subrange(0, i as int), st@) + seq![c]);
            }
        }
        i = i + 1;
    }
    proof {
        assert(p@.subrange(0, len as int) =~= p@);
    }
    out
}

} // verus!
