//! Shared character-level machinery for the string grammars: digit
//! sequences, decimal values, powers of ten, splitting on a separator, and
//! decimal rendering.

use vstd::prelude::*;

verus! {

use vstd::string::StrSliceExecFns;
use vstd::string::StringExecFns;


/// A decimal digit.
pub open spec fn is_digit(c: char) -> bool {
    '0' <= c && c <= '9'
}

/// The numeric value of a decimal digit.
pub open spec fn digit_val(c: char) -> int {
    c as int - '0' as int
}

/// The digit character for a value from zero to nine.
pub open spec fn digit_char(v: int) -> char {
    if v == 0 {
        '0'
    } else if v == 1 {
        '1'
    } else if v == 2 {
        '2'
    } else if v == 3 {
        '3'
    } else if v == 4 {
        '4'
    } else if v == 5 {
        '5'
    } else if v == 6 {
        '6'
    } else if v == 7 {
        '7'
    } else if v == 8 {
        '8'
    } else {
        '9'
    }
}

/// The number denoted by a sequence of decimal digits, most significant
/// first; the empty sequence denotes zero.
pub open spec fn digits_val(s: Seq<char>) -> int
    decreases s.len(),
{
    if s.len() == 0 {
        0
    } else {
        digits_val(s.drop_last()) * 10 + digit_val(s.last())
    }
}

/// Ten to the `k`.
pub open spec fn pow10(k: nat) -> int
    decreases k,
{
    if k == 0 {
        1
    } else {
        10 * pow10((k - 1) as nat)
    }
}

/// Computes [`pow10`] for exponents up to 18.
pub fn pow10_u64(k: u32) -> (r: u64)
    requires
        k <= 18,
    ensures
        r == pow10(k as nat),
        r >= 1,
    decreases k,
{
    if k == 0 {
        1
    } else {
        proof {
            lemma_pow10_bound(k as nat);
        }
        10 * pow10_u64(k - 1)
    }
}

/// Powers of ten are positive.
pub proof fn lemma_pow10_pos(k: nat)
    ensures
        pow10(k) >= 1,
    decreases k,
{
    if k > 0 {
        lemma_pow10_pos((k - 1) as nat);
    }
}

/// Powers of ten grow with the exponent.
pub proof fn lemma_pow10_le(j: nat, k: nat)
    requires
        j <= k,
    ensures
        pow10(j) <= pow10(k),
    decreases k - j,
{
    if j < k {
        lemma_pow10_le(j, (k - 1) as nat);
        lemma_pow10_pos((k - 1) as nat);
    }
}

/// `pow10(18)` written out.
pub proof fn lemma_pow10_18()
    ensures
        pow10(18) == 1_000_000_000_000_000_000,
{
    reveal_with_fuel(pow10, 19);
}

/// `pow10(16)` written out.
pub proof fn lemma_pow10_16()
    ensures
        pow10(16) == 10_000_000_000_000_000,
{
    reveal_with_fuel(pow10, 17);
}

/// `pow10` stays below `10^18` for exponents up to 18.
pub proof fn lemma_pow10_bound(k: nat)
    requires
        k <= 18,
    ensures
        1 <= pow10(k) <= 1_000_000_000_000_000_000,
{
    lemma_pow10_pos(k);
    lemma_pow10_le(k, 18);
    lemma_pow10_18();
}

/// A nonnegative digit value keeps `digits_val` nonnegative.
pub proof fn lemma_digits_val_nonneg(s: Seq<char>)
    requires
        forall|i: int| 0 <= i < s.len() ==> is_digit(#[trigger] s[i]),
    ensures
        digits_val(s) >= 0,
    decreases s.len(),
{
    if s.len() > 0 {
        lemma_digits_val_nonneg(s.drop_last());
        let p = digits_val(s.drop_last());
        assert(p * 10 >= 0) by (nonlinear_arith)
            requires p >= 0;
    }
}

/// Appending a digit multiplies the value by ten and adds the digit.
pub proof fn lemma_digits_val_push(s: Seq<char>, c: char)
    ensures
        digits_val(s.push(c)) == digits_val(s) * 10 + digit_val(c),
{
    assert(s.push(c).drop_last() =~= s);
    assert(s.push(c).last() == c);
}

/// The first index of `c` in `s`, or the length of `s` if absent.
pub open spec fn find_idx(s: Seq<char>, c: char) -> int
    decreases s.len(),
{
    if s.len() == 0 {
        0
    } else if s[0] == c {
        0
    } else {
        1 + find_idx(s.subrange(1, s.len() as int), c)
    }
}

/// What [`find_idx`] returns: the position of the first occurrence, with no
/// occurrence before it, or the length when the character is absent.
pub proof fn lemma_find_idx(s: Seq<char>, c: char)
    ensures
        0 <= find_idx(s, c) <= s.len(),
        find_idx(s, c) < s.len() ==> s[find_idx(s, c)] == c,
        forall|j: int| 0 <= j < find_idx(s, c) ==> s[j] != c,
        find_idx(s, c) == s.len() ==> forall|j: int| 0 <= j < s.len() ==> s[j] != c,
    decreases s.len(),
{
    if s.len() > 0 && s[0] != c {
        let sub = s.subrange(1, s.len() as int);
        lemma_find_idx(sub, c);
        assert(forall|j: int| 1 <= j < s.len() ==> s[j] == sub[j - 1]);
    }
}

/// Splitting a sequence at a separator character: the parts between the
/// occurrences, in order; `n + 1` parts for `n` separators.
pub open spec fn spec_split(s: Seq<char>, c: char) -> Seq<Seq<char>>
    decreases s.len(),
    via spec_split_decreases
{
    let k = find_idx(s, c);
    if k == s.len() {
        seq![s]
    } else {
        seq![s.subrange(0, k)] + spec_split(s.subrange(k + 1, s.len() as int), c)
    }
}

#[via_fn]
proof fn spec_split_decreases(s: Seq<char>, c: char) {
    lemma_find_idx(s, c);
}

/// Splitting yields at least one part.
pub proof fn lemma_spec_split_len(s: Seq<char>, c: char)
    ensures
        spec_split(s, c).len() >= 1,
    decreases s.len(),
{
    lemma_find_idx(s, c);
    let k = find_idx(s, c);
    if k < s.len() {
        lemma_spec_split_len(s.subrange(k + 1, s.len() as int), c);
    }
}

/// Splits a string at a separator character.
pub fn split_char(s: &str, c: char) -> (parts: Vec<String>)
    ensures
        parts@.map_values(|p: String| p@) == spec_split(s@, c),
        parts@.len() >= 1,
{
    let len = s.unicode_len();
    let mut parts: Vec<String> = Vec::new();
    let mut start: usize = 0;
    let mut i: usize = 0;
    proof {
        lemma_spec_split_len(s@, c);
        assert(s@.subrange(0, len as int) =~= s@);
        assert(parts@.map_values(|p: String| p@) + spec_split(s@, c) =~= spec_split(s@, c));
    }
    while i < len
        invariant
            0 <= start <= i <= len,
            len == s@.len(),
            forall|j: int| start <= j < i ==> s@[j] != c,
            spec_split(s@, c) == parts@.map_values(|p: String| p@) + spec_split(
                s@.subrange(start as int, len as int),
                c,
            ),
        decreases len - i,
    {
        let ch = s.get_char(i);
        if ch == c {
            let part = s.substring_char(start, i);
            let ghost old_parts = parts@;
            parts.push(part.to_owned());
            proof {
                let tail = s@.subrange(start as int, len as int);
                lemma_find_idx(tail, c);
                assert(tail[i - start] == c);
                assert(forall|j: int| 0 <= j < i - start ==> tail[j] != c);
                assert(find_idx(tail, c) == i - start) by {
                    let k = find_idx(tail, c);
                    if k < i - start {
                        assert(tail[k] == c);
                    }
                }
                assert(tail.subrange(0, i - start) =~= s@.subrange(start as int, i as int));
                assert(tail.subrange(i - start + 1, tail.len() as int) =~= s@.subrange(
                    i as int + 1,
                    len as int,
                ));
                assert(parts@.map_values(|p: String| p@) =~= old_parts.map_values(
                    |p: String| p@,
                ).push(s@.subrange(start as int, i as int)));
                assert(spec_split(tail, c) == seq![tail.subrange(0, i - start)] + spec_split(
                    tail.subrange(i - start + 1, tail.len() as int),
                    c,
                ));
                assert(old_parts.map_values(|p: String| p@) + spec_split(tail, c)
                    =~= parts@.map_values(|p: String| p@) + spec_split(
                    s@.subrange(i as int + 1, len as int),
                    c,
                ));
            }
            start = i + 1;
        }
        i = i + 1;
    }
    let last = s.substring_char(start, len);
    let ghost old_parts = parts@;
    parts.push(last.to_owned());
    proof {
        let tail = s@.subrange(start as int, len as int);
        lemma_find_idx(tail, c);
        assert(find_idx(tail, c) == tail.len()) by {
            let k = find_idx(tail, c);
            if k < tail.len() {
                assert(tail[k] == c);
                assert(s@[start + k] != c);
            }
        }
        assert(spec_split(tail, c) =~= seq![tail]);
        assert(parts@.map_values(|p: String| p@) =~= old_parts.map_values(|p: String| p@).push(
            tail,
        ));
        assert(parts@.map_values(|p: String| p@) =~= spec_split(s@, c));
    }
    parts
}

/// Finds the first occurrence of `c` in `s`, returning the string's length
/// when the character does not occur.
pub fn find_char_str(s: &str, c: char) -> (i: usize)
    ensures
        i == find_idx(s@, c),
{
    let len = s.unicode_len();
    let mut i: usize = 0;
    while i < len
        invariant
            0 <= i <= len,
            len == s@.len(),
            forall|j: int| 0 <= j < i ==> s@[j] != c,
        decreases len - i,
    {
        if s.get_char(i) == c {
            proof {
                lemma_find_idx(s@, c);
                let k = find_idx(s@, c);
                if k < i {
                    assert(s@[k] != c);
                }
                if k > i {
                    assert(s@[i as int] != c);
                }
            }
            return i;
        }
        i = i + 1;
    }
    proof {
        lemma_find_idx(s@, c);
        let k = find_idx(s@, c);
        if k < len {
            assert(s@[k] != c);
        }
    }
    len
}

/// Character-wise string equality.
pub fn str_eq(s: &str, t: &str) -> (r: bool)
    ensures
        r == (s@ == t@),
{
    let n = s.unicode_len();
    if n != t.unicode_len() {
        return false;
    }
    let mut i: usize = 0;
    while i < n
        invariant
            0 <= i <= n,
            n == s@.len() == t@.len(),
            forall|j: int| 0 <= j < i ==> s@[j] == t@[j],
        decreases n - i,
    {
        if s.get_char(i) != t.get_char(i) {
            return false;
        }
        i = i + 1;
    }
    proof {
        assert(s@ =~= t@);
    }
    true
}

/// The decimal digits of `m`, most significant first; zero renders as `0`.
pub open spec fn dec_digits(m: nat) -> Seq<char>
    decreases m,
{
    if m < 10 {
        seq![digit_char(m as int)]
    } else {
        dec_digits(m / 10).push(digit_char((m % 10) as int))
    }
}

/// Exactly `k` decimal digits of `m`, left-padded with zeros.
pub open spec fn dec_pad(m: nat, k: nat) -> Seq<char>
    decreases k,
{
    if k == 0 {
        Seq::empty()
    } else {
        dec_pad(m / 10, (k - 1) as nat).push(digit_char((m % 10) as int))
    }
}

/// A scaled decimal rendered as text: the number `m / 10^k`, with a minus
/// sign when `neg`, a decimal point only when `k > 0`, and exactly `k`
/// fractional digits.
pub open spec fn repr_scaled(m: nat, k: nat, neg: bool) -> Seq<char> {
    (if neg {
        seq!['-']
    } else {
        Seq::empty()
    }) + dec_digits((m as int / pow10(k)) as nat) + (if k > 0 {
        seq!['.'] + dec_pad((m as int % pow10(k)) as nat, k)
    } else {
        Seq::empty()
    })
}

/// Removes trailing zero digits, lowering the scale alongside.
pub open spec fn strip_zeros(m: nat, k: nat) -> (nat, nat)
    decreases k,
{
    if k > 0 && m % 10 == 0 {
        strip_zeros(m / 10, (k - 1) as nat)
    } else {
        (m, k)
    }
}

/// Appends one decimal digit.
fn push_digit(d: u128, out: &mut String)
    requires
        d < 10,
    ensures
        final(out)@ == old(out)@ + seq![digit_char(d as int)],
{
    proof {
        reveal_strlit("0");
        reveal_strlit("1");
        reveal_strlit("2");
        reveal_strlit("3");
        reveal_strlit("4");
        reveal_strlit("5");
        reveal_strlit("6");
        reveal_strlit("7");
        reveal_strlit("8");
        reveal_strlit("9");
    }
    if d == 0 {
        out.append("0");
        proof {
            assert(final(out)@ =~= old(out)@ + seq![digit_char(d as int)]);
        }
    } else if d == 1 {
        out.append("1");
        proof {
            assert(final(out)@ =~= old(out)@ + seq![digit_char(d as int)]);
        }
    } else if d == 2 {
        out.append("2");
        proof {
            assert(final(out)@ =~= old(out)@ + seq![digit_char(d as int)]);
        }
    } else if d == 3 {
        out.append("3");
        proof {
            assert(final(out)@ =~= old(out)@ + seq![digit_char(d as int)]);
        }
    } else if d == 4 {
        out.append("4");
        proof {
            assert(final(out)@ =~= old(out)@ + seq![digit_char(d as int)]);
        }
    } else if d == 5 {
        out.append("5");
        proof {
            assert(final(out)@ =~= old(out)@ + seq![digit_char(d as int)]);
        }
    } else if d == 6 {
        out.append("6");
        proof {
            assert(final(out)@ =~= old(out)@ + seq![digit_char(d as int)]);
        }
    } else if d == 7 {
        out.append("7");
        proof {
            assert(final(out)@ =~= old(out)@ + seq![digit_char(d as int)]);
        }
    } else if d == 8 {
        out.append("8");
        proof {
            assert(final(out)@ =~= old(out)@ + seq![digit_char(d as int)]);
        }
    } else {
        out.append("9");
        proof {
            assert(final(out)@ =~= old(out)@ + seq![digit_char(d as int)]);
        }
    }
}

/// Appends the decimal digits of `m`.
fn push_digits(m: u128, out: &mut String)
    ensures
        final(out)@ == old(out)@ + dec_digits(m as nat),
    decreases m,
{
    if m < 10 {
        push_digit(m, out);
    } else {
        push_digits(m / 10, out);
        push_digit(m % 10, out);
        proof {
            assert(final(out)@ =~= old(out)@ + dec_digits(m as nat));
        }
    }
}

/// Appends exactly `k` digits of `m`, left-padded with zeros.
fn push_pad(m: u128, k: u32, out: &mut String)
    ensures
        final(out)@ == old(out)@ + dec_pad(m as nat, k as nat),
    decreases k,
{
    if k > 0 {
        push_pad(m / 10, k - 1, out);
        push_digit(m % 10, out);
        proof {
            assert(final(out)@ =~= old(out)@ + dec_pad(m as nat, k as nat));
        }
    } else {
        proof {
            assert(final(out)@ =~= old(out)@ + dec_pad(m as nat, k as nat));
        }
    }
}

/// Appends `m / 10^k` as a signed scaled decimal.
pub fn push_scaled(m: u128, k: u32, neg: bool, out: &mut String)
    requires
        k <= 18,
    ensures
        final(out)@ == old(out)@ + repr_scaled(m as nat, k as nat, neg),
{
    proof {
        lemma_pow10_bound(k as nat);
    }
    if neg {
        out.append("-");
        proof {
            reveal_strlit("-");
            assert("-"@ =~= seq!['-']);
        }
    }
    let p = pow10_u64(k) as u128;
    push_digits(m / p, out);
    if k > 0 {
        out.append(".");
        proof {
            reveal_strlit(".");
            assert("."@ =~= seq!['.']);
        }
        push_pad(m % p, k, out);
    }
    proof {
        assert(final(out)@ =~= old(out)@ + repr_scaled(m as nat, k as nat, neg));
    }
}

/// `needle` occurs in `hay` as a contiguous run of characters.
pub open spec fn contains_seq(hay: Seq<char>, needle: Seq<char>) -> bool {
    exists|i: int|
        0 <= i && i + needle.len() <= hay.len() && #[trigger] hay.subrange(i, i + needle.len())
            == needle
}

/// The middle part of a three-part concatenation occurs in it.
pub proof fn lemma_contains_middle(a: Seq<char>, b: Seq<char>, c: Seq<char>)
    ensures
        contains_seq(a + b + c, b),
{
    let h = a + b + c;
    assert(h.subrange(a.len() as int, a.len() as int + b.len() as int) =~= b);
}

/// An occurrence survives appending more text on the right.
pub proof fn lemma_contains_extend(hay: Seq<char>, needle: Seq<char>, tail: Seq<char>)
    requires
        contains_seq(hay, needle),
    ensures
        contains_seq(hay + tail, needle),
{
    let i = choose|i: int|
        0 <= i && i + needle.len() <= hay.len() && #[trigger] hay.subrange(i, i + needle.len())
            == needle;
    assert((hay + tail).subrange(i, i + needle.len()) =~= hay.subrange(i, i + needle.len()));
}

/// Builds an error message around the offending input: `prefix`, then the
/// input itself, then `suffix`. The contract keeps hold of the fact that
/// the input occurs in the message.
pub fn error_msg(prefix: &str, detail: &str, suffix: &str) -> (r: String)
    ensures
        r@ == prefix@ + detail@ + suffix@,
        contains_seq(r@, detail@),
{
    let mut out = String::new();
    out.append(prefix);
    out.append(detail);
    out.append(suffix);
    proof {
        assert(out@ =~= prefix@ + detail@ + suffix@);
        lemma_contains_middle(prefix@, detail@, suffix@);
    }
    out
}

} // verus!
