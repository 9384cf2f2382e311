//! The numeric/locale parser: vote and comment counts with thousands
//! separators and localized magnitude suffixes.
//!
//! A count is trimmed, stripped of separators (commas and spaces), and
//! then either parsed as a plain integer, or, when it carries one of
//! the three localized magnitude suffixes, parsed as a decimal numeral
//! scaled by 1,000 / 10,000 / 100,000 and truncated to an integer.
//! The scaled value saturates at `u32::MAX`.

use vstd::prelude::*;
use crate::text::{ends_with, first_index_from, first_index_of, to_chars, trim_spec, trim_str};
use vstd::string::*;

verus! {

/// The thousand-magnitude suffix.
pub open spec fn suffix_k() -> Seq<char> {
    "\u{e1e}\u{e31}\u{e19}"@
}

/// The ten-thousand-magnitude suffix.
pub open spec fn suffix_10k() -> Seq<char> {
    "\u{e2b}\u{e21}\u{e37}\u{e48}\u{e19}"@
}

/// The hundred-thousand-magnitude suffix.
pub open spec fn suffix_100k() -> Seq<char> {
    "\u{e41}\u{e2a}\u{e19}"@
}

/// Decimal digit.
pub open spec fn is_digit_char(c: char) -> bool {
    48 <= c as u32 && c as u32 <= 57
}

/// Numeric value of a decimal digit.
pub open spec fn digit_val(c: char) -> nat {
    (c as u32 - '0' as u32) as nat
}

/// Every character of `s` is a decimal digit.
pub open spec fn all_digits(s: Seq<char>) -> bool {
    forall|k: int| 0 <= k < s.len() ==> is_digit_char(#[trigger] s[k])
}

/// Value of a digit string, most significant digit first.
pub open spec fn int_of_digits(s: Seq<char>) -> nat
    decreases s.len(),
{
    if s.len() == 0 {
        0
    } else {
        int_of_digits(s.drop_last()) * 10 + digit_val(s.last())
    }
}

/// Ten to the `k`.
pub open spec fn pow10(k: nat) -> nat
    decreases k,
{
    if k == 0 {
        1
    } else {
        10 * pow10((k - 1) as nat)
    }
}

/// Thousands separator stripped before parsing: comma or plain space.
pub open spec fn is_sep_char(c: char) -> bool {
    c == ',' || c == ' '
}

/// `s` with every separator character removed.
pub open spec fn remove_seps(s: Seq<char>) -> Seq<char>
    decreases s.len(),
{
    if s.len() == 0 {
        Seq::empty()
    } else {
        remove_seps(s.drop_last()) + (if is_sep_char(s.last()) {
            Seq::empty()
        } else {
            seq![s.last()]
        })
    }
}

/// Saturation of a mathematical count to `u32`.
pub open spec fn sat_u32(n: nat) -> u32 {
    if n > u32::MAX {
        u32::MAX
    } else {
        n as u32
    }
}

/// Value of a decimal numeral `t` (digits with at most one point, not
/// all empty) scaled by `pow10(m)` and truncated to an integer;
/// `None` when `t` is not such a numeral.
pub open spec fn spec_dec_scaled(t: Seq<char>, m: nat) -> Option<nat> {
    let dot = first_index_of(t, '.');
    if dot == t.len() {
        if all_digits(t) && t.len() > 0 {
            Some(int_of_digits(t) * pow10(m))
        } else {
            None
        }
    } else {
        let left = t.take(dot);
        let right = t.skip(dot + 1);
        if all_digits(left) && all_digits(right) && t.len() > 1 {
            let k = if right.len() < m {
                right.len() as int
            } else {
                m as int
            };
            Some(
                int_of_digits(left) * pow10(m) + int_of_digits(right.take(k)) * pow10(
                    (m - k) as nat,
                ),
            )
        } else {
            None
        }
    }
}

/// The numeric parser on a non-blank count: separators removed, an
/// optional magnitude suffix applied, `None` on anything that is not
/// a numeral.
pub open spec fn spec_parse_numerical_int(s: Seq<char>) -> Option<u32> {
    let t = remove_seps(trim_spec(s));
    if ends_with(t, suffix_k()) {
        match spec_dec_scaled(t.take(t.len() - suffix_k().len()), 3) {
            Some(v) => Some(sat_u32(v)),
            None => None,
        }
    } else if ends_with(t, suffix_10k()) {
        match spec_dec_scaled(t.take(t.len() - suffix_10k().len()), 4) {
            Some(v) => Some(sat_u32(v)),
            None => None,
        }
    } else if ends_with(t, suffix_100k()) {
        match spec_dec_scaled(t.take(t.len() - suffix_100k().len()), 5) {
            Some(v) => Some(sat_u32(v)),
            None => None,
        }
    } else {
        if all_digits(t) && t.len() > 0 && int_of_digits(t) <= u32::MAX {
            Some(int_of_digits(t) as u32)
        } else {
            None
        }
    }
}

/// The count parser: blank input counts as zero, anything else goes
/// through [`spec_parse_numerical_int`].
pub open spec fn spec_parse_count(s: Seq<char>) -> Option<u32> {
    if trim_spec(s).len() == 0 {
        Some(0)
    } else {
        spec_parse_numerical_int(s)
    }
}

/// A digit string is smaller than ten to its length.
proof fn lemma_int_of_bound(s: Seq<char>)
    requires
        all_digits(s),
    ensures
        int_of_digits(s) < pow10(s.len()),
    decreases s.len(),
{
    if s.len() > 0 {
        assert(forall|k: int| 0 <= k < s.len() - 1 ==> s.drop_last()[k] == s[k]);
        lemma_int_of_bound(s.drop_last());
        assert(is_digit_char(s.last()));
    }
}

/// Test for a decimal digit, with its value.
fn digit_of(c: char) -> (r: Option<u32>)
    ensures
        r is Some <==> is_digit_char(c),
        r matches Some(v) ==> v == digit_val(c) && v <= 9,
{
    let u = c as u32;
    if 48 <= u && u <= 57 {
        Some(u - 48)
    } else {
        None
    }
}

/// Value of the all-digit range `v[lo..hi]`, capped at `0x1_0000_0000`.
fn int_of_capped(v: &Vec<char>, lo: usize, hi: usize) -> (r: u64)
    requires
        0 <= lo <= hi <= v@.len(),
        all_digits(v@.subrange(lo as int, hi as int)),
    ensures
        int_of_digits(v@.subrange(lo as int, hi as int)) <= u32::MAX ==> r == int_of_digits(
            v@.subrange(lo as int, hi as int),
        ),
        int_of_digits(v@.subrange(lo as int, hi as int)) > u32::MAX ==> r == 0x1_0000_0000u64,
{
    let mut acc: u64 = 0;
    let mut i: usize = lo;
    while i < hi
        invariant
            lo <= i <= hi <= v@.len(),
            all_digits(v@.subrange(lo as int, hi as int)),
            int_of_digits(v@.subrange(lo as int, i as int)) <= u32::MAX ==> acc == int_of_digits(
                v@.subrange(lo as int, i as int),
            ),
            int_of_digits(v@.subrange(lo as int, i as int)) > u32::MAX ==> acc == 0x1_0000_0000u64,
            acc <= 0x1_0000_0000u64,
        decreases hi - i,
    {
        proof {
            let pre = v@.subrange(lo as int, i as int);
            let nxt = v@.subrange(lo as int, i + 1);
            assert(nxt.drop_last() =~= pre);
            assert(nxt.last() == v@[i as int]);
            assert(v@.subrange(lo as int, hi as int)[i - lo] == v@[i as int]);
        }
        let d = match digit_of(v[i]) {
            Some(d) => d,
            None => {
                proof {
                    assert(false);
                }
                0
            },
        };
        let next = acc * 10 + (d as u64);
        acc = if next > 0xFFFF_FFFFu64 {
            0x1_0000_0000u64
        } else {
            next
        };
        i = i + 1;
    }
    acc
}

/// Ten to the `k`, for small `k`.
fn pow10_exec(k: usize) -> (r: u64)
    requires
        k <= 5,
    ensures
        r == pow10(k as nat),
        1 <= r <= 100000,
{
    proof {
        reveal_with_fuel(pow10, 6);
    }
    if k == 0 {
        1
    } else if k == 1 {
        10
    } else if k == 2 {
        100
    } else if k == 3 {
        1000
    } else if k == 4 {
        10000
    } else {
        100000
    }
}

/// Whether every character of `v[lo..hi]` is a decimal digit.
fn all_digits_range(v: &Vec<char>, lo: usize, hi: usize) -> (r: bool)
    requires
        0 <= lo <= hi <= v@.len(),
    ensures
        r == all_digits(v@.subrange(lo as int, hi as int)),
{
    let mut i: usize = lo;
    while i < hi
        invariant
            lo <= i <= hi <= v@.len(),
            forall|k: int| lo <= k < i ==> is_digit_char(#[trigger] v@[k]),
        decreases hi - i,
    {
        if digit_of(v[i]).is_none() {
            proof {
                assert(v@.subrange(lo as int, hi as int)[i - lo] == v@[i as int]);
            }
            return false;
        }
        i = i + 1;
    }
    proof {
        assert(forall|k: int|
            0 <= k < hi - lo ==> #[trigger] v@.subrange(lo as int, hi as int)[k] == v@[k + lo]);
    }
    true
}

/// First index of `c` in `v[0..hi]`; `hi` when there is none.
fn first_index_vec(v: &Vec<char>, hi: usize, c: char) -> (r: usize)
    requires
        0 <= hi <= v@.len(),
    ensures
        r == first_index_of(v@.take(hi as int), c),
        r <= hi,
{
    let mut i: usize = 0;
    while i < hi && v[i] != c
        invariant
            0 <= i <= hi <= v@.len(),
            first_index_of(v@.take(hi as int), c) == first_index_from(
                v@.take(hi as int),
                c,
                i as int,
            ),
        decreases hi - i,
    {
        i = i + 1;
    }
    i
}

/// Scaled decimal parse of `v[0..hi]` with magnitude `m`, matching
/// [`spec_dec_scaled`] followed by saturation.
fn dec_scaled(v: &Vec<char>, hi: usize, m: usize) -> (r: Option<u32>)
    requires
        0 <= hi <= v@.len(),
        m == 3 || m == 4 || m == 5,
    ensures
        r == match spec_dec_scaled(v@.take(hi as int), m as nat) {
            Some(n) => Some(sat_u32(n)),
            None => None,
        },
{
    let ghost t = v@.take(hi as int);
    let dot = first_index_vec(v, hi, '.');
    proof {
        lemma_first_index_props(t, '.');
        lemma_pow10_mono(0, m as nat);
    }
    let f = pow10_exec(m);
    if dot == hi {
        // plain digit string
        if !all_digits_range(v, 0, hi) || hi == 0 {
            proof {
                assert(v@.subrange(0, hi as int) =~= t);
            }
            return None;
        }
        proof {
            assert(v@.subrange(0, hi as int) =~= t);
        }
        let a = int_of_capped(v, 0, hi);
        if a > 0xFFFF_FFFFu64 {
            proof {
                assert(int_of_digits(t) * pow10(m as nat) > u32::MAX) by (nonlinear_arith)
                    requires
                        int_of_digits(t) > u32::MAX,
                        pow10(m as nat) >= 1,
                ;
            }
            return Some(u32::MAX);
        }
        // a * f fits easily in u64
        proof {
            assert(a * f <= 0xFFFF_FFFFu64 * 100000) by (nonlinear_arith)
                requires
                    a <= 0xFFFF_FFFFu64,
                    f <= 100000,
            ;
        }
        let total = a * f;
        if total > 0xFFFF_FFFFu64 {
            Some(u32::MAX)
        } else {
            Some(total as u32)
        }
    } else {
        // left part, point, right part
        if hi <= 1 {
            return None;
        }
        if !all_digits_range(v, 0, dot) {
            proof {
                assert(v@.subrange(0, dot as int) =~= t.take(dot as int));
            }
            return None;
        }
        if !all_digits_range(v, dot + 1, hi) {
            proof {
                assert(v@.subrange(dot + 1, hi as int) =~= t.skip(dot + 1));
            }
            return None;
        }
        proof {
            assert(v@.subrange(0, dot as int) =~= t.take(dot as int));
            assert(v@.subrange(dot + 1, hi as int) =~= t.skip(dot + 1));
        }
        let a = int_of_capped(v, 0, dot);
        let rlen = hi - (dot + 1);
        let k = if rlen < m {
            rlen
        } else {
            m
        };
        proof {
            assert(v@.subrange(dot + 1, dot + 1 + k) =~= t.skip(dot + 1).take(k as int));
            assert(forall|j: int|
                0 <= j < k ==> #[trigger] t.skip(dot + 1).take(k as int)[j] == t.skip(dot + 1)[j]);
            assert(all_digits(t.skip(dot + 1).take(k as int)));
            lemma_int_of_bound(t.skip(dot + 1).take(k as int));
            lemma_pow10_mono(k as nat, 5);
            reveal_with_fuel(pow10, 6);
        }
        let frac = int_of_capped(v, dot + 1, dot + 1 + k);
        let scale = pow10_exec(m - k);
        proof {
            assert(frac * scale <= 100000u64 * 100000) by (nonlinear_arith)
                requires
                    frac <= 100000u64,
                    scale <= 100000u64,
            ;
        }
        if a > 0xFFFF_FFFFu64 {
            proof {
                assert(int_of_digits(t.take(dot as int)) * pow10(m as nat) > u32::MAX)
                    by (nonlinear_arith)
                    requires
                        int_of_digits(t.take(dot as int)) > u32::MAX,
                        pow10(m as nat) >= 1,
                ;
            }
            return Some(u32::MAX);
        }
        proof {
            assert(a * f <= 0xFFFF_FFFFu64 * 100000) by (nonlinear_arith)
                requires
                    a <= 0xFFFF_FFFFu64,
                    f <= 100000,
            ;
        }
        let total = a * f + frac * scale;
        if total > 0xFFFF_FFFFu64 {
            Some(u32::MAX)
        } else {
            Some(total as u32)
        }
    }
}

/// When the first occurrence index equals the length, the character
/// does not occur; otherwise it occurs there first.
proof fn lemma_first_index_props(s: Seq<char>, c: char)
    ensures
        first_index_of(s, c) == s.len() ==> forall|k: int| 0 <= k < s.len() ==> s[k] != c,
        first_index_of(s, c) < s.len() ==> 0 <= first_index_of(s, c) && s[first_index_of(s, c)]
            == c,
{
    lemma_first_index_from_props(s, c, 0);
}

proof fn lemma_first_index_from_props(s: Seq<char>, c: char, i: int)
    requires
        0 <= i <= s.len(),
    ensures
        first_index_from(s, c, i) == s.len() ==> forall|k: int| i <= k < s.len() ==> s[k] != c,
        first_index_from(s, c, i) < s.len() ==> i <= first_index_from(s, c, i) && s[first_index_from(
            s,
            c,
            i,
        )] == c,
    decreases s.len() - i,
{
    if i < s.len() && s[i] != c {
        lemma_first_index_from_props(s, c, i + 1);
    }
}

/// Ten-to-the is positive.
proof fn lemma_pow10_pos(k: nat)
    ensures
        pow10(k) >= 1,
    decreases k,
{
    if k > 0 {
        lemma_pow10_pos((k - 1) as nat);
    }
}

/// Ten-to-the is monotone.
proof fn lemma_pow10_mono(a: nat, b: nat)
    requires
        a <= b,
    ensures
        pow10(a) <= pow10(b),
        pow10(a) >= 1,
    decreases b,
{
    lemma_pow10_pos(a);
    if a < b {
        lemma_pow10_mono(a, (b - 1) as nat);
        assert(pow10(b) == 10 * pow10((b - 1) as nat));
    }
}

/// Removes separators from `v`, matching [`remove_seps`].
fn remove_seps_exec(v: &Vec<char>) -> (r: Vec<char>)
    ensures
        r@ == remove_seps(v@),
{
    let mut out: Vec<char> = Vec::new();
    let mut i: usize = 0;
    let n = v.len();
    while i < n
        invariant
            0 <= i <= n == v@.len(),
            out@ == remove_seps(v@.take(i as int)),
        decreases n - i,
    {
        proof {
            let pre = v@.take(i as int);
            let nxt = v@.take(i + 1);
            assert(nxt.drop_last() =~= pre);
            assert(nxt.last() == v@[i as int]);
        }
        let c = v[i];
        if !(c == ',' || c == ' ') {
            out.push(c);
            proof {
                assert(out@ =~= remove_seps(v@.take(i + 1)));
            }
        } else {
            proof {
                assert(out@ =~= remove_seps(v@.take(i + 1)));
            }
        }
        i = i + 1;
    }
    proof {
        assert(v@.take(n as int) =~= v@);
    }
    out
}

/// Whether `v[0..]` ends with the pattern `p`.
fn vec_ends_with(v: &Vec<char>, p: &str) -> (r: bool)
    ensures
        r == ends_with(v@, p@),
{
    let n = v.len();
    let m = p.unicode_len();
    if m > n {
        return false;
    }
    let mut k: usize = 0;
    while k < m
        invariant
            0 <= k <= m <= n == v@.len(),
            m == p@.len(),
            forall|t: int| 0 <= t < k ==> v@[n - m + t] == p@[t],
        decreases m - k,
    {
        if v[n - m + k] != p.get_char(k) {
            assert(v@.skip(n - m) != p@) by {
                assert(v@.skip(n - m)[k as int] == v@[n - m + k]);
            }
            return false;
        }
        k = k + 1;
    }
    assert(v@.skip(n - m) =~= p@);
    true
}

/// Parses a count with an optional localized magnitude suffix.
/// Matches [`spec_parse_numerical_int`]; `None` is a locale parse
/// failure.
pub fn parse_numerical_int(s: &str) -> (r: Option<u32>)
    ensures
        r == spec_parse_numerical_int(s@),
{
    let trimmed = trim_str(s);
    let cs = to_chars(trimmed.as_str());
    let t = remove_seps_exec(&cs);
    let n = t.len();
    let suf_k = "\u{e1e}\u{e31}\u{e19}";
    let suf_10k = "\u{e2b}\u{e21}\u{e37}\u{e48}\u{e19}";
    let suf_100k = "\u{e41}\u{e2a}\u{e19}";
    if vec_ends_with(&t, suf_k) {
        let hi = n - suf_k.unicode_len();
        proof {
            assert(t@.take(hi as int) =~= t@.take(t@.len() - suffix_k().len()));
        }
        dec_scaled(&t, hi, 3)
    } else if vec_ends_with(&t, suf_10k) {
        let hi = n - suf_10k.unicode_len();
        proof {
            assert(t@.take(hi as int) =~= t@.take(t@.len() - suffix_10k().len()));
        }
        dec_scaled(&t, hi, 4)
    } else if vec_ends_with(&t, suf_100k) {
        let hi = n - suf_100k.unicode_len();
        proof {
            assert(t@.take(hi as int) =~= t@.take(t@.len() - suffix_100k().len()));
        }
        dec_scaled(&t, hi, 5)
    } else {
        if !all_digits_range(&t, 0, n) || n == 0 {
            proof {
                assert(t@.subrange(0, n as int) =~= t@);
            }
            return None;
        }
        proof {
            assert(t@.subrange(0, n as int) =~= t@);
        }
        let a = int_of_capped(&t, 0, n);
        if a > 0xFFFF_FFFFu64 {
            None
        } else {
            Some(a as u32)
        }
    }
}

/// Parses a displayed count: blank input yields zero, anything else
/// must be a numeral per [`spec_parse_numerical_int`].
pub fn parse_count(s: &str) -> (r: Option<u32>)
    ensures
        r == spec_parse_count(s@),
{
    let trimmed = trim_str(s);
    if trimmed.as_str().unicode_len() == 0 {
        proof {
            assert(trim_spec(s@).len() == 0);
        }
        return Some(0);
    }
    parse_numerical_int(s)
}

} // verus!
