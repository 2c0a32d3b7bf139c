//! Byte-level text helpers shared by the path router and the segment
//! parser: ASCII digit runs, bounded decimal parsing, and lowercase hex.

use vstd::prelude::*;

verus! {

/// An ASCII decimal digit `'0'..='9'`.
pub open spec fn is_ascii_digit(b: u8) -> bool {
    48 <= b && b <= 57
}

/// Every byte of `s` is an ASCII decimal digit.
pub open spec fn all_ascii_digits(s: Seq<u8>) -> bool {
    forall|i: int| 0 <= i < s.len() ==> is_ascii_digit(#[trigger] s[i])
}

/// The non-negative integer written by the digit string `s`, most
/// significant digit first.
pub open spec fn digits_val(s: Seq<u8>) -> nat
    decreases s.len(),
{
    if s.len() == 0 {
        0
    } else {
        digits_val(s.drop_last()) * 10 + (s.last() - 48) as nat
    }
}

/// First index at or after `i` that is past the run of decimal digits
/// starting at `i` (so `s[i..digit_run_end(s, i)]` is all digits).
pub open spec fn digit_run_end(s: Seq<u8>, i: int) -> int
    decreases s.len() - i,
{
    if i < 0 || i >= s.len() || !is_ascii_digit(s[i]) {
        i
    } else {
        digit_run_end(s, i + 1)
    }
}

pub proof fn lemma_digit_run_end_bounds(s: Seq<u8>, i: int)
    requires
        0 <= i <= s.len(),
    ensures
        i <= digit_run_end(s, i) <= s.len(),
        forall|k: int| i <= k < digit_run_end(s, i) ==> is_ascii_digit(#[trigger] s[k]),
        digit_run_end(s, i) == s.len() || !is_ascii_digit(s[digit_run_end(s, i)]),
    decreases s.len() - i,
{
    if i < s.len() && is_ascii_digit(s[i]) {
        lemma_digit_run_end_bounds(s, i + 1);
    }
}

/// Extending a digit string never decreases its value.
pub proof fn lemma_digits_val_prefix_le(s: Seq<u8>, n: int)
    requires
        0 <= n <= s.len(),
    ensures
        digits_val(s.take(n)) <= digits_val(s),
    decreases s.len(),
{
    if n < s.len() {
        assert(s.drop_last().take(n) =~= s.take(n));
        lemma_digits_val_prefix_le(s.drop_last(), n);
        assert(digits_val(s) == digits_val(s.drop_last()) * 10 + (s.last() - 48) as nat);
        assert(digits_val(s.drop_last()) * 10 >= digits_val(s.drop_last())) by (nonlinear_arith);
    } else {
        assert(s.take(n) =~= s);
    }
}

/// Scans forward from `i` to the end of the run of decimal digits.
pub fn digit_run(b: &[u8], i: usize) -> (j: usize)
    requires
        i <= b@.len(),
    ensures
        j == digit_run_end(b@, i as int),
        i <= j <= b@.len(),
{
    let n = b.len();
    let mut j = i;
    while j < n && 48 <= b[j] && b[j] <= 57
        invariant
            i <= j <= n,
            n == b@.len(),
            digit_run_end(b@, i as int) == digit_run_end(b@, j as int),
        decreases n - j,
    {
        assert(digit_run_end(b@, j as int) == digit_run_end(b@, j + 1));
        j = j + 1;
    }
    assert(digit_run_end(b@, j as int) == j);
    j
}

/// Parses the digit string `b[from..to]` as a decimal integer, refusing
/// values above `max`.
pub fn parse_decimal(b: &[u8], from: usize, to: usize, max: u64) -> (r: Option<u64>)
    requires
        from <= to <= b@.len(),
        all_ascii_digits(b@.subrange(from as int, to as int)),
    ensures
        match r {
            Some(v) => v as nat == digits_val(b@.subrange(from as int, to as int)) && v <= max,
            None => digits_val(b@.subrange(from as int, to as int)) > max,
        },
{
    let ghost whole = b@.subrange(from as int, to as int);
    let mut acc: u64 = 0;
    let mut i: usize = from;
    while i < to
        invariant
            from <= i <= to <= b@.len(),
            all_ascii_digits(whole),
            whole == b@.subrange(from as int, to as int),
            acc as nat == digits_val(b@.subrange(from as int, i as int)),
            acc <= max,
        decreases to - i,
    {
        let ghost pre = b@.subrange(from as int, i as int);
        assert(whole[i - from] == b@[i as int]);
        let d: u8 = b[i] - 48;
        proof {
            assert(b@.subrange(from as int, i + 1) =~= pre.push(b@[i as int]));
            assert(pre.push(b@[i as int]).drop_last() =~= pre);
            assert(digits_val(b@.subrange(from as int, i + 1)) == acc * 10 + d);
            vstd::arithmetic::div_mod::lemma_fundamental_div_mod(max as int, 10);
        }
        if acc > max / 10 || (acc == max / 10 && d as u64 > max % 10) {
            proof {
                assert(digits_val(b@.subrange(from as int, i + 1)) > max) by {
                    let q = max as int / 10;
                    assert(acc > q || d > max as int % 10);
                    assert(acc * 10 >= q * 10 + 10 ==> acc * 10 + d > max) by (nonlinear_arith)
                        requires
                            max as int == q * 10 + max as int % 10,
                            max as int % 10 < 10,
                            acc as int >= 0,
                            d as int >= 0,
                    ;
                    assert(acc > q ==> acc * 10 >= q * 10 + 10) by (nonlinear_arith);
                };
                assert(whole.take(i + 1 - from) =~= b@.subrange(from as int, i + 1));
                lemma_digits_val_prefix_le(whole, i + 1 - from);
            }
            return None;
        }
        proof {
            let q = max as int / 10;
            assert(acc <= q);
            assert(acc * 10 + d <= max) by (nonlinear_arith)
                requires
                    acc as int <= q,
                    max as int == q * 10 + max as int % 10,
                    0 <= max as int % 10 < 10,
                    d < 10,
                    acc == q ==> d <= max as int % 10,
            ;
        }
        acc = acc * 10 + d as u64;
        i = i + 1;
    }
    assert(b@.subrange(from as int, to as int) =~= whole);
    Some(acc)
}

/// `pat` occurs in `s` starting at index `at`.
pub open spec fn sub_eq(s: Seq<u8>, at: int, pat: Seq<u8>) -> bool {
    0 <= at && at + pat.len() <= s.len() && s.subrange(at, at + pat.len()) == pat
}

/// Checks whether `pat` occurs in `b` starting at byte `at`.
pub fn has_at(b: &[u8], at: usize, pat: &[u8]) -> (r: bool)
    requires
        at <= b@.len(),
    ensures
        r == sub_eq(b@, at as int, pat@),
{
    let n = b.len();
    if n - at < pat.len() {
        assert(!sub_eq(b@, at as int, pat@));
        return false;
    }
    let mut i: usize = 0;
    while i < pat.len()
        invariant
            n == b@.len(),
            at + pat@.len() <= n,
            0 <= i <= pat@.len(),
            forall|k: int| 0 <= k < i ==> b@[at + k] == pat@[k],
        decreases pat@.len() - i,
    {
        if b[at + i] != pat[i] {
            assert(b@.subrange(at as int, at + pat@.len())[i as int] != pat@[i as int]);
            return false;
        }
        i = i + 1;
    }
    assert(b@.subrange(at as int, at + pat@.len()) =~= pat@);
    true
}

/// Whole-slice equality against a pattern.
pub fn bytes_eq(a: &[u8], pat: &[u8]) -> (r: bool)
    ensures
        r == (a@ == pat@),
{
    proof {
        assert(a@ =~= a@.subrange(0, a@.len() as int));
    }
    if a.len() != pat.len() {
        return false;
    }
    has_at(a, 0, pat)
}

/// The signed decimal integer written by `v`: an optional leading minus
/// sign, then at least one digit, with a magnitude that fits 63 bits.
pub open spec fn spec_parse_i64(v: Seq<u8>) -> Option<int> {
    if v.len() > 0 && v[0] == 45 {
        let d = v.skip(1);
        if d.len() > 0 && all_ascii_digits(d) && digits_val(d) <= 9223372036854775807 {
            Some(-(digits_val(d) as int))
        } else {
            None
        }
    } else {
        if v.len() > 0 && all_ascii_digits(v) && digits_val(v) <= 9223372036854775807 {
            Some(digits_val(v) as int)
        } else {
            None
        }
    }
}

/// Parses a signed decimal integer.
pub fn parse_i64(b: &[u8]) -> (r: Option<i64>)
    ensures
        match r {
            Some(x) => spec_parse_i64(b@) == Some(x as int),
            None => spec_parse_i64(b@) is None,
        },
{
    let n = b.len();
    if n == 0 {
        return None;
    }
    let neg = b[0] == 45;
    let start: usize = if neg {
        1
    } else {
        0
    };
    let ghost d = if neg {
        b@.skip(1)
    } else {
        b@
    };
    assert(d =~= b@.subrange(start as int, n as int));
    if n == start {
        return None;
    }
    let run = digit_run(b, start);
    proof {
        lemma_digit_run_end_bounds(b@, start as int);
    }
    if run != n {
        assert(!is_ascii_digit(b@[run as int]));
        assert(!all_ascii_digits(d)) by {
            assert(d[run - start] == b@[run as int]);
        }
        return None;
    }
    assert(all_ascii_digits(d)) by {
        assert(forall|k: int| 0 <= k < d.len() ==> d[k] == b@[start + k] && is_ascii_digit(
            #[trigger] b@[start + k],
        ));
    }
    match parse_decimal(b, start, n, 9223372036854775807) {
        None => None,
        Some(v) => if neg {
            Some(-(v as i64))
        } else {
            Some(v as i64)
        },
    }
}

/// A lowercase ASCII hex digit `'0'..='9' | 'a'..='f'`.
pub open spec fn is_lower_hex_digit(b: u8) -> bool {
    (48 <= b && b <= 57) || (97 <= b && b <= 102)
}

/// Value of one lowercase hex digit.
pub open spec fn hex_digit_val(b: u8) -> int {
    if 48 <= b && b <= 57 {
        b - 48
    } else {
        b - 87
    }
}

/// Lowercase hex digit for a value in `0..16`.
pub open spec fn hex_digit_of(v: int) -> u8 {
    if v < 10 {
        (48 + v) as u8
    } else {
        (87 + v) as u8
    }
}

} // verus!
