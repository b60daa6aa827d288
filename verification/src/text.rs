//! Human-readable display of parameter values.
//!
//! Values are rendered as decimal numbers in natural units with two
//! fractional digits and an optional unit suffix, and parsed back from text
//! with or without that suffix.  A string that is not a decimal number in
//! this convention is rejected with `InvalidFormat`, never silently
//! defaulted.

use vstd::prelude::*;
use crate::fixed::VAL_MAX;
use crate::params::ParamError;

verus! {

/// ASCII decimal digit.
pub open spec fn is_digit(b: u8) -> bool {
    48 <= b <= 57
}

/// Every byte of `s[i..j)` is a decimal digit.
pub open spec fn all_digits(s: Seq<u8>, i: int, j: int) -> bool {
    forall|k: int| i <= k < j ==> is_digit(#[trigger] s[k])
}

/// The value of the digit run `s[i..j)`.
pub open spec fn digits_val(s: Seq<u8>, i: int, j: int) -> int
    decreases j - i,
{
    if j <= i {
        0
    } else {
        digits_val(s, i, j - 1) * 10 + (s[j - 1] - 48)
    }
}

/// Ten to the `k`-th power.
pub open spec fn pow10(k: int) -> int
    decreases k,
{
    if k <= 0 {
        1
    } else {
        10 * pow10(k - 1)
    }
}

/// The first position at or after `i` holding an ASCII dot, or the length.
pub open spec fn first_dot(s: Seq<u8>, i: int) -> int
    decreases s.len() - i,
{
    if i < 0 || i >= s.len() {
        s.len() as int
    } else if s[i] == 46 {
        i
    } else {
        first_dot(s, i + 1)
    }
}

/// Where the number's digits begin: after an optional leading minus sign.
pub open spec fn body_start(s: Seq<u8>) -> int {
    if s.len() > 0 && s[0] == 45 {
        1
    } else {
        0
    }
}

/// A well-formed decimal: optional sign, one to seven integer digits, and
/// optionally a dot followed by one to six fractional digits.
pub open spec fn number_wf(s: Seq<u8>) -> bool {
    let n = s.len() as int;
    let b = body_start(s);
    let dot = first_dot(s, b);
    if dot == n {
        1 <= n - b <= 7 && all_digits(s, b, n)
    } else {
        1 <= dot - b <= 7 && all_digits(s, b, dot) && 1 <= n - dot - 1 <= 6 && all_digits(
            s,
            dot + 1,
            n,
        )
    }
}

/// The value of a well-formed decimal, in micro-units.
pub open spec fn number_val(s: Seq<u8>) -> int {
    let n = s.len() as int;
    let b = body_start(s);
    let dot = first_dot(s, b);
    let whole = digits_val(s, b, dot);
    let frac = if dot == n {
        0int
    } else {
        digits_val(s, dot + 1, n) * pow10(6 - (n - dot - 1))
    };
    if b == 1 {
        -(whole * 1_000_000 + frac)
    } else {
        whole * 1_000_000 + frac
    }
}

/// The text with one trailing unit suffix removed, when it carries one.
pub open spec fn strip_unit_spec(s: Seq<u8>, unit: Seq<u8>) -> Seq<u8> {
    if s.len() >= unit.len() && s.subrange(s.len() - unit.len(), s.len() as int) == unit {
        s.take(s.len() - unit.len())
    } else {
        s
    }
}

/// The small powers of ten, by unfolding.
proof fn lemma_pow10_vals()
    ensures
        pow10(0) == 1,
        pow10(1) == 10,
        pow10(2) == 100,
        pow10(3) == 1000,
        pow10(4) == 10_000,
        pow10(5) == 100_000,
        pow10(6) == 1_000_000,
        pow10(7) == 10_000_000,
{
    reveal_with_fuel(pow10, 9);
}

/// A digit run's value grows with its digit count.
proof fn lemma_digits_val_bound(s: Seq<u8>, i: int, j: int)
    requires
        i <= j <= s.len(),
        all_digits(s, i, j),
    ensures
        0 <= digits_val(s, i, j) < pow10(j - i),
    decreases j - i,
{
    if j > i {
        lemma_digits_val_bound(s, i, j - 1);
    }
}

/// Parse a decimal string in micro-units, accepting an optional trailing
/// unit suffix.  Returns `InvalidFormat`, and only that, exactly when the
/// remaining text is not a well-formed decimal.
pub fn parse_value(s: &[u8], unit: &[u8]) -> (r: Result<i64, ParamError>)
    ensures
        match r {
            Ok(v) => number_wf(strip_unit_spec(s@, unit@)) && v == number_val(
                strip_unit_spec(s@, unit@),
            ),
            Err(e) => e == ParamError::InvalidFormat && !number_wf(strip_unit_spec(s@, unit@)),
        },
{
    let n: usize = s.len();
    let ulen: usize = unit.len();
    let mut end: usize = n;
    if ulen <= n {
        let mut matches: bool = true;
        let mut i: usize = 0;
        while i < ulen
            invariant
                0 <= i <= ulen <= n == s@.len(),
                ulen == unit@.len(),
                matches <==> (forall|j: int| 0 <= j < i ==> s@[n - ulen + j] == unit@[j]),
            decreases ulen - i,
        {
            if s[n - ulen + i] != unit[i] {
                matches = false;
            }
            i = i + 1;
        }
        if matches {
            end = n - ulen;
            proof {
                assert(s@.subrange(n - ulen, n as int) =~= unit@);
            }
        } else {
            proof {
                assert(s@.subrange(n - ulen, n as int) != unit@) by {
                    let j = choose|j: int| 0 <= j < ulen && s@[n - ulen + j] != unit@[j];
                    assert(s@.subrange(n - ulen, n as int)[j] != unit@[j]);
                }
            }
        }
    }
    let ghost t = strip_unit_spec(s@, unit@);
    proof {
        assert(t =~= s@.take(end as int));
    }
    let b: usize = if end > 0 && s[0] == 45 {
        1
    } else {
        0
    };
    proof {
        assert(body_start(t) == b);
    }
    if end == b {
        proof {
            assert(first_dot(t, b as int) == end);
        }
        return Err(ParamError::InvalidFormat);
    }
    // Integer digits up to the first dot or the end.
    let mut i: usize = b;
    let mut whole: u64 = 0;
    while i < end && s[i] >= 48 && s[i] <= 57 && i - b < 8
        invariant
            b <= i <= end <= s@.len(),
            t == s@.take(end as int),
            end > b,
            i - b <= 8,
            all_digits(t, b as int, i as int),
            whole == digits_val(t, b as int, i as int),
            whole < 100_000_000,
        decreases end - i,
    {
        proof {
            lemma_digits_val_bound(t, b as int, i as int);
            lemma_pow10_vals();
            lemma_pow10_le((i - b) as int, 7);
        }
        whole = whole * 10 + ((s[i] - 48) as u64);
        i = i + 1;
    }
    let dot: usize = i;
    proof {
        assert forall|k: int| b <= k < i implies t[k] != 46 by {
            assert(is_digit(t[k]));
        }
        lemma_first_dot_after(t, b as int, i as int);
        lemma_first_dot_range(t, i as int);
        lemma_first_dot_char(t, b as int);
    }
    if i - b > 7 || (i < end && s[i] != 46) {
        // Too many integer digits, or a stray character before any dot.
        proof {
            let d = first_dot(t, b as int);
            if i - b > 7 {
                assert(d - b > 7);
            } else {
                assert(t[i as int] == s@[i as int]);
                assert(!is_digit(t[i as int]) && t[i as int] != 46);
                assert(d != i);
                assert(d > i);
                assert(!all_digits(t, b as int, d));
                assert(!all_digits(t, b as int, t.len() as int));
            }
            assert(!number_wf(t));
        }
        return Err(ParamError::InvalidFormat);
    }
    if i == b {
        // A dot with no integer digits before it.
        proof {
            assert(t[i as int] == s@[i as int]);
            assert(first_dot(t, b as int) == b);
            assert(!number_wf(t));
        }
        return Err(ParamError::InvalidFormat);
    }
    if i == end {
        // No fractional part.
        proof {
            assert(first_dot(t, b as int) == t.len());
            assert(number_wf(t));
            lemma_digits_val_bound(t, b as int, end as int);
            lemma_pow10_vals();
            lemma_pow10_le((end - b) as int, 7);
        }
        let v: i64 = (whole as i64) * 1_000_000;
        if b == 1 {
            return Ok(-v);
        } else {
            return Ok(v);
        }
    }
    proof {
        assert(t[i as int] == 46);
        assert(first_dot(t, b as int) == i);
    }
    // Fractional digits after the dot.
    let mut j: usize = i + 1;
    let mut frac: u64 = 0;
    while j < end && s[j] >= 48 && s[j] <= 57 && j - dot < 8
        invariant
            dot + 1 <= j <= end <= s@.len(),
            t == s@.take(end as int),
            dot == i < end,
            j - dot <= 8,
            all_digits(t, dot + 1, j as int),
            frac == digits_val(t, dot + 1, j as int),
            frac < 100_000_000,
        decreases end - j,
    {
        proof {
            lemma_digits_val_bound(t, dot + 1, j as int);
            lemma_pow10_vals();
            lemma_pow10_le((j - dot - 1) as int, 7);
        }
        frac = frac * 10 + ((s[j] - 48) as u64);
        j = j + 1;
    }
    if j < end || j == dot + 1 || j - dot - 1 > 6 {
        // A stray character, no fractional digit, or too many of them.
        proof {
            assert(first_dot(t, b as int) == dot);
            if j < end {
                assert(t[j as int] == s@[j as int]);
                if s@[j as int] < 48 || s@[j as int] > 57 {
                    assert(!is_digit(t[j as int]));
                    assert(!all_digits(t, dot + 1, t.len() as int));
                } else {
                    assert(j - dot >= 8);
                    assert(!(t.len() - dot - 1 <= 6));
                }
            } else if j == dot + 1 {
                assert(t.len() - dot - 1 == 0);
            } else {
                assert(!(t.len() - dot - 1 <= 6));
            }
            assert(!number_wf(t));
        }
        return Err(ParamError::InvalidFormat);
    }
    proof {
        assert(number_wf(t));
        lemma_digits_val_bound(t, b as int, dot as int);
        lemma_digits_val_bound(t, dot + 1, end as int);
        lemma_pow10_vals();
        lemma_pow10_le((dot - b) as int, 7);
        lemma_pow10_le((end - dot - 1) as int, 7);
        lemma_pow10_le(6 - (end - dot - 1) as int, 6);
        assert(0 <= frac * pow10(6 - (end - dot - 1)) < 1_000_000_000_000_000) by (nonlinear_arith)
            requires
                0 <= frac < 100_000_000,
                0 < pow10(6 - (end - dot - 1)) <= 1_000_000,
        ;
    }
    let scale: u64 = frac_scale((end - dot - 1) as u64);
    let v: i64 = (whole as i64) * 1_000_000 + ((frac * scale) as i64);
    if b == 1 {
        Ok(-v)
    } else {
        Ok(v)
    }
}

/// Ten to the power that pads `k` fractional digits out to six.
fn frac_scale(k: u64) -> (r: u64)
    requires
        1 <= k <= 6,
    ensures
        r == pow10(6 - k),
{
    proof {
        lemma_pow10_vals();
    }
    if k == 1 {
        100_000
    } else if k == 2 {
        10_000
    } else if k == 3 {
        1_000
    } else if k == 4 {
        100
    } else if k == 5 {
        10
    } else {
        1
    }
}

/// The decimal digits of `n`, most significant first.
pub open spec fn dec_digits(n: nat) -> Seq<u8>
    decreases n,
{
    if n < 10 {
        seq![(48 + n) as u8]
    } else {
        dec_digits(n / 10) + seq![(48 + n % 10) as u8]
    }
}

/// The canonical rendering of a value in micro-units: optional sign, the
/// whole part, a dot, two fractional digits rounded to the nearest
/// hundredth (half away from zero), and the unit suffix.
pub open spec fn format_spec(v: int, unit: Seq<u8>) -> Seq<u8> {
    let mag = if v < 0 {
        -v
    } else {
        v
    };
    let cents = (mag + 5000) / 10000;
    let sign: Seq<u8> = if v < 0 {
        seq![45u8]
    } else {
        Seq::empty()
    };
    sign + dec_digits((cents / 100) as nat) + seq![
        46u8,
        (48 + (cents % 100) / 10) as u8,
        (48 + cents % 10) as u8,
    ] + unit
}

/// Append the decimal digits of `w`, most significant first.
fn push_digits(r: &mut Vec<u8>, w: u64)
    ensures
        final(r)@ == old(r)@ + dec_digits(w as nat),
    decreases w,
{
    if w < 10 {
        r.push(48 + (w as u8));
        proof {
            assert(final(r)@ =~= old(r)@ + dec_digits(w as nat));
        }
    } else {
        push_digits(r, w / 10);
        r.push(48 + ((w % 10) as u8));
        proof {
            assert((w as nat) / 10 == (w / 10) as nat);
            assert(final(r)@ =~= old(r)@ + dec_digits(w as nat));
        }
    }
}

/// Render a value in micro-units as a decimal with two fractional digits
/// and the given unit suffix.
pub fn format_value(v: i64, unit: &[u8]) -> (r: Vec<u8>)
    requires
        -VAL_MAX <= v <= VAL_MAX,
    ensures
        r@ == format_spec(v as int, unit@),
{
    let mag: u64 = if v < 0 {
        (-v) as u64
    } else {
        v as u64
    };
    let cents: u64 = (mag + 5000) / 10000;
    let whole: u64 = cents / 100;
    let rem: u64 = cents % 100;
    let tens: u64 = rem / 10;
    let ones: u64 = cents % 10;
    let mut r: Vec<u8> = Vec::new();
    if v < 0 {
        r.push(45);
    }
    push_digits(&mut r, whole);
    r.push(46);
    r.push(48 + (tens as u8));
    r.push(48 + (ones as u8));
    let ghost core = r@;
    let mut q: usize = 0;
    while q < unit.len()
        invariant
            0 <= q <= unit@.len(),
            r@ == core + unit@.take(q as int),
        decreases unit@.len() - q,
    {
        r.push(unit[q]);
        proof {
            assert(r@ =~= core + unit@.take(q + 1));
        }
        q = q + 1;
    }
    proof {
        assert(unit@.take(unit@.len() as int) =~= unit@);
        assert(r@ =~= format_spec(v as int, unit@));
    }
    r
}

/// `pow10` is monotone.
proof fn lemma_pow10_le(a: int, b: int)
    requires
        a <= b,
    ensures
        pow10(a) <= pow10(b),
        0 < pow10(a),
    decreases b - a,
{
    if a < b {
        lemma_pow10_le(a, b - 1);
    } else {
        lemma_pow10_pos(a);
    }
}

/// `pow10` is positive.
proof fn lemma_pow10_pos(a: int)
    ensures
        0 < pow10(a),
    decreases
            if a > 0 {
                a
            } else {
                0
            },
{
    if a > 0 {
        lemma_pow10_pos(a - 1);
    }
}

/// The first dot lies between the start and the length.
proof fn lemma_first_dot_range(s: Seq<u8>, i: int)
    requires
        0 <= i <= s.len(),
    ensures
        i <= first_dot(s, i) <= s.len(),
    decreases s.len() - i,
{
    if i < s.len() && s[i] != 46 {
        lemma_first_dot_range(s, i + 1);
    }
}

/// The byte at the first dot, when inside the text, is a dot, and nothing
/// before it is.
proof fn lemma_first_dot_char(s: Seq<u8>, i: int)
    requires
        0 <= i <= s.len(),
    ensures
        first_dot(s, i) < s.len() ==> s[first_dot(s, i)] == 46,
        forall|k: int| i <= k < first_dot(s, i) ==> s[k] != 46,
    decreases s.len() - i,
{
    if i < s.len() && s[i] != 46 {
        lemma_first_dot_char(s, i + 1);
    }
}

/// When no byte of `s[i..j)` is a dot, the first dot search passes `j`.
proof fn lemma_first_dot_after(s: Seq<u8>, i: int, j: int)
    requires
        0 <= i <= j <= s.len(),
        forall|k: int| i <= k < j ==> s[k] != 46,
    ensures
        first_dot(s, i) == first_dot(s, j),
    decreases j - i,
{
    if i < j {
        lemma_first_dot_after(s, i + 1, j);
    }
}

} // verus!
