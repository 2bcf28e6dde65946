//! Decimal fixed-point numbers.
//!
//! The scan format carries fractional quantities (angles in radians,
//! ranges in meters, hues in degrees, projection parameters).  The
//! library stores every such quantity as an `i64` counting millionths
//! of a unit, so that all arithmetic stays on integers and every
//! operation has an exact mathematical description.  A text field such
//! as `1.5708` decodes to `1_570_800`.
//!
//! Values whose magnitude does not fit the `i64` range, and fractional
//! digits beyond the sixth, are rejected or truncated toward zero; the
//! accepted grammar is an optional sign, an integer part and an
//! optional fractional part, with at least one digit overall.

use vstd::prelude::*;

verus! {

/// Number of fixed-point steps per whole unit.
pub const FX_ONE: i64 = 1_000_000;

/// Saturation cap for digit accumulation while scanning a number.
/// Any digit string whose value reaches the cap already exceeds every
/// magnitude this library accepts, so the scanner may stop growing.
pub const DIGIT_CAP: u64 = 1_000_000_000_000_000_000;

/// Division that rounds toward zero, the rounding used by all
/// fixed-point operations of this library.  `b` must be positive.
pub open spec fn div_towards_zero(a: int, b: int) -> int {
    if a >= 0 {
        a / b
    } else {
        -((-a) / b)
    }
}

/// Product of two fixed-point values, rounded toward zero.
pub open spec fn spec_fx_mul(a: int, b: int) -> int {
    div_towards_zero(a * b, FX_ONE as int)
}

/// Magnitude of an `i64`, as a mathematical integer.
pub open spec fn abs_of(a: int) -> int {
    if a >= 0 {
        a
    } else {
        -a
    }
}

/// Magnitude of `a`, exact also for `i64::MIN`.
pub fn abs_u128(a: i64) -> (r: u128)
    ensures
        r == abs_of(a as int),
{
    if a >= 0 {
        a as u128
    } else {
        (-(a as i128)) as u128
    }
}

/// Fixed-point multiplication.  The requirement keeps the mathematical
/// result inside the `i64` range.
pub fn fx_mul(a: i64, b: i64) -> (r: i64)
    requires
        abs_of((a as int) * (b as int)) <= (i64::MAX as int) * (FX_ONE as int),
    ensures
        r == spec_fx_mul(a as int, b as int),
{
    let neg: bool = (a < 0) != (b < 0);
    let am: u128 = abs_u128(a);
    let bm: u128 = abs_u128(b);
    proof {
        lemma_abs_mul(a as int, b as int);
        assert(abs_of(a as int) * abs_of(b as int) <= 0x8000_0000_0000_0000u128 * 0x8000_0000_0000_0000u128)
            by (nonlinear_arith)
            requires
                0 <= abs_of(a as int) <= 0x8000_0000_0000_0000,
                0 <= abs_of(b as int) <= 0x8000_0000_0000_0000,
        ;
    }
    let p: u128 = am * bm;
    let q: u128 = p / 1_000_000;
    if neg {
        proof {
            lemma_neg_prod_sign(a as int, b as int);
        }
        -(q as i64)
    } else {
        proof {
            lemma_nonneg_prod_sign(a as int, b as int);
        }
        q as i64
    }
}

proof fn lemma_abs_mul(a: int, b: int)
    ensures
        abs_of(a) * abs_of(b) == abs_of(a * b),
{
    assert(abs_of(a) * abs_of(b) == abs_of(a * b)) by (nonlinear_arith);
}

proof fn lemma_neg_prod_sign(a: int, b: int)
    requires
        (a < 0) != (b < 0),
    ensures
        a * b <= 0,
{
    assert(a * b <= 0) by (nonlinear_arith)
        requires
            (a < 0) != (b < 0),
    ;
}

proof fn lemma_nonneg_prod_sign(a: int, b: int)
    requires
        (a < 0) == (b < 0),
    ensures
        a * b >= 0,
{
    assert(a * b >= 0) by (nonlinear_arith)
        requires
            (a < 0) == (b < 0),
    ;
}

/// Whether `c` is an ASCII decimal digit.
pub open spec fn is_digit(c: char) -> bool {
    48 <= c as int && c as int <= 57
}

/// Numeric value of a digit character.
pub open spec fn digit_val(c: char) -> int {
    c as int - 48
}

/// Whether every character of `s` is a decimal digit.
pub open spec fn all_digits(s: Seq<char>) -> bool {
    forall|i: int| 0 <= i < s.len() ==> is_digit(#[trigger] s[i])
}

/// Value of a digit string read in base ten.
pub open spec fn digits_val(s: Seq<char>) -> int
    decreases s.len(),
{
    if s.len() == 0 {
        0
    } else {
        digits_val(s.drop_last()) * 10 + digit_val(s.last())
    }
}

pub proof fn lemma_digits_val_nonneg(s: Seq<char>)
    requires
        all_digits(s),
    ensures
        digits_val(s) >= 0,
    decreases s.len(),
{
    if s.len() > 0 {
        lemma_digits_val_nonneg(s.drop_last());
    }
}

/// Ten to the power `e`.
pub open spec fn pow10(e: nat) -> int
    decreases e,
{
    if e == 0 {
        1
    } else {
        10 * pow10((e - 1) as nat)
    }
}

pub proof fn lemma_pow10_pos(e: nat)
    ensures
        pow10(e) >= 1,
    decreases e,
{
    if e > 0 {
        lemma_pow10_pos((e - 1) as nat);
    }
}

pub proof fn lemma_pow10_mono(a: nat, b: nat)
    requires
        a <= b,
    ensures
        0 < pow10(a) <= pow10(b),
    decreases b,
{
    lemma_pow10_pos(a);
    if a < b {
        lemma_pow10_mono(a, (b - 1) as nat);
    }
}

pub proof fn lemma_pow10_values()
    ensures
        pow10(0) == 1,
        pow10(1) == 10,
        pow10(2) == 100,
        pow10(3) == 1000,
        pow10(4) == 10000,
        pow10(5) == 100000,
        pow10(6) == 1000000,
{
    assert(pow10(0) == 1);
    assert(pow10(1) == 10 * pow10(0));
    assert(pow10(2) == 10 * pow10(1));
    assert(pow10(3) == 10 * pow10(2));
    assert(pow10(4) == 10 * pow10(3));
    assert(pow10(5) == 10 * pow10(4));
    assert(pow10(6) == 10 * pow10(5));
}

/// Scans `s[from..to]` as a digit string.  Returns `None` when a
/// non-digit occurs; otherwise the value, saturated at [`DIGIT_CAP`].
pub fn scan_digits(s: &str, from: usize, to: usize) -> (r: Option<u64>)
    requires
        from <= to <= s@.len(),
    ensures
        match r {
            Some(v) => all_digits(s@.subrange(from as int, to as int)) && v
                == sat_cap(digits_val(s@.subrange(from as int, to as int))),
            None => !all_digits(s@.subrange(from as int, to as int)),
        },
{
    let mut i: usize = from;
    let mut acc: u64 = 0;
    while i < to
        invariant
            from <= i <= to <= s@.len(),
            all_digits(s@.subrange(from as int, i as int)),
            acc == sat_cap(digits_val(s@.subrange(from as int, i as int))),
        decreases to - i,
    {
        let c = s.get_char(i);
        let cu = c as u32;
        if cu < 48 || cu > 57 {
            proof {
                assert(s@.subrange(from as int, to as int)[i - from] == c);
                assert(!is_digit(c));
            }
            return None;
        }
        let d: u64 = (cu - 48) as u64;
        proof {
            let pref = s@.subrange(from as int, i as int);
            let next = s@.subrange(from as int, i as int + 1);
            assert(next.drop_last() =~= pref);
            assert(next.last() == c);
            lemma_digits_val_nonneg(pref);
            lemma_sat_step(digits_val(pref), digit_val(c));
        }
        if acc >= DIGIT_CAP {
            acc = DIGIT_CAP;
        } else {
            acc = acc * 10 + d;
            if acc >= DIGIT_CAP {
                acc = DIGIT_CAP;
            }
        }
        i = i + 1;
    }
    proof {
        assert(s@.subrange(from as int, to as int) =~= s@.subrange(from as int, i as int));
    }
    Some(acc)
}

/// A nonnegative value saturated at [`DIGIT_CAP`].
pub open spec fn sat_cap(v: int) -> int {
    if v >= DIGIT_CAP as int {
        DIGIT_CAP as int
    } else {
        v
    }
}

pub proof fn lemma_digits_val_bound(s: Seq<char>)
    requires
        all_digits(s),
    ensures
        0 <= digits_val(s) < pow10(s.len()),
    decreases s.len(),
{
    if s.len() == 0 {
    } else {
        lemma_digits_val_bound(s.drop_last());
        assert(digits_val(s.drop_last()) * 10 <= (pow10((s.len() - 1) as nat) - 1) * 10)
            by (nonlinear_arith)
            requires
                digits_val(s.drop_last()) <= pow10((s.len() - 1) as nat) - 1,
        ;
    }
}

/// Index of the first `.` in `s`, or `s.len()` when none occurs.
pub open spec fn dot_index(s: Seq<char>) -> int
    decreases s.len(),
{
    if s.len() == 0 {
        0
    } else if s[0] == '.' {
        0
    } else {
        1 + dot_index(s.drop_first())
    }
}

pub proof fn lemma_dot_index_is_first(s: Seq<char>, d: int)
    requires
        0 <= d <= s.len(),
        forall|j: int| 0 <= j < d ==> s[j] != '.',
        d < s.len() ==> s[d] == '.',
    ensures
        dot_index(s) == d,
    decreases s.len(),
{
    if s.len() == 0 {
    } else if s[0] == '.' {
    } else {
        lemma_dot_index_is_first(s.drop_first(), d - 1);
    }
}

/// Value of a digit string with up to six fractional digits, counted
/// in millionths: fewer digits weigh more, digits beyond the sixth are
/// dropped (truncation toward zero).
pub open spec fn frac_val(fp: Seq<char>) -> int {
    if fp.len() >= 6 {
        digits_val(fp.take(6))
    } else {
        digits_val(fp) * pow10((6 - fp.len()) as nat)
    }
}

/// Magnitude of an unsigned fixed-point literal, in millionths, or
/// `None` when `s` is not one.  `s` is an integer part, an optional
/// `.` and a fractional part; each part may be empty but not both.
pub open spec fn magnitude_of(s: Seq<char>) -> Option<int> {
    let d = dot_index(s);
    let ip = s.take(d);
    let fp = if d == s.len() {
        Seq::<char>::empty()
    } else {
        s.skip(d + 1)
    };
    if !(all_digits(ip) && all_digits(fp)) {
        None
    } else if ip.len() + fp.len() == 0 {
        None
    } else {
        Some(digits_val(ip) * 1_000_000 + frac_val(fp))
    }
}

/// The fixed-point value denoted by the text `s`: an optional sign
/// followed by an unsigned literal, rejected when the magnitude leaves
/// the `i64` range.
pub open spec fn fixed_of(s: Seq<char>) -> Option<int> {
    let neg = s.len() > 0 && s[0] == '-';
    let body = if s.len() > 0 && (s[0] == '-' || s[0] == '+') {
        s.drop_first()
    } else {
        s
    };
    match magnitude_of(body) {
        Option::None => Option::None,
        Option::Some(m) => if m > i64::MAX as int {
            Option::None
        } else {
            Option::Some(
                if neg {
                    -m
                } else {
                    m
                },
            )
        },
    }
}

/// Ten to the power `e`, executable for small exponents.
pub fn pow10_u64(e: usize) -> (r: u64)
    requires
        e <= 6,
    ensures
        r == pow10(e as nat),
{
    let mut r: u64 = 1;
    let mut i: usize = 0;
    while i < e
        invariant
            0 <= i <= e <= 6,
            r == pow10(i as nat),
            r <= 1_000_000,
        decreases e - i,
    {
        proof {
            assert(pow10((i + 1) as nat) == 10 * pow10(i as nat));
            lemma_pow10_values();
            lemma_pow10_mono((i + 1) as nat, 6);
        }
        r = r * 10;
        i = i + 1;
    }
    r
}

/// Decodes a trimmed text field as a fixed-point number.
///
/// Returns the value exactly when `s` matches [`fixed_of`]'s grammar:
/// an optional sign, decimal digits with at most one point, at least
/// one digit, magnitude within the `i64` range.
#[verifier::rlimit(60)]
pub fn parse_fixed(s: &str) -> (r: Option<i64>)
    ensures
        match r {
            Some(v) => fixed_of(s@) == Some(v as int),
            None => fixed_of(s@) is None,
        },
{
    let n = s.unicode_len();
    let mut start: usize = 0;
    let mut neg: bool = false;
    if n > 0 {
        let c0 = s.get_char(0);
        if c0 == '-' {
            neg = true;
            start = 1;
        } else if c0 == '+' {
            start = 1;
        }
    }
    let ghost body: Seq<char> = if start == 1 {
        s@.drop_first()
    } else {
        s@
    };
    // locate the first point
    let mut d: usize = start;
    while d < n && s.get_char(d) != '.'
        invariant
            start <= d <= n == s@.len(),
            forall|j: int| start <= j < d ==> s@[j] != '.',
        decreases n - d,
    {
        d = d + 1;
    }
    proof {
        lemma_dot_index_is_first(body, d - start);
        assert(body.take(d - start) =~= s@.subrange(start as int, d as int));
    }
    let ip = match scan_digits(s, start, d) {
        Some(v) => v,
        None => {
            return None;
        },
    };
    let frac_end: usize = if d < n {
        if n - (d + 1) >= 6 {
            d + 7
        } else {
            n
        }
    } else {
        d
    };
    let ghost fp: Seq<char> = if d < n {
        body.skip(d - start + 1)
    } else {
        Seq::<char>::empty()
    };
    proof {
        if d < n {
            assert(fp =~= s@.subrange(d as int + 1, n as int));
            if fp.len() >= 6 {
                assert(fp.take(6) =~= s@.subrange(d as int + 1, frac_end as int));
            } else {
                assert(fp =~= s@.subrange(d as int + 1, frac_end as int));
            }
        }
    }
    let fp_len: usize = if d < n {
        n - (d + 1)
    } else {
        0
    };
    let mut fv: u64 = 0;
    if d < n {
        // the first six fractional digits carry value
        fv = match scan_digits(s, d + 1, frac_end) {
            Some(v) => v,
            None => {
                proof {
                    lemma_subseq_digits(fp, s@.subrange(d as int + 1, frac_end as int), 0);
                }
                return None;
            },
        };
        // the remaining fractional digits are only validated
        match scan_digits(s, frac_end, n) {
            Some(_) => {},
            None => {
                proof {
                    lemma_subseq_digits(fp, s@.subrange(frac_end as int, n as int), 6);
                }
                return None;
            },
        };
        proof {
            if fp.len() > 6 {
                let head = s@.subrange(d as int + 1, frac_end as int);
                let tail = s@.subrange(frac_end as int, n as int);
                assert forall|j: int| 0 <= j < fp.len() implies is_digit(fp[j]) by {
                    if j < 6 {
                        assert(head[j] == fp[j]);
                    } else {
                        assert(tail[j - 6] == fp[j]);
                    }
                }
            }
        }
    }
    if d == start && fp_len == 0 {
        // no digit at all
        return None;
    }
    let ghost ipv: int = digits_val(body.take(d - start));
    proof {
        lemma_digits_val_nonneg(body.take(d - start));
        lemma_pow10_values();
        if fp.len() >= 6 {
            lemma_digits_val_bound(fp.take(6));
        } else {
            lemma_digits_val_bound(fp);
            lemma_pow10_mono(fp.len(), 5);
        }
    }
    let scaled_fv: u64 = if d < n && fp_len < 6 {
        let p = pow10_u64(6 - fp_len);
        proof {
            assert(fv * p <= 99_999 * 1_000_000) by (nonlinear_arith)
                requires
                    0 <= fv <= 99_999,
                    0 <= p <= 1_000_000,
            ;
        }
        fv * p
    } else {
        fv
    };
    proof {
        assert(scaled_fv == frac_val(fp));
    }
    if ip >= DIGIT_CAP {
        proof {
            assert(ipv >= DIGIT_CAP as int);
            lemma_cap_overflow(ipv);
        }
        return None;
    }
    let m: u128 = (ip as u128) * 1_000_000 + (scaled_fv as u128);
    if m > i64::MAX as u128 {
        return None;
    }
    let mv = m as i64;
    if neg {
        Some(-mv)
    } else {
        Some(mv)
    }
}

/// The count denoted by the text `s`: an optional `+` followed by
/// decimal digits.  Counts at or above [`DIGIT_CAP`] are rejected as
/// out of range.
pub open spec fn count_of(s: Seq<char>) -> Option<int> {
    let body = if s.len() > 0 && s[0] == '+' {
        s.drop_first()
    } else {
        s
    };
    if body.len() > 0 && all_digits(body) && digits_val(body) < DIGIT_CAP as int {
        Some(digits_val(body))
    } else {
        None
    }
}

/// Decodes a line as an unsigned block count per [`count_of`].
pub fn parse_count(s: &str) -> (r: Option<u64>)
    ensures
        match r {
            Some(v) => count_of(s@) == Some(v as int),
            None => count_of(s@) is None,
        },
{
    let n = s.unicode_len();
    let mut start: usize = 0;
    if n > 0 && s.get_char(0) == '+' {
        start = 1;
    }
    if start >= n {
        return None;
    }
    let ghost body: Seq<char> = if start == 1 {
        s@.drop_first()
    } else {
        s@
    };
    proof {
        assert(body =~= s@.subrange(start as int, n as int));
    }
    match scan_digits(s, start, n) {
        Some(v) => {
            if v >= DIGIT_CAP {
                None
            } else {
                Some(v)
            }
        },
        None => None,
    }
}

/// The `u32` denoted by the text `s`: an optional `+` followed by
/// decimal digits, within the `u32` range.
pub open spec fn u32_of(s: Seq<char>) -> Option<int> {
    let body = if s.len() > 0 && s[0] == '+' {
        s.drop_first()
    } else {
        s
    };
    if body.len() > 0 && all_digits(body) && digits_val(body) <= u32::MAX as int {
        Some(digits_val(body))
    } else {
        None
    }
}

/// Decodes a token as a `u32` per [`u32_of`].
pub fn parse_u32(s: &str) -> (r: Option<u32>)
    ensures
        match r {
            Some(v) => u32_of(s@) == Some(v as int),
            None => u32_of(s@) is None,
        },
{
    match parse_count(s) {
        Some(v) => {
            if v <= u32::MAX as u64 {
                Some(v as u32)
            } else {
                None
            }
        },
        None => None,
    }
}

/// A non-digit inside a window of `s` is a non-digit of `s`.
proof fn lemma_subseq_digits(s: Seq<char>, w: Seq<char>, off: int)
    requires
        0 <= off,
        off + w.len() <= s.len(),
        forall|j: int| 0 <= j < w.len() ==> s[j + off] == w[j],
        !all_digits(w),
    ensures
        !all_digits(s),
{
    let j = choose|j: int| 0 <= j < w.len() && !is_digit(w[j]);
    assert(s[j + off] == w[j]);
}

proof fn lemma_cap_overflow(v: int)
    requires
        v >= DIGIT_CAP as int,
    ensures
        v * 1_000_000 > i64::MAX as int,
{
    assert(v * 1_000_000 >= DIGIT_CAP as int * 1_000_000) by (nonlinear_arith)
        requires
            v >= DIGIT_CAP as int,
    ;
}

proof fn lemma_sat_step(v: int, d: int)
    requires
        v >= 0,
        0 <= d <= 9,
    ensures
        sat_cap(v * 10 + d) == if sat_cap(v) >= DIGIT_CAP as int {
            DIGIT_CAP as int
        } else {
            sat_cap(sat_cap(v) * 10 + d)
        },
{
    if v >= DIGIT_CAP as int {
        assert(v * 10 + d >= DIGIT_CAP as int) by (nonlinear_arith)
            requires
                v >= DIGIT_CAP as int,
                d >= 0,
        ;
    }
}

} // verus!
