//! The parser of duration strings.
//!
//! Numbers are read as exact decimals: a number's value is kept to 18 decimal
//! places (attoseconds, when the unit is the second) and the duration is the
//! total truncated to whole nanoseconds. A term beyond the range of `f64`
//! counts as an infinity, as it does when `f64` reads it.

use vstd::prelude::*;
use crate::errors::StandbyError;
use crate::text::{
    all_digits, chars_of, digit_value, digits_val, eq_ignore_ascii_case, first_where, is_digit,
    is_num, is_numeric, is_whitespace, is_ws, last_where, lemma_digits_val_bound,
    lemma_digits_val_step, lemma_first_where, lemma_last_where, lemma_pow10_18, lemma_pow10_mono,
    lemma_pow10_pos, matches_ignore_ascii_case, pow10, slice_of, string_from, trim, trimmed,
};
use crate::time::duration::Duration;
use crate::time::magnitude::{
    digits_at_least, f64_infinite_from, lemma_digits_concat, lemma_pow10_330, lemma_zeros_val,
    overflow_units, read_atto_digits, skip_zeros,
};

verus! {

/// Attoseconds in one second.
pub const ATTOS_PER_SEC: u128 = 1_000_000_000_000_000_000;

/// Attoseconds in one nanosecond.
pub const ATTOS_PER_NANO: u128 = 1_000_000_000;

/// A term of a duration reaching this many attoseconds (2^125, about 4.25e19
/// seconds) lies beyond every representable duration.
pub const TERM_CAP: u128 = 42535295865117307932921825928971026432;

/// The smallest whole number of seconds whose attoseconds reach `TERM_CAP`.
pub const SECS_CAP: u128 = 42535295865117307933;

/// The first total, in attoseconds, that is refused: just above `2^64 + 2048`
/// seconds, the largest number that `f64` rounds to `2^64`. Beyond it, `f64`
/// reads a number larger than any `Duration`.
pub const DURATION_LIMIT: u128 = 18446744073709553664000000000000000001;

/// The first total, in attoseconds, that reads as the infinite duration:
/// `2^64 - 1024` seconds, the least number that `f64` rounds up to `2^64`
/// (whose whole seconds saturate at `u64::MAX`).
pub const INFINITE_FROM: u128 = 18446744073709550592000000000000000000;

/// The value of the fraction digits `f`, kept to 18 places, in units of 10^-18.
pub open spec fn frac_atto(f: Seq<char>) -> int {
    let k = if f.len() <= 18 { f.len() } else { 18 };
    digits_val(f.take(k as int)) * pow10((18 - k) as nat)
}

/// The predicate "is a decimal point".
pub open spec fn is_dot() -> spec_fn(char) -> bool {
    |c: char| c == '.'
}

/// A decimal number without sign: `digits`, `digits.`, `.digits` or
/// `digits.digits`, with its value in units of 10^-18; `None` for anything else.
pub open spec fn decimal_atto(b: Seq<char>) -> Option<int> {
    let d = first_where(b, is_dot());
    if d >= b.len() {
        if b.len() > 0 && all_digits(b) {
            Some(digits_val(b) * pow10(18))
        } else {
            None
        }
    } else {
        let ip = b.take(d);
        let fp = b.skip(d + 1);
        if all_digits(ip) && all_digits(fp) && ip.len() + fp.len() > 0 {
            Some(digits_val(ip) * pow10(18) + frac_atto(fp))
        } else {
            None
        }
    }
}

/// What the executable reading of a decimal gives: its value exactly when it
/// is below `TERM_CAP`, else only that it reaches `TERM_CAP`.
pub open spec fn decimal_fits(v: int, m: u128, huge: bool) -> bool {
    &&& huge ==> v >= TERM_CAP
    &&& !huge ==> v == m && m < TERM_CAP
}

/// Reads an unsigned decimal number, in units of 10^-18, with the digits of
/// its whole part.
fn parse_decimal(b: &Vec<char>) -> (r: Option<(u128, bool, Vec<char>)>)
    ensures
        r is None <==> decimal_atto(b@) is None,
        r matches Some((m, h, w)) ==> {
            &&& decimal_fits(decimal_atto(b@)->Some_0, m, h)
            &&& all_digits(w@)
            &&& digits_val(w@) == decimal_atto(b@)->Some_0 / (ATTOS_PER_SEC as int)
        },
{
    let n = b.len();
    let mut d: usize = 0;
    while d < n && b[d] != '.'
        invariant
            d <= n == b.len(),
            forall|j: int| 0 <= j < d ==> !is_dot()(#[trigger] b@[j]),
        decreases n - d,
    {
        d = d + 1;
    }
    proof {
        lemma_first_where(b@, is_dot(), d as int);
        lemma_pow10_18();
    }
    let ghost ip = b@.take(d as int);
    // The whole part, saturating at SECS_CAP.
    let mut ival: u128 = 0;
    let mut isat = false;
    let mut i: usize = 0;
    while i < d
        invariant
            i <= d <= n == b.len(),
            ip == b@.take(d as int),
            first_where(b@, is_dot()) == d,
            all_digits(ip.take(i as int)),
            !isat ==> ival == digits_val(ip.take(i as int)) && ival < SECS_CAP,
            isat ==> digits_val(ip.take(i as int)) >= SECS_CAP,
        decreases d - i,
    {
        let c = b[i];
        if !('0' <= c && c <= '9') {
            proof {
                assert(ip[i as int] == c);
                if d < n {
                    assert(!all_digits(ip));
                } else {
                    assert(b@[i as int] == c);
                    assert(!all_digits(b@));
                }
            }
            return None;
        }
        let dv = digit_value(c);
        proof {
            assert(ip[i as int] == c);
            lemma_digits_val_step(ip, i as int);
            lemma_digits_val_bound(ip.take(i as int));
            assert(all_digits(ip.take(i + 1))) by {
                assert forall|j: int| 0 <= j < i + 1 implies is_digit(
                    #[trigger] ip.take(i + 1)[j],
                ) by {
                    if j < i {
                        assert(ip.take(i + 1)[j] == ip.take(i as int)[j]);
                    }
                }
            }
        }
        if !isat {
            let nv = ival * 10 + dv;
            if nv >= SECS_CAP {
                isat = true;
            } else {
                ival = nv;
            }
        }
        i = i + 1;
    }
    proof {
        assert(ip.take(d as int) == ip);
        lemma_digits_val_bound(ip);
    }
    let whole = slice_of(b, 0, d);
    proof {
        assert(whole@ == ip);
    }
    if d == n {
        if n == 0 {
            return None;
        }
        proof {
            assert(ip == b@);
        }
        if isat {
            proof {
                assert(digits_val(b@) * pow10(18) >= TERM_CAP) by (nonlinear_arith)
                    requires
                        digits_val(b@) >= SECS_CAP,
                        pow10(18) == ATTOS_PER_SEC,
                ;
            }
            proof {
                lemma_whole_of(digits_val(b@), 0);
            }
            return Some((0, true, whole));
        }
        let v = ival * ATTOS_PER_SEC;
        proof {
            assert(v == digits_val(b@) * pow10(18));
            lemma_whole_of(digits_val(b@), 0);
        }
        return Some((v, v >= TERM_CAP, whole));
    }
    let fp = slice_of(b, d + 1, n);
    proof {
        assert(fp@ == b@.skip(d + 1));
    }
    let fl = fp.len();
    let k: usize = if fl <= 18 { fl } else { 18 };
    let mut fval: u128 = 0;
    let mut j: usize = 0;
    while j < fl
        invariant
            k <= fl == fp.len(),
            k == (if fl <= 18 { fl } else { 18usize }),
            j <= fl,
            d < n == b.len(),
            first_where(b@, is_dot()) == d,
            fp@ == b@.skip(d + 1),
            pow10(18) == ATTOS_PER_SEC,
            all_digits(fp@.take(j as int)),
            fval == digits_val(fp@.take(if j <= k { j as int } else { k as int })),
            fval < pow10(if j <= k { j as nat } else { k as nat }),
        decreases fl - j,
    {
        let c = fp[j];
        if !('0' <= c && c <= '9') {
            proof {
                assert(!all_digits(fp@));
            }
            return None;
        }
        let dv = digit_value(c);
        proof {
            assert(all_digits(fp@.take(j + 1))) by {
                assert forall|t: int| 0 <= t < j + 1 implies is_digit(
                    #[trigger] fp@.take(j + 1)[t],
                ) by {
                    if t < j {
                        assert(fp@.take(j + 1)[t] == fp@.take(j as int)[t]);
                    }
                }
            }
        }
        if j < k {
            proof {
                lemma_digits_val_step(fp@, j as int);
                lemma_pow10_mono((j + 1) as nat, 18);
                assert(fval * 10 + dv < pow10((j + 1) as nat)) by (nonlinear_arith)
                    requires
                        fval < pow10(j as nat),
                        dv < 10,
                        pow10((j + 1) as nat) == 10 * pow10(j as nat),
                ;
            }
            fval = fval * 10 + dv;
        }
        j = j + 1;
    }
    proof {
        assert(fp@.take(fl as int) == fp@);
        assert(pow10(k as nat) <= ATTOS_PER_SEC) by {
            lemma_pow10_mono(k as nat, 18);
        }
        assert(pow10(0) == 1);
        assert(fval * pow10(0) == fval);
    }
    // Scale the kept digits to 18 places.
    let mut scaled = fval;
    let mut e = k;
    while e < 18
        invariant
            k <= e <= 18,
            scaled == fval * pow10((e - k) as nat),
            scaled < pow10(e as nat),
            pow10(18) == ATTOS_PER_SEC,
        decreases 18 - e,
    {
        proof {
            assert(pow10((e + 1 - k) as nat) == 10 * pow10((e - k) as nat));
            assert(pow10((e + 1) as nat) == 10 * pow10(e as nat));
            lemma_pow10_mono((e + 1) as nat, 18);
        }
        scaled = scaled * 10;
        proof {
            assert(scaled == fval * pow10((e + 1 - k) as nat)) by (nonlinear_arith)
                requires
                    scaled == 10 * (fval * pow10((e - k) as nat)),
                    pow10((e + 1 - k) as nat) == 10 * pow10((e - k) as nat),
            ;
        }
        e = e + 1;
    }
    proof {
        assert(scaled == frac_atto(fp@));
    }
    if d + fl == 0 {
        return None;
    }
    if isat {
        proof {
            lemma_digits_val_bound(fp@.take(k as int));
            assert(digits_val(ip) * pow10(18) + frac_atto(fp@) >= TERM_CAP) by (nonlinear_arith)
                requires
                    digits_val(ip) >= SECS_CAP,
                    pow10(18) == ATTOS_PER_SEC,
                    frac_atto(fp@) >= 0,
            ;
        }
        proof {
            lemma_whole_of(digits_val(ip), scaled as int);
        }
        return Some((0, true, whole));
    }
    let v = ival * ATTOS_PER_SEC + scaled;
    proof {
        lemma_whole_of(digits_val(ip), scaled as int);
    }
    Some((v, v >= TERM_CAP, whole))
}

/// Whole seconds and a fraction below one second, in attoseconds, give back
/// the whole seconds.
proof fn lemma_whole_of(w: int, f: int)
    requires
        w >= 0,
        0 <= f < ATTOS_PER_SEC,
    ensures
        (w * (ATTOS_PER_SEC as int) + f) / (ATTOS_PER_SEC as int) == w,
        (w * pow10(18) + f) / (ATTOS_PER_SEC as int) == w,
{
    lemma_pow10_18();
    assert((w * (ATTOS_PER_SEC as int) + f) / (ATTOS_PER_SEC as int) == w) by (nonlinear_arith)
        requires
            w >= 0,
            0 <= f < ATTOS_PER_SEC,
    ;
}

/// A number as `f64::from_str` reads it: `inf`, `infinity` and `nan` in any
/// ASCII case, or a decimal; each with an optional `+` or `-` sign.
pub enum Number {
    /// A finite value, in units of 10^-18.
    Finite(int),
    /// Positive infinity.
    PosInf,
    /// Negative infinity.
    NegInf,
    /// Not a number.
    NaN,
}

/// The predicate "is an exponent mark, `e` or `E`".
pub open spec fn is_exp_mark() -> spec_fn(char) -> bool {
    |c: char| c == 'e' || c == 'E'
}

/// `n` times `10^s`, truncated to a whole number.
pub open spec fn scaled(n: int, s: int) -> int {
    if s >= 0 {
        n * pow10(s as nat)
    } else {
        n / pow10((-s) as nat)
    }
}

/// A decimal with an exponent, `<mantissa>e<exponent>` (or `E`): the mantissa a
/// decimal without sign, the exponent digits with an optional sign; its value in
/// units of 10^-18, truncated; `None` for anything else.
pub open spec fn sci_atto(b: Seq<char>) -> Option<int> {
    let k = first_where(b, is_exp_mark());
    let m = b.take(k);
    let x = b.skip(k + 1);
    let xsigned = x.len() > 0 && (x[0] == '+' || x[0] == '-');
    let xd = if xsigned { x.drop_first() } else { x };
    let d = first_where(m, is_dot());
    let fp = if d < m.len() { m.skip(d + 1) } else { Seq::<char>::empty() };
    if decimal_atto(m) is Some && xd.len() > 0 && all_digits(xd) {
        let e = if x[0] == '-' { -digits_val(xd) } else { digits_val(xd) };
        Some(scaled(digits_val(m.take(d) + fp), 18 + e - fp.len()))
    } else {
        None
    }
}

/// The number that `s` writes, if any, as `f64::from_str` reads it.
pub open spec fn float_lit(s: Seq<char>) -> Option<Number> {
    let signed = s.len() > 0 && (s[0] == '+' || s[0] == '-');
    let neg = s.len() > 0 && s[0] == '-';
    let body = if signed { s.drop_first() } else { s };
    if eq_ignore_ascii_case(body, "inf"@) || eq_ignore_ascii_case(body, "infinity"@) {
        Some(if neg { Number::NegInf } else { Number::PosInf })
    } else if eq_ignore_ascii_case(body, "nan"@) {
        Some(Number::NaN)
    } else {
        match if first_where(body, is_exp_mark()) < body.len() {
            sci_atto(body)
        } else {
            decimal_atto(body)
        } {
            Some(v) => Some(Number::Finite(if neg { -v } else { v })),
            None => None,
        }
    }
}

/// A number as the executable code holds it: a finite one by sign and magnitude,
/// the magnitude exact below `TERM_CAP`.
enum Reading {
    Finite { neg: bool, mag: u128, huge: bool, whole: Vec<char>, far: bool },
    PosInf,
    NegInf,
    NaN,
}

/// `r` holds the number `n`.
spec fn reading_of(r: Reading, n: Number) -> bool {
    match r {
        Reading::Finite { neg, mag, huge, whole, far } => match n {
            Number::Finite(x) => {
                let v = if neg { -x } else { x };
                &&& v >= 0
                &&& decimal_fits(v, mag, huge)
                &&& all_digits(whole@)
                &&& far ==> v / (ATTOS_PER_SEC as int) >= f64_infinite_from()
                &&& !far ==> digits_val(whole@) == v / (ATTOS_PER_SEC as int)
            },
            _ => false,
        },
        Reading::PosInf => n is PosInf,
        Reading::NegInf => n is NegInf,
        Reading::NaN => n is NaN,
    }
}

proof fn lemma_decimal_nonneg(b: Seq<char>)
    ensures
        decimal_atto(b) matches Some(v) ==> v >= 0,
{
    let d = first_where(b, is_dot());
    if d >= b.len() {
        if b.len() > 0 && all_digits(b) {
            lemma_digits_val_bound(b);
            lemma_pow10_pos(18);
        }
    } else {
        let ip = b.take(d);
        let fp = b.skip(d + 1);
        if all_digits(ip) && all_digits(fp) && ip.len() + fp.len() > 0 {
            lemma_digits_val_bound(ip);
            lemma_pow10_pos(18);
            let k = if fp.len() <= 18 { fp.len() } else { 18 };
            assert(all_digits(fp.take(k as int))) by {
                assert forall|i: int| 0 <= i < k implies is_digit(#[trigger] fp.take(k as int)[i]) by {
                    assert(fp.take(k as int)[i] == fp[i]);
                }
            }
            lemma_digits_val_bound(fp.take(k as int));
            lemma_pow10_pos((18 - k) as nat);
            assert(digits_val(ip) * pow10(18) >= 0) by (nonlinear_arith)
                requires
                    digits_val(ip) >= 0,
                    pow10(18) >= 1,
            ;
            assert(frac_atto(fp) >= 0) by (nonlinear_arith)
                requires
                    frac_atto(fp) == digits_val(fp.take(k as int)) * pow10((18 - k) as nat),
                    digits_val(fp.take(k as int)) >= 0,
                    pow10((18 - k) as nat) >= 1,
            ;
        }
    }
}

/// An exponent of this much or more is read as this much: its value makes no
/// difference then.
const EXP_CAP: u128 = 1_267_650_600_228_229_401_496_703_205_376;

/// A number of `10^shift` times the positive `n`, with `shift` at least 330, lies
/// beyond the range of `f64` and reaches `TERM_CAP`.
proof fn lemma_far(n: int, shift: int)
    requires
        n >= 1,
        shift >= 330,
    ensures
        scaled(n, shift) / (ATTOS_PER_SEC as int) >= f64_infinite_from(),
        scaled(n, shift) >= TERM_CAP,
{
    lemma_pow10_330();
    lemma_pow10_mono(330, shift as nat);
    let p = pow10(shift as nat);
    assert(n * p >= p) by (nonlinear_arith)
        requires
            n >= 1,
            p >= 1,
    ;
    lemma_pow10_pos(330);
    vstd::arithmetic::div_mod::lemma_div_is_ordered(pow10(330), n * p, ATTOS_PER_SEC as int);
    assert(pow10(330) >= TERM_CAP) by (nonlinear_arith)
        requires
            pow10(330) / 1_000_000_000_000_000_000int >= f64_infinite_from(),
            f64_infinite_from() >= TERM_CAP,
            pow10(330) >= 0,
    ;
}

/// Reads a decimal with an exponent whose mark is at `k`, in units of 10^-18:
/// exactly below `TERM_CAP`, else only that it reaches `TERM_CAP`; with the
/// digits of its whole part, or only that the whole part is beyond the range of
/// `f64` (`far`).
fn parse_sci(b: &Vec<char>, k: usize) -> (r: Option<(u128, bool, Vec<char>, bool)>)
    requires
        k < b.len(),
        first_where(b@, is_exp_mark()) == k,
    ensures
        r is None <==> sci_atto(b@) is None,
        r matches Some((m, h, w, far)) ==> {
            let v = sci_atto(b@)->Some_0;
            &&& v >= 0
            &&& decimal_fits(v, m, h)
            &&& all_digits(w@)
            &&& far ==> v / (ATTOS_PER_SEC as int) >= f64_infinite_from()
            &&& !far ==> digits_val(w@) == v / (ATTOS_PER_SEC as int)
        },
{
    let n = b.len();
    let m = slice_of(b, 0, k);
    proof {
        assert(m@ == b@.take(k as int));
    }
    match parse_decimal(&m) {
        None => {
            return None;
        },
        Some(_) => {},
    }
    let x = slice_of(b, k + 1, n);
    proof {
        assert(x@ == b@.skip(k + 1));
    }
    let xn = x.len();
    let xsigned = xn > 0 && (x[0] == '+' || x[0] == '-');
    let xneg = xn > 0 && x[0] == '-';
    let xs: usize = if xsigned { 1 } else { 0 };
    let xd = slice_of(&x, xs, xn);
    proof {
        if xsigned {
            assert(xd@ == x@.drop_first());
        } else {
            assert(xd@ == x@);
        }
    }
    if xd.len() == 0 {
        return None;
    }
    proof {
        assert(sci_atto(b@) is Some ==> all_digits(xd@));
    }
    // the exponent, saturating at EXP_CAP
    let mut e: u128 = 0;
    let mut esat = false;
    let mut j: usize = 0;
    while j < xd.len()
        invariant
            j <= xd.len(),
            all_digits(xd@.take(j as int)),
            !esat ==> e == digits_val(xd@.take(j as int)) && e < EXP_CAP,
            esat ==> digits_val(xd@.take(j as int)) >= EXP_CAP,
            sci_atto(b@) is Some ==> all_digits(xd@),
        decreases xd.len() - j,
    {
        let c = xd[j];
        if !('0' <= c && c <= '9') {
            proof {
                assert(xd@[j as int] == c);
                assert(!all_digits(xd@));
            }
            return None;
        }
        proof {
            lemma_digits_val_step(xd@, j as int);
            assert(all_digits(xd@.take(j + 1))) by {
                assert forall|t: int| 0 <= t < j + 1 implies is_digit(#[trigger] xd@.take(j + 1)[t]) by {
                    if t < j {
                        assert(xd@.take(j + 1)[t] == xd@.take(j as int)[t]);
                    }
                }
            }
        }
        let dv = digit_value(c);
        if !esat {
            if e > (EXP_CAP - 1) / 10 {
                esat = true;
            } else {
                let ne = e * 10 + dv;
                if ne >= EXP_CAP {
                    esat = true;
                } else {
                    e = ne;
                }
            }
        }
        j = j + 1;
    }
    proof {
        assert(xd@.take(xd.len() as int) == xd@);
    }
    // the mantissa's digits, without the point
    let ml = m.len();
    let mut d: usize = 0;
    while d < ml && m[d] != '.'
        invariant
            d <= ml == m.len(),
            forall|t: int| 0 <= t < d ==> !is_dot()(#[trigger] m@[t]),
        decreases ml - d,
    {
        d = d + 1;
    }
    proof {
        lemma_first_where(m@, is_dot(), d as int);
    }
    let mut digs = slice_of(&m, 0, d);
    let mut fp = if d < ml {
        slice_of(&m, d + 1, ml)
    } else {
        Vec::new()
    };
    let fl = fp.len();
    let ghost dd = m@.take(d as int) + fp@;
    proof {
        if d < ml {
            assert(fp@ == m@.skip(d + 1));
        } else {
            assert(fp@ == Seq::<char>::empty());
            assert(m@.take(d as int) == m@);
        }
        assert(all_digits(dd)) by {
            assert forall|t: int| 0 <= t < dd.len() implies is_digit(#[trigger] dd[t]) by {
                if t < d {
                    assert(dd[t] == m@.take(d as int)[t]);
                } else {
                    assert(dd[t] == fp@[t - d]);
                }
            }
        }
    }
    digs.append(&mut fp);
    proof {
        assert(digs@ == dd);
        assert(sci_atto(b@) == Some(
            scaled(
                digits_val(dd),
                18 + (if xneg { -digits_val(xd@) } else { digits_val(xd@) }) - fl,
            ),
        ));
    }
    Some(scale_reading(digs, fl, xneg, e, esat, Ghost(digits_val(xd@))))
}

/// The reading of the digits `digs` (a mantissa without its point, with `fl`
/// digits after it) times `10^(18 ± ev - fl)`, the exponent `ev` being `e`, or
/// at least `EXP_CAP` when `esat`.
#[verifier::spinoff_prover]
#[verifier::rlimit(40)]
fn scale_reading(
    digs: Vec<char>,
    fl: usize,
    xneg: bool,
    e: u128,
    esat: bool,
    Ghost(ev): Ghost<int>,
) -> (r: (u128, bool, Vec<char>, bool))
    requires
        all_digits(digs@),
        fl <= digs.len(),
        !esat ==> ev == e && e < EXP_CAP,
        esat ==> ev >= EXP_CAP,
    ensures
        ({
            let v = scaled(digits_val(digs@), 18 + (if xneg { -ev } else { ev }) - fl);
            let (m, h, w, far) = r;
            &&& v >= 0
            &&& decimal_fits(v, m, h)
            &&& all_digits(w@)
            &&& far ==> v / (ATTOS_PER_SEC as int) >= f64_infinite_from()
            &&& !far ==> digits_val(w@) == v / (ATTOS_PER_SEC as int)
        }),
{
    let mut digs = digs;
    let ghost dd = digs@;
    let dl = digs.len();
    let ghost shift: int = 18 + (if xneg { -ev } else { ev }) - fl;
    proof {
        lemma_digits_val_bound(dd);
    }
    let z = skip_zeros(&digs);
    if z == dl {
        proof {
            assert(digits_val(digs@.skip(dl as int)) == 0) by {
                assert(digs@.skip(dl as int) == Seq::<char>::empty());
            }
            if shift < 0 {
                lemma_pow10_pos((-shift) as nat);
                vstd::arithmetic::div_mod::lemma_fundamental_div_mod_converse(
                    0,
                    pow10((-shift) as nat),
                    0,
                    0,
                );
            }
        }
        return (0, false, Vec::new(), false);
    }
    proof {
        let rest = digs@.skip(z as int);
        assert(rest[0] == digs@[z as int]);
        crate::time::magnitude::lemma_digits_val_lower(rest);
        lemma_pow10_pos((rest.len() - 1) as nat);
    }
    if esat {
        if xneg {
            proof {
                lemma_pow10_mono(dl as nat, (-shift) as nat);
                vstd::arithmetic::div_mod::lemma_fundamental_div_mod_converse(
                    digits_val(dd),
                    pow10((-shift) as nat),
                    0,
                    digits_val(dd),
                );
            }
            return (0, false, Vec::new(), false);
        } else {
            proof {
                lemma_far(digits_val(dd), shift);
            }
            return (0, true, Vec::new(), true);
        }
    }
    let sh: i128 = if xneg {
        18 - (e as i128) - (fl as i128)
    } else {
        18 + (e as i128) - (fl as i128)
    };
    proof {
        assert(sh == shift);
    }
    if sh >= 330 {
        proof {
            lemma_far(digits_val(dd), shift);
        }
        return (0, true, Vec::new(), true);
    }
    if sh >= 0 {
        let cnt = sh as usize;
        let mut zeros: Vec<char> = Vec::new();
        let mut i: usize = 0;
        while i < cnt
            invariant
                i <= cnt,
                zeros@ == Seq::new(i as nat, |t: int| '0'),
            decreases cnt - i,
        {
            zeros.push('0');
            proof {
                assert(zeros@ =~= Seq::new((i + 1) as nat, |t: int| '0'));
            }
            i = i + 1;
        }
        let ghost zs = zeros@;
        digs.append(&mut zeros);
        proof {
            lemma_zeros_val(cnt as nat);
            lemma_digits_concat(dd, zs);
            lemma_pow10_pos(cnt as nat);
            assert(digits_val(dd) * pow10(cnt as nat) >= 0) by (nonlinear_arith)
                requires
                    digits_val(dd) >= 0,
                    pow10(cnt as nat) >= 1,
            ;
        }
        let (mg, hg, w) = read_atto_digits(&digs, TERM_CAP);
        return (mg, hg, w, false);
    }
    let cut = (0 - sh) as u128;
    if cut >= dl as u128 {
        proof {
            lemma_pow10_mono(dl as nat, (-shift) as nat);
            vstd::arithmetic::div_mod::lemma_fundamental_div_mod_converse(
                digits_val(dd),
                pow10((-shift) as nat),
                0,
                digits_val(dd),
            );
        }
        return (0, false, Vec::new(), false);
    }
    let keep = dl - (cut as usize);
    let a = slice_of(&digs, 0, keep);
    proof {
        let tail = dd.skip(keep as int);
        assert(a@ + tail =~= dd);
        assert(all_digits(a@)) by {
            assert forall|t: int| 0 <= t < a@.len() implies is_digit(#[trigger] a@[t]) by {
                assert(a@[t] == dd[t]);
            }
        }
        assert(all_digits(tail)) by {
            assert forall|t: int| 0 <= t < tail.len() implies is_digit(#[trigger] tail[t]) by {
                assert(tail[t] == dd[t + keep]);
            }
        }
        lemma_digits_concat(a@, tail);
        lemma_digits_val_bound(tail);
        lemma_digits_val_bound(a@);
        lemma_pow10_pos(tail.len());
        vstd::arithmetic::div_mod::lemma_fundamental_div_mod_converse(
            digits_val(dd),
            pow10(tail.len()),
            digits_val(a@),
            digits_val(tail),
        );
    }
    let (mg, hg, w) = read_atto_digits(&a, TERM_CAP);
    (mg, hg, w, false)
}

/// Reads a number the way `f64::from_str` accepts it.
fn parse_float(s: &Vec<char>) -> (r: Option<Reading>)
    ensures
        r is None <==> float_lit(s@) is None,
        r matches Some(rd) ==> reading_of(rd, float_lit(s@)->Some_0),
{
    let n = s.len();
    let signed = n > 0 && (s[0] == '+' || s[0] == '-');
    let neg = n > 0 && s[0] == '-';
    let start: usize = if signed { 1 } else { 0 };
    proof {
        if signed {
            assert(s@.subrange(1, n as int) == s@.drop_first());
        } else {
            assert(s@.subrange(0, n as int) == s@);
        }
    }
    if matches_ignore_ascii_case(s, start, n, "inf") || matches_ignore_ascii_case(
        s,
        start,
        n,
        "infinity",
    ) {
        return Some(if neg { Reading::NegInf } else { Reading::PosInf });
    }
    if matches_ignore_ascii_case(s, start, n, "nan") {
        return Some(Reading::NaN);
    }
    let body = slice_of(s, start, n);
    proof {
        lemma_decimal_nonneg(body@);
    }
    let bl = body.len();
    let mut k: usize = 0;
    while k < bl && body[k] != 'e' && body[k] != 'E'
        invariant
            k <= bl == body.len(),
            forall|t: int| 0 <= t < k ==> !is_exp_mark()(#[trigger] body@[t]),
        decreases bl - k,
    {
        k = k + 1;
    }
    proof {
        lemma_first_where(body@, is_exp_mark(), k as int);
    }
    if k < bl {
        match parse_sci(&body, k) {
            None => None,
            Some((mag, huge, whole, far)) => Some(Reading::Finite { neg, mag, huge, whole, far }),
        }
    } else {
        match parse_decimal(&body) {
            None => None,
            Some((mag, huge, whole)) => Some(Reading::Finite { neg, mag, huge, whole, far: false }),
        }
    }
}

/// The running total of a duration's terms, in attoseconds; a term of
/// `TERM_CAP` or more in magnitude is recorded only by its sign.
pub struct Acc {
    /// The sum of the terms below `TERM_CAP` in magnitude.
    pub sum: int,
    /// A term of at least `TERM_CAP` was added.
    pub huge_pos: bool,
    /// A term of at most `-TERM_CAP` was added.
    pub huge_neg: bool,
    /// Positive infinity was added.
    pub pos_inf: bool,
    /// Negative infinity was added.
    pub neg_inf: bool,
    /// Not-a-number was added.
    pub nan: bool,
}

/// The empty total.
pub open spec fn acc_start() -> Acc {
    Acc { sum: 0, huge_pos: false, huge_neg: false, pos_inf: false, neg_inf: false, nan: false }
}

/// The total is exactly zero (as `total == 0.0` would find it).
pub open spec fn acc_is_zero(a: Acc) -> bool {
    !a.huge_pos && !a.huge_neg && !a.pos_inf && !a.neg_inf && !a.nan && a.sum == 0
}

/// A term of `x` (in units of 10^-18) times `mult` seconds lies beyond the
/// range of `f64`, which reads it as an infinity: its whole number of units,
/// times `mult`, reaches `f64_infinite_from()` seconds.
pub open spec fn beyond_f64(x: int, mult: int) -> bool {
    (if x >= 0 {
        x
    } else {
        -x
    }) / (ATTOS_PER_SEC as int) * mult >= f64_infinite_from()
}

/// The total after adding the number `v` times `mult`; a term beyond the range
/// of `f64` counts as an infinity of its sign.
pub open spec fn acc_add(a: Acc, v: Number, mult: int) -> Acc {
    match v {
        Number::Finite(x) => {
            let t = x * mult;
            if beyond_f64(x, mult) {
                if x >= 0 {
                    Acc { pos_inf: true, ..a }
                } else {
                    Acc { neg_inf: true, ..a }
                }
            } else if t >= TERM_CAP {
                Acc { huge_pos: true, ..a }
            } else if t <= -TERM_CAP {
                Acc { huge_neg: true, ..a }
            } else {
                Acc { sum: a.sum + t, ..a }
            }
        },
        Number::PosInf => Acc { pos_inf: true, ..a },
        Number::NegInf => Acc { neg_inf: true, ..a },
        Number::NaN => Acc { nan: true, ..a },
    }
}

/// Why a duration string was refused: every refusal is a format error, with
/// its message.
pub enum Failure {
    /// Reported as `StandbyError::InvalidTimeFormat`.
    Format(Seq<char>),
}

/// The error `e` reports the failure `f`.
pub open spec fn reports(e: StandbyError, f: Failure) -> bool {
    match f {
        Failure::Format(m) => e matches StandbyError::InvalidTimeFormat(s) && s@ == m,
    }
}

/// The result `r` is the outcome `o`.
pub open spec fn agrees(r: Result<Duration, StandbyError>, o: Result<Duration, Failure>) -> bool {
    match o {
        Ok(d) => r == Ok::<Duration, StandbyError>(d),
        Err(f) => r matches Err(e) && reports(e, f),
    }
}

/// The message for a negative or not-a-number duration.
pub open spec fn msg_negative() -> Seq<char> {
    "duration must be non-negative and finite"@
}

/// The message for a duration beyond `2^64 + 2048` seconds (whose nanoseconds,
/// taken from the seconds that do not fit, leave the range of a second).
pub open spec fn msg_too_large() -> Seq<char> {
    "nanoseconds must be 0-999999999"@
}

/// The infinite duration.
pub open spec fn infinite() -> Duration {
    Duration { secs: u64::MAX, nanos: 0 }
}

/// The duration of `w` whole seconds: infinite from `2^64 - 1024` on, where
/// `f64` rounds the number up to `2^64`.
pub open spec fn whole_duration(w: int) -> Duration {
    if w >= 18446744073709550592 {
        infinite()
    } else {
        Duration { secs: w as u64, nanos: 0 }
    }
}

/// The duration that a total makes: infinite for an infinity, refused when
/// negative, not a number or beyond `2^64 + 2048` seconds, infinite (without
/// nanoseconds) from `2^64 - 1024` seconds on (the numbers that `f64` rounds to
/// `2^64`), else the total truncated to whole nanoseconds.
pub open spec fn finish(a: Acc) -> Result<Duration, Failure> {
    if a.nan || (a.pos_inf && a.neg_inf) {
        Err(Failure::Format(msg_negative()))
    } else if a.pos_inf || a.neg_inf {
        Ok(infinite())
    } else if a.huge_pos {
        Err(Failure::Format(msg_too_large()))
    } else if a.huge_neg || a.sum < 0 {
        Err(Failure::Format(msg_negative()))
    } else if a.sum >= DURATION_LIMIT {
        Err(Failure::Format(msg_too_large()))
    } else if a.sum >= INFINITE_FROM {
        Ok(infinite())
    } else {
        Ok(
            Duration {
                secs: (a.sum / ATTOS_PER_SEC as int) as u64,
                nanos: ((a.sum / ATTOS_PER_NANO as int) % 1_000_000_000) as u32,
            },
        )
    }
}

/// The executable running total.
struct Totals {
    sum: i128,
    huge_pos: bool,
    huge_neg: bool,
    pos_inf: bool,
    neg_inf: bool,
    nan: bool,
}

impl Totals {
    spec fn acc(&self) -> Acc {
        Acc {
            sum: self.sum as int,
            huge_pos: self.huge_pos,
            huge_neg: self.huge_neg,
            pos_inf: self.pos_inf,
            neg_inf: self.neg_inf,
            nan: self.nan,
        }
    }

    fn new() -> (t: Totals)
        ensures
            t.acc() == acc_start(),
    {
        Totals {
            sum: 0,
            huge_pos: false,
            huge_neg: false,
            pos_inf: false,
            neg_inf: false,
            nan: false,
        }
    }

    fn is_zero(&self) -> (b: bool)
        ensures
            b == acc_is_zero(self.acc()),
    {
        !self.huge_pos && !self.huge_neg && !self.pos_inf && !self.neg_inf && !self.nan && self.sum
            == 0
    }

    /// Adds the number `r` times `mult`.
    #[verifier::rlimit(40)]
    fn add(&mut self, r: &Reading, mult: u128, Ghost(n): Ghost<Number>)
        requires
            reading_of(*r, n),
            mult == 1 || mult == 60 || mult == 3600 || mult == 86400,
            -3 * (TERM_CAP - 1) <= old(self).sum <= 3 * (TERM_CAP - 1),
        ensures
            final(self).acc() == acc_add(old(self).acc(), n, mult as int),
            old(self).sum - (TERM_CAP - 1) <= final(self).sum <= old(self).sum + (TERM_CAP - 1),
    {
        match r {
            Reading::PosInf => {
                self.pos_inf = true;
            },
            Reading::NegInf => {
                self.neg_inf = true;
            },
            Reading::NaN => {
                self.nan = true;
            },
            Reading::Finite { neg, mag, huge, whole, far } => {
                let ghost x = n->Finite_0;
                let ghost v = if *neg { -x } else { x };
                proof {
                    assert((if x >= 0 { x } else { -x }) == v);
                }
                if *huge || *mag > (TERM_CAP - 1) / mult {
                    proof {
                        if *huge {
                            assert(v * mult >= TERM_CAP) by (nonlinear_arith)
                                requires
                                    v >= TERM_CAP,
                                    mult >= 1,
                            ;
                        } else {
                            assert(v * mult >= TERM_CAP) by (nonlinear_arith)
                                requires
                                    v == *mag,
                                    *mag > (TERM_CAP - 1) / (mult as int),
                                    mult >= 1,
                            ;
                        }
                        if *neg {
                            assert(x * mult == -(v * mult)) by (nonlinear_arith)
                                requires
                                    x == -v,
                            ;
                        }
                    }
                    let limit = overflow_units(mult);
                    let beyond = *far || digits_at_least(whole, &limit);
                    proof {
                        let w = v / (ATTOS_PER_SEC as int);
                        let u = digits_val(limit@);
                        if *far {
                            assert(w * mult >= f64_infinite_from()) by (nonlinear_arith)
                                requires
                                    w >= f64_infinite_from(),
                                    f64_infinite_from() > 0,
                                    mult >= 1,
                            ;
                        } else if beyond {
                            assert(w * mult >= f64_infinite_from()) by (nonlinear_arith)
                                requires
                                    w >= u,
                                    u * mult >= f64_infinite_from(),
                                    mult >= 1,
                            ;
                        } else {
                            assert(w * mult < f64_infinite_from()) by (nonlinear_arith)
                                requires
                                    w <= u - 1,
                                    (u - 1) * mult < f64_infinite_from(),
                                    mult >= 1,
                            ;
                        }
                    }
                    if beyond {
                        if *neg {
                            self.neg_inf = true;
                        } else {
                            self.pos_inf = true;
                        }
                    } else if *neg {
                        self.huge_neg = true;
                    } else {
                        self.huge_pos = true;
                    }
                } else {
                    proof {
                        assert(*mag * mult <= TERM_CAP - 1) by (nonlinear_arith)
                            requires
                                *mag <= (TERM_CAP - 1) / (mult as int),
                                mult >= 1,
                        ;
                        assert(v / (ATTOS_PER_SEC as int) * mult <= v * mult) by (nonlinear_arith)
                            requires
                                v >= 0,
                                mult >= 1,
                        ;
                        assert(TERM_CAP - 1 < f64_infinite_from());
                        if *far {
                            assert(v >= f64_infinite_from() * (ATTOS_PER_SEC as int)) by (nonlinear_arith)
                                requires
                                    v / (ATTOS_PER_SEC as int) >= f64_infinite_from(),
                                    v >= 0,
                            ;
                        }
                    }
                    let t = *mag * mult;
                    proof {
                        assert(x * mult == if *neg { -(t as int) } else { t as int }) by (
                        nonlinear_arith)
                            requires
                                v == *mag,
                                t == *mag * mult,
                                v == if *neg { -x } else { x },
                        ;
                    }
                    let ti = t as i128;
                    if *neg {
                        self.sum = self.sum - ti;
                    } else {
                        self.sum = self.sum + ti;
                    }
                }
            },
        }
    }

    /// The duration that the total makes.
    fn finish(&self) -> (r: Result<Duration, StandbyError>)
        ensures
            agrees(r, finish(self.acc())),
    {
        if self.nan || (self.pos_inf && self.neg_inf) {
            return Err(
                StandbyError::InvalidTimeFormat(
                    String::from_str("duration must be non-negative and finite"),
                ),
            );
        }
        if self.pos_inf || self.neg_inf {
            return Ok(Duration { secs: u64::MAX, nanos: 0 });
        }
        if self.huge_pos {
            return Err(
                StandbyError::InvalidTimeFormat(String::from_str("nanoseconds must be 0-999999999")),
            );
        }
        if self.huge_neg || self.sum < 0 {
            return Err(
                StandbyError::InvalidTimeFormat(
                    String::from_str("duration must be non-negative and finite"),
                ),
            );
        }
        let total = self.sum as u128;
        if total >= DURATION_LIMIT {
            return Err(
                StandbyError::InvalidTimeFormat(String::from_str("nanoseconds must be 0-999999999")),
            );
        }
        if total >= INFINITE_FROM {
            return Ok(Duration { secs: u64::MAX, nanos: 0 });
        }
        let secs = (total / ATTOS_PER_SEC) as u64;
        let nanos = ((total / ATTOS_PER_NANO) % 1_000_000_000) as u32;
        Ok(Duration { secs, nanos })
    }
}

/// Characters that end the number of a split: neither numeric nor a point.
pub open spec fn not_number_char() -> spec_fn(char) -> bool {
    |c: char| !(is_num(c) || c == '.')
}

/// Characters after which the number of a later compound term begins:
/// whitespace, or neither numeric nor a point.
pub open spec fn is_break() -> spec_fn(char) -> bool {
    |c: char| is_ws(c) || (!is_num(c) && c != '.')
}

/// The predicate "is the character `c`".
pub open spec fn is_char(c: char) -> spec_fn(char) -> bool {
    |x: char| x == c
}

/// The seconds that one of the unit `u` is worth: `s` (or no unit), `m`, `h`, `d`.
/// (`ms` never reaches a single-unit reading: a string holding `ms` holds both
/// `m` and `s`, so it is read as a compound duration.)
pub open spec fn unit_factor(u: Seq<char>) -> Option<int> {
    if u.len() == 0 || u == seq!['s'] {
        Some(1)
    } else if u == seq!['m'] {
        Some(60)
    } else if u == seq!['h'] {
        Some(3600)
    } else if u == seq!['d'] {
        Some(86400)
    } else {
        None
    }
}

/// At least two of the unit letters `s`, `m`, `h`, `d` occur in `t`.
pub open spec fn multiple_units(t: Seq<char>) -> bool {
    (if t.contains('s') { 1int } else { 0 }) + (if t.contains('m') { 1int } else { 0 }) + (if t.contains(
        'h',
    ) { 1int } else { 0 }) + (if t.contains('d') { 1int } else { 0 }) >= 2
}

/// The number of bytes that `c` takes in UTF-8.
pub open spec fn utf8_len(c: char) -> int {
    let u = c as u32;
    if u < 0x80 {
        1
    } else if u < 0x800 {
        2
    } else if u < 0x10000 {
        3
    } else {
        4
    }
}

/// `r` counted from index `i`: `-1` stays `-1`.
pub open spec fn shifted(i: int, r: int) -> int {
    if r < 0 {
        -1
    } else {
        r + i
    }
}

/// The index of the character of `s` that starts at byte `b` of its UTF-8
/// form; `-1` when byte `b` falls inside a character or past the end.
pub open spec fn char_at_byte(s: Seq<char>, b: int) -> int
    decreases s.len(),
{
    if b == 0 {
        0
    } else if b < 0 || s.len() == 0 {
        -1
    } else {
        shifted(1, char_at_byte(s.drop_first(), b - utf8_len(s[0])))
    }
}

/// Where the unit of `t` begins. The number is found as the run of numeric
/// characters and points at the start; the count of its characters is then
/// taken as a byte offset into `t` (so a numeral of several bytes ends the
/// number early). The result is the index of the character at that byte, or
/// `-1` when the byte falls inside a character: `t` cannot be cut there.
pub open spec fn unit_start(t: Seq<char>) -> int {
    let k = first_where(t, not_number_char());
    if k >= t.len() {
        t.len() as int
    } else {
        char_at_byte(t, k)
    }
}

/// `t` cannot be cut into its number and its unit.
pub open spec fn split_fails(t: Seq<char>) -> bool {
    unit_start(t) < 0
}

/// `parse_duration` cannot read `input`: the text reaches the reading of a
/// single number and unit, and cannot be cut between them.
pub open spec fn parse_fails(input: Seq<char>) -> bool {
    let t = trim(input);
    &&& !eq_ignore_ascii_case(t, "infinity"@)
    &&& float_lit(t) is None
    &&& !multiple_units(t)
    &&& split_fails(t)
}

/// A number followed by at most one unit, cut at `unit_start`, both parts
/// trimmed.
pub open spec fn single_spec(t: Seq<char>) -> Result<Duration, Failure> {
    let k = unit_start(t);
    let num = trim(t.take(k));
    let unit = trim(t.skip(k));
    if num.len() == 0 {
        Err(Failure::Format("Missing number in: "@ + t))
    } else {
        match decimal_atto(num) {
            None => Err(Failure::Format("Invalid number: "@ + num)),
            Some(v) => match unit_factor(unit) {
                None => Err(Failure::Format("Unknown time unit: "@ + unit)),
                Some(f) => finish(acc_add(acc_start(), Number::Finite(v), f)),
            },
        }
    }
}

/// The letter of the `k`-th unit that a compound duration is searched for.
pub open spec fn unit_letter(k: int) -> char {
    if k == 0 {
        'd'
    } else if k == 1 {
        'h'
    } else if k == 2 {
        'm'
    } else {
        's'
    }
}

/// The seconds of the `k`-th unit that a compound duration is searched for.
pub open spec fn unit_seconds(k: int) -> int {
    if k == 0 {
        86400
    } else if k == 1 {
        3600
    } else if k == 2 {
        60
    } else {
        1
    }
}

/// One step of a compound duration: find the first occurrence of the unit in
/// what remains; its number is all that precedes it while the total is zero,
/// else only what follows the last break before it; an empty number skips the
/// unit; otherwise the number is added and the text after the unit remains.
pub open spec fn compound_step(a: Acc, rem: Seq<char>, k: int) -> Result<(Acc, Seq<char>), Failure> {
    let pos = first_where(rem, is_char(unit_letter(k)));
    if pos >= rem.len() {
        Ok((a, rem))
    } else {
        let part = rem.take(pos);
        let start = if acc_is_zero(a) { 0 } else { last_where(part, is_break()) + 1 };
        let numstr = trim(part.skip(start));
        if numstr.len() == 0 {
            Ok((a, rem))
        } else {
            match float_lit(numstr) {
                None => Err(Failure::Format("Invalid number in compound duration: "@ + numstr)),
                Some(v) => Ok((acc_add(a, v, unit_seconds(k)), rem.skip(pos + 1))),
            }
        }
    }
}

/// The steps of a compound duration from the `k`-th unit on.
pub open spec fn compound_from(a: Acc, rem: Seq<char>, k: nat) -> Result<Acc, Failure>
    decreases 4 - k,
{
    if k >= 4 {
        Ok(a)
    } else {
        match compound_step(a, rem, k as int) {
            Err(f) => Err(f),
            Ok((a2, r2)) => compound_from(a2, r2, k + 1),
        }
    }
}

/// A compound duration such as `1h30m45s`: days, hours, minutes and seconds are
/// looked for in that order; a total of zero is refused.
pub open spec fn compound_spec(t: Seq<char>) -> Result<Duration, Failure> {
    match compound_from(acc_start(), t, 0) {
        Err(f) => Err(f),
        Ok(a) => if acc_is_zero(a) {
            Err(Failure::Format("No valid time units found"@))
        } else {
            finish(a)
        },
    }
}

/// What `parse_duration` gives for the characters `input`.
pub open spec fn parse_spec(input: Seq<char>) -> Result<Duration, Failure> {
    let t = trim(input);
    if eq_ignore_ascii_case(t, "infinity"@) {
        Ok(infinite())
    } else {
        match float_lit(t) {
            Some(v) => finish(acc_add(acc_start(), v, 1)),
            None => if multiple_units(t) {
                compound_spec(t)
            } else {
                single_spec(t)
            },
        }
    }
}

/// Parses a time duration string in various formats.
///
/// Supported formats:
/// - Integer seconds: "5", "10"
/// - Decimal seconds: "5.5", "1.234", also with an exponent: "1e3", "2.5E-1"
/// - With unit suffix: "5s", "1m", "1h", "1d", "5.5m"
/// - Compound: "1m30s", "1h30m45s"
/// - Special value: "infinity" (any ASCII case), also `inf`
///
/// A text that `parse_fails` cannot be read at all (see `unit_start`).
pub fn parse_duration(input: &str) -> (r: Result<Duration, StandbyError>)
    requires
        !parse_fails(input@),
    ensures
        agrees(r, parse_spec(input@)),
{
    let all = chars_of(input);
    let t = trimmed(&all);
    if matches_ignore_ascii_case(&t, 0, t.len(), "infinity") {
        proof {
            assert(t@.subrange(0, t@.len() as int) == t@);
        }
        return Ok(Duration { secs: u64::MAX, nanos: 0 });
    }
    proof {
        assert(t@.subrange(0, t@.len() as int) == t@);
    }
    match parse_float(&t) {
        Some(v) => {
            let mut acc = Totals::new();
            acc.add(&v, 1, Ghost(float_lit(t@)->Some_0));
            acc.finish()
        },
        None => parse_duration_with_units(&t),
    }
}

/// Parses a duration when `parse_duration` can read it; `None` for a text that
/// `parse_fails`.
pub fn read_duration(input: &str) -> (r: Option<Result<Duration, StandbyError>>)
    ensures
        r is None <==> parse_fails(input@),
        r matches Some(x) ==> agrees(x, parse_spec(input@)),
{
    if parse_fails_exec(input) {
        None
    } else {
        Some(parse_duration(input))
    }
}

/// Parses a duration written with units, `t` being trimmed already.
fn parse_duration_with_units(t: &Vec<char>) -> (r: Result<Duration, StandbyError>)
    requires
        !multiple_units(t@) ==> !split_fails(t@),
    ensures
        agrees(
            r,
            if multiple_units(t@) {
                compound_spec(t@)
            } else {
                single_spec(t@)
            },
        ),
{
    if contains_multiple_units(t) {
        parse_compound_duration(t)
    } else {
        parse_single_unit(t)
    }
}

/// Whether `t` holds `c`.
fn has_char(t: &Vec<char>, c: char) -> (b: bool)
    ensures
        b == t@.contains(c),
{
    let mut i: usize = 0;
    while i < t.len()
        invariant
            i <= t.len(),
            forall|j: int| 0 <= j < i ==> t@[j] != c,
        decreases t.len() - i,
    {
        if t[i] == c {
            return true;
        }
        i = i + 1;
    }
    false
}

/// Whether at least two of the unit letters occur in `t`.
fn contains_multiple_units(t: &Vec<char>) -> (b: bool)
    ensures
        b == multiple_units(t@),
{
    let mut found: u8 = 0;
    if has_char(t, 's') {
        found = found + 1;
    }
    if has_char(t, 'm') {
        found = found + 1;
    }
    if has_char(t, 'h') {
        found = found + 1;
    }
    if has_char(t, 'd') {
        found = found + 1;
    }
    found >= 2
}

/// Index of the first occurrence of `c` in `t`, or `t.len()`.
fn find_char(t: &Vec<char>, c: char) -> (r: usize)
    ensures
        r == first_where(t@, is_char(c)),
        r <= t.len(),
{
    let mut i: usize = 0;
    while i < t.len() && t[i] != c
        invariant
            i <= t.len(),
            forall|j: int| 0 <= j < i ==> !is_char(c)(#[trigger] t@[j]),
        decreases t.len() - i,
    {
        i = i + 1;
    }
    proof {
        lemma_first_where(t@, is_char(c), i as int);
    }
    i
}

/// Index of the first character of `t` that is neither numeric nor a point, or `t.len()`.
fn number_end(t: &Vec<char>) -> (r: usize)
    ensures
        r == first_where(t@, not_number_char()),
        r <= t.len(),
{
    let mut i: usize = 0;
    while i < t.len() && (is_numeric(t[i]) || t[i] == '.')
        invariant
            i <= t.len(),
            forall|j: int| 0 <= j < i ==> !not_number_char()(#[trigger] t@[j]),
        decreases t.len() - i,
    {
        i = i + 1;
    }
    proof {
        lemma_first_where(t@, not_number_char(), i as int);
    }
    i
}

/// One past the last break of `t`, or 0 when `t` has none.
fn after_last_break(t: &Vec<char>) -> (r: usize)
    ensures
        r == last_where(t@, is_break()) + 1,
        r <= t.len(),
{
    let mut i: usize = t.len();
    while i > 0 && !(is_whitespace(t[i - 1]) || (!is_numeric(t[i - 1]) && t[i - 1] != '.'))
        invariant
            i <= t.len(),
            forall|j: int| i <= j < t.len() ==> !is_break()(#[trigger] t@[j]),
        decreases i,
    {
        i = i - 1;
    }
    proof {
        lemma_last_where(t@, is_break(), i - 1);
    }
    i
}

/// The number of bytes that `c` takes in UTF-8.
fn utf8_width(c: char) -> (n: usize)
    ensures
        n == utf8_len(c),
{
    let u = c as u32;
    if u < 0x80 {
        1
    } else if u < 0x800 {
        2
    } else if u < 0x10000 {
        3
    } else {
        4
    }
}

/// The index of the character of `t` that starts at byte `b`, if one does.
fn find_char_at_byte(t: &Vec<char>, b: usize) -> (r: Option<usize>)
    ensures
        match r {
            Some(j) => char_at_byte(t@, b as int) == j && j <= t.len(),
            None => char_at_byte(t@, b as int) < 0,
        },
{
    let mut i: usize = 0;
    let mut rem: usize = b;
    proof {
        assert(t@.skip(0) == t@);
    }
    while rem > 0 && i < t.len()
        invariant
            i <= t.len(),
            char_at_byte(t@, b as int) == shifted(i as int, char_at_byte(t@.skip(i as int), rem as int)),
        decreases rem,
    {
        let w = utf8_width(t[i]);
        proof {
            assert(t@.skip(i as int).drop_first() == t@.skip(i + 1));
            assert(t@.skip(i as int)[0] == t@[i as int]);
            assert(char_at_byte(t@.skip(i as int), rem as int) == shifted(
                1,
                char_at_byte(t@.skip(i + 1), rem - w),
            ));
        }
        if w > rem {
            proof {
                assert(char_at_byte(t@.skip(i + 1), rem - w) == -1);
            }
            return None;
        }
        rem = rem - w;
        i = i + 1;
    }
    if rem == 0 {
        Some(i)
    } else {
        proof {
            assert(t@.skip(i as int).len() == 0);
            assert(char_at_byte(t@.skip(i as int), rem as int) == -1);
        }
        None
    }
}

/// Whether `t` cannot be cut into its number and its unit.
fn split_fails_exec(t: &Vec<char>) -> (b: bool)
    ensures
        b == split_fails(t@),
{
    let k = number_end(t);
    if k >= t.len() {
        false
    } else {
        find_char_at_byte(t, k).is_none()
    }
}

/// Whether `parse_duration` cannot read `input`: it reaches the reading of a
/// single number and unit, and cannot be cut between them.
pub fn parse_fails_exec(input: &str) -> (b: bool)
    ensures
        b == parse_fails(input@),
{
    let all = chars_of(input);
    let t = trimmed(&all);
    proof {
        assert(t@.subrange(0, t@.len() as int) == t@);
    }
    if matches_ignore_ascii_case(&t, 0, t.len(), "infinity") {
        return false;
    }
    if parse_float(&t).is_some() {
        return false;
    }
    if contains_multiple_units(&t) {
        return false;
    }
    split_fails_exec(&t)
}

/// Splits `t` into its number and its unit, cut at `unit_start`, both trimmed;
/// refused when the number is empty.
fn split_number_and_unit(t: &Vec<char>) -> (r: Result<(Vec<char>, Vec<char>), StandbyError>)
    requires
        !split_fails(t@),
    ensures
        ({
            let k = unit_start(t@);
            let num = trim(t@.take(k));
            match r {
                Ok((n, u)) => num.len() > 0 && n@ == num && u@ == trim(t@.skip(k)),
                Err(e) => num.len() == 0 && (e matches StandbyError::InvalidTimeFormat(m) && m@
                    == "Missing number in: "@ + t@),
            }
        }),
{
    let e = number_end(t);
    let k = if e >= t.len() {
        t.len()
    } else {
        match find_char_at_byte(t, e) {
            Some(j) => j,
            None => {
                return Err(StandbyError::InvalidTimeFormat(string_from("Missing number in: ", t)));
            },
        }
    };
    let head = slice_of(t, 0, k);
    let tail = slice_of(t, k, t.len());
    proof {
        assert(head@ == t@.take(k as int));
        assert(tail@ == t@.skip(k as int));
    }
    let num = trimmed(&head);
    let unit = trimmed(&tail);
    if num.len() == 0 {
        return Err(StandbyError::InvalidTimeFormat(string_from("Missing number in: ", t)));
    }
    Ok((num, unit))
}

/// A number with at most one unit.
fn parse_single_unit(t: &Vec<char>) -> (r: Result<Duration, StandbyError>)
    requires
        !split_fails(t@),
    ensures
        agrees(r, single_spec(t@)),
{
    let (num, unit) = match split_number_and_unit(t) {
        Ok(parts) => parts,
        Err(e) => {
            return Err(e);
        },
    };
    let value = match parse_decimal(&num) {
        None => {
            return Err(StandbyError::InvalidTimeFormat(string_from("Invalid number: ", &num)));
        },
        Some(v) => v,
    };
    let factor: u128 = if unit.len() == 0 || (unit.len() == 1 && unit[0] == 's') {
        1
    } else if unit.len() == 1 && unit[0] == 'm' {
        60
    } else if unit.len() == 1 && unit[0] == 'h' {
        3600
    } else if unit.len() == 1 && unit[0] == 'd' {
        86400
    } else {
        proof {
            assert(unit@.len() != 1 ==> unit@ != seq!['s'] && unit@ != seq!['m'] && unit@ != seq!['h']
                && unit@ != seq!['d']);
        }
        return Err(StandbyError::InvalidTimeFormat(string_from("Unknown time unit: ", &unit)));
    };
    proof {
        if unit.len() == 1 {
            assert(unit@ == seq![unit@[0]]);
        }
        lemma_decimal_nonneg(num@);
    }
    let (mag, huge, whole) = value;
    let mut acc = Totals::new();
    acc.add(
        &Reading::Finite { neg: false, mag, huge, whole, far: false },
        factor,
        Ghost(Number::Finite(decimal_atto(num@)->Some_0)),
    );
    acc.finish()
}

/// The unit searched for in the `k`-th step of a compound duration.
fn unit_at(k: usize) -> (r: (char, u128))
    requires
        k < 4,
    ensures
        r.0 == unit_letter(k as int),
        r.1 == unit_seconds(k as int),
{
    if k == 0 {
        ('d', 86400)
    } else if k == 1 {
        ('h', 3600)
    } else if k == 2 {
        ('m', 60)
    } else {
        ('s', 1)
    }
}

/// How far the sum of `k` terms can stray from zero.
spec fn steps_bound(k: int) -> int {
    if k <= 0 {
        0
    } else if k == 1 {
        TERM_CAP - 1
    } else if k == 2 {
        2 * (TERM_CAP - 1)
    } else if k == 3 {
        3 * (TERM_CAP - 1)
    } else {
        4 * (TERM_CAP - 1)
    }
}

/// A compound duration such as `1h30m45s`.
fn parse_compound_duration(t: &Vec<char>) -> (r: Result<Duration, StandbyError>)
    ensures
        agrees(r, compound_spec(t@)),
{
    let mut acc = Totals::new();
    let mut rem = slice_of(t, 0, t.len());
    proof {
        assert(rem@ == t@);
    }
    let mut k: usize = 0;
    while k < 4
        invariant
            k <= 4,
            compound_from(acc_start(), t@, 0) == compound_from(acc.acc(), rem@, k as nat),
            -steps_bound(k as int) <= acc.sum <= steps_bound(k as int),
        decreases 4 - k,
    {
        let (letter, mult) = unit_at(k);
        let pos = find_char(&rem, letter);
        if pos < rem.len() {
            let part = slice_of(&rem, 0, pos);
            proof {
                assert(part@ == rem@.take(pos as int));
            }
            let start = if acc.is_zero() {
                0
            } else {
                after_last_break(&part)
            };
            let rest = slice_of(&part, start, part.len());
            proof {
                assert(rest@ == part@.skip(start as int));
            }
            let numstr = trimmed(&rest);
            if numstr.len() > 0 {
                match parse_float(&numstr) {
                    None => {
                        return Err(
                            StandbyError::InvalidTimeFormat(
                                string_from("Invalid number in compound duration: ", &numstr),
                            ),
                        );
                    },
                    Some(v) => {
                        acc.add(&v, mult, Ghost(float_lit(numstr@)->Some_0));
                        let after = slice_of(&rem, pos + 1, rem.len());
                        proof {
                            assert(after@ == rem@.skip(pos + 1));
                        }
                        rem = after;
                    },
                }
            }
        }
        k = k + 1;
    }
    if acc.is_zero() {
        return Err(StandbyError::InvalidTimeFormat(String::from_str("No valid time units found")));
    }
    acc.finish()
}

} // verus!
