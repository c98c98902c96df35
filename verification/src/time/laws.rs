//! Laws of duration parsing and display, proved over `parse_spec` and
//! `Duration::display`, the specifications that `parse_duration` and
//! `Duration::to_string` meet.

use vstd::prelude::*;
use crate::text::{
    all_digits, all_ws, ascii_lower, decimal_digits, digits_val, eq_ignore_ascii_case, first_where,
    is_digit, is_num, is_ws, lemma_decimal_digits, lemma_decimal_digits_len, lemma_first_where,
    lemma_last_where, lemma_pow10_18, lemma_trim_padded, non_ws, pow10, trim, zero_pad,
};
use crate::time::duration::Duration;
use crate::time::magnitude::lemma_leading_zeros;
use crate::time::parser::{
    acc_add, acc_start, compound_from, compound_step, decimal_atto, finish, float_lit,
    infinite, is_break, is_char, is_dot, is_exp_mark, multiple_units, not_number_char, parse_spec, unit_factor,
    unit_letter, unit_seconds, whole_duration, char_at_byte, Acc, Number, DURATION_LIMIT, INFINITE_FROM,
    TERM_CAP,
};

verus! {

/// A total makes a well-formed duration, if any, and an infinite one has no
/// nanoseconds.
proof fn lemma_finish_wf(a: Acc)
    ensures
        finish(a) matches Ok(d) ==> d.wf() && (d.secs == u64::MAX ==> d.nanos == 0),
{
    if a.sum >= 0 && a.sum < INFINITE_FROM {
        assert(a.sum / 1_000_000_000_000_000_000int < u64::MAX) by (nonlinear_arith)
            requires
                0 <= a.sum < 18446744073709550592000000000000000000int,
        ;
    }
}

/// Whatever `parse_duration` accepts is a well-formed duration: its
/// nanoseconds are below one second, and the infinite duration (`u64::MAX`
/// seconds) has none.
pub proof fn law_parsed_durations_are_well_formed(input: Seq<char>)
    ensures
        parse_spec(input) matches Ok(d) ==> d.wf() && (d.secs == u64::MAX ==> d.nanos == 0),
{
    let t = trim(input);
    if !eq_ignore_ascii_case(t, "infinity"@) {
        match float_lit(t) {
            Some(v) => lemma_finish_wf(acc_add(acc_start(), v, 1)),
            None => {
                if multiple_units(t) {
                    match crate::time::parser::compound_from(acc_start(), t, 0) {
                        Ok(a) => lemma_finish_wf(a),
                        Err(_) => {},
                    }
                } else {
                    let k = first_where(t, not_number_char());
                    let num = trim(t.take(k));
                    let unit = trim(t.skip(k));
                    if num.len() > 0 {
                        match decimal_atto(num) {
                            Some(v) => match unit_factor(unit) {
                                Some(f) => lemma_finish_wf(
                                    acc_add(acc_start(), Number::Finite(v), f),
                                ),
                                None => {},
                            },
                            None => {},
                        }
                    }
                }
            },
        }
    }
}

/// A sequence without whitespace is its own trim.
proof fn lemma_trim_plain(s: Seq<char>)
    requires
        forall|i: int| 0 <= i < s.len() ==> !is_ws(#[trigger] s[i]),
    ensures
        trim(s) == s,
{
    if s.len() > 0 {
        lemma_first_where(s, non_ws(), 0);
        lemma_last_where(s, non_ws(), s.len() - 1);
        assert(s.subrange(0, s.len() as int) == s);
    }
}

/// Decimal digits read as a decimal number.
proof fn lemma_decimal_of_digits(n: nat)
    ensures
        decimal_atto(decimal_digits(n)) == Some(n * pow10(18)),
{
    let s = decimal_digits(n);
    lemma_decimal_digits(n);
    assert forall|j: int| 0 <= j < s.len() implies !is_dot()(#[trigger] s[j]) by {
        assert(is_digit(s[j]));
    }
    lemma_first_where(s, is_dot(), s.len() as int);
}

/// A whole number of seconds, times the unit `f`, makes whole seconds.
proof fn lemma_finish_whole(n: nat, f: int)
    requires
        f >= 1,
        n * f <= u64::MAX,
    ensures
        finish(acc_add(acc_start(), Number::Finite(n * pow10(18)), f)) == Ok::<
            Duration,
            crate::time::parser::Failure,
        >(whole_duration(n * f)),
{
    lemma_pow10_18();
    let x = n * pow10(18);
    let t = x * f;
    assert(t == (n * f) * 1_000_000_000_000_000_000) by (nonlinear_arith)
        requires
            x == n * pow10(18),
            t == x * f,
            pow10(18) == 1_000_000_000_000_000_000int,
    ;
    let w = n * f;
    assert(0 <= t < DURATION_LIMIT) by (nonlinear_arith)
        requires
            t == w * 1_000_000_000_000_000_000,
            0 <= w <= u64::MAX,
    ;
    assert(t >= INFINITE_FROM <==> w >= 18446744073709550592) by (nonlinear_arith)
        requires
            t == w * 1_000_000_000_000_000_000,
            0 <= w <= u64::MAX,
    ;
    assert(t / 1_000_000_000_000_000_000int == w) by (nonlinear_arith)
        requires
            t == w * 1_000_000_000_000_000_000,
    ;
    assert((t / 1_000_000_000int) % 1_000_000_000 == 0) by (nonlinear_arith)
        requires
            t == w * 1_000_000_000_000_000_000,
            w >= 0,
    ;
}

/// A sequence that starts with a digit is none of the words `inf`,
/// `infinity` and `nan`.
proof fn lemma_not_a_word(s: Seq<char>)
    requires
        s.len() > 0,
        is_digit(s[0]),
    ensures
        !eq_ignore_ascii_case(s, "inf"@),
        !eq_ignore_ascii_case(s, "infinity"@),
        !eq_ignore_ascii_case(s, "nan"@),
{
    reveal_strlit("inf");
    reveal_strlit("infinity");
    reveal_strlit("nan");
    assert(ascii_lower(s[0]) == s[0]);
}

/// A text without `e` or `E` has no exponent.
proof fn lemma_no_exponent(t: Seq<char>)
    requires
        forall|i: int| 0 <= i < t.len() ==> #[trigger] t[i] != 'e' && t[i] != 'E',
    ensures
        first_where(t, is_exp_mark()) == t.len(),
{
    lemma_first_where(t, is_exp_mark(), t.len() as int);
}

/// In a text whose first `k` characters are ASCII, character `k` starts at
/// byte `k`.
proof fn lemma_ascii_char_at_byte(t: Seq<char>, k: int)
    requires
        0 <= k <= t.len(),
        forall|i: int| 0 <= i < k ==> (#[trigger] t[i] as u32) < 0x80,
    ensures
        char_at_byte(t, k) == k,
    decreases k,
{
    if k > 0 {
        let r = t.drop_first();
        assert forall|i: int| 0 <= i < k - 1 implies (#[trigger] r[i] as u32) < 0x80 by {
            assert(r[i] == t[i + 1]);
        }
        lemma_ascii_char_at_byte(r, k - 1);
        assert((t[0] as u32) < 0x80);
    }
}

/// A digit is a numeric character.
proof fn lemma_digit_is_num(c: char)
    requires
        is_digit(c),
    ensures
        is_num(c),
        !is_ws(c),
{
}

/// Integer seconds: the decimal digits of `n` parse to `n` seconds (infinite
/// from `2^64 - 1024` on, where `f64` rounds the number up to `2^64`).
pub proof fn law_integer_seconds(n: u64)
    ensures
        parse_spec(decimal_digits(n as nat)) == Ok::<Duration, crate::time::parser::Failure>(
            whole_duration(n as int),
        ),
{
    let s = decimal_digits(n as nat);
    lemma_decimal_digits(n as nat);
    assert forall|i: int| 0 <= i < s.len() implies !is_ws(#[trigger] s[i]) by {
        assert(is_digit(s[i]));
    }
    lemma_trim_plain(s);
    lemma_not_a_word(s);
    lemma_decimal_of_digits(n as nat);
    assert forall|i: int| 0 <= i < s.len() implies #[trigger] s[i] != 'e' && s[i] != 'E' by {
        assert(is_digit(s[i]));
    }
    lemma_no_exponent(s);
    assert(s.len() > 0 && is_digit(s[0]));
    assert(!(s[0] == '+' || s[0] == '-'));
    lemma_finish_whole(n as nat, 1);
}


/// The seconds of a unit letter.
pub open spec fn letter_seconds(u: char) -> int {
    if u == 's' {
        1
    } else if u == 'm' {
        60
    } else if u == 'h' {
        3600
    } else {
        86400
    }
}

/// The letters of the units `s`, `m`, `h`, `d`.
pub open spec fn is_unit_letter(u: char) -> bool {
    u == 's' || u == 'm' || u == 'h' || u == 'd'
}

/// A number with a unit: the decimal digits of `n` followed by `s`, `m`, `h`
/// or `d` parse to `n` seconds, minutes, hours or days, as long as that many
/// seconds fit in a `u64` (infinite from `2^64 - 1024` seconds on).
pub proof fn law_number_with_unit(n: u64, u: char)
    requires
        is_unit_letter(u),
        n * letter_seconds(u) <= u64::MAX,
    ensures
        parse_spec(decimal_digits(n as nat).push(u)) == Ok::<
            Duration,
            crate::time::parser::Failure,
        >(whole_duration(n * letter_seconds(u))),
{
    let ds = decimal_digits(n as nat);
    let t = ds.push(u);
    lemma_decimal_digits(n as nat);
    assert forall|i: int| 0 <= i < t.len() implies !is_ws(#[trigger] t[i]) by {
        if i < ds.len() {
            assert(t[i] == ds[i]);
            assert(is_digit(ds[i]));
        }
    }
    lemma_trim_plain(t);
    assert(t[0] == ds[0]);
    lemma_not_a_word(t);
    assert forall|i: int| 0 <= i < t.len() implies #[trigger] t[i] != 'e' && t[i] != 'E' by {
        if i < ds.len() {
            assert(t[i] == ds[i]);
            assert(is_digit(ds[i]));
        }
    }
    lemma_no_exponent(t);
    assert(!(t[0] == '+' || t[0] == '-'));
    // not a plain number: the unit is no digit
    assert forall|j: int| 0 <= j < t.len() implies !is_dot()(#[trigger] t[j]) by {
        if j < ds.len() {
            assert(t[j] == ds[j]);
        }
    }
    lemma_first_where(t, is_dot(), t.len() as int);
    assert(!all_digits(t)) by {
        assert(!is_digit(t[t.len() - 1]));
    }
    // a single unit
    assert forall|c: char| is_unit_letter(c) && c != u implies !t.contains(c) by {
        if t.contains(c) {
            let j = choose|j: int| 0 <= j < t.len() && t[j] == c;
            if j < ds.len() {
                assert(t[j] == ds[j]);
                assert(is_digit(ds[j]));
            }
        }
    }
    assert(t.contains(u)) by {
        assert(t[t.len() - 1] == u);
    }
    assert(!multiple_units(t));
    // split into number and unit
    assert forall|j: int| 0 <= j < ds.len() implies !not_number_char()(#[trigger] t[j]) by {
        assert(t[j] == ds[j]);
        lemma_digit_is_num(ds[j]);
    }
    lemma_first_where(t, not_number_char(), ds.len() as int);
    assert forall|i: int| 0 <= i < ds.len() implies (#[trigger] t[i] as u32) < 0x80 by {
        assert(t[i] == ds[i]);
        assert(is_digit(ds[i]));
    }
    lemma_ascii_char_at_byte(t, ds.len() as int);
    assert(t.take(ds.len() as int) == ds);
    assert(t.skip(ds.len() as int) == seq![u]);
    assert forall|i: int| 0 <= i < ds.len() implies !is_ws(#[trigger] ds[i]) by {
        assert(is_digit(ds[i]));
    }
    lemma_trim_plain(ds);
    lemma_trim_plain(seq![u]);
    lemma_decimal_of_digits(n as nat);
    assert(unit_factor(seq![u]) == Some(letter_seconds(u)));
    lemma_finish_whole(n as nat, letter_seconds(u));
}


/// Whitespace around a duration string changes nothing: the string reads as
/// it does without it.
pub proof fn law_surrounding_whitespace(pre: Seq<char>, s: Seq<char>, post: Seq<char>)
    requires
        all_ws(pre),
        all_ws(post),
    ensures
        parse_spec(pre + s + post) == parse_spec(s),
{
    lemma_trim_padded(pre, s, post);
}

/// `infinity` in any ASCII case, with any whitespace around it, is the
/// infinite duration.
pub proof fn law_infinity_any_case(input: Seq<char>)
    requires
        eq_ignore_ascii_case(trim(input), "infinity"@),
    ensures
        parse_spec(input) == Ok::<Duration, crate::time::parser::Failure>(infinite()),
{
}

/// An exponent shifts the point: the digits of `n`, `e` and the digits of `k`
/// parse to `n·10^k` seconds, as long as that fits in a `u64` (infinite from
/// `2^64 - 1024` seconds on).
pub proof fn law_exponent(n: u64, k: u64)
    requires
        n * pow10(k as nat) <= u64::MAX,
    ensures
        parse_spec(decimal_digits(n as nat) + seq!['e'] + decimal_digits(k as nat)) == Ok::<
            Duration,
            crate::time::parser::Failure,
        >(whole_duration(n * pow10(k as nat))),
{
    let dn = decimal_digits(n as nat);
    let dk = decimal_digits(k as nat);
    let t = dn + seq!['e'] + dk;
    let ln = dn.len() as int;
    lemma_decimal_digits(n as nat);
    lemma_decimal_digits(k as nat);
    assert forall|i: int| 0 <= i < t.len() implies is_digit(#[trigger] t[i]) || t[i] == 'e' by {
        if i < ln {
            assert(t[i] == dn[i]);
        } else if i > ln {
            assert(t[i] == dk[i - ln - 1]);
        }
    }
    assert forall|i: int| 0 <= i < t.len() implies !is_ws(#[trigger] t[i]) by {
        assert(is_digit(t[i]) || t[i] == 'e');
    }
    lemma_trim_plain(t);
    assert(t[0] == dn[0]);
    lemma_not_a_word(t);
    assert(!(t[0] == '+' || t[0] == '-'));
    // the exponent mark
    assert forall|i: int| 0 <= i < ln implies !is_exp_mark()(#[trigger] t[i]) by {
        assert(t[i] == dn[i]);
        assert(is_digit(dn[i]));
    }
    assert(t[ln] == 'e');
    lemma_first_where(t, is_exp_mark(), ln);
    assert(t.take(ln) == dn);
    assert(t.skip(ln + 1) == dk);
    // the mantissa has no point
    assert forall|i: int| 0 <= i < ln implies !is_dot()(#[trigger] dn[i]) by {
        assert(is_digit(dn[i]));
    }
    lemma_first_where(dn, is_dot(), ln);
    assert(dn.take(ln) == dn);
    assert(dn + Seq::<char>::empty() == dn);
    lemma_decimal_of_digits(n as nat);
    assert(is_digit(dk[0]));
    // the value
    crate::time::magnitude::lemma_pow10_add(k as nat, 18);
    lemma_pow10_18();
    let w = n * pow10(k as nat);
    assert(n * pow10((k + 18) as nat) == w * pow10(18)) by (nonlinear_arith)
        requires
            pow10((k + 18) as nat) == pow10(k as nat) * pow10(18),
            w == n * pow10(k as nat),
    ;
    crate::text::lemma_pow10_pos(k as nat);
    assert(w >= 0) by (nonlinear_arith)
        requires
            w == n * pow10(k as nat),
            n >= 0,
            pow10(k as nat) >= 1,
    ;
    lemma_finish_whole(w as nat, 1);
}

/// The decimal digits of `n` are their own trim and read as the number `n`.
proof fn lemma_float_of_digits(n: nat)
    ensures
        trim(decimal_digits(n)) == decimal_digits(n),
        float_lit(decimal_digits(n)) == Some(Number::Finite(n * pow10(18))),
{
    let ds = decimal_digits(n);
    lemma_decimal_digits(n);
    assert forall|i: int| 0 <= i < ds.len() implies !is_ws(#[trigger] ds[i]) by {
        assert(is_digit(ds[i]));
    }
    lemma_trim_plain(ds);
    lemma_not_a_word(ds);
    lemma_decimal_of_digits(n);
    assert forall|i: int| 0 <= i < ds.len() implies #[trigger] ds[i] != 'e' && ds[i] != 'E' by {
        assert(is_digit(ds[i]));
    }
    lemma_no_exponent(ds);
    assert(is_digit(ds[0]));
    assert(!(ds[0] == '+' || ds[0] == '-'));
}

/// A compound step that does not find its unit leaves the total and the text.
proof fn lemma_step_absent(a: Acc, rem: Seq<char>, k: int)
    requires
        forall|j: int| 0 <= j < rem.len() ==> rem[j] != unit_letter(k),
    ensures
        compound_step(a, rem, k) == Ok::<(Acc, Seq<char>), crate::time::parser::Failure>((a, rem)),
{
    lemma_first_where(rem, is_char(unit_letter(k)), rem.len() as int);
}

/// A compound step on the digits of `n`, its unit and `rest` adds `n` of that
/// unit and leaves `rest`.
proof fn lemma_step_number(a: Acc, n: nat, k: int, rest: Seq<char>)
    requires
        0 <= k < 4,
    ensures
        compound_step(a, decimal_digits(n) + seq![unit_letter(k)] + rest, k) == Ok::<
            (Acc, Seq<char>),
            crate::time::parser::Failure,
        >((acc_add(a, Number::Finite(n * pow10(18)), unit_seconds(k)), rest)),
{
    let ds = decimal_digits(n);
    let c = unit_letter(k);
    let rem = ds + seq![c] + rest;
    let l = ds.len() as int;
    lemma_decimal_digits(n);
    lemma_float_of_digits(n);
    assert forall|j: int| 0 <= j < l implies !is_char(c)(#[trigger] rem[j]) by {
        assert(rem[j] == ds[j]);
        assert(is_digit(ds[j]));
    }
    assert(rem[l] == c);
    lemma_first_where(rem, is_char(c), l);
    assert(rem.take(l) == ds);
    assert forall|j: int| -1 < j < l implies !is_break()(#[trigger] ds[j]) by {
        assert(is_digit(ds[j]));
        lemma_digit_is_num(ds[j]);
    }
    lemma_last_where(ds, is_break(), -1);
    assert(ds.skip(0) == ds);
    assert(rem.skip(l + 1) == rest);
}

/// The text `<h>h<m>m<s>s`, each number in decimal digits.
pub open spec fn hms_text(h: nat, m: nat, s: nat) -> Seq<char> {
    decimal_digits(h) + seq!['h'] + decimal_digits(m) + seq!['m'] + decimal_digits(s) + seq!['s']
}

/// Hours, minutes and seconds add up: `<h>h<m>m<s>s` is `3600·h + 60·m + s`
/// seconds, as long as that fits in a `u64` (infinite from `2^64 - 1024`
/// seconds on); a total of zero is refused as "No valid time units found".
#[verifier::spinoff_prover]
#[verifier::rlimit(60)]
pub proof fn law_hours_minutes_seconds(h: u64, m: u64, s: u64)
    requires
        3600 * h + 60 * m + s <= u64::MAX,
    ensures
        parse_spec(hms_text(h as nat, m as nat, s as nat)) == (if 3600 * h + 60 * m + s == 0 {
            Err::<Duration, crate::time::parser::Failure>(
                crate::time::parser::Failure::Format("No valid time units found"@),
            )
        } else {
            Ok::<Duration, crate::time::parser::Failure>(whole_duration(3600 * h + 60 * m + s))
        }),
{
    let hd = decimal_digits(h as nat);
    let md = decimal_digits(m as nat);
    let sd = decimal_digits(s as nat);
    lemma_decimal_digits(h as nat);
    lemma_decimal_digits(m as nat);
    lemma_decimal_digits(s as nat);
    let t = hms_text(h as nat, m as nat, s as nat);
    let r2 = sd + seq!['s'];
    let r1 = md + seq!['m'] + r2;
    assert(t =~= hd + seq!['h'] + r1);
    assert(r2 =~= sd + seq!['s'] + Seq::<char>::empty());
    let lh = hd.len() as int;
    let lm = md.len() as int;
    let ls = sd.len() as int;
    // every character is a digit or one of the letters h, m, s
    assert forall|i: int| 0 <= i < t.len() implies is_digit(#[trigger] t[i]) || t[i] == 'h' || t[i]
        == 'm' || t[i] == 's' by {
        if i < lh {
            assert(t[i] == hd[i]);
        } else if i == lh {
            assert(t[i] == 'h');
        } else if i < lh + 1 + lm {
            assert(t[i] == md[i - lh - 1]);
        } else if i == lh + 1 + lm {
            assert(t[i] == 'm');
        } else if i < lh + 1 + lm + 1 + ls {
            assert(t[i] == sd[i - lh - 1 - lm - 1]);
        } else {
            assert(t[i] == 's');
        }
    }
    assert forall|i: int| 0 <= i < t.len() implies !is_ws(#[trigger] t[i]) by {
        assert(is_digit(t[i]) || t[i] == 'h' || t[i] == 'm' || t[i] == 's');
    }
    lemma_trim_plain(t);
    assert(t[0] == hd[0]);
    lemma_not_a_word(t);
    assert(!(t[0] == '+' || t[0] == '-'));
    // not a plain number
    assert forall|j: int| 0 <= j < t.len() implies !is_dot()(#[trigger] t[j]) by {
        assert(is_digit(t[j]) || t[j] == 'h' || t[j] == 'm' || t[j] == 's');
    }
    lemma_first_where(t, is_dot(), t.len() as int);
    assert forall|i: int| 0 <= i < t.len() implies #[trigger] t[i] != 'e' && t[i] != 'E' by {
        assert(is_digit(t[i]) || t[i] == 'h' || t[i] == 'm' || t[i] == 's');
    }
    lemma_no_exponent(t);
    assert(t[lh] == 'h');
    assert(!all_digits(t)) by {
        assert(!is_digit(t[lh]));
    }
    assert(float_lit(t) is None);
    // several units
    assert(t.contains('h'));
    assert(t[lh + 1 + lm] == 'm');
    assert(t.contains('m'));
    assert(multiple_units(t));
    // the steps
    assert forall|j: int| 0 <= j < t.len() implies t[j] != unit_letter(0) by {
        assert(is_digit(t[j]) || t[j] == 'h' || t[j] == 'm' || t[j] == 's');
    }
    lemma_step_absent(acc_start(), t, 0);
    let a1 = acc_add(acc_start(), Number::Finite(h * pow10(18)), 3600);
    lemma_step_number(acc_start(), h as nat, 1, r1);
    let a2 = acc_add(a1, Number::Finite(m * pow10(18)), 60);
    lemma_step_number(a1, m as nat, 2, r2);
    let a3 = acc_add(a2, Number::Finite(s * pow10(18)), 1);
    lemma_step_number(a2, s as nat, 3, Seq::<char>::empty());
    assert(compound_from(a3, Seq::<char>::empty(), 4) == Ok::<Acc, crate::time::parser::Failure>(a3));
    assert(compound_from(a2, r2, 3) == Ok::<Acc, crate::time::parser::Failure>(a3));
    assert(compound_from(a1, r1, 2) == Ok::<Acc, crate::time::parser::Failure>(a3));
    assert(compound_from(acc_start(), t, 1) == Ok::<Acc, crate::time::parser::Failure>(a3));
    assert(compound_from(acc_start(), t, 0) == Ok::<Acc, crate::time::parser::Failure>(a3));
    // the total
    lemma_pow10_18();
    let w = 3600 * h + 60 * m + s;
    let e = 1_000_000_000_000_000_000int;
    assert(h * e * 3600 + m * e * 60 + s * e * 1 == w * e * 1) by (nonlinear_arith)
        requires
            w == 3600 * h + 60 * m + s,
    ;
    assert(0 <= h * e * 3600 <= w * e) by (nonlinear_arith)
        requires
            w == 3600 * h + 60 * m + s,
            h >= 0, m >= 0, s >= 0, e > 0,
    ;
    assert(0 <= m * e * 60 <= w * e) by (nonlinear_arith)
        requires
            w == 3600 * h + 60 * m + s,
            h >= 0, m >= 0, s >= 0, e > 0,
    ;
    assert(0 <= s * e * 1 <= w * e) by (nonlinear_arith)
        requires
            w == 3600 * h + 60 * m + s,
            h >= 0, m >= 0, s >= 0, e > 0,
    ;
    assert(w * e < TERM_CAP) by (nonlinear_arith)
        requires
            0 <= w <= u64::MAX,
            e == 1_000_000_000_000_000_000int,
    ;
    let one = acc_add(acc_start(), Number::Finite(w * pow10(18)), 1);
    assert(a3 == one);
    if w != 0 {
        lemma_finish_whole(w as nat, 1);
    }
}

/// The text `<d>d<h>h`, each number in decimal digits.
pub open spec fn dh_text(d: nat, h: nat) -> Seq<char> {
    decimal_digits(d) + seq!['d'] + decimal_digits(h) + seq!['h']
}

/// Days and hours add up: `<d>d<h>h` is `86400·d + 3600·h` seconds, as long as
/// that fits in a `u64` (infinite from `2^64 - 1024` seconds on); a total of
/// zero is refused as "No valid time units found".
#[verifier::spinoff_prover]
#[verifier::rlimit(60)]
pub proof fn law_days_hours(d: u64, h: u64)
    requires
        86400 * d + 3600 * h <= u64::MAX,
    ensures
        parse_spec(dh_text(d as nat, h as nat)) == (if 86400 * d + 3600 * h == 0 {
            Err::<Duration, crate::time::parser::Failure>(
                crate::time::parser::Failure::Format("No valid time units found"@),
            )
        } else {
            Ok::<Duration, crate::time::parser::Failure>(whole_duration(86400 * d + 3600 * h))
        }),
{
    let dd = decimal_digits(d as nat);
    let hd = decimal_digits(h as nat);
    lemma_decimal_digits(d as nat);
    lemma_decimal_digits(h as nat);
    let t = dh_text(d as nat, h as nat);
    let r1 = hd + seq!['h'];
    assert(t =~= dd + seq!['d'] + r1);
    assert(r1 =~= hd + seq!['h'] + Seq::<char>::empty());
    let ld = dd.len() as int;
    let lh = hd.len() as int;
    assert forall|i: int| 0 <= i < t.len() implies is_digit(#[trigger] t[i]) || t[i] == 'd' || t[i]
        == 'h' by {
        if i < ld {
            assert(t[i] == dd[i]);
        } else if i == ld {
            assert(t[i] == 'd');
        } else if i < ld + 1 + lh {
            assert(t[i] == hd[i - ld - 1]);
        } else {
            assert(t[i] == 'h');
        }
    }
    assert forall|i: int| 0 <= i < t.len() implies !is_ws(#[trigger] t[i]) by {
        assert(is_digit(t[i]) || t[i] == 'd' || t[i] == 'h');
    }
    lemma_trim_plain(t);
    assert(t[0] == dd[0]);
    lemma_not_a_word(t);
    assert(!(t[0] == '+' || t[0] == '-'));
    assert forall|j: int| 0 <= j < t.len() implies !is_dot()(#[trigger] t[j]) by {
        assert(is_digit(t[j]) || t[j] == 'd' || t[j] == 'h');
    }
    lemma_first_where(t, is_dot(), t.len() as int);
    assert forall|i: int| 0 <= i < t.len() implies #[trigger] t[i] != 'e' && t[i] != 'E' by {
        assert(is_digit(t[i]) || t[i] == 'd' || t[i] == 'h');
    }
    lemma_no_exponent(t);
    assert(t[ld] == 'd');
    assert(!all_digits(t)) by {
        assert(!is_digit(t[ld]));
    }
    assert(float_lit(t) is None);
    // two units: days and hours
    assert(t.contains('d'));
    assert(t[ld + 1 + lh] == 'h');
    assert(t.contains('h'));
    assert(multiple_units(t));
    // the steps
    let a1 = acc_add(acc_start(), Number::Finite(d * pow10(18)), 86400);
    lemma_step_number(acc_start(), d as nat, 0, r1);
    let a2 = acc_add(a1, Number::Finite(h * pow10(18)), 3600);
    lemma_step_number(a1, h as nat, 1, Seq::<char>::empty());
    lemma_step_absent(a2, Seq::<char>::empty(), 2);
    lemma_step_absent(a2, Seq::<char>::empty(), 3);
    assert(compound_from(a2, Seq::<char>::empty(), 4) == Ok::<Acc, crate::time::parser::Failure>(a2));
    assert(compound_from(a2, Seq::<char>::empty(), 3) == Ok::<Acc, crate::time::parser::Failure>(a2));
    assert(compound_from(a2, Seq::<char>::empty(), 2) == Ok::<Acc, crate::time::parser::Failure>(a2));
    assert(compound_from(a1, r1, 1) == Ok::<Acc, crate::time::parser::Failure>(a2));
    assert(compound_from(acc_start(), t, 0) == Ok::<Acc, crate::time::parser::Failure>(a2));
    // the total
    lemma_pow10_18();
    let w = 86400 * d + 3600 * h;
    let e = 1_000_000_000_000_000_000int;
    assert(d * e * 86400 + h * e * 3600 == w * e * 1) by (nonlinear_arith)
        requires
            w == 86400 * d + 3600 * h,
    ;
    assert(0 <= d * e * 86400 <= w * e) by (nonlinear_arith)
        requires
            w == 86400 * d + 3600 * h,
            d >= 0, h >= 0, e > 0,
    ;
    assert(0 <= h * e * 3600 <= w * e) by (nonlinear_arith)
        requires
            w == 86400 * d + 3600 * h,
            d >= 0, h >= 0, e > 0,
    ;
    assert(w * e < TERM_CAP) by (nonlinear_arith)
        requires
            0 <= w <= u64::MAX,
            e == 1_000_000_000_000_000_000int,
    ;
    let one = acc_add(acc_start(), Number::Finite(w * pow10(18)), 1);
    assert(a2 == one);
    if w != 0 {
        lemma_finish_whole(w as nat, 1);
    }
}

/// The text `<d>d<h>h<m>m<s>s`, each number in decimal digits.
pub open spec fn dhms_text(d: nat, h: nat, m: nat, s: nat) -> Seq<char> {
    decimal_digits(d) + seq!['d'] + hms_text(h, m, s)
}

/// Days, hours, minutes and seconds add up: `<d>d<h>h<m>m<s>s` is
/// `86400·d + 3600·h + 60·m + s` seconds, as long as that fits in a `u64`
/// (infinite from `2^64 - 1024` seconds on); a total of zero is refused as
/// "No valid time units found".
#[verifier::spinoff_prover]
#[verifier::rlimit(80)]
pub proof fn law_days_hours_minutes_seconds(d: u64, h: u64, m: u64, s: u64)
    requires
        86400 * d + 3600 * h + 60 * m + s <= u64::MAX,
    ensures
        parse_spec(dhms_text(d as nat, h as nat, m as nat, s as nat)) == (if 86400 * d + 3600 * h
            + 60 * m + s == 0 {
            Err::<Duration, crate::time::parser::Failure>(
                crate::time::parser::Failure::Format("No valid time units found"@),
            )
        } else {
            Ok::<Duration, crate::time::parser::Failure>(
                whole_duration(86400 * d + 3600 * h + 60 * m + s),
            )
        }),
{
    let dd = decimal_digits(d as nat);
    let hd = decimal_digits(h as nat);
    let md = decimal_digits(m as nat);
    let sd = decimal_digits(s as nat);
    lemma_decimal_digits(d as nat);
    lemma_decimal_digits(h as nat);
    lemma_decimal_digits(m as nat);
    lemma_decimal_digits(s as nat);
    let t = dhms_text(d as nat, h as nat, m as nat, s as nat);
    let r3 = sd + seq!['s'];
    let r2 = md + seq!['m'] + r3;
    let r1 = hd + seq!['h'] + r2;
    assert(t =~= dd + seq!['d'] + r1);
    assert(r3 =~= sd + seq!['s'] + Seq::<char>::empty());
    let ld = dd.len() as int;
    let lh = hd.len() as int;
    let lm = md.len() as int;
    let ls = sd.len() as int;
    assert forall|i: int| 0 <= i < t.len() implies is_digit(#[trigger] t[i]) || t[i] == 'd' || t[i]
        == 'h' || t[i] == 'm' || t[i] == 's' by {
        let b1 = ld + 1;
        let b2 = b1 + lh + 1;
        let b3 = b2 + lm + 1;
        if i < ld {
            assert(t[i] == dd[i]);
        } else if i == ld {
            assert(t[i] == 'd');
        } else if i < b1 + lh {
            assert(t[i] == hd[i - b1]);
        } else if i == b1 + lh {
            assert(t[i] == 'h');
        } else if i < b2 + lm {
            assert(t[i] == md[i - b2]);
        } else if i == b2 + lm {
            assert(t[i] == 'm');
        } else if i < b3 + ls {
            assert(t[i] == sd[i - b3]);
        } else {
            assert(t[i] == 's');
        }
    }
    assert forall|i: int| 0 <= i < t.len() implies !is_ws(#[trigger] t[i]) by {
        assert(is_digit(t[i]) || t[i] == 'd' || t[i] == 'h' || t[i] == 'm' || t[i] == 's');
    }
    lemma_trim_plain(t);
    assert(t[0] == dd[0]);
    lemma_not_a_word(t);
    assert(!(t[0] == '+' || t[0] == '-'));
    assert forall|j: int| 0 <= j < t.len() implies !is_dot()(#[trigger] t[j]) by {
        assert(is_digit(t[j]) || t[j] == 'd' || t[j] == 'h' || t[j] == 'm' || t[j] == 's');
    }
    lemma_first_where(t, is_dot(), t.len() as int);
    assert forall|i: int| 0 <= i < t.len() implies #[trigger] t[i] != 'e' && t[i] != 'E' by {
        assert(is_digit(t[i]) || t[i] == 'd' || t[i] == 'h' || t[i] == 'm' || t[i] == 's');
    }
    lemma_no_exponent(t);
    assert(t[ld] == 'd');
    assert(!all_digits(t)) by {
        assert(!is_digit(t[ld]));
    }
    assert(float_lit(t) is None);
    assert(t.contains('d'));
    assert(t[ld + 1 + lh] == 'h');
    assert(t.contains('h'));
    assert(multiple_units(t));
    // the steps
    let a1 = acc_add(acc_start(), Number::Finite(d * pow10(18)), 86400);
    lemma_step_number(acc_start(), d as nat, 0, r1);
    let a2 = acc_add(a1, Number::Finite(h * pow10(18)), 3600);
    lemma_step_number(a1, h as nat, 1, r2);
    let a3 = acc_add(a2, Number::Finite(m * pow10(18)), 60);
    lemma_step_number(a2, m as nat, 2, r3);
    let a4 = acc_add(a3, Number::Finite(s * pow10(18)), 1);
    lemma_step_number(a3, s as nat, 3, Seq::<char>::empty());
    assert(compound_from(a4, Seq::<char>::empty(), 4) == Ok::<Acc, crate::time::parser::Failure>(a4));
    assert(compound_from(a3, r3, 3) == Ok::<Acc, crate::time::parser::Failure>(a4));
    assert(compound_from(a2, r2, 2) == Ok::<Acc, crate::time::parser::Failure>(a4));
    assert(compound_from(a1, r1, 1) == Ok::<Acc, crate::time::parser::Failure>(a4));
    assert(compound_from(acc_start(), t, 0) == Ok::<Acc, crate::time::parser::Failure>(a4));
    // the total
    lemma_pow10_18();
    let w = 86400 * d + 3600 * h + 60 * m + s;
    let e = 1_000_000_000_000_000_000int;
    assert(d * e * 86400 + h * e * 3600 + m * e * 60 + s * e * 1 == w * e * 1) by (nonlinear_arith)
        requires
            w == 86400 * d + 3600 * h + 60 * m + s,
    ;
    assert(0 <= d * e * 86400 <= w * e) by (nonlinear_arith)
        requires
            w == 86400 * d + 3600 * h + 60 * m + s,
            d >= 0, h >= 0, m >= 0, s >= 0, e > 0,
    ;
    assert(0 <= h * e * 3600 <= w * e) by (nonlinear_arith)
        requires
            w == 86400 * d + 3600 * h + 60 * m + s,
            d >= 0, h >= 0, m >= 0, s >= 0, e > 0,
    ;
    assert(0 <= m * e * 60 <= w * e) by (nonlinear_arith)
        requires
            w == 86400 * d + 3600 * h + 60 * m + s,
            d >= 0, h >= 0, m >= 0, s >= 0, e > 0,
    ;
    assert(0 <= s * e * 1 <= w * e) by (nonlinear_arith)
        requires
            w == 86400 * d + 3600 * h + 60 * m + s,
            d >= 0, h >= 0, m >= 0, s >= 0, e > 0,
    ;
    assert(w * e < TERM_CAP) by (nonlinear_arith)
        requires
            0 <= w <= u64::MAX,
            e == 1_000_000_000_000_000_000int,
    ;
    let one = acc_add(acc_start(), Number::Finite(w * pow10(18)), 1);
    assert(a4 == one);
    if w != 0 {
        lemma_finish_whole(w as nat, 1);
    }
}

/// Nanoseconds written with nine digits.
proof fn lemma_nine_digits(x: nat)
    requires
        x < 1_000_000_000,
    ensures
        zero_pad(decimal_digits(x), 9).len() == 9,
        all_digits(zero_pad(decimal_digits(x), 9)),
        digits_val(zero_pad(decimal_digits(x), 9)) == x,
{
    reveal_with_fuel(pow10, 10);
    lemma_decimal_digits_len(x, 9);
    lemma_decimal_digits(x);
    let d = decimal_digits(x);
    if d.len() < 9 {
        lemma_leading_zeros((9 - d.len()) as nat, d);
    }
}

/// Display, then parse: a well-formed duration is read back from the way it is
/// written (`infinity` reads back as `u64::MAX` seconds and no nanoseconds).
/// Durations from `2^64 - 1024` seconds up to below `u64::MAX` are left out:
/// they are written as numbers that `f64` rounds to `2^64`, which read back as
/// the infinite duration.
pub proof fn law_display_then_parse(d: Duration)
    requires
        d.wf(),
        d.secs == u64::MAX ==> d.nanos == 0,
        d.secs < 18446744073709550592 || d.secs == u64::MAX,
    ensures
        parse_spec(d.display()) == Ok::<Duration, crate::time::parser::Failure>(d),
{
    if d.secs == u64::MAX {
        reveal_strlit("infinity");
        let t = "infinity"@;
        assert forall|i: int| 0 <= i < t.len() implies !is_ws(#[trigger] t[i]) by {}
        lemma_trim_plain(t);
        assert(eq_ignore_ascii_case(t, "infinity"@));
    } else if d.nanos == 0 {
        law_number_with_unit(d.secs, 's');
    } else {
        display_with_fraction(d);
    }
}

/// The reading of `<secs>.<nanos>s`.
#[verifier::spinoff_prover]
#[verifier::rlimit(60)]
proof fn display_with_fraction(d: Duration)
    requires
        d.wf(),
        d.secs < 18446744073709550592,
        d.nanos > 0,
    ensures
        parse_spec(d.display()) == Ok::<Duration, crate::time::parser::Failure>(d),
{
    let a = decimal_digits(d.secs as nat);
    let p = zero_pad(decimal_digits(d.nanos as nat), 9);
    let num = a.push('.') + p;
    let t = num.push('s');
    assert(d.display() == t);
    lemma_decimal_digits(d.secs as nat);
    lemma_nine_digits(d.nanos as nat);
    let la = a.len() as int;
    assert forall|i: int| 0 <= i < num.len() implies (#[trigger] num[i] == '.' && i == la) || (
    is_digit(num[i]) && i != la) by {
        if i < la {
            assert(num[i] == a[i]);
        } else if i == la {
            assert(num[i] == '.');
        } else {
            assert(num[i] == p[i - la - 1]);
        }
    }
    assert forall|i: int| 0 <= i < t.len() implies !is_ws(#[trigger] t[i]) by {
        if i < num.len() {
            assert(t[i] == num[i]);
        }
    }
    lemma_trim_plain(t);
    assert(t[0] == num[0]);
    assert(num[0] == a[0]);
    lemma_not_a_word(t);
    assert forall|i: int| 0 <= i < t.len() implies #[trigger] t[i] != 'e' && t[i] != 'E' by {
        if i < num.len() {
            assert(t[i] == num[i]);
        }
    }
    lemma_no_exponent(t);
    assert(!(t[0] == '+' || t[0] == '-'));
    // not a plain number: a point, then digits and a letter
    assert forall|j: int| 0 <= j < la implies !is_dot()(#[trigger] t[j]) by {
        assert(t[j] == num[j]);
    }
    assert(t[la] == num[la]);
    lemma_first_where(t, is_dot(), la);
    assert(!all_digits(t.skip(la + 1))) by {
        assert(t.skip(la + 1)[t.skip(la + 1).len() - 1] == 's');
    }
    // a single unit
    assert forall|c: char| is_unit_letter(c) && c != 's' implies !t.contains(c) by {
        if t.contains(c) {
            let j = choose|j: int| 0 <= j < t.len() && t[j] == c;
            if j < num.len() {
                assert(t[j] == num[j]);
            }
        }
    }
    assert(t.contains('s')) by {
        assert(t[t.len() - 1] == 's');
    }
    assert(!multiple_units(t));
    // split into number and unit
    assert forall|j: int| 0 <= j < num.len() implies !not_number_char()(#[trigger] t[j]) by {
        assert(t[j] == num[j]);
        if j != la {
            lemma_digit_is_num(num[j]);
        }
    }
    lemma_first_where(t, not_number_char(), num.len() as int);
    assert forall|i: int| 0 <= i < num.len() implies (#[trigger] t[i] as u32) < 0x80 by {
        assert(t[i] == num[i]);
        assert(is_digit(num[i]) || num[i] == '.');
    }
    lemma_ascii_char_at_byte(t, num.len() as int);
    assert(t.take(num.len() as int) == num);
    assert(t.skip(num.len() as int) == seq!['s']);
    assert forall|i: int| 0 <= i < num.len() implies !is_ws(#[trigger] num[i]) by {}
    lemma_trim_plain(num);
    lemma_trim_plain(seq!['s']);
    // the number
    assert forall|j: int| 0 <= j < la implies !is_dot()(#[trigger] num[j]) by {}
    lemma_first_where(num, is_dot(), la);
    assert(num.take(la) == a);
    assert(num.skip(la + 1) == p);
    assert(p.take(9) == p);
    lemma_pow10_18();
    reveal_with_fuel(pow10, 10);
    assert(pow10(9) == 1_000_000_000);
    assert(pow10((18 - 9) as nat) == pow10(9));
    assert(decimal_atto(num) == Some(d.secs * pow10(18) + d.nanos * pow10(9)));
    assert(unit_factor(seq!['s']) == Some(1int));
    lemma_finish_fraction(d.secs, d.nanos);
}

/// Whole seconds and nanoseconds, in attoseconds, make that duration.
proof fn lemma_finish_fraction(secs: u64, nanos: u32)
    requires
        secs < 18446744073709550592,
        nanos < 1_000_000_000,
    ensures
        finish(
            acc_add(
                acc_start(),
                Number::Finite(secs * pow10(18) + nanos * pow10(9)),
                1,
            ),
        ) == Ok::<Duration, crate::time::parser::Failure>(Duration { secs, nanos }),
{
    lemma_pow10_18();
    reveal_with_fuel(pow10, 10);
    let v = secs * pow10(18) + nanos * pow10(9);
    let w = secs as int;
    let q = nanos as int;
    assert(v == w * 1_000_000_000_000_000_000 + q * 1_000_000_000);
    assert(v * 1 == v);
    assert(0 <= v < INFINITE_FROM) by (nonlinear_arith)
        requires
            v == w * 1_000_000_000_000_000_000 + q * 1_000_000_000,
            0 <= w < 18446744073709550592,
            0 <= q < 1_000_000_000,
    ;
    assert(v / 1_000_000_000_000_000_000int == w) by (nonlinear_arith)
        requires
            v == w * 1_000_000_000_000_000_000 + q * 1_000_000_000,
            0 <= q < 1_000_000_000,
    ;
    assert((v / 1_000_000_000int) % 1_000_000_000 == q) by (nonlinear_arith)
        requires
            v == w * 1_000_000_000_000_000_000 + q * 1_000_000_000,
            0 <= w,
            0 <= q < 1_000_000_000,
    ;
}

} // verus!
