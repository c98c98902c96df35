//! Comparing numbers written with many decimal digits, and the range beyond
//! which `f64` rounds a number to infinity.

use vstd::prelude::*;
use vstd::arithmetic::div_mod::lemma_fundamental_div_mod_converse;
use crate::text::{
    all_digits, chars_of, slice_of, decimal_digits, digit_val, digits_val, is_digit, lemma_decimal_digits,
    lemma_decimal_digits_len, lemma_digits_val_bound, lemma_digits_val_step, lemma_pow10_18,
    lemma_pow10_mono, pow10, push_padded_decimal, zero_pad,
};

verus! {

/// Leading zeros do not change the value of digits.
pub proof fn lemma_leading_zeros(k: nat, s: Seq<char>)
    requires
        all_digits(s),
    ensures
        all_digits(Seq::new(k, |i: int| '0') + s),
        digits_val(Seq::new(k, |i: int| '0') + s) == digits_val(s),
    decreases s.len() + k,
{
    let z = Seq::new(k, |i: int| '0');
    let x = z + s;
    assert forall|i: int| 0 <= i < x.len() implies is_digit(#[trigger] x[i]) by {
        if i < k {
            assert(x[i] == z[i]);
        } else {
            assert(x[i] == s[i - k]);
        }
    }
    if s.len() == 0 {
        assert(x == z);
        if k > 0 {
            assert(z.drop_last() == Seq::new((k - 1) as nat, |i: int| '0'));
            lemma_leading_zeros((k - 1) as nat, s);
            assert(Seq::new((k - 1) as nat, |i: int| '0') + s == Seq::new(
                (k - 1) as nat,
                |i: int| '0',
            ));
            assert(digits_val(z) == digits_val(z.drop_last()) * 10 + digit_val(
                z.last(),
            ));
        } else {
            assert(digits_val(Seq::<char>::empty()) == 0);
        }
    } else {
        assert(all_digits(s.drop_last())) by {
            assert forall|i: int| 0 <= i < s.drop_last().len() implies is_digit(
                #[trigger] s.drop_last()[i],
            ) by {
                assert(s.drop_last()[i] == s[i]);
            }
        }
        lemma_leading_zeros(k, s.drop_last());
        assert(x.drop_last() == z + s.drop_last());
        assert(x.last() == s.last());
        assert(digits_val(x) == digits_val(x.drop_last()) * 10 + digit_val(x.last()));
        assert(digits_val(s) == digits_val(s.drop_last()) * 10 + digit_val(s.last()));
    }
}

/// Decimal digits that do not start with `0` write at least `10^(len - 1)`.
pub proof fn lemma_digits_val_lower(s: Seq<char>)
    requires
        all_digits(s),
        s.len() > 0,
        s[0] != '0',
    ensures
        digits_val(s) >= pow10((s.len() - 1) as nat),
    decreases s.len(),
{
    assert(digits_val(s) == digits_val(s.drop_last()) * 10 + digit_val(s.last()));
    assert(is_digit(s.last()));
    if s.len() == 1 {
        assert(s.drop_last().len() == 0);
        assert(digits_val(s.drop_last()) == 0);
        assert(is_digit(s[0]));
        assert(pow10(0) == 1);
    } else {
        let p = s.drop_last();
        assert(all_digits(p)) by {
            assert forall|i: int| 0 <= i < p.len() implies is_digit(#[trigger] p[i]) by {
                assert(p[i] == s[i]);
            }
        }
        assert(p[0] == s[0]);
        lemma_digits_val_lower(p);
        assert(pow10((s.len() - 1) as nat) == 10 * pow10((s.len() - 2) as nat));
    }
}

/// Two digit strings that agree before `i`, where `a` has the greater digit at
/// `i`: from there on, the prefixes of `a` write greater numbers.
proof fn lemma_lex_prefix(a: Seq<char>, b: Seq<char>, i: int, j: int)
    requires
        all_digits(a),
        all_digits(b),
        a.len() == b.len(),
        0 <= i < j <= a.len(),
        a.take(i) == b.take(i),
        digit_val(a[i]) > digit_val(b[i]),
    ensures
        digits_val(a.take(j)) >= digits_val(b.take(j)) + 1,
    decreases j - i,
{
    lemma_digits_val_step(a, j - 1);
    lemma_digits_val_step(b, j - 1);
    assert(is_digit(a[j - 1]) && is_digit(b[j - 1]));
    if j > i + 1 {
        lemma_lex_prefix(a, b, i, j - 1);
    }
}

/// Of two digit strings of one length that agree before `i`, the one with the
/// greater digit at `i` writes the greater number.
pub proof fn lemma_digits_lex(a: Seq<char>, b: Seq<char>, i: int)
    requires
        all_digits(a),
        all_digits(b),
        a.len() == b.len(),
        0 <= i < a.len(),
        a.take(i) == b.take(i),
        digit_val(a[i]) > digit_val(b[i]),
    ensures
        digits_val(a) > digits_val(b),
{
    lemma_lex_prefix(a, b, i, a.len() as int);
    assert(a.take(a.len() as int) == a);
    assert(b.take(b.len() as int) == b);
}

/// The index of the first digit of `v` that is not `0` (its length if none is):
/// the digits from there on write the same number.
pub fn skip_zeros(v: &Vec<char>) -> (z: usize)
    requires
        all_digits(v@),
    ensures
        z <= v.len(),
        z < v.len() ==> v@[z as int] != '0',
        all_digits(v@.skip(z as int)),
        digits_val(v@.skip(z as int)) == digits_val(v@),
{
    let mut z: usize = 0;
    while z < v.len() && v[z] == '0'
        invariant
            z <= v.len(),
            forall|j: int| 0 <= j < z ==> v@[j] == '0',
        decreases v.len() - z,
    {
        z = z + 1;
    }
    proof {
        let rest = v@.skip(z as int);
        assert(all_digits(rest)) by {
            assert forall|j: int| 0 <= j < rest.len() implies is_digit(#[trigger] rest[j]) by {
                assert(rest[j] == v@[j + z]);
            }
        }
        lemma_leading_zeros(z as nat, rest);
        assert(Seq::new(z as nat, |i: int| '0') + rest =~= v@);
    }
    z
}

/// The number that the digits `a` write is at least the one that `b` writes.
pub fn digits_at_least(a: &Vec<char>, b: &Vec<char>) -> (r: bool)
    requires
        all_digits(a@),
        all_digits(b@),
    ensures
        r == (digits_val(a@) >= digits_val(b@)),
{
    let za = skip_zeros(a);
    let zb = skip_zeros(b);
    let la = a.len() - za;
    let lb = b.len() - zb;
    let ghost sa = a@.skip(za as int);
    let ghost sb = b@.skip(zb as int);
    proof {
        lemma_digits_val_bound(sa);
        lemma_digits_val_bound(sb);
        if la > 0 {
            assert(sa[0] == a@[za as int]);
            lemma_digits_val_lower(sa);
        }
        if lb > 0 {
            assert(sb[0] == b@[zb as int]);
            lemma_digits_val_lower(sb);
        }
    }
    if la != lb {
        proof {
            if la > lb {
                lemma_pow10_mono(lb as nat, (la - 1) as nat);
            } else {
                lemma_pow10_mono(la as nat, (lb - 1) as nat);
            }
        }
        return la > lb;
    }
    let mut k: usize = 0;
    while k < la && a[za + k] == b[zb + k]
        invariant
            la == lb,
            za + la == a.len(),
            zb + lb == b.len(),
            k <= la,
            sa == a@.skip(za as int),
            sb == b@.skip(zb as int),
            sa.take(k as int) == sb.take(k as int),
        decreases la - k,
    {
        proof {
            assert(sa[k as int] == a@[za + k]);
            assert(sb[k as int] == b@[zb + k]);
            assert(sa.take(k + 1) =~= sb.take(k + 1)) by {
                assert forall|j: int| 0 <= j < k + 1 implies #[trigger] sa.take(k + 1)[j] == sb.take(k + 1)[j] by {
                    if j < k {
                        assert(sa.take(k as int)[j] == sb.take(k as int)[j]);
                    }
                }
            }
        }
        k = k + 1;
    }
    if k == la {
        proof {
            assert(sa.take(k as int) == sa);
            assert(sb.take(k as int) == sb);
        }
        return true;
    }
    let ca = a[za + k];
    let cb = b[zb + k];
    proof {
        assert(sa[k as int] == ca);
        assert(sb[k as int] == cb);
        assert(is_digit(ca) && is_digit(cb));
        if ca > cb {
            lemma_digits_lex(sa, sb, k as int);
        } else {
            lemma_digits_lex(sb, sa, k as int);
        }
    }
    ca > cb
}

/// Decimal digits written after others: the number is the first, shifted by
/// the length of the second, plus the second.
pub proof fn lemma_digits_concat(a: Seq<char>, b: Seq<char>)
    requires
        all_digits(a),
        all_digits(b),
    ensures
        all_digits(a + b),
        digits_val(a + b) == digits_val(a) * pow10(b.len()) + digits_val(b),
    decreases b.len(),
{
    let x = a + b;
    assert forall|i: int| 0 <= i < x.len() implies is_digit(#[trigger] x[i]) by {
        if i < a.len() {
            assert(x[i] == a[i]);
        } else {
            assert(x[i] == b[i - a.len()]);
        }
    }
    if b.len() == 0 {
        assert(x == a);
        assert(digits_val(b) == 0);
        assert(pow10(0) == 1);
    } else {
        let p = b.drop_last();
        assert(all_digits(p)) by {
            assert forall|i: int| 0 <= i < p.len() implies is_digit(#[trigger] p[i]) by {
                assert(p[i] == b[i]);
            }
        }
        lemma_digits_concat(a, p);
        assert(x.drop_last() == a + p);
        assert(x.last() == b.last());
        assert(digits_val(x) == digits_val(x.drop_last()) * 10 + digit_val(x.last()));
        assert(digits_val(b) == digits_val(p) * 10 + digit_val(b.last()));
        assert(pow10(b.len()) == 10 * pow10(p.len()));
        let da = digits_val(a);
        let pp = pow10(p.len());
        assert(da * (10 * pp) == (da * pp) * 10) by (nonlinear_arith);
    }
}

/// A number below `10^18` written with eighteen digits.
proof fn lemma_eighteen_digits(c: nat)
    requires
        c < 1_000_000_000_000_000_000,
    ensures
        zero_pad(decimal_digits(c), 18).len() == 18,
        all_digits(zero_pad(decimal_digits(c), 18)),
        digits_val(zero_pad(decimal_digits(c), 18)) == c,
{
    lemma_pow10_18();
    lemma_decimal_digits_len(c, 18);
    lemma_decimal_digits(c);
    let d = decimal_digits(c);
    if d.len() < 18 {
        lemma_leading_zeros((18 - d.len()) as nat, d);
    }
}

/// Appends the eighteen digits of `c` to the digits `s`.
fn push_chunk(s: &mut String, c: u64)
    requires
        all_digits(old(s)@),
        c < 1_000_000_000_000_000_000,
    ensures
        all_digits(final(s)@),
        digits_val(final(s)@) == digits_val(old(s)@) * 1_000_000_000_000_000_000 + c,
{
    push_padded_decimal(s, c, 18);
    proof {
        lemma_eighteen_digits(c as nat);
        lemma_digits_concat(old(s)@, zero_pad(decimal_digits(c as nat), 18));
        lemma_pow10_18();
    }
}

/// `2^1024 - 2^970`, the least number that `f64` rounds to infinity.
pub open spec fn f64_infinite_from() -> int {
    179769313486231580793728971405303415079934132710037826936173778980444968292764750946649017977587207096330286416692887910946555547851940402630657488671505820681908902000708383676273854845817711531764475730270069855571366959622842914819860834936475292719074168444365510704342711559699508093042880177904174497792int
}

/// The fewest whole units of `mult` seconds that reach `f64_infinite_from()`
/// seconds, in decimal digits.
pub fn overflow_units(mult: u128) -> (r: Vec<char>)
    requires
        mult == 1 || mult == 60 || mult == 3600 || mult == 86400,
    ensures
        all_digits(r@),
        digits_val(r@) * mult >= f64_infinite_from(),
        (digits_val(r@) - 1) * mult < f64_infinite_from(),
{
    let mut s = String::new();
    proof {
        assert(digits_val(s@) == 0);
        assert(all_digits(s@));
    }
    if mult == 1 {
        push_chunk(&mut s, 179);
        push_chunk(&mut s, 769_313_486_231_580_793);
        push_chunk(&mut s, 728_971_405_303_415_079);
        push_chunk(&mut s, 934_132_710_037_826_936);
        push_chunk(&mut s, 173_778_980_444_968_292);
        push_chunk(&mut s, 764_750_946_649_017_977);
        push_chunk(&mut s, 587_207_096_330_286_416);
        push_chunk(&mut s, 692_887_910_946_555_547);
        push_chunk(&mut s, 851_940_402_630_657_488);
        push_chunk(&mut s, 671_505_820_681_908_902);
        push_chunk(&mut s, 708_383_676_273_854);
        push_chunk(&mut s, 845_817_711_531_764_475);
        push_chunk(&mut s, 730_270_069_855_571_366);
        push_chunk(&mut s, 959_622_842_914_819_860);
        push_chunk(&mut s, 834_936_475_292_719_074);
        push_chunk(&mut s, 168_444_365_510_704_342);
        push_chunk(&mut s, 711_559_699_508_093_042);
        push_chunk(&mut s, 880_177_904_174_497_792);
    } else if mult == 60 {
        push_chunk(&mut s, 2);
        push_chunk(&mut s, 996_155_224_770_526_346);
        push_chunk(&mut s, 562_149_523_421_723_584);
        push_chunk(&mut s, 665_568_878_500_630_448);
        push_chunk(&mut s, 936_229_649_674_082_804);
        push_chunk(&mut s, 879_412_515_777_483_632);
        push_chunk(&mut s, 959_786_784_938_838_106);
        push_chunk(&mut s, 944_881_465_182_442_592);
        push_chunk(&mut s, 464_199_006_710_510_958);
        push_chunk(&mut s, 144_525_097_011_365_148);
        push_chunk(&mut s, 366_678_473_061_271_230);
        push_chunk(&mut s, 914_096_961_858_862_741);
        push_chunk(&mut s, 262_171_167_830_926_189);
        push_chunk(&mut s, 449_327_047_381_913_664);
        push_chunk(&mut s, 347_248_941_254_878_651);
        push_chunk(&mut s, 236_140_739_425_178_405);
        push_chunk(&mut s, 711_859_328_325_134_884);
        push_chunk(&mut s, 48_002_965_069_574_964);
    } else if mult == 3600 {
        push_chunk(&mut s, 49_935_920_412_842_105);
        push_chunk(&mut s, 776_035_825_390_362_059);
        push_chunk(&mut s, 744_426_147_975_010_507);
        push_chunk(&mut s, 482_270_494_161_234_713);
        push_chunk(&mut s, 414_656_875_262_958_060);
        push_chunk(&mut s, 549_329_779_748_980_635);
        push_chunk(&mut s, 115_748_024_419_707_376);
        push_chunk(&mut s, 541_069_983_445_175_182);
        push_chunk(&mut s, 635_742_084_950_189_419);
        push_chunk(&mut s, 139_444_641_217_687_853);
        push_chunk(&mut s, 848_568_282_697_647_712);
        push_chunk(&mut s, 354_369_519_463_848_769);
        push_chunk(&mut s, 824_155_450_789_698_561);
        push_chunk(&mut s, 72_454_149_020_914_644);
        push_chunk(&mut s, 187_269_012_323_752_973);
        push_chunk(&mut s, 428_530_988_805_418_914);
        push_chunk(&mut s, 734_133_382_751_159_583);
    } else {
        push_chunk(&mut s, 2_080_663_350_535_087);
        push_chunk(&mut s, 740_668_159_391_265_085);
        push_chunk(&mut s, 822_684_422_832_292_104);
        push_chunk(&mut s, 478_427_937_256_718_113);
        push_chunk(&mut s, 58_944_036_469_289_919);
        push_chunk(&mut s, 189_555_407_489_540_859);
        push_chunk(&mut s, 796_489_501_017_487_807);
        push_chunk(&mut s, 355_877_915_976_882_299);
        push_chunk(&mut s, 276_489_253_539_591_225);
        push_chunk(&mut s, 797_476_860_050_736_993);
        push_chunk(&mut s, 910_357_011_779_068_654);
        push_chunk(&mut s, 681_432_063_310_993_698);
        push_chunk(&mut s, 742_673_143_782_904_106);
        push_chunk(&mut s, 711_352_256_209_204_776);
        push_chunk(&mut s, 841_136_208_846_823_040);
        push_chunk(&mut s, 559_522_124_533_559_121);
        push_chunk(&mut s, 447_255_557_614_631_650);
    }
    let r = chars_of(s.as_str());
    r
}

/// Powers of ten multiply by adding exponents.
pub proof fn lemma_pow10_add(a: nat, b: nat)
    ensures
        pow10(a + b) == pow10(a) * pow10(b),
    decreases b,
{
    if b > 0 {
        lemma_pow10_add(a, (b - 1) as nat);
        assert(pow10(a + b) == 10 * pow10((a + b - 1) as nat));
        assert(pow10(b) == 10 * pow10((b - 1) as nat));
        let x = pow10(a);
        let y = pow10((b - 1) as nat);
        assert(10 * (x * y) == x * (10 * y)) by (nonlinear_arith);
    } else {
        assert(pow10(0) == 1);
    }
}

/// `10^330` attoseconds are beyond the range of `f64` seconds.
pub proof fn lemma_pow10_330()
    ensures
        pow10(330) / 1_000_000_000_000_000_000int >= f64_infinite_from(),
{
    lemma_pow10_18();
    lemma_pow10_add(18, 18);
    assert(pow10(36) == 1000000000000000000000000000000000000int);
    lemma_pow10_add(36, 36);
    assert(pow10(72) == 1000000000000000000000000000000000000000000000000000000000000000000000000int);
    lemma_pow10_add(72, 72);
    assert(pow10(144) == 1000000000000000000000000000000000000000000000000000000000000000000000000000000000000000000000000000000000000000000000000000000000000000000000000int);
    lemma_pow10_add(144, 144);
    assert(pow10(288) == 1000000000000000000000000000000000000000000000000000000000000000000000000000000000000000000000000000000000000000000000000000000000000000000000000000000000000000000000000000000000000000000000000000000000000000000000000000000000000000000000000000000000000000000000000000000000000000000000000int);
    lemma_pow10_add(288, 36);
    assert(pow10(324) == 1000000000000000000000000000000000000000000000000000000000000000000000000000000000000000000000000000000000000000000000000000000000000000000000000000000000000000000000000000000000000000000000000000000000000000000000000000000000000000000000000000000000000000000000000000000000000000000000000000000000000000000000000000000000000int);
    lemma_pow10_add(324, 6);
    reveal_with_fuel(pow10, 7);
    assert(pow10(6) == 1_000_000);
    assert(pow10(330) == 1000000000000000000000000000000000000000000000000000000000000000000000000000000000000000000000000000000000000000000000000000000000000000000000000000000000000000000000000000000000000000000000000000000000000000000000000000000000000000000000000000000000000000000000000000000000000000000000000000000000000000000000000000000000000000000int);
}

/// No digits, or only zeros, write zero.
pub proof fn lemma_zeros_val(k: nat)
    ensures
        all_digits(Seq::new(k, |i: int| '0')),
        digits_val(Seq::new(k, |i: int| '0')) == 0,
{
    lemma_leading_zeros(k, Seq::<char>::empty());
    assert(Seq::new(k, |i: int| '0') + Seq::<char>::empty() =~= Seq::new(k, |i: int| '0'));
    assert(digits_val(Seq::<char>::empty()) == 0);
}

/// Reads a number of attoseconds written in decimal digits: its value exactly
/// below `cap`, else only that it reaches `cap`, and the digits of its whole
/// seconds.
pub fn read_atto_digits(a: &Vec<char>, cap: u128) -> (r: (u128, bool, Vec<char>))
    requires
        all_digits(a@),
        1 <= cap <= u128::MAX - 9,
    ensures
        r.1 ==> digits_val(a@) >= cap,
        !r.1 ==> r.0 == digits_val(a@) && r.0 < cap,
        all_digits(r.2@),
        digits_val(r.2@) == digits_val(a@) / 1_000_000_000_000_000_000int,
{
    let n = a.len();
    let mut val: u128 = 0;
    let mut huge = false;
    let mut i: usize = 0;
    while i < n
        invariant
            i <= n == a.len(),
            all_digits(a@),
            1 <= cap <= u128::MAX - 9,
            !huge ==> val == digits_val(a@.take(i as int)) && val < cap,
            huge ==> digits_val(a@.take(i as int)) >= cap,
        decreases n - i,
    {
        let c = a[i];
        proof {
            lemma_digits_val_step(a@, i as int);
            assert(is_digit(a@[i as int]));
        }
        if !huge {
            let dv = (c as u32 - '0' as u32) as u128;
            proof {
                assert(dv == digit_val(c));
            }
            if val > (cap - 1) / 10 {
                huge = true;
            } else {
                proof {
                    assert(val * 10 <= cap - 1) by (nonlinear_arith)
                        requires
                            val <= (cap - 1) / 10,
                            cap >= 1,
                    ;
                }
                let nv = val * 10 + dv;
                if nv >= cap {
                    huge = true;
                } else {
                    val = nv;
                }
            }
        } else {
            proof {
                let t = a@.take(i as int);
                assert(all_digits(t)) by {
                    assert forall|j: int| 0 <= j < t.len() implies is_digit(#[trigger] t[j]) by {
                        assert(t[j] == a@[j]);
                    }
                }
                lemma_digits_val_bound(t);
            }
        }
        i = i + 1;
    }
    proof {
        assert(a@.take(n as int) == a@);
        lemma_pow10_18();
        lemma_digits_val_bound(a@);
    }
    if n > 18 {
        let whole = slice_of(a, 0, n - 18);
        proof {
            let tail = a@.skip((n - 18) as int);
            assert(all_digits(whole@)) by {
                assert forall|j: int| 0 <= j < whole@.len() implies is_digit(#[trigger] whole@[j]) by {
                    assert(whole@[j] == a@[j]);
                }
            }
            assert(all_digits(tail)) by {
                assert forall|j: int| 0 <= j < tail.len() implies is_digit(#[trigger] tail[j]) by {
                    assert(tail[j] == a@[j + n - 18]);
                }
            }
            assert(whole@ + tail =~= a@);
            lemma_digits_concat(whole@, tail);
            lemma_digits_val_bound(whole@);
            lemma_digits_val_bound(tail);
            lemma_fundamental_div_mod_converse(
                digits_val(a@),
                1_000_000_000_000_000_000int,
                digits_val(whole@),
                digits_val(tail),
            );
        }
        (val, huge, whole)
    } else {
        proof {
            lemma_pow10_mono(n as nat, 18);
            assert(digits_val(a@) / 1_000_000_000_000_000_000int == 0);
            assert(digits_val(Seq::<char>::empty()) == 0);
        }
        (val, huge, Vec::new())
    }
}

} // verus!
