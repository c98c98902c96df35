//! Characters and strings: whitespace, digits, searching and trimming over
//! sequences of `char`, and the few std string operations the library uses.

use vstd::prelude::*;

verus! {

/// The characters with the Unicode `White_Space` property, which is what
/// `char::is_whitespace` and `str::trim` go by.
pub open spec fn is_ws(c: char) -> bool {
    let u = c as u32;
    ||| 0x09 <= u <= 0x0d
    ||| u == 0x20
    ||| u == 0x85
    ||| u == 0xa0
    ||| u == 0x1680
    ||| 0x2000 <= u <= 0x200a
    ||| u == 0x2028
    ||| u == 0x2029
    ||| u == 0x202f
    ||| u == 0x205f
    ||| u == 0x3000
}

/// Whether `c` is Unicode whitespace.
pub fn is_whitespace(c: char) -> (b: bool)
    ensures
        b == is_ws(c),
{
    let u = c as u32;
    (0x09 <= u && u <= 0x0d) || u == 0x20 || u == 0x85 || u == 0xa0 || u == 0x1680 || (0x2000
        <= u && u <= 0x200a) || u == 0x2028 || u == 0x2029 || u == 0x202f || u == 0x205f || u
        == 0x3000
}

/// The characters of a string slice, in order.
pub fn chars_of(s: &str) -> (r: Vec<char>)
    ensures
        r@ == s@,
{
    let mut r: Vec<char> = Vec::new();
    for c in it: s.chars()
        invariant
            r@ == it.seq().take(it.index()),
    {
        r.push(c);
    }
    r
}


/// Index of the first element of `s` that satisfies `p`, or `s.len()` when none does.
pub open spec fn first_where(s: Seq<char>, p: spec_fn(char) -> bool) -> int
    decreases s.len(),
{
    if s.len() == 0 {
        0
    } else if p(s[0]) {
        0
    } else {
        1 + first_where(s.drop_first(), p)
    }
}

/// Index of the last element of `s` that satisfies `p`, or `-1` when none does.
pub open spec fn last_where(s: Seq<char>, p: spec_fn(char) -> bool) -> int
    decreases s.len(),
{
    if s.len() == 0 {
        -1
    } else if p(s.last()) {
        s.len() - 1
    } else {
        last_where(s.drop_last(), p)
    }
}

/// `first_where` is the index `i` before which nothing satisfies `p` and at which
/// `p` holds (or the end is reached).
pub proof fn lemma_first_where(s: Seq<char>, p: spec_fn(char) -> bool, i: int)
    requires
        0 <= i <= s.len(),
        forall|j: int| 0 <= j < i ==> !p(#[trigger] s[j]),
        i < s.len() ==> p(s[i]),
    ensures
        first_where(s, p) == i,
    decreases i,
{
    if s.len() > 0 && i > 0 {
        assert(!p(s[0]));
        assert forall|j: int| 0 <= j < i - 1 implies !p(#[trigger] s.drop_first()[j]) by {
            assert(s.drop_first()[j] == s[j + 1]);
        }
        lemma_first_where(s.drop_first(), p, i - 1);
    }
}

/// `last_where` is the index `i` after which nothing satisfies `p` and at which
/// `p` holds (or `-1`).
pub proof fn lemma_last_where(s: Seq<char>, p: spec_fn(char) -> bool, i: int)
    requires
        -1 <= i < s.len(),
        forall|j: int| i < j < s.len() ==> !p(#[trigger] s[j]),
        i >= 0 ==> p(s[i]),
    ensures
        last_where(s, p) == i,
    decreases s.len(),
{
    if s.len() > 0 && i < s.len() - 1 {
        assert(!p(s[s.len() - 1]));
        assert forall|j: int| i < j < s.len() - 1 implies !p(#[trigger] s.drop_last()[j]) by {
            assert(s.drop_last()[j] == s[j]);
        }
        lemma_last_where(s.drop_last(), p, i);
    }
}

/// What `first_where` gives: nothing before it satisfies `p`, and it satisfies
/// `p` unless it is the end.
pub proof fn lemma_first_where_props(s: Seq<char>, p: spec_fn(char) -> bool)
    ensures
        0 <= first_where(s, p) <= s.len(),
        forall|j: int| 0 <= j < first_where(s, p) ==> !p(#[trigger] s[j]),
        first_where(s, p) < s.len() ==> p(s[first_where(s, p)]),
    decreases s.len(),
{
    if s.len() > 0 && !p(s[0]) {
        lemma_first_where_props(s.drop_first(), p);
        assert forall|j: int| 0 <= j < first_where(s, p) implies !p(#[trigger] s[j]) by {
            if j > 0 {
                assert(s[j] == s.drop_first()[j - 1]);
            }
        }
    }
}

/// What `last_where` gives: nothing after it satisfies `p`, and it satisfies
/// `p` unless it is `-1`.
pub proof fn lemma_last_where_props(s: Seq<char>, p: spec_fn(char) -> bool)
    ensures
        -1 <= last_where(s, p) < s.len(),
        forall|j: int| last_where(s, p) < j < s.len() ==> !p(#[trigger] s[j]),
        last_where(s, p) >= 0 ==> p(s[last_where(s, p)]),
    decreases s.len(),
{
    if s.len() > 0 && !p(s.last()) {
        lemma_last_where_props(s.drop_last(), p);
        assert forall|j: int| last_where(s, p) < j < s.len() implies !p(#[trigger] s[j]) by {
            if j < s.len() - 1 {
                assert(s[j] == s.drop_last()[j]);
            }
        }
    }
}

/// The predicate "is not whitespace".
pub open spec fn non_ws() -> spec_fn(char) -> bool {
    |c: char| !is_ws(c)
}

/// Every element of `s` is whitespace.
pub open spec fn all_ws(s: Seq<char>) -> bool {
    forall|i: int| 0 <= i < s.len() ==> is_ws(#[trigger] s[i])
}

/// Whitespace around `s` does not change what `trim` gives.
pub proof fn lemma_trim_padded(a: Seq<char>, s: Seq<char>, b: Seq<char>)
    requires
        all_ws(a),
        all_ws(b),
    ensures
        trim(a + s + b) == trim(s),
{
    let x = a + s + b;
    let p = non_ws();
    lemma_first_where_props(s, p);
    lemma_last_where_props(s, p);
    let i0 = first_where(s, p);
    if i0 >= s.len() {
        assert forall|j: int| 0 <= j < x.len() implies !p(#[trigger] x[j]) by {
            if j < a.len() {
                assert(x[j] == a[j]);
            } else if j < a.len() + s.len() {
                assert(x[j] == s[j - a.len()]);
            } else {
                assert(x[j] == b[j - a.len() - s.len()]);
            }
        }
        lemma_first_where(x, p, x.len() as int);
    } else {
        let l0 = last_where(s, p);
        assert(l0 >= i0) by {
            if l0 < i0 {
                assert(!p(s[i0]));
            }
        }
        assert forall|j: int| 0 <= j < a.len() + i0 implies !p(#[trigger] x[j]) by {
            if j < a.len() {
                assert(x[j] == a[j]);
            } else {
                assert(x[j] == s[j - a.len()]);
            }
        }
        assert(x[a.len() + i0] == s[i0]);
        lemma_first_where(x, p, a.len() + i0);
        assert forall|j: int| a.len() + l0 < j < x.len() implies !p(#[trigger] x[j]) by {
            if j < a.len() + s.len() {
                assert(x[j] == s[j - a.len()]);
            } else {
                assert(x[j] == b[j - a.len() - s.len()]);
            }
        }
        assert(x[a.len() + l0] == s[l0]);
        lemma_last_where(x, p, a.len() + l0);
        assert(x.subrange(a.len() + i0, a.len() + l0 + 1) =~= s.subrange(i0, l0 + 1));
    }
}

/// `s` without its leading and trailing whitespace, as `str::trim` gives it.
pub open spec fn trim(s: Seq<char>) -> Seq<char> {
    let a = first_where(s, non_ws());
    if a >= s.len() {
        Seq::empty()
    } else {
        s.subrange(a, last_where(s, non_ws()) + 1)
    }
}

/// Where the trimmed part of `s` begins and ends.
pub fn trim_bounds(s: &Vec<char>) -> (r: (usize, usize))
    ensures
        r.0 <= r.1 <= s.len(),
        s@.subrange(r.0 as int, r.1 as int) == trim(s@),
{
    let n = s.len();
    let mut a: usize = 0;
    while a < n && is_whitespace(s[a])
        invariant
            a <= n == s.len(),
            forall|j: int| 0 <= j < a ==> is_ws(#[trigger] s@[j]),
        decreases n - a,
    {
        a = a + 1;
    }
    proof {
        lemma_first_where(s@, non_ws(), a as int);
    }
    if a == n {
        return (n, n);
    }
    let mut b: usize = n;
    while b > a && is_whitespace(s[b - 1])
        invariant
            a < n == s.len(),
            a <= b <= n,
            !is_ws(s@[a as int]),
            forall|j: int| b <= j < n ==> is_ws(#[trigger] s@[j]),
        decreases b,
    {
        b = b - 1;
    }
    proof {
        lemma_last_where(s@, non_ws(), b - 1);
    }
    (a, b)
}

/// A copy of `s[lo..hi]`.
pub fn slice_of(s: &Vec<char>, lo: usize, hi: usize) -> (r: Vec<char>)
    requires
        lo <= hi <= s.len(),
    ensures
        r@ == s@.subrange(lo as int, hi as int),
{
    let mut r: Vec<char> = Vec::new();
    let mut i = lo;
    while i < hi
        invariant
            lo <= i <= hi <= s.len(),
            r@ == s@.subrange(lo as int, i as int),
        decreases hi - i,
    {
        r.push(s[i]);
        i = i + 1;
    }
    r
}

/// `s` with surrounding whitespace removed.
pub fn trimmed(s: &Vec<char>) -> (r: Vec<char>)
    ensures
        r@ == trim(s@),
{
    let (a, b) = trim_bounds(s);
    slice_of(s, a, b)
}


/// An ASCII decimal digit.
pub open spec fn is_digit(c: char) -> bool {
    '0' <= c <= '9'
}

/// The value of an ASCII decimal digit.
pub open spec fn digit_val(c: char) -> int {
    (c as int) - ('0' as int)
}

/// Every element of `s` is an ASCII decimal digit.
pub open spec fn all_digits(s: Seq<char>) -> bool {
    forall|i: int| 0 <= i < s.len() ==> is_digit(#[trigger] s[i])
}

/// The number that the decimal digits `s` write, most significant first.
pub open spec fn digits_val(s: Seq<char>) -> int
    decreases s.len(),
{
    if s.len() == 0 {
        0
    } else {
        digits_val(s.drop_last()) * 10 + digit_val(s.last())
    }
}

/// Ten to the power `n`.
pub open spec fn pow10(n: nat) -> int
    decreases n,
{
    if n == 0 {
        1
    } else {
        10 * pow10((n - 1) as nat)
    }
}

/// Powers of ten grow with the exponent.
pub proof fn lemma_pow10_mono(a: nat, b: nat)
    requires
        a <= b,
    ensures
        1 <= pow10(a) <= pow10(b),
    decreases b,
{
    if a == b {
        lemma_pow10_pos(a);
    } else {
        lemma_pow10_mono(a, (b - 1) as nat);
    }
}

/// Powers of ten are positive.
pub proof fn lemma_pow10_pos(a: nat)
    ensures
        pow10(a) >= 1,
    decreases a,
{
    if a > 0 {
        lemma_pow10_pos((a - 1) as nat);
    }
}

/// Ten to the eighteenth.
pub proof fn lemma_pow10_18()
    ensures
        pow10(18) == 1_000_000_000_000_000_000,
{
    reveal_with_fuel(pow10, 19);
}

/// The value that Unicode gives `char::is_numeric` (general categories Nd, Nl, No).
pub uninterp spec fn unicode_numeric(c: char) -> bool;

/// Calls `char::is_numeric`; the result is taken to be `unicode_numeric(c)`, a name
/// for that function of `c` whose table Verus does not see.
#[verifier::external_body]
fn char_is_numeric(c: char) -> (b: bool)
    ensures
        b == unicode_numeric(c),
{
    c.is_numeric()
}

/// Numeric characters: among ASCII exactly the digits `0`-`9`, elsewhere the
/// Unicode number categories.
pub open spec fn is_num(c: char) -> bool {
    if (c as u32) < 128 {
        is_digit(c)
    } else {
        unicode_numeric(c)
    }
}

/// Whether `c` is numeric.
pub fn is_numeric(c: char) -> (b: bool)
    ensures
        b == is_num(c),
{
    if (c as u32) < 128 {
        '0' <= c && c <= '9'
    } else {
        char_is_numeric(c)
    }
}

/// `c` with an ASCII capital letter lowered, as `to_ascii_lowercase` does.
pub open spec fn ascii_lower(c: char) -> char {
    if 'A' <= c <= 'Z' {
        ((c as u32) + 32) as char
    } else {
        c
    }
}

/// `c` with an ASCII small letter raised to its capital, as
/// `to_ascii_uppercase` does.
pub open spec fn ascii_upper(c: char) -> char {
    if 'a' <= c <= 'z' {
        ((c as u32) - 32) as char
    } else {
        c
    }
}

/// Every character of `s` is ASCII.
pub open spec fn all_ascii(s: Seq<char>) -> bool {
    forall|i: int| 0 <= i < s.len() ==> (#[trigger] s[i] as u32) < 128
}

/// `s` with its ASCII small letters raised to capitals.
pub open spec fn ascii_uppercase(s: Seq<char>) -> Seq<char> {
    s.map_values(|c: char| ascii_upper(c))
}

/// `s` equals the lowercase ASCII word `w`, ignoring ASCII case.
pub open spec fn eq_ignore_ascii_case(s: Seq<char>, w: Seq<char>) -> bool {
    &&& s.len() == w.len()
    &&& forall|i: int| 0 <= i < s.len() ==> #[trigger] ascii_lower(s[i]) == w[i]
}

/// Whether `s[lo..hi]` equals the lowercase ASCII word `w`, ignoring ASCII case.
pub fn matches_ignore_ascii_case(s: &Vec<char>, lo: usize, hi: usize, w: &str) -> (b: bool)
    requires
        lo <= hi <= s.len(),
    ensures
        b == eq_ignore_ascii_case(s@.subrange(lo as int, hi as int), w@),
{
    let wc = chars_of(w);
    if hi - lo != wc.len() {
        return false;
    }
    let mut i: usize = 0;
    while i < wc.len()
        invariant
            lo <= hi <= s.len(),
            hi - lo == wc.len(),
            wc@ == w@,
            i <= wc.len(),
            forall|j: int| 0 <= j < i ==> #[trigger] ascii_lower(s@[lo + j]) == wc@[j],
        decreases wc.len() - i,
    {
        let c = s[lo + i];
        let l = if 'A' <= c && c <= 'Z' {
            char_from_u32_ascii((c as u32) + 32)
        } else {
            c
        };
        if l != wc[i] {
            proof {
                assert(s@.subrange(lo as int, hi as int)[i as int] == c);
                assert(l == ascii_lower(c));
                assert(ascii_lower(s@.subrange(lo as int, hi as int)[i as int]) != w@[i as int]);
            }
            return false;
        }
        i = i + 1;
    }
    proof {
        assert forall|j: int| 0 <= j < hi - lo implies #[trigger] ascii_lower(
            s@.subrange(lo as int, hi as int)[j],
        ) == w@[j] by {
            assert(s@.subrange(lo as int, hi as int)[j] == s@[lo + j]);
        }
    }
    true
}

/// The character with the code point `u`, an ASCII letter.
fn char_from_u32_ascii(u: u32) -> (c: char)
    requires
        0x61 <= u <= 0x7a,
    ensures
        c == u as char,
{
    let b = u as u8;
    b as char
}

/// Calls `String::push`; claimed: the string afterwards is the old one with `c`
/// appended.
#[verifier::external_body]
fn push_char(s: &mut String, c: char)
    ensures
        final(s)@ == old(s)@.push(c),
{
    s.push(c);
}

/// Whether the strings `a` and `b` hold the same characters.
pub fn equals(a: &str, b: &str) -> (r: bool)
    ensures
        r == (a@ == b@),
{
    let x = chars_of(a);
    let y = chars_of(b);
    if x.len() != y.len() {
        return false;
    }
    let mut i: usize = 0;
    while i < x.len()
        invariant
            x@ == a@,
            y@ == b@,
            x.len() == y.len(),
            i <= x.len(),
            forall|j: int| 0 <= j < i ==> x@[j] == y@[j],
        decreases x.len() - i,
    {
        if x[i] != y[i] {
            proof {
                assert(x@[i as int] != y@[i as int]);
                assert(a@[i as int] != b@[i as int]);
            }
            return false;
        }
        i = i + 1;
    }
    proof {
        assert(x@ =~= y@);
    }
    true
}

/// Appends the characters `t` to `s`.
pub fn push_chars(s: &mut String, t: &Vec<char>)
    ensures
        final(s)@ == old(s)@ + t@,
{
    let ghost start = s@;
    let mut i: usize = 0;
    while i < t.len()
        invariant
            i <= t.len(),
            s@ == start + t@.take(i as int),
        decreases t.len() - i,
    {
        push_char(s, t[i]);
        proof {
            assert(t@.take(i + 1) == t@.take(i as int).push(t@[i as int]));
        }
        i = i + 1;
    }
    proof {
        assert(t@.take(t.len() as int) == t@);
    }
}

/// Appends the string `t` to `s`.
pub fn push_str(s: &mut String, t: &str)
    ensures
        final(s)@ == old(s)@ + t@,
{
    s.append(t);
}

/// Appends `c` to `s`.
pub fn push_char_to(s: &mut String, c: char)
    ensures
        final(s)@ == old(s)@.push(c),
{
    push_char(s, c);
}

/// The string `prefix` followed by the characters `tail`.
pub fn string_from(prefix: &str, tail: &Vec<char>) -> (r: String)
    ensures
        r@ == prefix@ + tail@,
{
    let mut r = String::from_str(prefix);
    push_chars(&mut r, tail);
    r
}

/// One step of `digits_val`: the value of the first `i + 1` digits.
pub proof fn lemma_digits_val_step(s: Seq<char>, i: int)
    requires
        0 <= i < s.len(),
    ensures
        digits_val(s.take(i + 1)) == digits_val(s.take(i)) * 10 + digit_val(s[i]),
{
    assert(s.take(i + 1).drop_last() == s.take(i));
    assert(s.take(i + 1).last() == s[i]);
}

/// Decimal digits write a number below `10^len`.
pub proof fn lemma_digits_val_bound(s: Seq<char>)
    requires
        all_digits(s),
    ensures
        0 <= digits_val(s) < pow10(s.len()),
    decreases s.len(),
{
    if s.len() > 0 {
        assert(all_digits(s.drop_last())) by {
            assert forall|i: int| 0 <= i < s.drop_last().len() implies is_digit(
                #[trigger] s.drop_last()[i],
            ) by {
                assert(s.drop_last()[i] == s[i]);
            }
        }
        lemma_digits_val_bound(s.drop_last());
        assert(is_digit(s[s.len() - 1]));
    }
}

/// The value of an ASCII digit character.
pub fn digit_value(c: char) -> (v: u128)
    requires
        is_digit(c),
    ensures
        v == digit_val(c),
        v < 10,
{
    ((c as u32) - 48) as u128
}


/// The ASCII character of the digit `d` (0-9).
pub open spec fn digit_char(d: int) -> char {
    (d + 48) as char
}

/// The decimal digits of `n`, without leading zeros (`0` for zero).
pub open spec fn decimal_digits(n: nat) -> Seq<char>
    decreases n,
{
    if n < 10 {
        seq![digit_char(n as int)]
    } else {
        decimal_digits(n / 10).push(digit_char((n % 10) as int))
    }
}

/// `s` preceded by as many `0` as it takes to reach `width` characters.
pub open spec fn zero_pad(s: Seq<char>, width: nat) -> Seq<char> {
    if s.len() >= width {
        s
    } else {
        Seq::new((width - s.len()) as nat, |i: int| '0') + s
    }
}

/// A number below `10^k` has at most `k` digits.
pub proof fn lemma_decimal_digits_len(n: nat, k: nat)
    requires
        k >= 1,
        n < pow10(k),
    ensures
        1 <= decimal_digits(n).len() <= k,
    decreases n,
{
    if n >= 10 {
        assert(k >= 2) by {
            if k == 1 {
                assert(pow10(1) == 10 * pow10(0));
            }
        }
        assert(n / 10 < pow10((k - 1) as nat)) by {
            assert(pow10(k) == 10 * pow10((k - 1) as nat));
        }
        lemma_decimal_digits_len(n / 10, (k - 1) as nat);
    }
}

/// The decimal digits of `n` are digits and write `n`.
pub proof fn lemma_decimal_digits(n: nat)
    ensures
        decimal_digits(n).len() >= 1,
        all_digits(decimal_digits(n)),
        digits_val(decimal_digits(n)) == n,
    decreases n,
{
    if n < 10 {
        let c = digit_char(n as int);
        assert(seq![c].drop_last() =~= Seq::<char>::empty());
        assert(seq![c].last() == c);
        assert(digit_val(c) == n);
        assert(digits_val(Seq::<char>::empty()) == 0);
        assert(decimal_digits(n) == seq![c]);
        assert(digits_val(seq![c]) == digits_val(seq![c].drop_last()) * 10 + digit_val(seq![c].last()));
    }
    if n >= 10 {
        lemma_decimal_digits(n / 10);
        let x = decimal_digits(n / 10);
        let c = digit_char((n % 10) as int);
        assert(x.push(c).drop_last() == x);
        assert(digit_val(c) == n % 10);
        assert(n == (n / 10) * 10 + n % 10);
        assert(x.push(c).last() == c);
        assert(decimal_digits(n) == x.push(c));
        assert(digits_val(x.push(c)) == digits_val(x.push(c).drop_last()) * 10 + digit_val(x.push(c).last()));
        assert forall|i: int| 0 <= i < x.push(c).len() implies is_digit(#[trigger] x.push(c)[i]) by {
            if i < x.len() {
                assert(x.push(c)[i] == x[i]);
            }
        }
    }
}

/// Appends the decimal digits of `n` to `s`.
pub fn push_decimal(s: &mut String, n: u64)
    ensures
        final(s)@ == old(s)@ + decimal_digits(n as nat),
    decreases n,
{
    if n >= 10 {
        push_decimal(s, n / 10);
    }
    let d = (n % 10) as u8;
    let c = (d + 48) as char;
    push_char(s, c);
}

/// Appends the decimal digits of `n` to `s`, padded with `0` to `width` characters.
pub fn push_padded_decimal(s: &mut String, n: u64, width: usize)
    ensures
        final(s)@ == old(s)@ + zero_pad(decimal_digits(n as nat), width as nat),
{
    let len = decimal_len(n);
    let ghost start = s@;
    let mut i = len;
    while i < width
        invariant
            len == decimal_digits(n as nat).len(),
            len <= i <= width || (i == len && len >= width),
            s@ == start + Seq::new((i - len) as nat, |j: int| '0'),
        decreases width - i,
    {
        push_char(s, '0');
        proof {
            assert(Seq::new((i - len) as nat, |j: int| '0').push('0') == Seq::new(
                (i + 1 - len) as nat,
                |j: int| '0',
            ));
        }
        i = i + 1;
    }
    push_decimal(s, n);
    proof {
        if len >= width {
            assert(Seq::new((i - len) as nat, |j: int| '0') == Seq::<char>::empty());
            assert(start + Seq::<char>::empty() == start);
        }
    }
}

/// The number of decimal digits of `n`.
pub fn decimal_len(n: u64) -> (r: usize)
    ensures
        r == decimal_digits(n as nat).len(),
    decreases n,
{
    proof {
        reveal_with_fuel(pow10, 21);
        lemma_decimal_digits_len(n as nat, 20);
    }
    if n < 10 {
        1
    } else {
        decimal_len(n / 10) + 1
    }
}

} // verus!
