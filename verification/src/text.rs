//! Text helpers: decimal rendering of integers and of microsecond times,
//! white-space trimming, searching for a character, and reading decimal numbers.

use vstd::prelude::*;
use crate::ffmpeg::texts;

verus! {

/// The decimal digit character for `d` (taken modulo ten).
pub open spec fn digit_char(d: nat) -> char {
    let d = d % 10;
    if d == 0 { '0' }
    else if d == 1 { '1' }
    else if d == 2 { '2' }
    else if d == 3 { '3' }
    else if d == 4 { '4' }
    else if d == 5 { '5' }
    else if d == 6 { '6' }
    else if d == 7 { '7' }
    else if d == 8 { '8' }
    else { '9' }
}

/// `n` written in decimal without leading zeros ("0" for zero).
pub open spec fn decimal_text(n: nat) -> Seq<char>
    decreases n,
{
    if n < 10 {
        seq![digit_char(n)]
    } else {
        decimal_text(n / 10).push(digit_char(n % 10))
    }
}

/// The last `width` decimal digits of `n`, padded with leading zeros.
pub open spec fn padded_digits(n: nat, width: nat) -> Seq<char>
    decreases width,
{
    if width == 0 {
        seq![]
    } else {
        padded_digits(n / 10, (width - 1) as nat).push(digit_char(n % 10))
    }
}

/// A time given in microseconds, written in seconds with six decimals
/// (the text of `{:.6}` applied to the same number of seconds).
pub open spec fn seconds_text(us: int) -> Seq<char> {
    let a: nat = if us < 0 { (-us) as nat } else { us as nat };
    let sign: Seq<char> = if us < 0 { seq!['-'] } else { seq![] };
    sign + decimal_text(a / 1_000_000) + seq!['.'] + padded_digits(a % 1_000_000, 6)
}

/// The one-character text of a decimal digit.
pub fn digit_str(d: u64) -> (s: &'static str)
    requires
        d < 10,
    ensures
        s@ == seq![digit_char(d as nat)],
{
    if d == 0 {
        proof { reveal_strlit("0"); }
        "0"
    } else if d == 1 {
        proof { reveal_strlit("1"); }
        "1"
    } else if d == 2 {
        proof { reveal_strlit("2"); }
        "2"
    } else if d == 3 {
        proof { reveal_strlit("3"); }
        "3"
    } else if d == 4 {
        proof { reveal_strlit("4"); }
        "4"
    } else if d == 5 {
        proof { reveal_strlit("5"); }
        "5"
    } else if d == 6 {
        proof { reveal_strlit("6"); }
        "6"
    } else if d == 7 {
        proof { reveal_strlit("7"); }
        "7"
    } else if d == 8 {
        proof { reveal_strlit("8"); }
        "8"
    } else {
        proof { reveal_strlit("9"); }
        "9"
    }
}

/// Writes `n` in decimal.
pub fn decimal_string(n: u64) -> (s: String)
    ensures
        s@ == decimal_text(n as nat),
    decreases n,
{
    if n < 10 {
        String::from_str(digit_str(n))
    } else {
        let mut s = decimal_string(n / 10);
        s.append(digit_str(n % 10));
        s
    }
}

/// Writes the last `width` digits of `n`, zero-padded.
pub fn padded_string(n: u64, width: u64) -> (s: String)
    ensures
        s@ == padded_digits(n as nat, width as nat),
    decreases width,
{
    if width == 0 {
        String::new()
    } else {
        let mut s = padded_string(n / 10, width - 1);
        s.append(digit_str(n % 10));
        s
    }
}

/// Writes a microsecond time as seconds with six decimals, as FFmpeg's
/// `-ss` and `-to` options receive it.
pub fn seconds_string(us: i64) -> (s: String)
    ensures
        s@ == seconds_text(us as int),
{
    let a: u64 = if us < 0 { (0i128 - us as i128) as u64 } else { us as u64 };
    let mut s = if us < 0 {
        proof { reveal_strlit("-"); }
        String::from_str("-")
    } else {
        String::new()
    };
    let whole = decimal_string(a / 1_000_000);
    s.append(whole.as_str());
    proof { reveal_strlit("."); }
    s.append(".");
    let frac = padded_string(a % 1_000_000, 6);
    s.append(frac.as_str());
    s
}


/// Whether `c` is white space in Unicode's sense (what `char::is_whitespace`
/// and `str::trim` go by).
pub open spec fn is_space(c: char) -> bool {
    let v = c as int;
    ||| 0x09 <= v <= 0x0d
    ||| v == 0x20
    ||| v == 0x85
    ||| v == 0xa0
    ||| v == 0x1680
    ||| 0x2000 <= v <= 0x200a
    ||| v == 0x2028
    ||| v == 0x2029
    ||| v == 0x202f
    ||| v == 0x205f
    ||| v == 0x3000
}

/// `s` without its leading white space.
pub open spec fn trim_start_text(s: Seq<char>) -> Seq<char>
    decreases s.len(),
{
    if s.len() > 0 && is_space(s[0]) {
        trim_start_text(s.drop_first())
    } else {
        s
    }
}

/// `s` without its trailing white space.
pub open spec fn trim_end_text(s: Seq<char>) -> Seq<char>
    decreases s.len(),
{
    if s.len() > 0 && is_space(s.last()) {
        trim_end_text(s.drop_last())
    } else {
        s
    }
}

/// `s` without leading and trailing white space.
pub open spec fn trim_text(s: Seq<char>) -> Seq<char> {
    trim_end_text(trim_start_text(s))
}

/// The first position at or after `from` that holds `c`, or the length of
/// `s` when there is none.
pub open spec fn index_of_from(s: Seq<char>, from: int, c: char) -> int
    decreases s.len() - from,
{
    if from >= s.len() {
        s.len() as int
    } else if s[from] == c {
        from
    } else {
        index_of_from(s, from + 1, c)
    }
}

pub open spec fn is_digit(c: char) -> bool {
    '0' <= c <= '9'
}

pub open spec fn digit_value(c: char) -> nat {
    ((c as int) - ('0' as int)) as nat
}

/// The number that a string of decimal digits denotes.
pub open spec fn digits_value(s: Seq<char>) -> nat
    decreases s.len(),
{
    if s.len() == 0 {
        0
    } else {
        digits_value(s.drop_last()) * 10 + digit_value(s.last())
    }
}

pub open spec fn all_digits(s: Seq<char>) -> bool {
    forall|i: int| 0 <= i < s.len() ==> is_digit(#[trigger] s[i])
}

/// Ten to the power `n`.
pub open spec fn pow10(n: nat) -> nat
    decreases n,
{
    if n == 0 {
        1
    } else {
        10 * pow10((n - 1) as nat)
    }
}

/// The largest size of a mantissa that is read: 36 digits.
pub open spec fn mantissa_limit() -> int {
    1_000_000_000_000_000_000_000_000_000_000_000_000
}

/// The largest size of an exponent that is read.
pub open spec fn exponent_limit() -> int {
    1_000_000_000_000_000_000
}

/// The mantissa of a number text: an optional `+` or `-`, then digits with
/// at most one '.' among them (at least one digit, on either side of the
/// point), read as `(m, f)` with value `m / 10^f`: `m` is the signed number
/// that all the digits form and `f` the number of digits after the point.
/// Accepted when `m` lies within `mantissa_limit()` in size.
pub open spec fn mantissa_value(s: Seq<char>) -> Option<(int, nat)> {
    let signed = s.len() > 0 && (s[0] == '-' || s[0] == '+');
    let body = if signed { s.drop_first() } else { s };
    let p = index_of_from(body, 0, '.');
    let int_part = body.subrange(0, p);
    let frac = if p < body.len() { body.subrange(p + 1, body.len() as int) } else { seq![] };
    let digits = int_part + frac;
    if digits.len() > 0 && all_digits(digits) {
        let m = digits_value(digits) as int;
        let v = if signed && s[0] == '-' { -m } else { m };
        if -mantissa_limit() <= v <= mantissa_limit() {
            Some((v, frac.len()))
        } else {
            None
        }
    } else {
        None
    }
}

/// The integer that `s` writes: an optional `+` or `-` followed by at least
/// one decimal digit, and nothing else.
pub open spec fn signed_integer_value(s: Seq<char>) -> Option<int> {
    let signed = s.len() > 0 && (s[0] == '-' || s[0] == '+');
    let body = if signed { s.drop_first() } else { s };
    if body.len() > 0 && all_digits(body) {
        if signed && s[0] == '-' {
            Some(-(digits_value(body) as int))
        } else {
            Some(digits_value(body) as int)
        }
    } else {
        None
    }
}

/// The position of the exponent mark ('e' or 'E') in a number text, or its
/// length when there is none.
pub open spec fn exponent_mark(s: Seq<char>) -> int {
    let a = index_of_from(s, 0, 'e');
    let b = index_of_from(s, 0, 'E');
    if a < b { a } else { b }
}

/// The exact value of a number text in the decimal notation that `f64`
/// reads: a mantissa (see `mantissa_value`), optionally followed by 'e' or
/// 'E' and a signed integer exponent `e`. The value is given as `(m, s)`,
/// meaning `m * 10^s`, with `s = e - f`. Accepted when the mantissa is
/// read and the exponent lies within `exponent_limit()` in size.
pub open spec fn decimal_text_value(s: Seq<char>) -> Option<(int, int)> {
    let k = exponent_mark(s);
    let e: Option<int> = if k < s.len() {
        signed_integer_value(s.subrange(k + 1, s.len() as int))
    } else {
        Some(0)
    };
    match (mantissa_value(s.subrange(0, k)), e) {
        (Some((m, f)), Some(e)) => if -exponent_limit() <= e <= exponent_limit() {
            Some((m, e - f))
        } else {
            None
        },
        _ => None,
    }
}

pub proof fn lemma_pow10_add(a: nat, b: nat)
    ensures
        pow10(a + b) == pow10(a) * pow10(b),
        pow10(a) >= 1,
    decreases a,
{
    if a > 0 {
        let a1 = (a - 1) as nat;
        lemma_pow10_add(a1, b);
        assert((a + b) as nat == (a1 + b + 1) as nat);
        assert(pow10(a + b) == 10 * pow10(a1 + b));
        assert(pow10(a) == 10 * pow10(a1));
        let x = pow10(a1);
        let y = pow10(b);
        assert(10 * (x * y) == (10 * x) * y) by (nonlinear_arith);
        assert(pow10(a + b) == pow10(a) * pow10(b));
    } else {
        assert(pow10(a) == 1);
        assert(a + b == b);
        assert(pow10(a + b) == pow10(b));
    }
}

/// Powers of ten grow with the exponent.
pub proof fn lemma_pow10_monotonic(a: nat, b: nat)
    requires
        a <= b,
    ensures
        1 <= pow10(a) <= pow10(b),
{
    lemma_pow10_add(a, (b - a) as nat);
    lemma_pow10_add((b - a) as nat, 0);
    assert(pow10(a) * pow10((b - a) as nat) >= pow10(a)) by (nonlinear_arith)
        requires
            pow10((b - a) as nat) >= 1,
            pow10(a) >= 1,
    ;
}

pub proof fn lemma_pow10_upto_38(f: nat)
    requires
        f <= 38,
    ensures
        1 <= pow10(f) <= 100_000_000_000_000_000_000_000_000_000_000_000_000,
        pow10(37) == 10_000_000_000_000_000_000_000_000_000_000_000_000,
{
    assert(pow10(0) == 1);
    assert(pow10(1) == 10);
    assert(pow10(2) == 100);
    assert(pow10(3) == 1000);
    assert(pow10(4) == 10000);
    assert(pow10(5) == 100000);
    assert(pow10(6) == 1000000);
    assert(pow10(7) == 10000000);
    assert(pow10(8) == 100000000);
    assert(pow10(9) == 1000000000);
    assert(pow10(10) == 10000000000);
    assert(pow10(11) == 100000000000);
    assert(pow10(12) == 1000000000000);
    assert(pow10(13) == 10000000000000);
    assert(pow10(14) == 100000000000000);
    assert(pow10(15) == 1000000000000000);
    assert(pow10(16) == 10000000000000000);
    assert(pow10(17) == 100000000000000000);
    assert(pow10(18) == 1000000000000000000);
    assert(pow10(19) == 10000000000000000000);
    assert(pow10(20) == 100000000000000000000);
    assert(pow10(21) == 1000000000000000000000);
    assert(pow10(22) == 10000000000000000000000);
    assert(pow10(23) == 100000000000000000000000);
    assert(pow10(24) == 1000000000000000000000000);
    assert(pow10(25) == 10000000000000000000000000);
    assert(pow10(26) == 100000000000000000000000000);
    assert(pow10(27) == 1000000000000000000000000000);
    assert(pow10(28) == 10000000000000000000000000000);
    assert(pow10(29) == 100000000000000000000000000000);
    assert(pow10(30) == 1000000000000000000000000000000);
    assert(pow10(31) == 10000000000000000000000000000000);
    assert(pow10(32) == 100000000000000000000000000000000);
    assert(pow10(33) == 1000000000000000000000000000000000);
    assert(pow10(34) == 10000000000000000000000000000000000);
    assert(pow10(35) == 100000000000000000000000000000000000);
    assert(pow10(36) == 1000000000000000000000000000000000000);
    assert(pow10(37) == 10000000000000000000000000000000000000);
    assert(pow10(38) == 100000000000000000000000000000000000000);
    lemma_pow10_monotonic(f, 38);
}

/// Ten to the power `f`.
pub fn pow10_u128(f: u32) -> (r: u128)
    requires
        f <= 38,
    ensures
        r == pow10(f as nat),
        1 <= r <= 100_000_000_000_000_000_000_000_000_000_000_000_000,
    decreases f,
{
    proof {
        lemma_pow10_upto_38(f as nat);
    }
    if f == 0 {
        1
    } else {
        10 * pow10_u128(f - 1)
    }
}

/// Whether two texts are the same.
pub fn same_text(a: &str, b: &str) -> (r: bool)
    ensures
        r == (a@ == b@),
{
    a.to_owned() == b.to_owned()
}

pub fn is_space_char(c: char) -> (r: bool)
    ensures
        r == is_space(c),
{
    let v = c as u32;
    (0x09 <= v && v <= 0x0d) || v == 0x20 || v == 0x85 || v == 0xa0 || v == 0x1680 || (0x2000
        <= v && v <= 0x200a) || v == 0x2028 || v == 0x2029 || v == 0x202f || v == 0x205f || v
        == 0x3000
}

proof fn lemma_trim_start_step(s: Seq<char>, i: int)
    requires
        0 <= i < s.len(),
        is_space(s[i]),
    ensures
        trim_start_text(s.subrange(i, s.len() as int)) == trim_start_text(
            s.subrange(i + 1, s.len() as int),
        ),
{
    assert(s.subrange(i, s.len() as int).drop_first() =~= s.subrange(i + 1, s.len() as int));
}

proof fn lemma_trim_end_step(s: Seq<char>, i: int, j: int)
    requires
        0 <= i < j <= s.len(),
        is_space(s[j - 1]),
    ensures
        trim_end_text(s.subrange(i, j)) == trim_end_text(s.subrange(i, j - 1)),
{
    assert(s.subrange(i, j).drop_last() =~= s.subrange(i, j - 1));
}

/// `s` with leading and trailing white space removed.
pub fn trim(s: &str) -> (r: &str)
    ensures
        r@ == trim_text(s@),
{
    let n = s.unicode_len();
    let mut i: usize = 0;
    proof {
        assert(s@.subrange(0, n as int) =~= s@);
    }
    while i < n && is_space_char(s.get_char(i))
        invariant
            n == s@.len(),
            i <= n,
            trim_start_text(s@) == trim_start_text(s@.subrange(i as int, n as int)),
        decreases n - i,
    {
        proof {
            lemma_trim_start_step(s@, i as int);
        }
        i = i + 1;
    }
    proof {
        assert(s@.subrange(0, n as int) =~= s@);
        let t = s@.subrange(i as int, n as int);
        if i < n {
            assert(t[0] == s@[i as int]);
        }
        assert(trim_start_text(t) == t);
    }
    let mut j: usize = n;
    while j > i && is_space_char(s.get_char(j - 1))
        invariant
            n == s@.len(),
            i <= j <= n,
            trim_text(s@) == trim_end_text(s@.subrange(i as int, j as int)),
        decreases j - i,
    {
        proof {
            lemma_trim_end_step(s@, i as int, j as int);
        }
        j = j - 1;
    }
    proof {
        let t = s@.subrange(i as int, j as int);
        if j > i {
            assert(t.last() == s@[j - 1]);
        }
        assert(trim_end_text(t) == t);
    }
    s.substring_char(i, j)
}

/// The first position at or after `from` that holds `c`, or the length.
pub fn find_char_from(s: &str, from: usize, c: char) -> (r: usize)
    requires
        from <= s@.len(),
    ensures
        r == index_of_from(s@, from as int, c),
        from <= r <= s@.len(),
{
    let n = s.unicode_len();
    let mut i = from;
    while i < n && s.get_char(i) != c
        invariant
            n == s@.len(),
            from <= i <= n,
            index_of_from(s@, from as int, c) == index_of_from(s@, i as int, c),
        decreases n - i,
    {
        i = i + 1;
    }
    i
}

/// The number that a text of decimal digits forms, when it is one and fits
/// in a `u128`.
pub fn digits_number(s: &str) -> (r: Option<u128>)
    ensures
        r is Some <==> all_digits(s@) && digits_value(s@) <= u128::MAX,
        r matches Some(v) ==> v == digits_value(s@),
{
    let n = s.unicode_len();
    let mut acc: u128 = 0;
    let mut too_big = false;
    let mut i: usize = 0;
    proof {
        assert(s@.subrange(0, 0) =~= Seq::<char>::empty());
    }
    while i < n
        invariant
            n == s@.len(),
            i <= n,
            all_digits(s@.subrange(0, i as int)),
            !too_big ==> acc == digits_value(s@.subrange(0, i as int)),
            too_big ==> digits_value(s@.subrange(0, i as int)) > u128::MAX,
        decreases n - i,
    {
        let c = s.get_char(i);
        if !(c >= '0' && c <= '9') {
            proof {
                assert(!is_digit(s@[i as int]));
                assert(!all_digits(s@));
            }
            return None;
        }
        let d = (c as u32 - '0' as u32) as u128;
        let ghost prev = s@.subrange(0, i as int);
        let ghost next = s@.subrange(0, i + 1);
        proof {
            assert(next.drop_last() =~= prev);
            assert(next.last() == c);
            assert(digits_value(next) == digits_value(prev) * 10 + d);
            assert forall|k: int| 0 <= k < next.len() implies is_digit(#[trigger] next[k]) by {
                if k < prev.len() {
                    assert(next[k] == prev[k]);
                }
            }
        }
        if !too_big {
            if acc > (u128::MAX - d) / 10 {
                too_big = true;
                proof {
                    assert(acc * 10 + d > u128::MAX) by (nonlinear_arith)
                        requires
                            acc > (u128::MAX - d) / 10,
                            d < 10,
                    ;
                }
            } else {
                proof {
                    assert(acc * 10 + d <= u128::MAX) by (nonlinear_arith)
                        requires
                            acc <= (u128::MAX - d) / 10,
                            d < 10,
                    ;
                }
                acc = acc * 10 + d;
            }
        } else {
            proof {
                assert(digits_value(prev) * 10 + d >= digits_value(prev)) by (nonlinear_arith);
            }
        }
        i = i + 1;
    }
    proof {
        assert(s@.subrange(0, n as int) =~= s@);
    }
    if too_big {
        None
    } else {
        Some(acc)
    }
}

/// Reads the mantissa of a number text (see `mantissa_value`).
fn parse_mantissa(s: &str) -> (r: Option<(i128, usize)>)
    ensures
        r is Some <==> mantissa_value(s@) is Some,
        r matches Some((m, f)) ==> mantissa_value(s@) == Some((m as int, f as nat)),
{
    let n = s.unicode_len();
    let signed = n > 0 && (s.get_char(0) == '-' || s.get_char(0) == '+');
    let neg = n > 0 && s.get_char(0) == '-';
    let start: usize = if signed { 1 } else { 0 };
    let body = s.substring_char(start, n);
    proof {
        if signed {
            assert(body@ =~= s@.drop_first());
        } else {
            assert(body@ =~= s@);
        }
    }
    let blen = body.unicode_len();
    let p = find_char_from(body, 0, '.');
    let int_part = body.substring_char(0, p);
    let frac: &str = if p < blen {
        body.substring_char(p + 1, blen)
    } else {
        proof {
            reveal_strlit("");
        }
        ""
    };
    let flen = frac.unicode_len();
    let ilen = int_part.unicode_len();
    if ilen == 0 && flen == 0 {
        return None;
    }
    let mut digits = String::from_str(int_part);
    digits.append(frac);
    match digits_number(digits.as_str()) {
        None => None,
        Some(m) => {
            if m > 1_000_000_000_000_000_000_000_000_000_000_000_000u128 {
                None
            } else if neg {
                Some((0i128 - m as i128, flen))
            } else {
                Some((m as i128, flen))
            }
        },
    }
}

/// Reads a signed integer exponent (see `signed_integer_value`); `None`
/// also when its size exceeds `exponent_limit()`.
fn parse_exponent(s: &str) -> (r: Option<i128>)
    ensures
        r matches Some(e) ==> signed_integer_value(s@) == Some(e as int),
        r matches Some(e) ==> -exponent_limit() <= e <= exponent_limit(),
        r is None ==> match signed_integer_value(s@) {
            Some(e) => e > exponent_limit() || e < -exponent_limit(),
            None => true,
        },
{
    let n = s.unicode_len();
    let signed = n > 0 && (s.get_char(0) == '-' || s.get_char(0) == '+');
    let neg = n > 0 && s.get_char(0) == '-';
    let start: usize = if signed { 1 } else { 0 };
    let body = s.substring_char(start, n);
    proof {
        if signed {
            assert(body@ =~= s@.drop_first());
        } else {
            assert(body@ =~= s@);
        }
    }
    if body.unicode_len() == 0 {
        return None;
    }
    match digits_number(body) {
        None => None,
        Some(v) => if v > 1_000_000_000_000_000_000u128 {
            None
        } else if neg {
            Some(0i128 - v as i128)
        } else {
            Some(v as i128)
        },
    }
}

/// Reads a number text in decimal notation as its exact value `(m, s)`,
/// meaning `m * 10^s` (see `decimal_text_value`).
pub fn parse_decimal(s: &str) -> (r: Option<(i128, i128)>)
    ensures
        r is Some <==> decimal_text_value(s@) is Some,
        r matches Some((m, e)) ==> decimal_text_value(s@) == Some((m as int, e as int)),
        r matches Some((m, e)) ==> -mantissa_limit() <= m <= mantissa_limit() && -exponent_limit()
            - usize::MAX <= e <= exponent_limit(),
{
    let len = s.unicode_len();
    let k1 = find_char_from(s, 0, 'e');
    let k2 = find_char_from(s, 0, 'E');
    let k = if k1 < k2 { k1 } else { k2 };
    let e: i128 = if k < len {
        match parse_exponent(s.substring_char(k + 1, len)) {
            Some(e) => e,
            None => {
                return None;
            },
        }
    } else {
        0
    };
    match parse_mantissa(s.substring_char(0, k)) {
        Some((m, f)) => Some((m, e - f as i128)),
        None => None,
    }
}

/// The parts of `s` from position `from` on, split at every `sep` (as
/// `str::split` gives them: an empty text has one empty part).
pub open spec fn split_from(s: Seq<char>, sep: char, from: int) -> Seq<Seq<char>>
    decreases s.len() - from,
{
    if from < 0 || from > s.len() {
        seq![]
    } else {
        let k = index_of_from(s, from, sep);
        if k >= s.len() {
            seq![s.subrange(from, s.len() as int)]
        } else {
            proof {
                lemma_index_of_from_bounds(s, from, sep);
            }
            seq![s.subrange(from, k)] + split_from(s, sep, k + 1)
        }
    }
}

/// The first occurrence at or after `from` lies in `from..=len`, and
/// holds the character looked for when it lies before the end.
pub proof fn lemma_index_of_from_bounds(s: Seq<char>, from: int, c: char)
    requires
        0 <= from <= s.len(),
    ensures
        from <= index_of_from(s, from, c) <= s.len(),
        index_of_from(s, from, c) < s.len() ==> s[index_of_from(s, from, c)] == c,
    decreases s.len() - from,
{
    if from < s.len() && s[from] != c {
        lemma_index_of_from_bounds(s, from + 1, c);
    }
}

/// Splits `s` at every `sep`, as `str::split` does.
pub fn split_text(s: &str, sep: char) -> (r: Vec<String>)
    ensures
        texts(r@) == split_from(s@, sep, 0),
{
    let n = s.unicode_len();
    let mut parts: Vec<String> = Vec::new();
    let mut from: usize = 0;
    let mut finished = false;
    while !finished
        invariant
            n == s@.len(),
            from <= n,
            !finished ==> split_from(s@, sep, 0) == texts(parts@) + split_from(s@, sep, from as int),
            finished ==> split_from(s@, sep, 0) == texts(parts@),
        decreases n - from + (if finished { 0int } else { 1int }),
    {
        let k = find_char_from(s, from, sep);
        proof {
            lemma_index_of_from_bounds(s@, from as int, sep);
        }
        let part = s.substring_char(from, k);
        let ghost before = parts@;
        parts.push(part.to_owned());
        proof {
            assert(texts(parts@) =~= texts(before).push(part@));
            if k >= n {
                assert(split_from(s@, sep, from as int) =~= seq![part@]);
            } else {
                assert(split_from(s@, sep, from as int) =~= seq![part@] + split_from(
                    s@,
                    sep,
                    k + 1,
                ));
            }
            assert(texts(before) + split_from(s@, sep, from as int) =~= texts(parts@) + (if k
                >= n {
                seq![]
            } else {
                split_from(s@, sep, k + 1)
            }));
        }
        if k >= n {
            finished = true;
        } else {
            from = k + 1;
        }
    }
    parts
}

proof fn lemma_digit_char(d: nat)
    ensures
        is_digit(digit_char(d)),
        digit_value(digit_char(d)) == d % 10,
{
}

/// `padded_digits(n, w)` is `w` decimal digits whose value is `n` modulo
/// `10^w`.
pub proof fn lemma_padded_digits_value(n: nat, w: nat)
    ensures
        padded_digits(n, w).len() == w,
        all_digits(padded_digits(n, w)),
        digits_value(padded_digits(n, w)) == n % pow10(w),
    decreases w,
{
    if w == 0 {
        assert(n % 1 == 0) by (nonlinear_arith);
    } else {
        let w1 = (w - 1) as nat;
        lemma_padded_digits_value(n / 10, w1);
        let prev = padded_digits(n / 10, w1);
        let t = padded_digits(n, w);
        lemma_digit_char(n % 10);
        assert(t.drop_last() =~= prev);
        assert forall|k: int| 0 <= k < t.len() implies is_digit(#[trigger] t[k]) by {
            if k < prev.len() {
                assert(t[k] == prev[k]);
            }
        }
        let p = pow10(w1);
        lemma_pow10_monotonic(0, w1);
        assert(p >= 1);
        assert(pow10(w) == 10 * p);
        let q = n / 10;
        let r0 = n % 10;
        let a = q / p;
        let b = q % p;
        vstd::arithmetic::div_mod::lemma_fundamental_div_mod(n as int, 10);
        vstd::arithmetic::div_mod::lemma_fundamental_div_mod(q as int, p as int);
        assert(n == a * (10 * p) + (10 * b + r0)) by (nonlinear_arith)
            requires
                n == 10 * q + r0,
                q == p * a + b,
        ;
        assert(0 <= 10 * b + r0 < 10 * p) by (nonlinear_arith)
            requires
                0 <= b < p,
                0 <= r0 < 10,
        ;
        vstd::arithmetic::div_mod::lemma_fundamental_div_mod_converse(
            n as int,
            (10 * p) as int,
            a as int,
            (10 * b + r0) as int,
        );
    }
}

/// `decimal_text(n)` is digits whose value is `n`, with no leading zero
/// unless `n` is zero, and at least `k + 1` of them when `n >= 10^k`.
pub proof fn lemma_decimal_text_value(n: nat, k: nat)
    ensures
        all_digits(decimal_text(n)),
        digits_value(decimal_text(n)) == n,
        decimal_text(n).len() >= 1,
        n > 0 ==> decimal_text(n)[0] != '0',
        n >= pow10(k) ==> decimal_text(n).len() >= k + 1,
    decreases n,
{
    let t = decimal_text(n);
    if n < 10 {
        lemma_digit_char(n);
        assert(t.drop_last() =~= Seq::<char>::empty());
        assert(n % 10 == n);
        assert(digits_value(t.drop_last()) == 0);
        assert(digits_value(t) == n);
        if k > 0 {
            lemma_pow10_monotonic(1, k);
            assert(pow10(0) == 1);
            assert(pow10(1) == 10);
        }
    } else {
        let k1: nat = if k > 0 { (k - 1) as nat } else { 0 };
        lemma_decimal_text_value(n / 10, k1);
        let prev = decimal_text(n / 10);
        lemma_digit_char(n % 10);
        assert(t.drop_last() =~= prev);
        assert(t[0] == prev[0]);
        assert forall|j: int| 0 <= j < t.len() implies is_digit(#[trigger] t[j]) by {
            if j < prev.len() {
                assert(t[j] == prev[j]);
            }
        }
        assert(digits_value(t) == digits_value(prev) * 10 + (n % 10));
        assert((n / 10) * 10 + n % 10 == n);
        if k > 0 && n >= pow10(k) {
            assert(pow10(k) == 10 * pow10(k1));
            assert(n / 10 >= pow10(k1));
        }
    }
}

} // verus!
