//! Frame rates: reading the "num/den" fractions that the probe reports,
//! finding the rate of a file's video stream, and the decisions on probed
//! keyframes at half-frame tolerance: whether a time is on a keyframe, and
//! which keyframe follows or precedes it.

use vstd::prelude::*;
use crate::error::EditError;
use crate::model::{FrameRate, ProbeStream};
use crate::text::{
    decimal_text_value, exponent_limit, find_char_from, index_of_from, lemma_pow10_monotonic,
    lemma_pow10_upto_38, mantissa_limit, parse_decimal, pow10, pow10_u128, same_text, trim, trim_text,
};

verus! {

/// The exact value `(m, s)`, meaning `m * 10^s`, of one side of a rate
/// text, read with surrounding white space removed (see
/// `decimal_text_value`); `default` when it is not read as a number.
pub open spec fn part_value(s: Seq<char>, default: int) -> (int, int) {
    match decimal_text_value(trim_text(s)) {
        Some((m, e)) => (m, e),
        None => (default, 0),
    }
}

/// The rate `(num, den, exp)`, meaning `num / den * 10^exp` frames per
/// second, that a rate text such as "30000/1001" or "29.97" denotes. The
/// text before the first '/' is the numerator and the text after it, up to
/// any further '/', the denominator; each is a number in decimal notation,
/// read exactly ("29.97" is 2997 * 10^-2, "1e19" is 1 * 10^19; see
/// `decimal_text_value` for the sizes read). An unreadable numerator counts
/// as 30 and an unreadable or missing denominator as 1; a zero denominator
/// gives 30 frames per second.
pub open spec fn rate_from_text(s: Seq<char>) -> (int, int, int) {
    let k1 = index_of_from(s, 0, '/');
    let (nm, ne) = part_value(s.subrange(0, k1), 30);
    let (dm, de) = if k1 < s.len() {
        let k2 = index_of_from(s, k1 + 1, '/');
        part_value(s.subrange(k1 + 1, k2), 1)
    } else {
        (1, 0)
    };
    if dm == 0 {
        (30, 1, 0)
    } else {
        (nm, dm, ne - de)
    }
}

pub open spec fn rate_parts(r: FrameRate) -> (int, int, int) {
    (r.num as int, r.den as int, r.exp as int)
}

/// The largest size of a rate's decimal exponent.
pub open spec fn exp_bound() -> int {
    0x40_0000_0000_0000_0000
}

impl FrameRate {
    /// A rate as texts give it: a nonzero denominator, numerator and
    /// denominator within `mantissa_limit()` in size, and the exponent
    /// within `exp_bound()`.
    pub open spec fn wf(self) -> bool {
        &&& self.den != 0
        &&& -mantissa_limit() <= self.num <= mantissa_limit()
        &&& -mantissa_limit() <= self.den <= mantissa_limit()
        &&& -exp_bound() <= self.exp <= exp_bound()
    }
}

/// Reads one side of a rate text as an exact value.
fn parse_part(s: &str, default: i128) -> (r: (i128, i128))
    requires
        -mantissa_limit() <= default <= mantissa_limit(),
    ensures
        (r.0 as int, r.1 as int) == part_value(s@, default as int),
        -mantissa_limit() <= r.0 <= mantissa_limit(),
        -exponent_limit() - usize::MAX <= r.1 <= exponent_limit(),
{
    match parse_decimal(trim(s)) {
        Some((m, e)) => (m, e),
        None => (default, 0),
    }
}

/// Reads a "num/den" frame rate text (see `rate_from_text`).
pub fn parse_rate_fraction(s: &str) -> (r: FrameRate)
    ensures
        rate_parts(r) == rate_from_text(s@),
        r.wf(),
{
    let n = s.unicode_len();
    let k1 = find_char_from(s, 0, '/');
    let (nm, ne) = parse_part(s.substring_char(0, k1), 30);
    let (dm, de) = if k1 < n {
        let k2 = find_char_from(s, k1 + 1, '/');
        parse_part(s.substring_char(k1 + 1, k2), 1)
    } else {
        (1, 0)
    };
    if dm == 0 {
        FrameRate { num: 30, den: 1, exp: 0 }
    } else {
        FrameRate { num: nm, den: dm, exp: ne - de }
    }
}

/// The rate text of a stream: its real base frame rate, else its average
/// frame rate, else "30/1".
pub open spec fn rate_text(st: ProbeStream) -> Seq<char> {
    match st.r_frame_rate {
        Some(r) => r@,
        None => match st.avg_frame_rate {
            Some(a) => a@,
            None => "30/1"@,
        },
    }
}

/// The position of the first stream at or after `i` whose type is "video",
/// or the number of streams when there is none.
pub open spec fn video_index_from(streams: Seq<ProbeStream>, i: int) -> int
    decreases streams.len() - i,
{
    if i >= streams.len() {
        streams.len() as int
    } else if streams[i].codec_type@ == "video"@ {
        i
    } else {
        video_index_from(streams, i + 1)
    }
}

/// The first video stream, if any.
pub fn first_video_stream(streams: &[ProbeStream]) -> (r: Option<usize>)
    ensures
        match r {
            Some(i) => i == video_index_from(streams@, 0) && i < streams@.len(),
            None => video_index_from(streams@, 0) == streams@.len(),
        },
{
    let mut i: usize = 0;
    while i < streams.len()
        invariant
            i <= streams@.len(),
            video_index_from(streams@, 0) == video_index_from(streams@, i as int),
        decreases streams@.len() - i,
    {
        if same_text(streams[i].codec_type.as_str(), "video") {
            return Some(i);
        }
        i = i + 1;
    }
    None
}

/// The frame rate of the first video stream among the probed `streams` of
/// `source`; an error when there is no video stream.
pub fn detect_fps(source: &str, streams: &[ProbeStream]) -> (r: Result<FrameRate, EditError>)
    ensures
        r is Err <==> video_index_from(streams@, 0) == streams@.len(),
        match r {
            Ok(rate) => {
                let i = video_index_from(streams@, 0);
                &&& i < streams@.len()
                &&& rate_parts(rate) == rate_from_text(rate_text(streams@[i]))
                &&& rate.wf()
            },
            Err(e) => e matches EditError::NoVideoStream { source: s } && s@ == source@,
        },
{
    match first_video_stream(streams) {
        None => Err(EditError::NoVideoStream { source: source.to_owned() }),
        Some(i) => {
            let st = &streams[i];
            let r = match &st.r_frame_rate {
                Some(r) => parse_rate_fraction(r.as_str()),
                None => match &st.avg_frame_rate {
                    Some(a) => parse_rate_fraction(a.as_str()),
                    None => parse_rate_fraction("30/1"),
                },
            };
            Ok(r)
        },
    }
}


/// Whether the rate `num / den` (times a power of ten) is a positive number
/// of frames per second.
pub open spec fn rate_is_positive(num: int, den: int) -> bool {
    (num > 0 && den > 0) || (num < 0 && den < 0)
}

pub open spec fn abs_int(x: int) -> int {
    if x < 0 { -x } else { x }
}

/// Whether a keyframe at `kf` counts as at or after the time `t`: it may lie
/// before `t` by at most half a frame. A frame lasts `den / (num * 10^exp)`
/// seconds at a positive rate, and 0.042 s otherwise. Times in
/// microseconds, so half a frame is `den * 10^(6 - exp) / (2 * num)`.
pub open spec fn counts_as_following(kf: int, t: int, r: FrameRate) -> bool {
    let k = 6 - r.exp;
    if rate_is_positive(r.num as int, r.den as int) {
        if k >= 0 {
            2 * abs_int(r.num as int) * (t - kf) <= abs_int(r.den as int) * pow10(k as nat)
        } else {
            2 * abs_int(r.num as int) * pow10((-k) as nat) * (t - kf) <= abs_int(r.den as int)
        }
    } else {
        t - kf <= 21_000
    }
}

/// The magnitude of an `i128`.
pub fn magnitude(x: i128) -> (r: u128)
    ensures
        r == abs_int(x as int),
{
    if x < 0 {
        (-(x + 1)) as u128 + 1
    } else {
        x as u128
    }
}

proof fn lemma_le_quotient(x: int, q: int, a: int, r: int)
    requires
        a > 0,
        0 <= r < a,
        x >= 0,
        q >= 0,
    ensures
        (x * a <= q * a + r) <==> (x <= q),
{
    if x <= q {
        assert(x * a <= q * a) by (nonlinear_arith)
            requires
                x <= q,
                a > 0,
        ;
        assert(x * a <= q * a + r);
    } else {
        assert(x * a >= (q + 1) * a) by (nonlinear_arith)
            requires
                x >= q + 1,
                a > 0,
        ;
        assert((q + 1) * a == q * a + a) by (nonlinear_arith);
        assert(!(x * a <= q * a + r));
    }
}

/// Whether `x * a <= d * 10^k`, for `x` within 64 bits: by long division of
/// `d * 10^k` by `a`, stopping once the quotient passes `x`'s range.
fn scaled_at_most(x: u128, a: u128, d: u128, k: u128) -> (r: bool)
    requires
        x <= 0x1_0000_0000_0000_0000u128,
        0 < a <= 0x200_0000_0000_0000_0000_0000_0000_0000u128,
    ensures
        r == (x * a <= d * pow10(k as nat)),
{
    let q0 = d / a;
    let r0 = d % a;
    proof {
        vstd::arithmetic::div_mod::lemma_fundamental_div_mod(d as int, a as int);
        assert(d == q0 * a + r0 && r0 < a) by (nonlinear_arith)
            requires
                d == a * (d / a) + (d % a),
                q0 == d / a,
                r0 == d % a,
                a > 0,
        ;
        lemma_pow10_monotonic(0, k as nat);
        assert(pow10(0) == 1);
    }
    if q0 > 0x1_0000_0000_0000_0000u128 {
        proof {
            let pk = pow10(k as nat);
            assert(x * a <= d * pk) by (nonlinear_arith)
                requires
                    x <= 0x1_0000_0000_0000_0000u128,
                    q0 > 0x1_0000_0000_0000_0000u128,
                    d == q0 * a + r0,
                    r0 >= 0,
                    a > 0,
                    pk >= 1,
            ;
        }
        return true;
    }
    let mut q: u128 = q0;
    let mut r: u128 = r0;
    let mut j: u128 = 0;
    let ghost mut p: int = 1;
    while j < k
        invariant
            0 < a <= 0x200_0000_0000_0000_0000_0000_0000_0000u128,
            x <= 0x1_0000_0000_0000_0000u128,
            j <= k,
            p == pow10(j as nat),
            p * d == q * a + r,
            r < a,
            q <= 0x1_0000_0000_0000_0000u128,
        decreases k - j,
    {
        let u = 10 * r;
        let qn = 10 * q + u / a;
        let rn = u % a;
        proof {
            vstd::arithmetic::div_mod::lemma_fundamental_div_mod(u as int, a as int);
            assert(u == a * (u / a) + rn && 0 <= rn < a && u / a < 10) by (nonlinear_arith)
                requires
                    u == a * (u / a) + (u % a),
                    rn == u % a,
                    u < 10 * a,
                    u >= 0,
                    a > 0,
            ;
            assert(10 * p * d == qn * a + rn) by (nonlinear_arith)
                requires
                    p * d == q * a + r,
                    u == 10 * r,
                    u == a * (u / a) + rn,
                    qn == 10 * q + u / a,
            ;
            assert(pow10((j + 1) as nat) == 10 * pow10(j as nat));
        }
        if qn > 0x1_0000_0000_0000_0000u128 {
            proof {
                let pk = pow10(k as nat);
                let pj = 10 * p;
                lemma_pow10_monotonic((j + 1) as nat, k as nat);
                assert(x * a <= d * pk) by (nonlinear_arith)
                    requires
                        x <= 0x1_0000_0000_0000_0000u128,
                        qn > 0x1_0000_0000_0000_0000u128,
                        pj * d == qn * a + rn,
                        rn >= 0,
                        a > 0,
                        d >= 0,
                        pj <= pk,
                ;
            }
            return true;
        }
        q = qn;
        r = rn;
        j = j + 1;
        proof {
            p = 10 * p;
        }
    }
    proof {
        lemma_le_quotient(x as int, q as int, a as int, r as int);
        assert(d * p == p * d) by (nonlinear_arith);
    }
    x <= q
}

/// Whether a keyframe at `kf` counts as at or after `t` (see
/// `counts_as_following`).
pub fn keyframe_counts_as_following(kf: i64, t: i64, rate: &FrameRate) -> (r: bool)
    requires
        rate.wf(),
    ensures
        r == counts_as_following(kf as int, t as int, *rate),
{
    let diff: i128 = t as i128 - kf as i128;
    let positive = (rate.num > 0 && rate.den > 0) || (rate.num < 0 && rate.den < 0);
    if !positive {
        return diff <= 21_000;
    }
    let n = magnitude(rate.num);
    let d = magnitude(rate.den);
    let k: i128 = 6 - rate.exp;
    if diff <= 0 {
        proof {
            if k >= 0 {
                let pk = pow10(k as nat);
                assert(2 * n * diff <= d * pk) by (nonlinear_arith)
                    requires
                        n >= 0,
                        diff <= 0,
                        d >= 0,
                        pk >= 0,
                ;
            } else {
                let pm = pow10((-k) as nat);
                assert(2 * n * pm * diff <= d) by (nonlinear_arith)
                    requires
                        n >= 0,
                        diff <= 0,
                        d >= 0,
                        pm >= 0,
                ;
            }
        }
        return true;
    }
    let x: u128 = diff as u128;
    if k >= 0 {
        let a: u128 = 2 * n;
        proof {
            assert(x * a == 2 * n * diff) by (nonlinear_arith)
                requires
                    a == 2 * n,
                    x == diff,
            ;
            let pk = pow10(k as nat);
            assert(d * pk == pk * d) by (nonlinear_arith);
        }
        return scaled_at_most(x, a, d, k as u128);
    }
    let m: i128 = 0 - k;
    if m >= 37 {
        proof {
            lemma_pow10_monotonic(37, m as nat);
            lemma_pow10_upto_38(37);
            assert(pow10(37) == 10_000_000_000_000_000_000_000_000_000_000_000_000);
            let pm = pow10(m as nat);
            assert(2 * n * pm * diff > d) by (nonlinear_arith)
                requires
                    n >= 1,
                    diff >= 1,
                    pm >= 10_000_000_000_000_000_000_000_000_000_000_000_000,
                    d <= 1_000_000_000_000_000_000_000_000_000_000_000_000,
            ;
        }
        return false;
    }
    let p = pow10_u128(m as u32);
    let q = ((d / p) / 2) / n;
    proof {
        let big: int = 2 * n * p;
        let di: int = d as int;
        vstd::arithmetic::div_mod::lemma_div_denominator(di, p as int, 2);
        vstd::arithmetic::div_mod::lemma_div_denominator(di, (p * 2) as int, n as int);
        assert(p * 2 * n == big) by (nonlinear_arith)
            requires
                big == 2 * n * p,
        ;
        assert(q == di / big);
        vstd::arithmetic::div_mod::lemma_fundamental_div_mod(di, big);
        let rr: int = di % big;
        assert(di == q * big + rr && 0 <= rr < big) by (nonlinear_arith)
            requires
                di == big * (di / big) + (di % big),
                q == di / big,
                rr == di % big,
                big > 0,
        ;
        lemma_le_quotient(x as int, q as int, big, rr);
        assert(x * big == 2 * n * p * diff) by (nonlinear_arith)
            requires
                big == 2 * n * p,
                x == diff,
        ;
    }
    x <= q
}

/// The first keyframe at position `i` or later in `kfs` that counts as
/// following `t`.
pub open spec fn first_following_from(kfs: Seq<i64>, i: int, t: int, rate: FrameRate) -> Option<
    i64,
>
    decreases kfs.len() - i,
{
    if i < 0 || i >= kfs.len() {
        None
    } else if counts_as_following(kfs[i] as int, t, rate) {
        Some(kfs[i])
    } else {
        first_following_from(kfs, i + 1, t, rate)
    }
}

/// Among the keyframes listed in a short window from `time`, the first one
/// that lies at or after `time` (within half a frame).
pub fn nearest_following_keyframe(keyframes: &[i64], time: i64, rate: &FrameRate) -> (r: Option<
    i64,
>)
    requires
        rate.wf(),
    ensures
        r == first_following_from(keyframes@, 0, time as int, *rate),
{
    let mut i: usize = 0;
    while i < keyframes.len()
        invariant
            rate.wf(),
            i <= keyframes@.len(),
            first_following_from(keyframes@, 0, time as int, *rate)
                == first_following_from(keyframes@, i as int, time as int, *rate),
        decreases keyframes@.len() - i,
    {
        if keyframe_counts_as_following(keyframes[i], time, rate) {
            return Some(keyframes[i]);
        }
        i = i + 1;
    }
    None
}

/// Whether a keyframe at `kf` lies within half a frame of the time `t`,
/// on either side (see `counts_as_following`).
pub open spec fn within_half_frame(kf: int, t: int, rate: FrameRate) -> bool {
    counts_as_following(kf, t, rate) && counts_as_following(t, kf, rate)
}

/// Whether one of the probed keyframes `kfs` lies within half a frame of
/// `t`: the time is then on a keyframe.
pub fn keyframe_aligned(kfs: &[i64], t: i64, rate: &FrameRate) -> (r: bool)
    requires
        rate.wf(),
    ensures
        r == exists|i: int|
            0 <= i < kfs@.len() && #[trigger] within_half_frame(kfs@[i] as int, t as int, *rate),
{
    let mut i: usize = 0;
    while i < kfs.len()
        invariant
            rate.wf(),
            i <= kfs@.len(),
            forall|j: int|
                0 <= j < i ==> !#[trigger] within_half_frame(kfs@[j] as int, t as int, *rate),
        decreases kfs@.len() - i,
    {
        if keyframe_counts_as_following(kfs[i], t, rate) && keyframe_counts_as_following(
            t,
            kfs[i],
            rate,
        ) {
            proof {
                assert(within_half_frame(kfs@[i as int] as int, t as int, *rate));
            }
            return true;
        }
        i = i + 1;
    }
    false
}

/// The last of `kfs`, in their order, that lies at or before `t`.
pub open spec fn last_at_or_before(kfs: Seq<i64>, t: int) -> Option<i64>
    decreases kfs.len(),
{
    if kfs.len() == 0 {
        None
    } else if kfs.last() <= t {
        Some(kfs.last())
    } else {
        last_at_or_before(kfs.drop_last(), t)
    }
}

/// Among the probed keyframes `kfs`, the last one at or before `t`.
pub fn last_keyframe_at_or_before(kfs: &[i64], t: i64) -> (r: Option<i64>)
    ensures
        r == last_at_or_before(kfs@, t as int),
{
    let mut i: usize = kfs.len();
    proof {
        assert(kfs@.subrange(0, i as int) =~= kfs@);
    }
    while i > 0
        invariant
            i <= kfs@.len(),
            last_at_or_before(kfs@, t as int) == last_at_or_before(
                kfs@.subrange(0, i as int),
                t as int,
            ),
        decreases i,
    {
        let ghost pre = kfs@.subrange(0, i as int);
        proof {
            assert(pre.drop_last() =~= kfs@.subrange(0, i - 1));
            assert(pre.last() == kfs@[i - 1]);
        }
        if kfs[i - 1] <= t {
            return Some(kfs[i - 1]);
        }
        i = i - 1;
    }
    None
}

} // verus!
