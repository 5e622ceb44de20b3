//! The loop-point search: the frames near the end of a video are compared
//! with its first frame by mean squared error, and the best match is where
//! a seamless loop can end.

use vstd::prelude::*;
use crate::error::EditError;
use crate::ffmpeg::{push_text, push_texts, texts};
use crate::model::FrameRate;
use crate::rate::{abs_int, magnitude, rate_is_positive};
use crate::text::{
    all_digits, digits_value, lemma_decimal_text_value, lemma_padded_digits_value,
    lemma_pow10_monotonic, lemma_pow10_upto_38, pow10, pow10_u128,
};
use crate::text::{decimal_text, padded_digits, padded_string, decimal_string, seconds_string, seconds_text};

verus! {

/// An 8-bit RGB image: `pixels` holds the rows top to bottom, each pixel as
/// three bytes (red, green, blue).
pub struct RgbFrame {
    pub width: u32,
    pub height: u32,
    pub pixels: Vec<u8>,
}

impl RgbFrame {
    /// The pixel buffer covers the whole image.
    pub open spec fn wf(self) -> bool {
        self.pixels@.len() >= self.width * self.height * 3
    }

    /// Channel `c` of the pixel at column `x`, row `y`.
    pub open spec fn sample(self, x: int, y: int, c: int) -> int {
        self.pixels@[(y * self.width + x) * 3 + c] as int
    }
}

#[verifier::external_type_specification]
#[verifier::external_body]
pub struct ExImageError(image::ImageError);

/// Decodes an encoded image (its format guessed from its first bytes) and
/// converts it to 8-bit RGB, with `image::ImageReader::with_guessed_format`,
/// `decode` and `DynamicImage::to_rgb8`. Only what holds of every outcome is
/// stated: the buffer of an `ImageBuffer` covers its dimensions. Which image
/// comes back is left unsaid, because the crate lets any code in the process
/// register format-detection and decoding hooks that take part in the call.
#[verifier::external_body]
fn decode_rgb8(bytes: &[u8]) -> (r: Result<RgbFrame, image::ImageError>)
    ensures
        r matches Ok(f) ==> f.wf(),
{
    let reader = image::ImageReader::new(std::io::Cursor::new(bytes))
        .with_guessed_format()
        .map_err(image::ImageError::IoError)?;
    let img = reader.decode()?.to_rgb8();
    let (width, height) = img.dimensions();
    Ok(RgbFrame { width, height, pixels: img.into_raw() })
}

/// What a decoding attempt means for the search: the frame, or an error
/// that carries the decoder's.
pub fn decoded_frame(r: Result<RgbFrame, image::ImageError>) -> (f: Result<RgbFrame, EditError>)
    ensures
        r matches Ok(x) ==> f == Ok::<RgbFrame, EditError>(x),
        r matches Err(e) ==> f == Err::<RgbFrame, EditError>(EditError::FrameDecode(e)),
{
    match r {
        Ok(x) => Ok(x),
        Err(e) => Err(EditError::FrameDecode(e)),
    }
}

/// Decodes an extracted frame for comparison: a frame whose pixels cover
/// its size, or the decoder's error.
pub fn load_and_preprocess(bytes: &[u8]) -> (r: Result<RgbFrame, EditError>)
    ensures
        r matches Ok(f) ==> f.wf(),
        r matches Err(e) ==> e is FrameDecode,
{
    decoded_frame(decode_rgb8(bytes))
}

pub open spec fn square(d: int) -> int {
    d * d
}

/// The squared differences of the three channels of one pixel.
pub open spec fn pixel_error(a: RgbFrame, b: RgbFrame, x: int, y: int) -> int {
    square(a.sample(x, y, 0) - b.sample(x, y, 0)) + square(a.sample(x, y, 1) - b.sample(x, y, 1))
        + square(a.sample(x, y, 2) - b.sample(x, y, 2))
}

/// The squared differences over the first `w` pixels of row `y`.
pub open spec fn row_error(a: RgbFrame, b: RgbFrame, y: int, w: nat) -> int
    decreases w,
{
    if w == 0 {
        0
    } else {
        row_error(a, b, y, (w - 1) as nat) + pixel_error(a, b, w - 1, y)
    }
}

/// The squared differences over the top-left `w` by `h` pixels.
pub open spec fn frame_error(a: RgbFrame, b: RgbFrame, w: nat, h: nat) -> int
    decreases h,
{
    if h == 0 {
        0
    } else {
        frame_error(a, b, w, (h - 1) as nat) + row_error(a, b, h - 1, w)
    }
}

/// A mean squared error kept exactly as `total / count`. A zero count
/// (no pixels compared) stands for an undefined error.
#[derive(PartialEq, Eq, Structural, Clone, Copy)]
pub struct Mse {
    pub total: u128,
    pub count: u128,
}

pub open spec fn min_u32(a: u32, b: u32) -> u32 {
    if a <= b { a } else { b }
}

proof fn lemma_pixel_error_bounds(a: RgbFrame, b: RgbFrame, x: int, y: int)
    requires
        0 <= x < a.width,
        0 <= y < a.height,
        0 <= x < b.width,
        0 <= y < b.height,
        a.wf(),
        b.wf(),
    ensures
        0 <= pixel_error(a, b, x, y) <= 195075,
{
    assert forall|c: int| 0 <= c < 3 implies 0 <= #[trigger] square(a.sample(x, y, c) - b.sample(x, y, c)) <= 65025 by {
        let d = a.sample(x, y, c) - b.sample(x, y, c);
        let ia = (y * a.width + x) * 3 + c;
        let ib = (y * b.width + x) * 3 + c;
        lemma_index_in_frame(x, y, c, a.width as int, a.height as int);
        lemma_index_in_frame(x, y, c, b.width as int, b.height as int);
        assert(0 <= a.pixels@[ia] <= 255);
        assert(0 <= b.pixels@[ib] <= 255);
        assert(-255 <= d <= 255);
        assert(0 <= d * d <= 65025) by (nonlinear_arith)
            requires
                -255 <= d <= 255,
        ;
    }
}

proof fn lemma_index_in_frame(x: int, y: int, c: int, w: int, h: int)
    requires
        0 <= x < w,
        0 <= y < h,
        0 <= c < 3,
    ensures
        0 <= (y * w + x) * 3 + c < w * h * 3,
{
    assert(0 <= (y * w + x) * 3 + c < w * h * 3) by (nonlinear_arith)
        requires
            0 <= x < w,
            0 <= y < h,
            0 <= c < 3,
    ;
}

/// The mean squared error over the pixels that both frames have (the
/// top-left `min(width) x min(height)` block), all three channels.
pub open spec fn mse_of(a: RgbFrame, b: RgbFrame) -> Mse {
    let w = min_u32(a.width, b.width);
    let h = min_u32(a.height, b.height);
    Mse { total: frame_error(a, b, w as nat, h as nat) as u128, count: (w * h * 3) as u128 }
}


proof fn lemma_row_error_bounds(a: RgbFrame, b: RgbFrame, y: int, w: nat)
    requires
        a.wf(),
        b.wf(),
        w <= a.width,
        w <= b.width,
        0 <= y < a.height,
        0 <= y < b.height,
    ensures
        0 <= row_error(a, b, y, w) <= 195075 * w,
    decreases w,
{
    if w > 0 {
        lemma_row_error_bounds(a, b, y, (w - 1) as nat);
        lemma_pixel_error_bounds(a, b, w - 1, y);
    }
}

proof fn lemma_frame_error_bounds(a: RgbFrame, b: RgbFrame, w: nat, h: nat)
    requires
        a.wf(),
        b.wf(),
        w <= a.width,
        w <= b.width,
        h <= a.height,
        h <= b.height,
    ensures
        0 <= frame_error(a, b, w, h) <= 195075 * w * h,
    decreases h,
{
    if h > 0 {
        lemma_frame_error_bounds(a, b, w, (h - 1) as nat);
        lemma_row_error_bounds(a, b, h - 1, w);
        assert(195075 * w * (h - 1) + 195075 * w == 195075 * w * h) by (nonlinear_arith);
    }
}

/// The channel difference, squared, of one sample pair.
fn sample_error(a: &RgbFrame, b: &RgbFrame, x: u32, y: u32, c: u32) -> (r: u128)
    requires
        a.wf(),
        b.wf(),
        x < a.width,
        x < b.width,
        y < a.height,
        y < b.height,
        c < 3,
    ensures
        r == square(a.sample(x as int, y as int, c as int) - b.sample(x as int, y as int, c as int)),
{
    proof {
        lemma_index_in_frame(x as int, y as int, c as int, a.width as int, a.height as int);
        lemma_index_in_frame(x as int, y as int, c as int, b.width as int, b.height as int);
    }
    proof {
        assert(y * a.width <= 0xffff_ffffu128 * 0xffff_ffffu128) by (nonlinear_arith)
            requires
                y <= 0xffff_ffffu128,
                a.width <= 0xffff_ffffu128,
        ;
        assert(y * b.width <= 0xffff_ffffu128 * 0xffff_ffffu128) by (nonlinear_arith)
            requires
                y <= 0xffff_ffffu128,
                b.width <= 0xffff_ffffu128,
        ;
    }
    let wa: u128 = (y as u128 * a.width as u128 + x as u128) * 3 + c as u128;
    let wb: u128 = (y as u128 * b.width as u128 + x as u128) * 3 + c as u128;
    let la = a.pixels.len();
    let lb = b.pixels.len();
    assert(wa < la);
    assert(wb < lb);
    let ia = wa as usize;
    let ib = wb as usize;
    let pa = a.pixels[ia];
    let pb = b.pixels[ib];
    let d: i32 = pa as i32 - pb as i32;
    proof {
        assert(-255 <= d <= 255);
        assert(0 <= d * d <= 65025) by (nonlinear_arith)
            requires
                -255 <= d <= 255,
        ;
    }
    (d * d) as u128
}

/// The mean squared error between two frames over the pixels they share.
pub fn calculate_mse(a: &RgbFrame, b: &RgbFrame) -> (r: Mse)
    requires
        a.wf(),
        b.wf(),
    ensures
        r == mse_of(*a, *b),
        r.count <= usize::MAX,
{
    let w: u32 = if a.width <= b.width { a.width } else { b.width };
    let h: u32 = if a.height <= b.height { a.height } else { b.height };
    let mut total: u128 = 0;
    let mut y: u32 = 0;
    while y < h
        invariant
            w == min_u32(a.width, b.width),
            h == min_u32(a.height, b.height),
            a.wf(),
            b.wf(),
            y <= h,
            total == frame_error(*a, *b, w as nat, y as nat),
        decreases h - y,
    {
        let mut x: u32 = 0;
        while x < w
            invariant
                w == min_u32(a.width, b.width),
                h == min_u32(a.height, b.height),
                a.wf(),
                b.wf(),
                y < h,
                x <= w,
                total == frame_error(*a, *b, w as nat, y as nat) + row_error(*a, *b, y as int, x as nat),
            decreases w - x,
        {
            proof {
                lemma_frame_error_bounds(*a, *b, w as nat, y as nat);
                lemma_row_error_bounds(*a, *b, y as int, x as nat);
                lemma_pixel_error_bounds(*a, *b, x as int, y as int);
                assert(195075 * w * y <= 195075 * 0x1_0000_0000 * 0x1_0000_0000) by (nonlinear_arith)
                    requires
                        w < 0x1_0000_0000,
                        y < 0x1_0000_0000,
                ;
                assert(195075 * x <= 195075 * 0x1_0000_0000);
            }
            let e0 = sample_error(a, b, x, y, 0);
            let e1 = sample_error(a, b, x, y, 1);
            let e2 = sample_error(a, b, x, y, 2);
            total = total + e0 + e1 + e2;
            x = x + 1;
        }
        y = y + 1;
    }
    proof {
        assert(w * h <= 0xffff_ffffu128 * 0xffff_ffffu128) by (nonlinear_arith)
            requires
                w <= 0xffff_ffffu128,
                h <= 0xffff_ffffu128,
        ;
    }
    let count: u128 = w as u128 * h as u128 * 3;
    let _len = a.pixels.len();
    proof {
        assert(w * h * 3 <= a.width * a.height * 3) by (nonlinear_arith)
            requires
                w <= a.width,
                h <= a.height,
        ;
        assert(a.pixels@.len() <= usize::MAX);
    }
    Mse { total, count }
}

proof fn lemma_row_error_symmetric_and_self(a: RgbFrame, b: RgbFrame, y: int, w: nat)
    ensures
        row_error(a, b, y, w) == row_error(b, a, y, w),
        row_error(a, a, y, w) == 0,
    decreases w,
{
    if w > 0 {
        lemma_row_error_symmetric_and_self(a, b, y, (w - 1) as nat);
        let x = w - 1;
        assert forall|c: int| #![trigger a.sample(x, y, c)] 0 <= c < 3 implies square(
            a.sample(x, y, c) - b.sample(x, y, c),
        ) == square(b.sample(x, y, c) - a.sample(x, y, c)) by {
            let d = a.sample(x, y, c) - b.sample(x, y, c);
            assert(d * d == (-d) * (-d)) by (nonlinear_arith);
        }
        assert(pixel_error(a, b, x, y) == pixel_error(b, a, x, y));
    }
}

/// The error between two frames does not depend on which of them is the
/// reference, and a frame does not differ from itself.
pub proof fn lemma_mse_symmetric_and_zero_on_self(a: RgbFrame, b: RgbFrame)
    ensures
        mse_of(a, b) == mse_of(b, a),
        mse_of(a, a).total == 0,
{
    let w = min_u32(a.width, b.width);
    let h = min_u32(a.height, b.height);
    lemma_frame_error_symmetric_and_self(a, b, w as nat, h as nat);
    lemma_frame_error_symmetric_and_self(a, a, a.width as nat, a.height as nat);
    assert(min_u32(b.width, a.width) == w);
    assert(min_u32(b.height, a.height) == h);
    assert(w * h == min_u32(b.width, a.width) * min_u32(b.height, a.height));
}

/// The mean squared error between two frames lies between 0 and 65025
/// (255 squared): its total is at most 65025 times its count.
pub proof fn lemma_mse_within_bounds(a: RgbFrame, b: RgbFrame)
    requires
        a.wf(),
        b.wf(),
    ensures
        0 <= mse_of(a, b).total <= 65025 * mse_of(a, b).count,
{
    let w = min_u32(a.width, b.width);
    let h = min_u32(a.height, b.height);
    lemma_frame_error_bounds(a, b, w as nat, h as nat);
    assert(195075 * w * h <= 195075 * 0xffff_ffff * 0xffff_ffff) by (nonlinear_arith)
        requires
            w <= 0xffff_ffff,
            h <= 0xffff_ffff,
    ;
    assert(w * h * 3 <= 3 * 0xffff_ffff * 0xffff_ffff) by (nonlinear_arith)
        requires
            w <= 0xffff_ffff,
            h <= 0xffff_ffff,
    ;
    assert(0 <= w * h) by (nonlinear_arith);
    assert(195075 * w * h == 65025 * (w * h * 3)) by (nonlinear_arith);
}

proof fn lemma_frame_error_symmetric_and_self(a: RgbFrame, b: RgbFrame, w: nat, h: nat)
    ensures
        frame_error(a, b, w, h) == frame_error(b, a, w, h),
        frame_error(a, a, w, h) == 0,
    decreases h,
{
    if h > 0 {
        lemma_frame_error_symmetric_and_self(a, b, w, (h - 1) as nat);
        lemma_row_error_symmetric_and_self(a, b, h - 1, w);
    }
}

/// Whether the error `t1 / c1` is smaller than `t2 / c2`. An undefined
/// error (zero count) is smaller than nothing and nothing is smaller than
/// it, as with a NaN.
pub open spec fn mse_less(m1: Mse, m2: Mse) -> bool {
    m1.count > 0 && m2.count > 0 && m1.total * m2.count < m2.total * m1.count
}

proof fn lemma_fraction_less(t1: int, c1: int, t2: int, c2: int)
    requires
        t1 >= 0,
        t2 >= 0,
        c1 > 0,
        c2 > 0,
    ensures
        (t1 * c2 < t2 * c1) <==> (t1 / c1 < t2 / c2 || (t1 / c1 == t2 / c2 && (t1 % c1) * c2 < (t2
            % c2) * c1)),
{
    let q1 = t1 / c1;
    let r1 = t1 % c1;
    let q2 = t2 / c2;
    let r2 = t2 % c2;
    vstd::arithmetic::div_mod::lemma_fundamental_div_mod(t1, c1);
    vstd::arithmetic::div_mod::lemma_fundamental_div_mod(t2, c2);
    assert(t1 == q1 * c1 + r1 && 0 <= r1 < c1) by (nonlinear_arith)
        requires
            t1 == c1 * q1 + r1,
            r1 == t1 % c1,
            c1 > 0,
    ;
    assert(t2 == q2 * c2 + r2 && 0 <= r2 < c2) by (nonlinear_arith)
        requires
            t2 == c2 * q2 + r2,
            r2 == t2 % c2,
            c2 > 0,
    ;
    assert(t1 * c2 == q1 * c1 * c2 + r1 * c2) by (nonlinear_arith)
        requires
            t1 == q1 * c1 + r1,
    ;
    assert(t2 * c1 == q2 * c1 * c2 + r2 * c1) by (nonlinear_arith)
        requires
            t2 == q2 * c2 + r2,
    ;
    assert(0 <= r1 * c2 < c1 * c2) by (nonlinear_arith)
        requires
            0 <= r1 < c1,
            c2 > 0,
    ;
    assert(0 <= r2 * c1 < c1 * c2) by (nonlinear_arith)
        requires
            0 <= r2 < c2,
            c1 > 0,
    ;
    if q1 < q2 {
        assert(q1 * c1 * c2 + c1 * c2 <= q2 * c1 * c2) by (nonlinear_arith)
            requires
                q1 < q2,
                c1 > 0,
                c2 > 0,
        ;
    } else if q1 > q2 {
        assert(q2 * c1 * c2 + c1 * c2 <= q1 * c1 * c2) by (nonlinear_arith)
            requires
                q1 > q2,
                c1 > 0,
                c2 > 0,
        ;
    }
}

/// Whether one error is smaller than another (see `mse_less`).
pub fn mse_is_less(m1: Mse, m2: Mse) -> (r: bool)
    requires
        m1.count <= u64::MAX,
        m2.count <= u64::MAX,
    ensures
        r == mse_less(m1, m2),
{
    if m1.count == 0 || m2.count == 0 {
        return false;
    }
    proof {
        lemma_fraction_less(m1.total as int, m1.count as int, m2.total as int, m2.count as int);
        assert((m1.total % m1.count) * m2.count < m1.count * m2.count) by (nonlinear_arith)
            requires
                m1.total % m1.count < m1.count,
                m2.count > 0,
        ;
        assert(m1.count * m2.count <= u64::MAX * u64::MAX) by (nonlinear_arith)
            requires
                m1.count <= u64::MAX,
                m2.count <= u64::MAX,
        ;
        assert((m2.total % m2.count) * m1.count < m1.count * m2.count) by (nonlinear_arith)
            requires
                m2.total % m2.count < m2.count,
                m1.count > 0,
        ;
    }
    let q1 = m1.total / m1.count;
    let q2 = m2.total / m2.count;
    if q1 != q2 {
        q1 < q2
    } else {
        (m1.total % m1.count) * m2.count < (m2.total % m2.count) * m1.count
    }
}


/// Which of the compared frames (by position, from 0) matches best: the
/// first one whose error is smaller than that of every frame before it and
/// not larger than any frame after; frames with an undefined error never
/// match. Nothing when no frame has a defined error.
pub open spec fn best_index(h: Seq<Mse>) -> Option<int>
    decreases h.len(),
{
    if h.len() == 0 {
        None
    } else {
        let prev = best_index(h.drop_last());
        let m = h.last();
        if m.count == 0 {
            prev
        } else {
            match prev {
                None => Some(h.len() - 1),
                Some(j) => if mse_less(m, h[j]) {
                    Some(h.len() - 1)
                } else {
                    prev
                },
            }
        }
    }
}

proof fn lemma_mse_less_transitive(a: Mse, b: Mse, c: Mse)
    requires
        mse_less(a, b),
        c.count > 0,
        !mse_less(c, b),
    ensures
        mse_less(a, c),
{
    let (ta, ca, tb, cb, tc, cc) = (
        a.total as int,
        a.count as int,
        b.total as int,
        b.count as int,
        c.total as int,
        c.count as int,
    );
    assert(ta * cc < tc * ca) by (nonlinear_arith)
        requires
            ta * cb < tb * ca,
            tb * cc <= tc * cb,
            ca > 0,
            cb > 0,
            cc > 0,
    ;
}

/// The best match is the first frame with the least error: no compared
/// frame has a smaller error, every frame before it has a larger one, and
/// its own error is defined. When there is no best match, no frame has a
/// defined error.
pub proof fn lemma_best_is_first_least(h: Seq<Mse>)
    ensures
        best_index(h) matches Some(j) ==> {
            &&& 0 <= j < h.len()
            &&& h[j].count > 0
            &&& forall|i: int| 0 <= i < h.len() ==> !mse_less(#[trigger] h[i], h[j])
            &&& forall|i: int| 0 <= i < j && #[trigger] h[i].count > 0 ==> mse_less(h[j], h[i])
        },
        best_index(h) is None ==> forall|i: int| 0 <= i < h.len() ==> #[trigger] h[i].count == 0,
    decreases h.len(),
{
    if h.len() > 0 {
        let hp = h.drop_last();
        lemma_best_is_first_least(hp);
        let m = h.last();
        let n = h.len() - 1;
        assert forall|i: int| 0 <= i < n implies #[trigger] h[i] == hp[i] by {}
        match best_index(hp) {
            None => {
                if m.count != 0 {
                    assert forall|i: int| 0 <= i < h.len() implies !mse_less(#[trigger] h[i], h[n]) by {
                        if i < n {
                            assert(hp[i].count == 0);
                        }
                    }
                }
            },
            Some(j) => {
                if m.count != 0 && mse_less(m, h[j]) {
                    assert forall|i: int| 0 <= i < h.len() implies !mse_less(#[trigger] h[i], h[n]) by {
                        if i < n && h[i].count > 0 {
                            assert(!mse_less(hp[i], hp[j]));
                            lemma_mse_less_transitive(m, h[j], h[i]);
                        }
                    }
                    assert forall|i: int| 0 <= i < n && #[trigger] h[i].count > 0 implies mse_less(
                        h[n],
                        h[i],
                    ) by {
                        assert(!mse_less(hp[i], hp[j]));
                        lemma_mse_less_transitive(m, h[j], h[i]);
                    }
                }
            },
        }
    }
}

/// The search for the frame that best matches a reference frame.
pub struct LoopSearch {
    /// The frame to match (the video's first frame).
    pub reference: RgbFrame,
    /// How many frames have been compared.
    pub frames_seen: usize,
    /// The best match so far: its position (from 1) and its error.
    pub best: Option<(usize, Mse)>,
    /// The errors of the compared frames, in order.
    pub history: Ghost<Seq<Mse>>,
}

impl LoopSearch {
    pub open spec fn wf(self) -> bool {
        &&& self.reference.wf()
        &&& self.history@.len() == self.frames_seen
        &&& forall|i: int| 0 <= i < self.history@.len() ==> #[trigger] self.history@[i].count
            <= usize::MAX
        &&& match self.best {
            None => best_index(self.history@) is None,
            Some((k, m)) => best_index(self.history@) == Some(k - 1) && m == self.history@[k - 1],
        }
    }

    /// Starts a search for matches of `reference`.
    pub fn new(reference: RgbFrame) -> (s: LoopSearch)
        requires
            reference.wf(),
        ensures
            s.wf(),
            s.reference == reference,
            s.frames_seen == 0,
            s.best is None,
    {
        LoopSearch { reference, frames_seen: 0, best: None, history: Ghost(Seq::empty()) }
    }

    /// Compares the next frame with the reference. It becomes the best
    /// match when its error is defined and smaller than that of the best
    /// match so far (or there is none yet).
    pub fn observe(&mut self, frame: &RgbFrame)
        requires
            old(self).wf(),
            frame.wf(),
            old(self).frames_seen < usize::MAX,
        ensures
            final(self).wf(),
            final(self).reference == old(self).reference,
            final(self).frames_seen == old(self).frames_seen + 1,
            final(self).history@ == old(self).history@.push(mse_of(old(self).reference, *frame)),
            ({
                let m = mse_of(old(self).reference, *frame);
                let better = m.count > 0 && match old(self).best {
                    None => true,
                    Some((_, b)) => mse_less(m, b),
                };
                &&& better ==> final(self).best == Some((final(self).frames_seen, m))
                &&& !better ==> final(self).best == old(self).best
            }),
    {
        let m = calculate_mse(&self.reference, frame);
        proof {
            lemma_best_is_first_least(self.history@);
            if let Some((k, b)) = self.best {
                assert(b.count <= usize::MAX);
            }
        }
        let better = m.count > 0 && match self.best {
            None => true,
            Some((_, b)) => mse_is_less(m, b),
        };
        let ghost h = self.history@.push(m);
        proof {
            assert(h.drop_last() =~= self.history@);
            assert(h.last() == m);
            assert forall|i: int| 0 <= i < h.len() implies #[trigger] h[i].count <= usize::MAX by {
                if i < self.history@.len() {
                    assert(h[i] == self.history@[i]);
                }
            }
            if let Some((k, b)) = self.best {
                assert(h[k - 1] == self.history@[k - 1]);
            }
        }
        self.frames_seen = self.frames_seen + 1;
        self.history = Ghost(h);
        if better {
            self.best = Some((self.frames_seen, m));
        }
    }

    /// The position (from 1) of the best match, if any frame had a defined
    /// error.
    pub fn best_frame(&self) -> (r: Option<usize>)
        requires
            self.wf(),
        ensures
            match r {
                Some(k) => best_index(self.history@) == Some(k - 1),
                None => best_index(self.history@) is None,
            },
    {
        match self.best {
            Some((k, _)) => Some(k),
            None => None,
        }
    }
}

/// The name of the `i`-th extracted search frame: "frame_", the number with
/// at least four digits, ".jpg".
pub open spec fn frame_file_name_text(i: nat) -> Seq<char> {
    "frame_"@ + (if i < 10000 { padded_digits(i, 4) } else { decimal_text(i) }) + ".jpg"@
}

/// The names follow FFmpeg's `frame_%04d.jpg` pattern: "frame_", then the
/// number in decimal, zero-padded to four digits and without leading zeros
/// beyond that, then ".jpg".
pub proof fn lemma_frame_name_is_zero_padded(i: nat)
    ensures
        ({
            let t = frame_file_name_text(i);
            let d = t.subrange(6, t.len() - 4);
            &&& t.len() >= 14
            &&& t.subrange(0, 6) == "frame_"@
            &&& t.subrange(t.len() - 4, t.len() as int) == ".jpg"@
            &&& all_digits(d)
            &&& digits_value(d) == i
            &&& d.len() >= 4
            &&& (d.len() > 4 ==> d[0] != '0')
        }),
{
    let t = frame_file_name_text(i);
    let d: Seq<char> = if i < 10000 { padded_digits(i, 4) } else { decimal_text(i) };
    if i < 10000 {
        lemma_padded_digits_value(i, 4);
        assert(pow10(4) == 10000) by {
            assert(pow10(0) == 1);
            assert(pow10(1) == 10);
            assert(pow10(2) == 100);
            assert(pow10(3) == 1000);
        }
        vstd::arithmetic::div_mod::lemma_small_mod(i, 10000);
    } else {
        lemma_decimal_text_value(i, 4);
        assert(pow10(4) == 10000) by {
            assert(pow10(0) == 1);
            assert(pow10(1) == 10);
            assert(pow10(2) == 100);
            assert(pow10(3) == 1000);
        }
    }
    reveal_strlit("frame_");
    reveal_strlit(".jpg");
    assert(t == "frame_"@ + d + ".jpg"@);
    assert(t.subrange(0, 6) =~= "frame_"@);
    assert(t.subrange(6, t.len() - 4) =~= d);
    assert(t.subrange(t.len() - 4, t.len() as int) =~= ".jpg"@);
}

/// The name of the `i`-th extracted search frame.
pub fn frame_file_name(i: u64) -> (r: String)
    ensures
        r@ == frame_file_name_text(i as nat),
{
    let mut s = String::from_str("frame_");
    if i < 10000 {
        let d = padded_string(i, 4);
        s.append(d.as_str());
    } else {
        let d = decimal_string(i);
        s.append(d.as_str());
    }
    s.append(".jpg");
    s
}

/// Arguments that write the frame at `timestamp` of `source`, scaled to
/// 128x128, as one JPEG image to standard output.
pub open spec fn single_frame_args_text(source: Seq<char>, timestamp: i64) -> Seq<Seq<char>> {
    seq!["-y"@, "-ss"@, seconds_text(timestamp as int), "-i"@, source, "-frames:v"@, "1"@]
        + seq!["-vf"@, "scale=128:128"@, "-f"@, "image2"@, "-vcodec"@, "mjpeg"@, "pipe:1"@]
}

/// The arguments of the run that extracts one frame for comparison.
pub fn extract_single_frame_args(source: &str, timestamp: i64) -> (r: Vec<String>)
    ensures
        texts(r@) == single_frame_args_text(source@, timestamp),
{
    let mut v: Vec<String> = Vec::new();
    push_texts(&mut v, &["-y", "-ss"]);
    let ts = seconds_string(timestamp);
    push_text(&mut v, ts.as_str());
    push_text(&mut v, "-i");
    push_text(&mut v, source);
    push_texts(&mut v, &["-frames:v", "1", "-vf", "scale=128:128", "-f", "image2"]);
    push_texts(&mut v, &["-vcodec", "mjpeg", "pipe:1"]);
    proof {
        assert(texts(v@) =~= single_frame_args_text(source@, timestamp));
    }
    v
}

/// Arguments that write every frame of `source` from `search_start` on,
/// scaled to 128x128, as numbered JPEG files following `pattern`.
pub open spec fn search_frames_args_text(
    source: Seq<char>,
    search_start: i64,
    pattern: Seq<char>,
) -> Seq<Seq<char>> {
    seq!["-y"@, "-ss"@, seconds_text(search_start as int), "-i"@, source]
        + seq!["-vf"@, "scale=128:128"@, "-q:v"@, "4"@, pattern]
}

/// The arguments of the run that extracts the frames to search.
pub fn search_frames_args(source: &str, search_start: i64, pattern: &str) -> (r: Vec<String>)
    ensures
        texts(r@) == search_frames_args_text(source@, search_start, pattern@),
{
    let mut v: Vec<String> = Vec::new();
    push_texts(&mut v, &["-y", "-ss"]);
    let ts = seconds_string(search_start);
    push_text(&mut v, ts.as_str());
    push_text(&mut v, "-i");
    push_text(&mut v, source);
    push_texts(&mut v, &["-vf", "scale=128:128", "-q:v", "4"]);
    push_text(&mut v, pattern);
    proof {
        assert(texts(v@) =~= search_frames_args_text(source@, search_start, pattern@));
    }
    v
}

/// Where the search begins: `search` microseconds before the end of a
/// source that lasts `duration`, but not before its start (and at most
/// `i64::MAX`).
pub open spec fn search_start_time(duration: int, search: int) -> int {
    let t = duration - search;
    if t <= 0 {
        0
    } else if t > i64::MAX {
        i64::MAX as int
    } else {
        t
    }
}

pub fn loop_search_start(duration: i64, search: i64) -> (r: i64)
    ensures
        r == search_start_time(duration as int, search as int),
{
    let t: i128 = duration as i128 - search as i128;
    if t <= 0 {
        0
    } else if t > i64::MAX as i128 {
        i64::MAX
    } else {
        t as i64
    }
}

/// The product whose quotient gives how long `index` frames last:
/// `index * |den| * 10^(6 - exp)` when that power is whole, else
/// `index * |den|`.
pub open spec fn frames_product(index: int, rate: FrameRate) -> int {
    let k = 6 - rate.exp;
    if k >= 0 {
        index * abs_int(rate.den as int) * pow10(k as nat)
    } else {
        index * abs_int(rate.den as int)
    }
}

/// How long `index` frames last at `rate` (`den / (num * 10^exp)` seconds
/// each), in microseconds rounded down.
pub open spec fn frames_duration(index: int, rate: FrameRate) -> int {
    let k = 6 - rate.exp;
    if k >= 0 {
        frames_product(index, rate) / abs_int(rate.num as int)
    } else {
        frames_product(index, rate) / (abs_int(rate.num as int) * pow10((-k) as nat))
    }
}

/// The time of the searched frame at position `index` (counted from 0): the
/// search start plus `index` frame durations, when the rate is a positive
/// number of frames per second, `frames_product` lies within `u128::MAX`
/// and the time fits in an `i64`.
pub open spec fn frame_time(search_start: int, index: int, rate: FrameRate) -> Option<int> {
    let t = search_start + frames_duration(index, rate);
    if rate_is_positive(rate.num as int, rate.den as int) && frames_product(index, rate)
        <= u128::MAX && i64::MIN <= t <= i64::MAX {
        Some(t)
    } else {
        None
    }
}

/// The time of the searched frame at position `index` (see `frame_time`).
pub fn loop_frame_time(search_start: i64, index: usize, rate: &FrameRate) -> (r: Option<i64>)
    requires
        rate.wf(),
    ensures
        r matches Some(t) ==> frame_time(search_start as int, index as int, *rate) == Some(t as int),
        r is None ==> frame_time(search_start as int, index as int, *rate) is None,
{
    let positive = (rate.num > 0 && rate.den > 0) || (rate.num < 0 && rate.den < 0);
    if !positive {
        return None;
    }
    let n = magnitude(rate.num);
    let d = magnitude(rate.den);
    let k: i128 = 6 - rate.exp;
    let ghost kp: nat = if k >= 0 { k as nat } else { 0 };
    let ghost prod: int = frames_product(index as int, *rate);
    let i: u128 = index as u128;
    let limit = u128::MAX / d;
    let ghost rem: int = (u128::MAX as int) % (d as int);
    proof {
        vstd::arithmetic::div_mod::lemma_fundamental_div_mod(u128::MAX as int, d as int);
        lemma_pow10_monotonic(0, kp);
        assert(pow10(0) == 1);
        let pk = pow10(kp);
        if k >= 0 {
            assert(prod == i * d * pk);
        } else {
            assert(prod == i * d);
        }
        if i > limit {
            assert(i * d > u128::MAX) by (nonlinear_arith)
                requires
                    i >= limit + 1,
                    u128::MAX == d * limit + rem,
                    rem < d,
                    d > 0,
            ;
            assert(i * d * pk >= i * d) by (nonlinear_arith)
                requires
                    pk >= 1,
                    i * d >= 0,
            ;
        } else {
            assert(i * d <= u128::MAX) by (nonlinear_arith)
                requires
                    i <= limit,
                    u128::MAX == d * limit + rem,
                    rem >= 0,
                    d > 0,
            ;
        }
    }
    if i > limit {
        return None;
    }
    let id: u128 = i * d;
    let off: u128 = if k >= 0 {
        if id == 0 {
            proof {
                assert(prod == 0) by (nonlinear_arith)
                    requires
                        prod == id * pow10(kp),
                        id == 0,
                ;
            }
            0
        } else if k > 38 {
            proof {
                lemma_pow10_monotonic(39, kp);
                lemma_pow10_upto_38(38);
                assert(pow10(39) == 10 * pow10(38));
                let pk = pow10(kp);
                assert(id * pk > u128::MAX) by (nonlinear_arith)
                    requires
                        id >= 1,
                        pk >= pow10(39),
                        pow10(39) == 10 * pow10(38),
                        pow10(38) == 100_000_000_000_000_000_000_000_000_000_000_000_000,
                ;
            }
            return None;
        } else {
            let p = pow10_u128(k as u32);
            let plimit = u128::MAX / p;
            let ghost prem: int = (u128::MAX as int) % (p as int);
            proof {
                vstd::arithmetic::div_mod::lemma_fundamental_div_mod(u128::MAX as int, p as int);
                if id > plimit {
                    assert(id * p > u128::MAX) by (nonlinear_arith)
                        requires
                            id >= plimit + 1,
                            u128::MAX == p * plimit + prem,
                            prem < p,
                            p > 0,
                    ;
                } else {
                    assert(id * p <= u128::MAX) by (nonlinear_arith)
                        requires
                            id <= plimit,
                            u128::MAX == p * plimit + prem,
                            prem >= 0,
                            p > 0,
                    ;
                }
            }
            if id > plimit {
                return None;
            }
            id * p / n
        }
    } else {
        let m: i128 = 0 - k;
        if m > 38 {
            proof {
                let pm = pow10(m as nat);
                lemma_pow10_monotonic(39, m as nat);
                lemma_pow10_upto_38(38);
                assert(pow10(39) == 10 * pow10(38));
                assert(0 <= id < n * pm) by (nonlinear_arith)
                    requires
                        id <= u128::MAX,
                        n >= 1,
                        pm >= pow10(39),
                        pow10(39) == 10 * pow10(38),
                        pow10(38) == 100_000_000_000_000_000_000_000_000_000_000_000_000,
                ;
                vstd::arithmetic::div_mod::lemma_basic_div(id as int, n * pm);
            }
            0
        } else {
            let p = pow10_u128(m as u32);
            proof {
                vstd::arithmetic::div_mod::lemma_div_denominator(id as int, n as int, p as int);
            }
            id / n / p
        }
    };
    proof {
        assert(off == frames_duration(index as int, *rate));
    }
    if off > 0x1_0000_0000_0000_0000u128 {
        return None;
    }
    let t: i128 = search_start as i128 + off as i128;
    if t < i64::MIN as i128 || t > i64::MAX as i128 {
        None
    } else {
        Some(t as i64)
    }
}

/// A best match lies among the frames compared.
pub proof fn lemma_best_index_in_range(h: Seq<Mse>)
    ensures
        best_index(h) matches Some(j) ==> 0 <= j < h.len(),
    decreases h.len(),
{
    if h.len() > 0 {
        lemma_best_index_in_range(h.drop_last());
    }
}

/// The loop point the search answers, in microseconds: the time of the
/// best-matching frame, or the source's `duration` when no frame was
/// compared with a defined error. `None` when the best frame's time cannot
/// be given (see `frame_time`).
pub open spec fn loop_point_time(
    best: Option<int>,
    search_start: int,
    rate: FrameRate,
    duration: int,
) -> Option<int> {
    match best {
        Some(j) => frame_time(search_start, j, rate),
        None => Some(duration),
    }
}

impl LoopSearch {
    /// The loop point this search gives (see `loop_point_time`).
    pub fn loop_point(&self, search_start: i64, rate: &FrameRate, duration: i64) -> (r: Option<
        i64,
    >)
        requires
            self.wf(),
            rate.wf(),
        ensures
            match loop_point_time(best_index(self.history@), search_start as int, *rate, duration as int) {
                Some(t) => r == Some(t as i64),
                None => r is None,
            },
    {
        proof {
            lemma_best_index_in_range(self.history@);
        }
        match self.best_frame() {
            None => Some(duration),
            Some(k) => loop_frame_time(search_start, k - 1, rate),
        }
    }
}

} // verus!
