//! The metadata shown when a file is opened: reading ffprobe's stream
//! listing, and the metadata from what it reports.

use vstd::prelude::*;
use crate::export::rate_or_default;
use crate::model::{FrameRate, ProbeStream};
use crate::rate::{
    detect_fps, first_video_stream, rate_from_text, rate_parts, rate_text, video_index_from,
};
use crate::ffmpeg::texts;
use crate::text::{
    all_digits, digits_number, digits_value, find_char_from, index_of_from, same_text, split_from,
    split_text, trim, trim_text,
};

verus! {

/// Metadata of a media file for the user interface.
pub struct MediaInfo {
    pub path: String,
    /// Length in microseconds.
    pub duration: i64,
    /// Frame rate of the video stream.
    pub fps: FrameRate,
    pub width: u32,
    pub height: u32,
    /// Codec of the video stream.
    pub codec: String,
    pub has_audio: bool,
}

/// Whether any stream is an audio stream.
pub open spec fn has_audio_stream(streams: Seq<ProbeStream>) -> bool {
    exists|i: int| 0 <= i < streams.len() && #[trigger] streams[i].codec_type@ == "audio"@
}

/// An audio stream counts wherever it stands in the list, before or after
/// the video stream.
pub proof fn lemma_audio_found_at_any_position(streams: Seq<ProbeStream>, i: int)
    requires
        0 <= i < streams.len(),
        streams[i].codec_type@ == "audio"@,
    ensures
        has_audio_stream(streams),
{
}

/// Without a stream of type audio there is no audio.
pub proof fn lemma_no_audio_stream(streams: Seq<ProbeStream>)
    requires
        forall|i: int| 0 <= i < streams.len() ==> #[trigger] streams[i].codec_type@ != "audio"@,
    ensures
        !has_audio_stream(streams),
{
}

/// Two lists of streams put together have audio when either has: the
/// order of the streams does not matter.
pub proof fn lemma_audio_over_concatenation(a: Seq<ProbeStream>, b: Seq<ProbeStream>)
    ensures
        has_audio_stream(a + b) == (has_audio_stream(a) || has_audio_stream(b)),
        has_audio_stream(a + b) == has_audio_stream(b + a),
{
    if has_audio_stream(a) {
        let i = choose|i: int| 0 <= i < a.len() && #[trigger] a[i].codec_type@ == "audio"@;
        assert((a + b)[i] == a[i]);
        assert((b + a)[b.len() + i] == a[i]);
    }
    if has_audio_stream(b) {
        let i = choose|i: int| 0 <= i < b.len() && #[trigger] b[i].codec_type@ == "audio"@;
        assert((a + b)[a.len() + i] == b[i]);
        assert((b + a)[i] == b[i]);
    }
    if has_audio_stream(a + b) {
        let i = choose|i: int| 0 <= i < (a + b).len() && #[trigger] (a + b)[i].codec_type@ == "audio"@;
        if i < a.len() {
            assert(a[i] == (a + b)[i]);
        } else {
            assert(b[i - a.len()] == (a + b)[i]);
        }
    }
    if has_audio_stream(b + a) {
        let i = choose|i: int| 0 <= i < (b + a).len() && #[trigger] (b + a)[i].codec_type@ == "audio"@;
        if i < b.len() {
            assert(b[i] == (b + a)[i]);
        } else {
            assert(a[i - b.len()] == (b + a)[i]);
        }
    }
}

/// The metadata of the file at `path` from its probed `streams` and its
/// probed `duration` (microseconds). Width, height and codec are those of
/// the first video stream (0, 0 and "unknown" without one); the frame rate
/// is the video stream's, 30 fps without one.
pub fn probe_media(path: &str, streams: &[ProbeStream], duration: i64) -> (r: MediaInfo)
    ensures
        r.path@ == path@,
        r.duration == duration,
        r.has_audio == has_audio_stream(streams@),
        r.has_audio <==> exists|j: int|
            0 <= j < streams@.len() && #[trigger] streams@[j].codec_type@ == "audio"@,
        ({
            let i = video_index_from(streams@, 0);
            if i < streams@.len() {
                let v = streams@[i];
                &&& r.width == (match v.width { Some(w) => w, None => 0 })
                &&& r.height == (match v.height { Some(h) => h, None => 0 })
                &&& r.codec@ == v.codec_name@
                &&& rate_parts(r.fps) == rate_from_text(rate_text(v))
            } else {
                &&& r.width == 0
                &&& r.height == 0
                &&& r.codec@ == "unknown"@
                &&& r.fps == (FrameRate { num: 30, den: 1, exp: 0 })
            }
        }),
{
    let fps = rate_or_default(detect_fps(path, streams));
    let mut has_audio = false;
    let mut i: usize = 0;
    while i < streams.len()
        invariant
            i <= streams@.len(),
            has_audio == exists|j: int| 0 <= j < i && #[trigger] streams@[j].codec_type@ == "audio"@,
        decreases streams@.len() - i,
    {
        if same_text(streams[i].codec_type.as_str(), "audio") {
            has_audio = true;
        }
        i = i + 1;
    }
    let (width, height, codec) = match first_video_stream(streams) {
        Some(k) => {
            let v = &streams[k];
            let w = match v.width {
                Some(w) => w,
                None => 0,
            };
            let h = match v.height {
                Some(h) => h,
                None => 0,
            };
            (w, h, v.codec_name.clone())
        },
        None => (0, 0, String::from_str("unknown")),
    };
    MediaInfo { path: path.to_owned(), duration, fps, width, height, codec, has_audio }
}

/// A probed stream as plain values: codec type, codec name, width,
/// height, real base frame rate and average frame rate.
pub type StreamView = (
    Seq<char>,
    Seq<char>,
    Option<u32>,
    Option<u32>,
    Option<Seq<char>>,
    Option<Seq<char>>,
);

pub open spec fn opt_text_view(o: Option<String>) -> Option<Seq<char>> {
    match o {
        Some(t) => Some(t@),
        None => None,
    }
}

pub open spec fn stream_view(st: ProbeStream) -> StreamView {
    (
        st.codec_type@,
        st.codec_name@,
        st.width,
        st.height,
        opt_text_view(st.r_frame_rate),
        opt_text_view(st.avg_frame_rate),
    )
}

pub open spec fn stream_views(v: Seq<ProbeStream>) -> Seq<StreamView> {
    v.map_values(|st: ProbeStream| stream_view(st))
}

/// The `u32` that `s` writes as `str::parse` reads it: an optional '+',
/// then at least one decimal digit, and a value within `u32::MAX`.
pub open spec fn u32_text_value(s: Seq<char>) -> Option<u32> {
    let body = if s.len() > 0 && s[0] == '+' { s.drop_first() } else { s };
    if body.len() > 0 && all_digits(body) && digits_value(body) <= u32::MAX {
        Some(digits_value(body) as u32)
    } else {
        None
    }
}

/// A probed value that may be missing: trimmed, and none when empty or
/// "N/A".
pub open spec fn optional_text(v: Seq<char>) -> Option<Seq<char>> {
    let t = trim_text(v);
    if t.len() == 0 || t == "N/A"@ {
        None
    } else {
        Some(t)
    }
}

/// The stream after one `key=value` field of its probe line: the key is
/// the text before the first '=' (the whole field when there is none) and
/// the value the text after it; unknown keys are ignored.
pub open spec fn apply_field_view(st: StreamView, field: Seq<char>) -> StreamView {
    let j = index_of_from(field, 0, '=');
    let key = field.subrange(0, j);
    let v = if j < field.len() { field.subrange(j + 1, field.len() as int) } else { seq![] };
    if key == "codec_type"@ {
        (v, st.1, st.2, st.3, st.4, st.5)
    } else if key == "codec_name"@ {
        (st.0, v, st.2, st.3, st.4, st.5)
    } else if key == "width"@ {
        (st.0, st.1, u32_text_value(trim_text(v)), st.3, st.4, st.5)
    } else if key == "height"@ {
        (st.0, st.1, st.2, u32_text_value(trim_text(v)), st.4, st.5)
    } else if key == "r_frame_rate"@ {
        (st.0, st.1, st.2, st.3, optional_text(v), st.5)
    } else if key == "avg_frame_rate"@ {
        (st.0, st.1, st.2, st.3, st.4, optional_text(v))
    } else {
        st
    }
}

/// The stream that the fields of one probe line describe, applied in order
/// to a stream with empty texts and nothing else known.
pub open spec fn stream_from_fields(fields: Seq<Seq<char>>) -> StreamView
    decreases fields.len(),
{
    if fields.len() == 0 {
        (seq![], seq![], None, None, None, None)
    } else {
        apply_field_view(stream_from_fields(fields.drop_last()), fields.last())
    }
}

/// A line without the '\r' of a "\r\n" line ending.
pub open spec fn without_cr(l: Seq<char>) -> Seq<char> {
    if l.len() > 0 && l.last() == '\r' {
        l.drop_last()
    } else {
        l
    }
}

/// The streams that the lines of ffprobe's listing describe, one per line
/// that is not blank; each line holds comma-separated `key=value` fields.
pub open spec fn streams_from_lines(lines: Seq<Seq<char>>) -> Seq<StreamView>
    decreases lines.len(),
{
    if lines.len() == 0 {
        seq![]
    } else {
        let before = streams_from_lines(lines.drop_last());
        let l = without_cr(lines.last());
        if trim_text(l).len() == 0 {
            before
        } else {
            before.push(stream_from_fields(split_from(l, ',', 0)))
        }
    }
}

/// Reads a `u32` as `str::parse` does (see `u32_text_value`).
pub fn parse_u32(s: &str) -> (r: Option<u32>)
    ensures
        r == u32_text_value(s@),
{
    let n = s.unicode_len();
    let start: usize = if n > 0 && s.get_char(0) == '+' { 1 } else { 0 };
    let body = s.substring_char(start, n);
    proof {
        if start == 1 {
            assert(body@ =~= s@.drop_first());
        } else {
            assert(body@ =~= s@);
        }
    }
    if body.unicode_len() == 0 {
        return None;
    }
    match digits_number(body) {
        Some(v) => if v <= 0xffff_ffff {
            Some(v as u32)
        } else {
            None
        },
        None => None,
    }
}

/// Reads a probed value that may be missing (see `optional_text`).
pub fn parse_optional_text(v: &str) -> (r: Option<String>)
    ensures
        opt_text_view(r) == optional_text(v@),
{
    let t = trim(v);
    if t.unicode_len() == 0 || same_text(t, "N/A") {
        None
    } else {
        Some(t.to_owned())
    }
}

/// Applies one `key=value` field of a probe line to the stream read so far.
fn apply_field(st: &mut ProbeStream, field: &str)
    ensures
        stream_view(*final(st)) == apply_field_view(stream_view(*old(st)), field@),
{
    let n = field.unicode_len();
    let j = find_char_from(field, 0, '=');
    let key = field.substring_char(0, j);
    let v: &str = if j < n {
        field.substring_char(j + 1, n)
    } else {
        proof {
            reveal_strlit("");
        }
        ""
    };
    if same_text(key, "codec_type") {
        st.codec_type = v.to_owned();
    } else if same_text(key, "codec_name") {
        st.codec_name = v.to_owned();
    } else if same_text(key, "width") {
        st.width = parse_u32(trim(v));
    } else if same_text(key, "height") {
        st.height = parse_u32(trim(v));
    } else if same_text(key, "r_frame_rate") {
        st.r_frame_rate = parse_optional_text(v);
    } else if same_text(key, "avg_frame_rate") {
        st.avg_frame_rate = parse_optional_text(v);
    }
}

/// Reads the stream that one probe line describes.
pub fn parse_stream_line(line: &str) -> (r: ProbeStream)
    ensures
        stream_view(r) == stream_from_fields(split_from(line@, ',', 0)),
{
    let fields = split_text(line, ',');
    let mut st = ProbeStream {
        codec_type: String::new(),
        codec_name: String::new(),
        width: None,
        height: None,
        r_frame_rate: None,
        avg_frame_rate: None,
    };
    let mut i: usize = 0;
    proof {
        assert(texts(fields@).subrange(0, 0) =~= Seq::<Seq<char>>::empty());
    }
    while i < fields.len()
        invariant
            i <= fields@.len(),
            texts(fields@) == split_from(line@, ',', 0),
            stream_view(st) == stream_from_fields(texts(fields@).subrange(0, i as int)),
        decreases fields@.len() - i,
    {
        let ghost done = texts(fields@).subrange(0, i as int);
        apply_field(&mut st, fields[i].as_str());
        proof {
            let next = texts(fields@).subrange(0, i + 1);
            assert(next.drop_last() =~= done);
            assert(next.last() == fields@[i as int]@);
        }
        i = i + 1;
    }
    proof {
        assert(texts(fields@).subrange(0, fields@.len() as int) =~= texts(fields@));
    }
    st
}

/// A line without the '\r' of a "\r\n" line ending.
pub fn strip_cr(l: &str) -> (r: &str)
    ensures
        r@ == without_cr(l@),
{
    let n = l.unicode_len();
    if n > 0 && l.get_char(n - 1) == '\r' {
        proof {
            assert(l@.subrange(0, n - 1) =~= l@.drop_last());
        }
        l.substring_char(0, n - 1)
    } else {
        l
    }
}

/// Reads ffprobe's stream listing (one `key=value,...` line per stream).
pub fn parse_probe_streams(text: &str) -> (r: Vec<ProbeStream>)
    ensures
        stream_views(r@) == streams_from_lines(split_from(text@, '\n', 0)),
{
    let lines = split_text(text, '\n');
    let mut out: Vec<ProbeStream> = Vec::new();
    let mut i: usize = 0;
    proof {
        assert(texts(lines@).subrange(0, 0) =~= Seq::<Seq<char>>::empty());
        assert(stream_views(out@) =~= Seq::<StreamView>::empty());
    }
    while i < lines.len()
        invariant
            i <= lines@.len(),
            texts(lines@) == split_from(text@, '\n', 0),
            stream_views(out@) == streams_from_lines(texts(lines@).subrange(0, i as int)),
        decreases lines@.len() - i,
    {
        let ghost done = texts(lines@).subrange(0, i as int);
        let ghost before = out@;
        let l = strip_cr(lines[i].as_str());
        proof {
            let next = texts(lines@).subrange(0, i + 1);
            assert(next.drop_last() =~= done);
            assert(next.last() == lines@[i as int]@);
        }
        if trim(l).unicode_len() != 0 {
            let st = parse_stream_line(l);
            out.push(st);
            proof {
                assert(stream_views(out@) =~= stream_views(before).push(stream_view(st)));
            }
        }
        i = i + 1;
    }
    proof {
        assert(texts(lines@).subrange(0, lines@.len() as int) =~= texts(lines@));
    }
    out
}

} // verus!
