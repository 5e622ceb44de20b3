//! FFmpeg command lines for writing, re-encoding and joining segments, and
//! what each run's exit status means for the export.
//!
//! Every run that writes video passes frames through with their own
//! timestamps, neither dropped nor duplicated. The command lines spell this
//! `-vsync 0`; newer FFmpeg releases name the same behaviour
//! `-fps_mode passthrough` and still accept `-vsync 0`, so the older
//! spelling works with both old and new binaries.

use vstd::prelude::*;
use crate::error::EditError;
use crate::smartcut::SegmentTag;
use crate::text::{same_text, seconds_string, seconds_text};

verus! {

/// The texts of a list of strings.
pub open spec fn texts(v: Seq<String>) -> Seq<Seq<char>> {
    v.map_values(|s: String| s@)
}

/// The texts of a list of string slices.
pub open spec fn str_texts(v: Seq<&str>) -> Seq<Seq<char>> {
    v.map_values(|s: &str| s@)
}

/// Owned copies of `strs`, in order.
pub fn owned_texts(strs: &[&str]) -> (r: Vec<String>)
    ensures
        texts(r@) == str_texts(strs@),
{
    let mut r: Vec<String> = Vec::new();
    let mut i: usize = 0;
    while i < strs.len()
        invariant
            i <= strs@.len(),
            texts(r@) == str_texts(strs@.subrange(0, i as int)),
        decreases strs@.len() - i,
    {
        let ghost before = r@;
        r.push(strs[i].to_owned());
        proof {
            assert(strs@.subrange(0, i + 1) =~= strs@.subrange(0, i as int).push(strs@[i as int]));
            assert(texts(r@) =~= texts(before).push(strs@[i as int]@));
            assert(str_texts(strs@.subrange(0, i + 1)) =~= str_texts(
                strs@.subrange(0, i as int),
            ).push(strs@[i as int]@));
        }
        i = i + 1;
    }
    proof {
        assert(strs@.subrange(0, strs@.len() as int) =~= strs@);
    }
    r
}

/// Appends `s` to the list.
pub fn push_text(v: &mut Vec<String>, s: &str)
    ensures
        texts(final(v)@) == texts(old(v)@).push(s@),
{
    v.push(s.to_owned());
    proof {
        assert(texts(v@) =~= texts(old(v)@).push(s@));
    }
}

/// Appends the texts of `strs` to the list.
pub fn push_texts(v: &mut Vec<String>, strs: &[&str])
    ensures
        texts(final(v)@) == texts(old(v)@) + str_texts(strs@),
{
    let mut more = owned_texts(strs);
    let ghost before = v@;
    v.append(&mut more);
    proof {
        assert(texts(v@) =~= texts(before) + str_texts(strs@));
    }
}

/// Arguments that copy `[start, end]` of `source` into `out` without
/// re-encoding, shifting timestamps so that each segment starts at zero.
pub open spec fn stream_copy_args_text(
    source: Seq<char>,
    start: i64,
    end: i64,
    out: Seq<char>,
) -> Seq<Seq<char>> {
    seq!["-y"@, "-ss"@, seconds_text(start as int), "-to"@, seconds_text(end as int), "-i"@, source]
        + seq!["-c"@, "copy"@, "-map"@, "0"@, "-vsync"@, "0"@, "-avoid_negative_ts"@, "make_zero"@]
        + seq!["-ignore_unknown"@, "-movflags"@, "+faststart"@, out]
}

/// The arguments of the run that stream-copies a segment.
pub fn stream_copy_args(source: &str, start: i64, end: i64, out: &str) -> (r: Vec<String>)
    ensures
        texts(r@) == stream_copy_args_text(source@, start, end, out@),
{
    let mut v: Vec<String> = Vec::new();
    push_text(&mut v, "-y");
    push_text(&mut v, "-ss");
    let ss = seconds_string(start);
    push_text(&mut v, ss.as_str());
    push_text(&mut v, "-to");
    let to = seconds_string(end);
    push_text(&mut v, to.as_str());
    push_text(&mut v, "-i");
    push_text(&mut v, source);
    push_texts(
        &mut v,
        &["-c", "copy", "-map", "0", "-vsync", "0", "-avoid_negative_ts", "make_zero"],
    );
    push_texts(&mut v, &["-ignore_unknown", "-movflags", "+faststart"]);
    push_text(&mut v, out);
    proof {
        assert(texts(v@) =~= stream_copy_args_text(source@, start, end, out@));
    }
    v
}

/// What a stream copy's exit status means: an error naming the segment when
/// FFmpeg failed.
pub fn stream_copy_outcome(success: bool, source: &str, start: i64, end: i64) -> (r: Result<
    (),
    EditError,
>)
    ensures
        success ==> r is Ok,
        !success ==> (r matches Err(EditError::StreamCopyFailed { source: s, start: a, end: b })
            && s@ == source@ && a == start && b == end),
{
    if success {
        Ok(())
    } else {
        Err(EditError::StreamCopyFailed { source: source.to_owned(), start, end })
    }
}


/// The operating system family, which decides the hardware encoders and
/// decoders that are tried.
#[derive(PartialEq, Eq, Structural, Clone, Copy)]
pub enum Platform {
    Windows,
    MacOs,
    Linux,
    Other,
}

/// The video encoder, and its quality options, for re-encoding a segment:
/// the platform's hardware encoder (NVENC on Windows, VideoToolbox on macOS,
/// VAAPI on Linux) or x264/x265 elsewhere, always for the source's codec
/// (HEVC or H.264) and without B-frames.
pub open spec fn encoder_text(platform: Platform, is_hevc: bool) -> (Seq<char>, Seq<Seq<char>>) {
    match platform {
        Platform::Windows => if is_hevc {
            ("hevc_nvenc"@, seq!["-cq"@, "14"@, "-preset"@, "p4"@, "-bf"@, "0"@])
        } else {
            ("h264_nvenc"@, seq!["-cq"@, "14"@, "-preset"@, "p4"@, "-bf"@, "0"@])
        },
        Platform::MacOs => if is_hevc {
            ("hevc_videotoolbox"@, seq!["-q:v"@, "60"@, "-bf"@, "0"@])
        } else {
            ("h264_videotoolbox"@, seq!["-q:v"@, "60"@, "-bf"@, "0"@])
        },
        Platform::Linux => if is_hevc {
            ("hevc_vaapi"@, seq!["-qp"@, "14"@, "-bf"@, "0"@])
        } else {
            ("h264_vaapi"@, seq!["-qp"@, "14"@, "-bf"@, "0"@])
        },
        Platform::Other => if is_hevc {
            (
                "libx265"@,
                seq!["-crf"@, "14"@, "-preset"@, "fast"@, "-x265-params"@, "bframes=0:keyint=1"@],
            )
        } else {
            (
                "libx264"@,
                seq!["-crf"@, "14"@, "-preset"@, "fast"@, "-x264-params"@, "bframes=0:keyint=1"@],
            )
        },
    }
}

/// The H.264 encoders: NVENC, VideoToolbox, VAAPI and x264.
pub open spec fn is_h264_encoder(name: Seq<char>) -> bool {
    ||| name == "h264_nvenc"@
    ||| name == "h264_videotoolbox"@
    ||| name == "h264_vaapi"@
    ||| name == "libx264"@
}

/// The HEVC encoders: NVENC, VideoToolbox, VAAPI and x265.
pub open spec fn is_hevc_encoder(name: Seq<char>) -> bool {
    ||| name == "hevc_nvenc"@
    ||| name == "hevc_videotoolbox"@
    ||| name == "hevc_vaapi"@
    ||| name == "libx265"@
}

/// No encoder is both an H.264 and an HEVC one.
pub proof fn lemma_encoder_families_are_disjoint(name: Seq<char>)
    ensures
        !(is_h264_encoder(name) && is_hevc_encoder(name)),
{
    reveal_strlit("h264_nvenc");
    reveal_strlit("h264_videotoolbox");
    reveal_strlit("h264_vaapi");
    reveal_strlit("libx264");
    reveal_strlit("hevc_nvenc");
    reveal_strlit("hevc_videotoolbox");
    reveal_strlit("hevc_vaapi");
    reveal_strlit("libx265");
    if is_h264_encoder(name) && is_hevc_encoder(name) {
        if name.len() == 7 {
            assert(name[6] == '4' || name[6] == '5');
        } else {
            assert(name[0] == 'h');
            assert(name[1] == '2' || name[1] == 'e');
        }
    }
}

/// A re-encoded segment keeps the source's codec, on every platform: an
/// H.264 source gets an H.264 encoder and an HEVC source an HEVC one, so
/// the segment joins the stream-copied rest of the clip.
pub proof fn lemma_encoder_matches_source_codec(platform: Platform, is_hevc: bool)
    ensures
        is_hevc ==> is_hevc_encoder(encoder_text(platform, is_hevc).0),
        !is_hevc ==> is_h264_encoder(encoder_text(platform, is_hevc).0),
        is_hevc ==> !is_h264_encoder(encoder_text(platform, is_hevc).0),
        !is_hevc ==> !is_hevc_encoder(encoder_text(platform, is_hevc).0),
{
    lemma_encoder_families_are_disjoint(encoder_text(platform, is_hevc).0);
}

/// The encoder and its options (see `encoder_text`).
pub fn choose_encoder(platform: Platform, is_hevc: bool) -> (r: (&'static str, Vec<String>))
    ensures
        (r.0@, texts(r.1@)) == encoder_text(platform, is_hevc),
        is_hevc ==> is_hevc_encoder(r.0@),
        !is_hevc ==> is_h264_encoder(r.0@),
{
    match platform {
        Platform::Windows => if is_hevc {
            ("hevc_nvenc", owned_texts(&["-cq", "14", "-preset", "p4", "-bf", "0"]))
        } else {
            ("h264_nvenc", owned_texts(&["-cq", "14", "-preset", "p4", "-bf", "0"]))
        },
        Platform::MacOs => if is_hevc {
            ("hevc_videotoolbox", owned_texts(&["-q:v", "60", "-bf", "0"]))
        } else {
            ("h264_videotoolbox", owned_texts(&["-q:v", "60", "-bf", "0"]))
        },
        Platform::Linux => if is_hevc {
            ("hevc_vaapi", owned_texts(&["-qp", "14", "-bf", "0"]))
        } else {
            ("h264_vaapi", owned_texts(&["-qp", "14", "-bf", "0"]))
        },
        Platform::Other => if is_hevc {
            (
                "libx265",
                owned_texts(
                    &["-crf", "14", "-preset", "fast", "-x265-params", "bframes=0:keyint=1"],
                ),
            )
        } else {
            (
                "libx264",
                owned_texts(
                    &["-crf", "14", "-preset", "fast", "-x264-params", "bframes=0:keyint=1"],
                ),
            )
        },
    }
}

/// Arguments that re-encode the video of `[start, end]` of `source` into
/// `out` with `vcodec` and its `options`, copying the audio.
pub open spec fn reencode_args_text(
    source: Seq<char>,
    start: i64,
    end: i64,
    out: Seq<char>,
    vcodec: Seq<char>,
    options: Seq<Seq<char>>,
) -> Seq<Seq<char>> {
    seq!["-y"@, "-ss"@, seconds_text(start as int), "-to"@, seconds_text(end as int), "-i"@, source]
        + seq!["-c:v"@, vcodec] + options + seq!["-c:a"@, "copy"@, "-vsync"@, "0"@]
        + seq!["-avoid_negative_ts"@, "make_zero"@, "-movflags"@, "+faststart"@, out]
}

/// The arguments of the first attempt to re-encode a segment, with the
/// encoder that `choose_encoder` picks.
pub fn reencode_args(
    source: &str,
    start: i64,
    end: i64,
    out: &str,
    platform: Platform,
    is_hevc: bool,
) -> (r: Vec<String>)
    ensures
        texts(r@) == reencode_args_text(
            source@,
            start,
            end,
            out@,
            encoder_text(platform, is_hevc).0,
            encoder_text(platform, is_hevc).1,
        ),
{
    let (vcodec, mut options) = choose_encoder(platform, is_hevc);
    let mut v: Vec<String> = Vec::new();
    push_text(&mut v, "-y");
    push_text(&mut v, "-ss");
    let ss = seconds_string(start);
    push_text(&mut v, ss.as_str());
    push_text(&mut v, "-to");
    let to = seconds_string(end);
    push_text(&mut v, to.as_str());
    push_text(&mut v, "-i");
    push_text(&mut v, source);
    push_text(&mut v, "-c:v");
    push_text(&mut v, vcodec);
    let ghost before = v@;
    let ghost opts = options@;
    v.append(&mut options);
    proof {
        assert(texts(v@) =~= texts(before) + texts(opts));
    }
    push_texts(&mut v, &["-c:a", "copy", "-vsync", "0"]);
    push_texts(&mut v, &["-avoid_negative_ts", "make_zero", "-movflags", "+faststart"]);
    push_text(&mut v, out);
    proof {
        assert(texts(v@) =~= reencode_args_text(
            source@,
            start,
            end,
            out@,
            encoder_text(platform, is_hevc).0,
            encoder_text(platform, is_hevc).1,
        ));
    }
    v
}

/// The arguments of the software re-encode that is tried when the first
/// attempt fails: x264 at the same quality, without B-frames.
pub fn fallback_reencode_args(source: &str, start: i64, end: i64, out: &str) -> (r: Vec<String>)
    ensures
        texts(r@) == reencode_args_text(
            source@,
            start,
            end,
            out@,
            "libx264"@,
            seq!["-crf"@, "14"@, "-preset"@, "fast"@, "-x264-params"@, "bframes=0:keyint=1"@],
        ),
{
    reencode_args(source, start, end, out, Platform::Other, false)
}

/// Whether any of the probed streams is HEVC-coded.
pub open spec fn has_hevc_stream_spec(streams: Seq<crate::model::ProbeStream>) -> bool {
    exists|i: int| 0 <= i < streams.len() && #[trigger] streams[i].codec_name@ == "hevc"@
}

/// Whether any of the probed streams is HEVC-coded: the re-encode then
/// keeps HEVC so that the segments can be joined without re-encoding.
pub fn has_hevc_stream(streams: &[crate::model::ProbeStream]) -> (r: bool)
    ensures
        r == has_hevc_stream_spec(streams@),
        r <==> exists|i: int|
            0 <= i < streams@.len() && #[trigger] streams@[i].codec_name@ == "hevc"@,
{
    let mut i: usize = 0;
    while i < streams.len()
        invariant
            i <= streams@.len(),
            forall|j: int| 0 <= j < i ==> #[trigger] streams@[j].codec_name@ != "hevc"@,
        decreases streams@.len() - i,
    {
        if same_text(streams[i].codec_name.as_str(), "hevc") {
            return true;
        }
        i = i + 1;
    }
    false
}

/// A stream coded as HEVC makes the answer true wherever it stands in the
/// list.
pub proof fn lemma_hevc_found_at_any_position(streams: Seq<crate::model::ProbeStream>, i: int)
    requires
        0 <= i < streams.len(),
        streams[i].codec_name@ == "hevc"@,
    ensures
        has_hevc_stream_spec(streams),
{
}

/// Without a stream coded as HEVC the answer is false.
pub proof fn lemma_no_hevc_stream(streams: Seq<crate::model::ProbeStream>)
    requires
        forall|i: int| 0 <= i < streams.len() ==> #[trigger] streams[i].codec_name@ != "hevc"@,
    ensures
        !has_hevc_stream_spec(streams),
{
}

/// The answer for two lists put together is whether either holds an HEVC
/// stream: the order of the streams does not matter.
pub proof fn lemma_hevc_over_concatenation(
    a: Seq<crate::model::ProbeStream>,
    b: Seq<crate::model::ProbeStream>,
)
    ensures
        has_hevc_stream_spec(a + b) == (has_hevc_stream_spec(a) || has_hevc_stream_spec(b)),
        has_hevc_stream_spec(a + b) == has_hevc_stream_spec(b + a),
{
    if has_hevc_stream_spec(a) {
        let i = choose|i: int| 0 <= i < a.len() && #[trigger] a[i].codec_name@ == "hevc"@;
        assert((a + b)[i] == a[i]);
        assert((b + a)[b.len() + i] == a[i]);
    }
    if has_hevc_stream_spec(b) {
        let i = choose|i: int| 0 <= i < b.len() && #[trigger] b[i].codec_name@ == "hevc"@;
        assert((a + b)[a.len() + i] == b[i]);
        assert((b + a)[i] == b[i]);
    }
    if has_hevc_stream_spec(a + b) {
        let i = choose|i: int| 0 <= i < (a + b).len() && #[trigger] (a + b)[i].codec_name@ == "hevc"@;
        if i < a.len() {
            assert(a[i] == (a + b)[i]);
        } else {
            assert(b[i - a.len()] == (a + b)[i]);
        }
    }
    if has_hevc_stream_spec(b + a) {
        let i = choose|i: int| 0 <= i < (b + a).len() && #[trigger] (b + a)[i].codec_name@ == "hevc"@;
        if i < b.len() {
            assert(b[i] == (b + a)[i]);
        } else {
            assert(a[i - b.len()] == (b + a)[i]);
        }
    }
}

/// What follows the first re-encode attempt.
#[derive(PartialEq, Eq, Structural, Clone, Copy)]
pub enum ReencodeNext {
    /// The segment is written.
    Done,
    /// Retry with the software encoder (`fallback_reencode_args`).
    RetryWithLibx264,
}

/// What the first re-encode attempt's exit status means: when it failed
/// with an encoder other than libx264 the software encoder is tried;
/// when libx264 itself failed, the export fails.
pub fn reencode_outcome(
    success: bool,
    vcodec: &str,
    source: &str,
    start: i64,
    end: i64,
) -> (r: Result<ReencodeNext, EditError>)
    ensures
        success ==> r == Ok::<ReencodeNext, EditError>(ReencodeNext::Done),
        !success && vcodec@ != "libx264"@ ==> r == Ok::<ReencodeNext, EditError>(
            ReencodeNext::RetryWithLibx264,
        ),
        !success && vcodec@ == "libx264"@ ==> (r matches Err(
            EditError::ReencodeFailed { source: s, start: a, end: b },
        ) && s@ == source@ && a == start && b == end),
{
    if !success && !same_text(vcodec, "libx264") {
        Ok(ReencodeNext::RetryWithLibx264)
    } else if !success {
        Err(EditError::ReencodeFailed { source: source.to_owned(), start, end })
    } else {
        Ok(ReencodeNext::Done)
    }
}

/// What the software re-encode's exit status means.
pub fn fallback_outcome(success: bool, source: &str, start: i64, end: i64) -> (r: Result<
    (),
    EditError,
>)
    ensures
        success ==> r is Ok,
        !success ==> (r matches Err(
            EditError::FallbackReencodeFailed { source: s, start: a, end: b },
        ) && s@ == source@ && a == start && b == end),
{
    if success {
        Ok(())
    } else {
        Err(EditError::FallbackReencodeFailed { source: source.to_owned(), start, end })
    }
}

/// Arguments that join the segments listed in `concat_list` without
/// re-encoding and take the global metadata from `metadata_source`.
pub open spec fn concat_args_text(
    concat_list: Seq<char>,
    output_path: Seq<char>,
    metadata_source: Seq<char>,
) -> Seq<Seq<char>> {
    seq!["-y"@, "-f"@, "concat"@, "-safe"@, "0"@, "-i"@, concat_list, "-i"@, metadata_source]
        + seq!["-c"@, "copy"@, "-vsync"@, "0"@, "-map_metadata"@, "1"@, "-map"@, "0"@]
        + seq!["-ignore_unknown"@, "-avoid_negative_ts"@, "make_zero"@, "-fflags"@, "+genpts"@]
        + seq!["-write_tmcd"@, "0"@, "-movflags"@, "+faststart"@, output_path]
}

/// The final join of an export: the run's arguments and what its exit
/// status means.
pub struct ConcatJob {
    pub args: Vec<String>,
    pub concat_list: String,
    pub output_path: String,
}

/// Prepares the join of the segments listed in `concat_list` into
/// `output_path`, with metadata from `metadata_source` (the first clip's
/// source).
pub fn concat_segments(concat_list: &str, output_path: &str, metadata_source: &str) -> (r:
    ConcatJob)
    ensures
        texts(r.args@) == concat_args_text(concat_list@, output_path@, metadata_source@),
        r.concat_list@ == concat_list@,
        r.output_path@ == output_path@,
{
    let mut v: Vec<String> = Vec::new();
    push_texts(&mut v, &["-y", "-f", "concat", "-safe", "0", "-i"]);
    push_text(&mut v, concat_list);
    push_text(&mut v, "-i");
    push_text(&mut v, metadata_source);
    push_texts(&mut v, &["-c", "copy", "-vsync", "0", "-map_metadata", "1", "-map", "0"]);
    push_texts(&mut v, &["-ignore_unknown", "-avoid_negative_ts", "make_zero", "-fflags", "+genpts"]);
    push_texts(&mut v, &["-write_tmcd", "0", "-movflags", "+faststart"]);
    push_text(&mut v, output_path);
    proof {
        assert(texts(v@) =~= concat_args_text(concat_list@, output_path@, metadata_source@));
    }
    ConcatJob { args: v, concat_list: concat_list.to_owned(), output_path: output_path.to_owned() }
}

impl ConcatJob {
    /// What the join's exit status means: the output path on success, an
    /// error naming the concat list otherwise.
    pub fn finish(self, success: bool) -> (r: Result<String, EditError>)
        ensures
            success ==> (r matches Ok(p) && p@ == self.output_path@),
            !success ==> (r matches Err(EditError::ConcatFailed { concat_list: l }) && l@
                == self.concat_list@),
    {
        if success {
            Ok(self.output_path)
        } else {
            Err(EditError::ConcatFailed { concat_list: self.concat_list })
        }
    }
}

/// The concat demuxer's input list: a header line, then one quoted `file`
/// line per segment, in order.
pub open spec fn concat_list_text_of(files: Seq<Seq<char>>) -> Seq<char>
    decreases files.len(),
{
    if files.len() == 0 {
        "ffconcat version 1.0\n"@
    } else {
        concat_list_text_of(files.drop_last()) + "file '"@ + files.last() + "'\n"@
    }
}

/// Writes the concat demuxer's input list for the segment files.
pub fn concat_list_text(files: &[String]) -> (r: String)
    ensures
        r@ == concat_list_text_of(texts(files@)),
{
    let mut s = String::from_str("ffconcat version 1.0\n");
    let mut i: usize = 0;
    while i < files.len()
        invariant
            i <= files@.len(),
            s@ == concat_list_text_of(texts(files@.subrange(0, i as int))),
        decreases files@.len() - i,
    {
        proof {
            let t = texts(files@.subrange(0, i + 1));
            assert(t.drop_last() =~= texts(files@.subrange(0, i as int)));
            assert(t.last() == files@[i as int]@);
        }
        s.append("file '");
        s.append(files[i].as_str());
        s.append("'\n");
        i = i + 1;
    }
    proof {
        assert(files@.subrange(0, files@.len() as int) =~= files@);
    }
    s
}

/// The text that names a segment's file.
pub open spec fn tag_text(tag: SegmentTag) -> Seq<char> {
    match tag {
        SegmentTag::CopyFull => "copy_full"@,
        SegmentTag::ReencHead => "reenc_head"@,
        SegmentTag::ReencAll => "reenc_all"@,
        SegmentTag::CopyMid => "copy_mid"@,
        SegmentTag::ReencTail => "reenc_tail"@,
        SegmentTag::CopyTail => "copy_tail"@,
    }
}

/// The text that names a segment's file.
pub fn tag_name(tag: SegmentTag) -> (r: &'static str)
    ensures
        r@ == tag_text(tag),
{
    match tag {
        SegmentTag::CopyFull => "copy_full",
        SegmentTag::ReencHead => "reenc_head",
        SegmentTag::ReencAll => "reenc_all",
        SegmentTag::CopyMid => "copy_mid",
        SegmentTag::ReencTail => "reenc_tail",
        SegmentTag::CopyTail => "copy_tail",
    }
}

/// The file name for a temporary segment: the tag, an underscore, a unique
/// id and ".mp4".
pub open spec fn tmp_file_name_text(tag: Seq<char>, id: Seq<char>) -> Seq<char> {
    tag + "_"@ + id + ".mp4"@
}

/// The file name for a temporary segment with the given unique id.
pub fn tmp_file_name(tag: &str, id: &str) -> (r: String)
    ensures
        r@ == tmp_file_name_text(tag@, id@),
{
    let mut s = String::from_str(tag);
    s.append("_");
    s.append(id);
    s.append(".mp4");
    s
}

pub open spec fn is_lower_hex(c: char) -> bool {
    ('0' <= c <= '9') || ('a' <= c <= 'f')
}

/// The hyphenated lower-case text of a version 4 UUID: 8-4-4-4-12 hex
/// digits, the version digit '4' first in the third group and the variant
/// digit ('8', '9', 'a' or 'b') first in the fourth.
pub open spec fn is_uuid_v4_text(t: Seq<char>) -> bool {
    &&& t.len() == 36
    &&& forall|i: int|
        0 <= i < 36 ==> if i == 8 || i == 13 || i == 18 || i == 23 {
            t[i] == '-'
        } else {
            is_lower_hex(#[trigger] t[i])
        }
    &&& t[14] == '4'
    &&& (t[19] == '8' || t[19] == '9' || t[19] == 'a' || t[19] == 'b')
}

/// A fresh random (version 4) UUID in its hyphenated lower-case text form,
/// from `uuid::Uuid::new_v4` and its `Display`. Which UUID comes back rests
/// on chance; its shape is stated.
#[verifier::external_body]
fn random_uuid_text() -> (r: String)
    ensures
        is_uuid_v4_text(r@),
{
    uuid::Uuid::new_v4().to_string()
}

/// A new temporary segment file name with a random unique id.
pub fn tmp_file(tag: &str) -> (r: String)
    ensures
        exists|id: Seq<char>| is_uuid_v4_text(id) && r@ == tmp_file_name_text(tag@, id),
{
    let id = random_uuid_text();
    tmp_file_name(tag, id.as_str())
}

} // verus!
