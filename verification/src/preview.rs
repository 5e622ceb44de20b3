//! Single-frame extraction for the preview panel, the data URL that carries
//! a frame to the user interface, and the `preview://` request parser.

use vstd::prelude::*;
use crate::base64_text::{base64_decoded, base64_text, lemma_base64_round_trip};
use crate::error::EditError;
use crate::ffmpeg::{push_text, push_texts, str_texts, texts, Platform};
use crate::text::{
    find_char_from, index_of_from, lemma_index_of_from_bounds, same_text, seconds_string,
    seconds_text, split_from,
};

verus! {

/// The decoder options for hardware-accelerated decoding on a platform:
/// D3D12 on Windows, VAAPI on Linux, none elsewhere.
pub open spec fn hwaccel_args_text(platform: Platform) -> Seq<Seq<char>> {
    match platform {
        Platform::Windows => seq!["-hwaccel"@, "d3d12va"@, "-hwaccel_output_format"@, "d3d12"@],
        Platform::Linux => seq![
            "-hwaccel"@,
            "vaapi"@,
            "-vaapi_device"@,
            "/dev/dri/renderD128"@,
            "-hwaccel_output_format"@,
            "vaapi"@,
        ],
        _ => seq![],
    }
}

/// The hardware decoding options for the platform.
pub fn hwaccel_args(platform: Platform) -> (r: Vec<&'static str>)
    ensures
        str_texts(r@) == hwaccel_args_text(platform),
{
    let r: Vec<&'static str> = match platform {
        Platform::Windows => vec!["-hwaccel", "d3d12va", "-hwaccel_output_format", "d3d12"],
        Platform::Linux => vec![
            "-hwaccel",
            "vaapi",
            "-vaapi_device",
            "/dev/dri/renderD128",
            "-hwaccel_output_format",
            "vaapi",
        ],
        _ => vec![],
    };
    proof {
        assert(str_texts(r@) =~= hwaccel_args_text(platform));
    }
    r
}

/// Arguments that decode the frame at `timestamp` of `source` on the GPU
/// and write it as one JPEG to standard output; none on a platform without
/// hardware decoding.
pub open spec fn hwaccel_frame_args_text(platform: Platform, source: Seq<char>, timestamp: i64) -> Option<
    Seq<Seq<char>>,
> {
    let hw = hwaccel_args_text(platform);
    if hw.len() == 0 {
        None
    } else {
        let common = hw + seq!["-ss"@, seconds_text(timestamp as int), "-i"@, source, "-frames:v"@, "1"@];
        match platform {
            Platform::Windows => Some(
                common + seq!["-vf"@, "hwdownload,format=nv12"@, "-c:v"@, "mjpeg"@, "-f"@, "image2"@]
                    + seq!["-q:v"@, "4"@, "pipe:1"@],
            ),
            Platform::Linux => Some(
                common + seq!["-c:v"@, "mjpeg_vaapi"@, "-f"@, "image2"@, "pipe:1"@],
            ),
            _ => Some(common),
        }
    }
}

/// The arguments of the hardware-accelerated frame extraction, or nothing
/// when the platform has no hardware decoding.
pub fn hwaccel_frame_args(platform: Platform, source: &str, timestamp: i64) -> (r: Option<Vec<String>>)
    ensures
        match r {
            Some(v) => hwaccel_frame_args_text(platform, source@, timestamp) == Some(texts(v@)),
            None => hwaccel_frame_args_text(platform, source@, timestamp) is None,
        },
{
    let hw = hwaccel_args(platform);
    if hw.len() == 0 {
        return None;
    }
    let mut v: Vec<String> = Vec::new();
    push_texts(&mut v, hw.as_slice());
    push_text(&mut v, "-ss");
    let ts = seconds_string(timestamp);
    push_text(&mut v, ts.as_str());
    push_text(&mut v, "-i");
    push_text(&mut v, source);
    push_texts(&mut v, &["-frames:v", "1"]);
    let ghost common = texts(v@);
    match platform {
        Platform::Windows => {
            push_texts(&mut v, &["-vf", "hwdownload,format=nv12", "-c:v", "mjpeg", "-f", "image2"]);
            push_texts(&mut v, &["-q:v", "4", "pipe:1"]);
        },
        Platform::Linux => {
            push_texts(&mut v, &["-c:v", "mjpeg_vaapi", "-f", "image2", "pipe:1"]);
        },
        _ => {},
    }
    proof {
        let hw_t = hwaccel_args_text(platform);
        assert(common =~= hw_t + seq![
            "-ss"@,
            seconds_text(timestamp as int),
            "-i"@,
            source@,
            "-frames:v"@,
            "1"@,
        ]);
        assert(Some(texts(v@)) =~= hwaccel_frame_args_text(platform, source@, timestamp));
    }
    Some(v)
}

/// Arguments that decode the frame at `timestamp` of `source` in software
/// and write it as one JPEG to standard output.
pub open spec fn software_frame_args_text(source: Seq<char>, timestamp: i64) -> Seq<Seq<char>> {
    seq!["-ss"@, seconds_text(timestamp as int), "-i"@, source, "-frames:v"@, "1"@]
        + seq!["-f"@, "image2"@, "-vcodec"@, "mjpeg"@, "-q:v"@, "4"@, "pipe:1"@]
}

/// The arguments of the software frame extraction.
pub fn software_frame_args(source: &str, timestamp: i64) -> (r: Vec<String>)
    ensures
        texts(r@) == software_frame_args_text(source@, timestamp),
{
    let mut v: Vec<String> = Vec::new();
    push_text(&mut v, "-ss");
    let ts = seconds_string(timestamp);
    push_text(&mut v, ts.as_str());
    push_text(&mut v, "-i");
    push_text(&mut v, source);
    push_texts(&mut v, &["-frames:v", "1", "-f", "image2", "-vcodec", "mjpeg", "-q:v", "4", "pipe:1"]);
    proof {
        assert(texts(v@) =~= software_frame_args_text(source@, timestamp));
    }
    v
}

/// What the hardware extraction produced: its output when FFmpeg started and
/// wrote something, an error otherwise. `run` is FFmpeg's standard output,
/// or the text of the error that kept it from starting.
pub fn hwaccel_frame_outcome(run: Result<Vec<u8>, String>) -> (r: Result<Vec<u8>, EditError>)
    ensures
        match run {
            Ok(out) => if out@.len() > 0 {
                r == Ok::<Vec<u8>, EditError>(out)
            } else {
                r == Err::<Vec<u8>, EditError>(EditError::EmptyFrameOutput)
            },
            Err(d) => r matches Err(EditError::Spawn { context: c, detail: e }) && c@
                == "hwaccel frame extract spawn failed"@ && e@ == d@,
        },
{
    match run {
        Ok(out) => if out.len() > 0 {
            Ok(out)
        } else {
            Err(EditError::EmptyFrameOutput)
        },
        Err(d) => Err(
            EditError::Spawn { context: String::from_str("hwaccel frame extract spawn failed"), detail: d },
        ),
    }
}

/// Whether the hardware attempt settles the extraction: its frame when it
/// produced a non-empty one, nothing when the software path is to be tried.
pub fn extract_frame(hwaccel: Result<Vec<u8>, EditError>) -> (r: Option<Vec<u8>>)
    ensures
        match hwaccel {
            Ok(bytes) => if bytes@.len() > 0 {
                r == Some(bytes)
            } else {
                r is None
            },
            Err(_) => r is None,
        },
{
    match hwaccel {
        Ok(bytes) => if bytes.len() > 0 {
            Some(bytes)
        } else {
            None
        },
        Err(_) => None,
    }
}

/// What the software extraction produced: its output when FFmpeg started
/// and wrote something; otherwise an error that carries FFmpeg's error
/// output, or the text of the error that kept it from starting.
pub fn software_frame_outcome(run: Result<(Vec<u8>, String), String>) -> (r: Result<
    Vec<u8>,
    EditError,
>)
    ensures
        match run {
            Ok((out, stderr)) => if out@.len() > 0 {
                r == Ok::<Vec<u8>, EditError>(out)
            } else {
                r matches Err(EditError::NoFrameData { stderr: s }) && s@ == stderr@
            },
            Err(d) => r matches Err(EditError::Spawn { context: c, detail: e }) && c@
                == "software frame extract spawn failed"@ && e@ == d@,
        },
{
    match run {
        Ok((out, stderr)) => if out.len() > 0 {
            Ok(out)
        } else {
            Err(EditError::NoFrameData { stderr })
        },
        Err(d) => Err(
            EditError::Spawn {
                context: String::from_str("software frame extract spawn failed"),
                detail: d,
            },
        ),
    }
}

/// Encodes `bytes` with `base64::engine::general_purpose::STANDARD`: the
/// standard alphabet with `=` padding, as `base64_text` states it (four
/// characters for every started group of three bytes). The crate panics when
/// that length overflows `usize`.
#[verifier::external_body]
fn base64_encode(bytes: &[u8]) -> (r: String)
    requires
        (bytes@.len() + 2) / 3 * 4 <= usize::MAX,
    ensures
        r@ == base64_text(bytes@),
{
    base64::Engine::encode(&base64::engine::general_purpose::STANDARD, bytes)
}

/// A JPEG data URL with the given base64 payload.
pub fn jpeg_data_url(encoded: &str) -> (r: String)
    ensures
        r@ == "data:image/jpeg;base64,"@ + encoded@,
{
    let mut s = String::from_str("data:image/jpeg;base64,");
    s.append(encoded);
    s
}

/// The data URL that shows an extracted JPEG frame in an `img` element; its
/// payload decodes back to the frame's bytes.
pub fn preview_frame(jpeg: &[u8]) -> (r: String)
    requires
        (jpeg@.len() + 2) / 3 * 4 <= usize::MAX,
    ensures
        r@ == "data:image/jpeg;base64,"@ + base64_text(jpeg@),
        base64_decoded(r@.subrange(23, r@.len() as int)) == jpeg@,
{
    let encoded = base64_encode(jpeg);
    let r = jpeg_data_url(encoded.as_str());
    proof {
        reveal_strlit("data:image/jpeg;base64,");
        assert(r@.subrange(23, r@.len() as int) =~= encoded@);
        lemma_base64_round_trip(jpeg@);
    }
    r
}

/// What percent-decoding `data` as UTF-8 gives (the `urlencoding` crate's
/// `decode`): nothing when the decoded bytes are not UTF-8.
pub uninterp spec fn percent_decoding(data: Seq<char>) -> Option<Seq<char>>;

/// Percent-decodes `data` with `urlencoding::decode`. The result is named by
/// `percent_decoding`; a text without '%' decodes to itself.
#[verifier::external_body]
fn percent_decode(data: &str) -> (r: Option<String>)
    ensures
        r is Some <==> percent_decoding(data@) is Some,
        r matches Some(s) ==> percent_decoding(data@) == Some(s@),
        r is None ==> data@.contains('%'),
        r matches Some(s) ==> (data@.contains('%') || s@ == data@),
{
    match urlencoding::decode(data) {
        Ok(text) => Some(text.into_owned()),
        Err(_) => None,
    }
}

/// A query value: as it stands when it holds no '%'; otherwise
/// percent-decoded when it decodes to UTF-8, and as it stands when not.
pub open spec fn decoded_value(v: Seq<char>) -> Seq<char> {
    if !v.contains('%') {
        v
    } else {
        match percent_decoding(v) {
            Some(d) => d,
            None => v,
        }
    }
}

/// A query value after decoding: the decoded text when there is one, the
/// raw value otherwise.
pub fn value_or_raw(decoded: Option<String>, raw: &str) -> (r: String)
    ensures
        decoded matches Some(d) ==> r@ == d@,
        decoded is None ==> r@ == raw@,
{
    match decoded {
        Some(d) => d,
        None => raw.to_owned(),
    }
}

/// Reads a query value (see `decoded_value`).
pub fn decode_value(v: &str) -> (r: String)
    ensures
        r@ == decoded_value(v@),
{
    value_or_raw(percent_decode(v), v)
}

/// What a preview request asks for: the source path and the raw time text.
pub struct PreviewQuery {
    pub path: String,
    pub ts: Option<String>,
}

/// The value of a `key=value` pair: the text after the first '=' up to any
/// second one, read by `decoded_value` (kept as it stands when it holds no
/// '%').
pub open spec fn pair_value(p: Seq<char>) -> Seq<char> {
    let j = index_of_from(p, 0, '=');
    decoded_value(p.subrange(j + 1, index_of_from(p, j + 1, '=')))
}

/// The fields `(path, ts)` after the pair `p` is applied to `before`: a pair
/// without '=' sets nothing; `path` sets the path and `ts` the time text.
pub open spec fn apply_pair_fields(before: (Seq<char>, Option<Seq<char>>), p: Seq<char>) -> (
    Seq<char>,
    Option<Seq<char>>,
) {
    let j = index_of_from(p, 0, '=');
    if j < p.len() {
        let key = p.subrange(0, j);
        if key == "path"@ {
            (pair_value(p), before.1)
        } else if key == "ts"@ {
            (before.0, Some(pair_value(p)))
        } else {
            before
        }
    } else {
        before
    }
}

/// The fields that the `key=value` pairs set, one after another, a later
/// pair overriding an earlier one (see `apply_pair_fields`).
pub open spec fn query_fields(pairs: Seq<Seq<char>>) -> (Seq<char>, Option<Seq<char>>)
    decreases pairs.len(),
{
    if pairs.len() == 0 {
        (seq![], None)
    } else {
        apply_pair_fields(query_fields(pairs.drop_last()), pairs.last())
    }
}

pub open spec fn fields_view(path: String, ts: Option<String>) -> (Seq<char>, Option<Seq<char>>) {
    (
        path@,
        match ts {
            Some(t) => Some(t@),
            None => None,
        },
    )
}

/// Applies one `key=value` pair to the fields read so far.
fn apply_pair(pair: &str, path: &mut String, ts: &mut Option<String>)
    ensures
        fields_view(*final(path), *final(ts)) == apply_pair_fields(
            fields_view(*old(path), *old(ts)),
            pair@,
        ),
{
    let n = pair.unicode_len();
    let j = find_char_from(pair, 0, '=');
    if j < n {
        let k = find_char_from(pair, j + 1, '=');
        let key = pair.substring_char(0, j);
        let raw = pair.substring_char(j + 1, k);
        let v = decode_value(raw);
        if same_text(key, "path") {
            *path = v;
        } else if same_text(key, "ts") {
            *ts = Some(v);
        }
    }
}

pub open spec fn query_view(q: PreviewQuery) -> (Seq<char>, Option<Seq<char>>) {
    fields_view(q.path, q.ts)
}

/// Reads the query of a `preview://frame?path=...&ts=...` request: the
/// pairs are separated by '&'.
pub fn parse_preview_query(query: &str) -> (r: PreviewQuery)
    ensures
        query_view(r) == query_fields(split_from(query@, '&', 0)),
{
    let n = query.unicode_len();
    let mut path = String::new();
    let mut ts: Option<String> = None;
    let mut from: usize = 0;
    let ghost mut done: Seq<Seq<char>> = seq![];
    let mut finished = false;
    while !finished
        invariant
            n == query@.len(),
            from <= n,
            !finished ==> split_from(query@, '&', 0) == done + split_from(query@, '&', from as int),
            finished ==> split_from(query@, '&', 0) == done,
            fields_view(path, ts) == query_fields(done),
        decreases n - from + (if finished { 0int } else { 1int }),
    {
        let k = find_char_from(query, from, '&');
        proof {
            lemma_index_of_from_bounds(query@, from as int, '&');
        }
        let pair = query.substring_char(from, k);
        apply_pair(pair, &mut path, &mut ts);
        proof {
            let d2 = done.push(pair@);
            assert(d2.drop_last() =~= done);
            assert(d2.last() == pair@);
            if k >= n {
                assert(split_from(query@, '&', from as int) =~= seq![pair@]);
            } else {
                assert(split_from(query@, '&', from as int) =~= seq![pair@] + split_from(
                    query@,
                    '&',
                    k + 1,
                ));
            }
            assert(done + split_from(query@, '&', from as int) =~= d2 + (if k >= n {
                seq![]
            } else {
                split_from(query@, '&', k + 1)
            }));
            done = d2;
        }
        if k >= n {
            finished = true;
        } else {
            from = k + 1;
        }
    }
    PreviewQuery { path, ts }
}

impl PreviewQuery {
    /// A request without a path is answered with "400 Bad Request".
    pub fn is_bad_request(&self) -> (r: bool)
        ensures
            r == (self.path@.len() == 0),
    {
        self.path.as_str().is_empty()
    }
}

/// A Windows path without its extended-length prefix `\\?\`, which FFmpeg
/// does not accept.
pub open spec fn dunce_path_text(s: Seq<char>) -> Seq<char> {
    if s.len() >= 4 && s.subrange(0, 4) == seq!['\\', '\\', '?', '\\'] {
        s.subrange(4, s.len() as int)
    } else {
        s
    }
}

/// Strips the extended-length prefix `\\?\` from a path.
pub fn dunce_path(p: &str) -> (r: String)
    ensures
        r@ == dunce_path_text(p@),
{
    let n = p.unicode_len();
    if n >= 4 && p.get_char(0) == '\\' && p.get_char(1) == '\\' && p.get_char(2) == '?'
        && p.get_char(3) == '\\' {
        proof {
            assert(p@.subrange(0, 4) =~= seq!['\\', '\\', '?', '\\']);
        }
        p.substring_char(4, n).to_owned()
    } else {
        proof {
            if n >= 4 {
                assert(p@.subrange(0, 4)[0] == p@[0]);
                assert(p@.subrange(0, 4)[1] == p@[1]);
                assert(p@.subrange(0, 4)[2] == p@[2]);
                assert(p@.subrange(0, 4)[3] == p@[3]);
            }
        }
        p.to_owned()
    }
}

} // verus!
