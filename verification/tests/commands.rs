use passthrough_cut::error::EditError;
use passthrough_cut::ffmpeg::{
    choose_encoder, concat_list_text, concat_segments, fallback_outcome, fallback_reencode_args,
    has_hevc_stream, reencode_args, reencode_outcome, stream_copy_args, stream_copy_outcome,
    tag_name, tmp_file, tmp_file_name, Platform, ReencodeNext,
};
use passthrough_cut::media::{parse_optional_text, parse_probe_streams, parse_u32};
use passthrough_cut::model::ProbeStream;
use passthrough_cut::smartcut::SegmentTag;
use passthrough_cut::text::{
    decimal_string, padded_string, parse_decimal, seconds_string, split_text, trim,
};

fn strs(v: &[&str]) -> Vec<String> {
    v.iter().map(|s| s.to_string()).collect()
}

#[test]
fn seconds_are_written_with_six_decimals() {
    assert_eq!(seconds_string(1_500_000), "1.500000");
    assert_eq!(seconds_string(0), "0.000000");
    assert_eq!(seconds_string(3_541_000), "3.541000");
    assert_eq!(seconds_string(-5), "-0.000005");
    assert_eq!(seconds_string(123_456_789_012), "123456.789012");
    assert_eq!(seconds_string(i64::MIN), "-9223372036854.775808");
}

#[test]
fn integers_are_written_in_decimal() {
    assert_eq!(decimal_string(0), "0");
    assert_eq!(decimal_string(1001), "1001");
    assert_eq!(decimal_string(u64::MAX), "18446744073709551615");
    assert_eq!(padded_string(7, 4), "0007");
    assert_eq!(padded_string(12345, 4), "2345");
}

#[test]
fn numbers_are_read_as_exact_fractions() {
    assert_eq!(parse_decimal("42"), Some((42, 0)));
    assert_eq!(parse_decimal("+42"), Some((42, 0)));
    assert_eq!(parse_decimal("-42"), Some((-42, 0)));
    assert_eq!(parse_decimal("29.97"), Some((2997, -2)));
    assert_eq!(parse_decimal(".5"), Some((5, -1)));
    assert_eq!(parse_decimal("5."), Some((5, 0)));
    assert_eq!(parse_decimal("-0.25"), Some((-25, -2)));
    assert_eq!(parse_decimal("2.997e1"), Some((2997, -2)));
    assert_eq!(parse_decimal("3E2"), Some((3, 2)));
    assert_eq!(parse_decimal("25e-1"), Some((25, -1)));
    assert_eq!(parse_decimal("1e19"), Some((1, 19)));
    assert_eq!(parse_decimal("20000000000000000000"), Some((20000000000000000000, 0)));
    assert_eq!(parse_decimal("0.0000000000000000001"), Some((1, -19)));
    assert_eq!(parse_decimal("1e-400"), Some((1, -400)));
    assert_eq!(parse_decimal("1e1000000000000000000"), Some((1, 1000000000000000000)));
    assert_eq!(parse_decimal("1e1000000000000000001"), None);
    assert_eq!(
        parse_decimal("1000000000000000000000000000000000000"),
        Some((1000000000000000000000000000000000000, 0))
    );
    assert_eq!(parse_decimal("1000000000000000000000000000000000001"), None);
    assert_eq!(parse_decimal("1.2.3"), None);
    assert_eq!(parse_decimal("4 2"), None);
    assert_eq!(parse_decimal("."), None);
    assert_eq!(parse_decimal("-"), None);
    assert_eq!(parse_decimal(""), None);
    assert_eq!(parse_decimal("1e"), None);
    assert_eq!(parse_decimal("inf"), None);
    assert_eq!(trim(" \t 12 \n\u{3000}"), "12");
    assert_eq!(trim("   "), "");
}

#[test]
fn stream_copy_command_line() {
    let args = stream_copy_args("/media/in.mp4", 1_500_000, 4_000_000, "/tmp/seg.mp4");
    assert_eq!(
        args,
        strs(&[
            "-y", "-ss", "1.500000", "-to", "4.000000", "-i", "/media/in.mp4", "-c", "copy",
            "-map", "0", "-vsync", "0", "-avoid_negative_ts", "make_zero", "-ignore_unknown",
            "-movflags", "+faststart", "/tmp/seg.mp4",
        ])
    );
}

#[test]
fn stream_copy_failure_names_the_segment() {
    assert!(stream_copy_outcome(true, "a.mp4", 0, 1).is_ok());
    match stream_copy_outcome(false, "a.mp4", 5, 9) {
        Err(EditError::StreamCopyFailed { source, start, end }) => {
            assert_eq!(source, "a.mp4");
            assert_eq!((start, end), (5, 9));
        }
        _ => panic!("expected StreamCopyFailed"),
    }
}

#[test]
fn encoder_follows_platform_and_codec() {
    let (v, o) = choose_encoder(Platform::Windows, true);
    assert_eq!(v, "hevc_nvenc");
    assert_eq!(o, strs(&["-cq", "14", "-preset", "p4", "-bf", "0"]));
    let (v, o) = choose_encoder(Platform::MacOs, false);
    assert_eq!(v, "h264_videotoolbox");
    assert_eq!(o, strs(&["-q:v", "60", "-bf", "0"]));
    let (v, _) = choose_encoder(Platform::Linux, true);
    assert_eq!(v, "hevc_vaapi");
    let (v, o) = choose_encoder(Platform::Other, true);
    assert_eq!(v, "libx265");
    assert_eq!(o, strs(&["-crf", "14", "-preset", "fast", "-x265-params", "bframes=0:keyint=1"]));
}

#[test]
fn reencode_command_line() {
    let args = reencode_args("in.mp4", 0, 2_000_000, "out.mp4", Platform::Linux, false);
    assert_eq!(
        args,
        strs(&[
            "-y", "-ss", "0.000000", "-to", "2.000000", "-i", "in.mp4", "-c:v", "h264_vaapi",
            "-qp", "14", "-bf", "0", "-c:a", "copy", "-vsync", "0", "-avoid_negative_ts",
            "make_zero", "-movflags", "+faststart", "out.mp4",
        ])
    );
    let args = fallback_reencode_args("in.mp4", 0, 2_000_000, "out.mp4");
    assert_eq!(
        args,
        strs(&[
            "-y", "-ss", "0.000000", "-to", "2.000000", "-i", "in.mp4", "-c:v", "libx264",
            "-crf", "14", "-preset", "fast", "-x264-params", "bframes=0:keyint=1", "-c:a",
            "copy", "-vsync", "0", "-avoid_negative_ts", "make_zero", "-movflags", "+faststart",
            "out.mp4",
        ])
    );
}

#[test]
fn failed_hardware_reencode_falls_back_to_libx264() {
    assert!(reencode_outcome(true, "h264_vaapi", "a", 0, 1).ok() == Some(ReencodeNext::Done));
    assert!(
        reencode_outcome(false, "h264_vaapi", "a", 0, 1).ok()
            == Some(ReencodeNext::RetryWithLibx264)
    );
    assert!(
        reencode_outcome(false, "libx265", "a", 0, 1).ok() == Some(ReencodeNext::RetryWithLibx264)
    );
    match reencode_outcome(false, "libx264", "a", 3, 4) {
        Err(EditError::ReencodeFailed { source, start, end }) => {
            assert_eq!((source.as_str(), start, end), ("a", 3, 4));
        }
        _ => panic!("expected ReencodeFailed"),
    }
    assert!(fallback_outcome(true, "a", 0, 1).is_ok());
    assert!(matches!(
        fallback_outcome(false, "a", 0, 1),
        Err(EditError::FallbackReencodeFailed { .. })
    ));
}

#[test]
fn hevc_sources_are_recognised() {
    let mk = |c: &str| ProbeStream {
        codec_type: "video".to_string(),
        codec_name: c.to_string(),
        width: None,
        height: None,
        r_frame_rate: None,
        avg_frame_rate: None,
    };
    assert!(has_hevc_stream(&[mk("aac"), mk("hevc")]));
    assert!(!has_hevc_stream(&[mk("h264"), mk("aac")]));
    assert!(!has_hevc_stream(&[]));
}

#[test]
fn concat_command_line_and_outcome() {
    let job = concat_segments("/tmp/x/concat.txt", "/out/final.mp4", "/media/first.mp4");
    assert_eq!(
        job.args,
        strs(&[
            "-y", "-f", "concat", "-safe", "0", "-i", "/tmp/x/concat.txt", "-i",
            "/media/first.mp4", "-c", "copy", "-vsync", "0", "-map_metadata", "1", "-map", "0",
            "-ignore_unknown", "-avoid_negative_ts", "make_zero", "-fflags", "+genpts",
            "-write_tmcd", "0", "-movflags", "+faststart", "/out/final.mp4",
        ])
    );
    assert_eq!(job.finish(true).ok().unwrap(), "/out/final.mp4");
    let job = concat_segments("/tmp/x/concat.txt", "/out/final.mp4", "/media/first.mp4");
    match job.finish(false) {
        Err(EditError::ConcatFailed { concat_list }) => assert_eq!(concat_list, "/tmp/x/concat.txt"),
        _ => panic!("expected ConcatFailed"),
    }
}

#[test]
fn concat_list_names_every_segment_in_order() {
    let files = strs(&["/tmp/a.mp4", "/tmp/b.mp4"]);
    assert_eq!(
        concat_list_text(&files),
        "ffconcat version 1.0\nfile '/tmp/a.mp4'\nfile '/tmp/b.mp4'\n"
    );
    assert_eq!(concat_list_text(&[]), "ffconcat version 1.0\n");
}

#[test]
fn temporary_file_names() {
    assert_eq!(tag_name(SegmentTag::ReencHead), "reenc_head");
    assert_eq!(tag_name(SegmentTag::CopyTail), "copy_tail");
    assert_eq!(tmp_file_name("copy_mid", "abc"), "copy_mid_abc.mp4");
    let a = tmp_file("copy_full");
    let b = tmp_file("copy_full");
    assert_eq!(a.len(), "copy_full_".len() + 36 + ".mp4".len());
    assert!(a.starts_with("copy_full_") && a.ends_with(".mp4"));
    let id = &a["copy_full_".len()..a.len() - 4];
    assert!(id.chars().all(|c| c == '-' || c.is_ascii_digit() || ('a'..='f').contains(&c)));
    let chars: Vec<char> = id.chars().collect();
    for i in [8, 13, 18, 23] {
        assert_eq!(chars[i], '-');
    }
    assert_eq!(chars[14], '4');
    assert!(matches!(chars[19], '8' | '9' | 'a' | 'b'));
    assert_ne!(a, b);
}

#[test]
fn texts_are_split_as_str_split_does() {
    assert_eq!(split_text("a,b,,c", ','), strs(&["a", "b", "", "c"]));
    assert_eq!(split_text("", ','), strs(&[""]));
    assert_eq!(split_text("x,", ','), strs(&["x", ""]));
}

#[test]
fn probe_values_are_read() {
    assert_eq!(parse_u32("1920"), Some(1920));
    assert_eq!(parse_u32("+7"), Some(7));
    assert_eq!(parse_u32("4294967295"), Some(u32::MAX));
    assert_eq!(parse_u32("4294967296"), None);
    assert_eq!(parse_u32("-1"), None);
    assert_eq!(parse_u32("+"), None);
    assert_eq!(parse_u32(""), None);
    assert_eq!(parse_optional_text(" 30/1 "), Some("30/1".to_string()));
    assert_eq!(parse_optional_text("N/A"), None);
    assert_eq!(parse_optional_text("  "), None);
}

#[test]
fn probe_listing_gives_one_stream_per_line() {
    let text = "codec_name=h264,codec_type=video,width=1920,height=1080,r_frame_rate=30000/1001,avg_frame_rate=N/A\r\n\ncodec_name=aac,codec_type=audio,width=N/A,height=,r_frame_rate=0/0,avg_frame_rate=0/0\nextra\n";
    let streams = parse_probe_streams(text);
    assert_eq!(streams.len(), 3);
    assert_eq!(streams[0].codec_type, "video");
    assert_eq!(streams[0].codec_name, "h264");
    assert_eq!(streams[0].width, Some(1920));
    assert_eq!(streams[0].height, Some(1080));
    assert_eq!(streams[0].r_frame_rate.as_deref(), Some("30000/1001"));
    assert_eq!(streams[0].avg_frame_rate, None);
    assert_eq!(streams[1].codec_type, "audio");
    assert_eq!(streams[1].width, None);
    assert_eq!(streams[1].height, None);
    assert_eq!(streams[1].r_frame_rate.as_deref(), Some("0/0"));
    assert_eq!(streams[2].codec_type, "");
    assert_eq!(streams[2].width, None);
    assert!(parse_probe_streams("").is_empty());
    assert!(parse_probe_streams(" \n\t\n").is_empty());
}
