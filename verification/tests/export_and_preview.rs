use passthrough_cut::error::EditError;
use passthrough_cut::export::{rate_or_default, ExportAction, ExportJob};
use passthrough_cut::ffmpeg::Platform;
use passthrough_cut::looping::{
    calculate_mse, extract_single_frame_args, frame_file_name, load_and_preprocess,
    loop_frame_time, loop_search_start, search_frames_args, LoopSearch, RgbFrame,
};
use passthrough_cut::media::probe_media;
use passthrough_cut::model::{Clip, ExportSettings, FrameRate, ProbeStream, Timeline};
use passthrough_cut::preview::{
    dunce_path, extract_frame, hwaccel_args, hwaccel_frame_args, hwaccel_frame_outcome,
    decode_value, jpeg_data_url, parse_preview_query, preview_frame, software_frame_args,
    software_frame_outcome,
};

fn strs(v: &[&str]) -> Vec<String> {
    v.iter().map(|s| s.to_string()).collect()
}

fn clip(path: &str, start: i64, end: i64) -> Clip {
    Clip { source_path: path.to_string(), start_time: start, end_time: end, z_index: 0, label: None }
}

fn settings() -> ExportSettings {
    ExportSettings {
        output_path: "/out/final.mp4".to_string(),
        force_smart_cut: false,
        optimize_for_looping: false,
        auto_trim_loop: false,
        container: None,
    }
}

#[test]
fn clip_duration_is_out_minus_in() {
    assert_eq!(clip("a", 1_000_000, 3_541_000).duration(), 2_541_000);
    assert_eq!(clip("a", i64::MIN, i64::MAX).duration(), u64::MAX as i128);
}

#[test]
fn empty_timeline_is_refused() {
    let t = Timeline { clips: vec![] };
    assert!(matches!(ExportJob::new(&t, &settings()), Err(EditError::EmptyTimeline)));
}

#[test]
fn export_steps_and_progress() {
    let t = Timeline { clips: vec![clip("/m/first.mp4", 0, 1), clip("/m/second.mp4", 0, 1)] };
    let mut job = ExportJob::new(&t, &settings()).ok().unwrap();
    assert_eq!(job.metadata_source, "/m/first.mp4");
    assert_eq!(job.output_path, "/out/final.mp4");
    let mut log = Vec::new();
    let mut percents: Vec<f64> = Vec::new();
    loop {
        match job.next_action() {
            ExportAction::Emit(e) => {
                percents.push(e.percent_num as f64 / e.percent_den as f64);
                log.push(format!("{} {}/{} {}", e.stage, e.percent_num, e.percent_den, e.message));
            }
            ExportAction::CutClip { index } => log.push(format!("cut {index}")),
            ExportAction::WriteConcatList => log.push("list".to_string()),
            ExportAction::RunConcat => log.push("concat".to_string()),
            ExportAction::Finished => break,
        }
        job.advance();
    }
    assert_eq!(
        log,
        vec![
            "prepare 0/1 Analysing clips\u{2026}",
            "segment 0/2 Processing clip 1/2",
            "cut 0",
            "segment 85/2 Processing clip 2/2",
            "cut 1",
            "concat 87/1 Concatenating segments\u{2026}",
            "list",
            "concat",
            "done 100/1 Export complete.",
        ]
    );
    assert!(percents.windows(2).all(|w| w[0] <= w[1]));
    assert_eq!(percents, vec![0.0, 0.0, 42.5, 87.0, 100.0]);
}

#[test]
fn clip_failure_keeps_position_source_and_cause() {
    let e = ExportJob::clip_failed(3, "/m/c.mp4", EditError::EmptyFrameOutput);
    match e {
        EditError::ClipFailed { index, source, cause } => {
            assert_eq!(index, 3);
            assert_eq!(source, "/m/c.mp4");
            assert!(matches!(*cause, EditError::EmptyFrameOutput));
        }
        _ => panic!("expected ClipFailed"),
    }
    let r = rate_or_default(Err(EditError::EmptyTimeline));
    assert_eq!((r.num, r.den), (30, 1));
    let r = rate_or_default(Ok(FrameRate { num: 24000, den: 1001, exp: 0 }));
    assert_eq!((r.num, r.den), (24000, 1001));
}

fn frame(width: u32, height: u32, pixels: Vec<u8>) -> RgbFrame {
    RgbFrame { width, height, pixels }
}

#[test]
fn mean_squared_error_over_shared_pixels() {
    let a = frame(2, 1, vec![0, 0, 0, 10, 10, 10]);
    let b = frame(2, 1, vec![1, 2, 3, 10, 10, 10]);
    let m = calculate_mse(&a, &b);
    assert_eq!((m.total, m.count), (14, 6));
    let m2 = calculate_mse(&b, &a);
    assert!(m == m2);
    assert_eq!(calculate_mse(&a, &a).total, 0);
    // Only the top-left 1x1 block is shared.
    let c = frame(1, 2, vec![3, 4, 5, 200, 200, 200]);
    let m = calculate_mse(&a, &c);
    assert_eq!((m.total, m.count), (50, 3));
    // Nothing is shared with an empty frame.
    let e = frame(0, 0, vec![]);
    let m = calculate_mse(&a, &e);
    assert_eq!((m.total, m.count), (0, 0));
}

#[test]
fn loop_search_keeps_first_least_error() {
    let reference = frame(1, 1, vec![100, 100, 100]);
    let mut s = LoopSearch::new(reference);
    assert_eq!(s.best_frame(), None);
    s.observe(&frame(0, 0, vec![]));
    assert_eq!(s.best_frame(), None);
    s.observe(&frame(1, 1, vec![110, 100, 100]));
    assert_eq!(s.best_frame(), Some(2));
    s.observe(&frame(1, 1, vec![101, 100, 100]));
    assert_eq!(s.best_frame(), Some(3));
    s.observe(&frame(1, 1, vec![100, 101, 100]));
    assert_eq!(s.best_frame(), Some(3));
    s.observe(&frame(1, 1, vec![150, 100, 100]));
    assert_eq!(s.best_frame(), Some(3));
    s.observe(&frame(1, 1, vec![100, 100, 100]));
    assert_eq!(s.best_frame(), Some(6));
    assert_eq!(s.frames_seen, 6);
}

#[test]
fn loop_search_window_and_frame_times() {
    // Ten seconds of source, five searched: the search starts at 5 s.
    assert_eq!(loop_search_start(10_000_000, 5_000_000), 5_000_000);
    // A search longer than the source starts at its beginning.
    assert_eq!(loop_search_start(3_000_000, 5_000_000), 0);
    assert_eq!(loop_search_start(i64::MAX, -1), i64::MAX);
    // The third searched frame at 25 fps lies two frames (80 ms) in.
    let r = FrameRate { num: 25, den: 1, exp: 0 };
    assert_eq!(loop_frame_time(5_000_000, 2, &r), Some(5_080_000));
    assert_eq!(loop_frame_time(5_000_000, 0, &r), Some(5_000_000));
    // 29.97 fps: one frame lasts 33 366.7 µs, rounded down.
    let r = FrameRate { num: 2997, den: 100, exp: 0 };
    assert_eq!(loop_frame_time(0, 1, &r), Some(33_366));
    let r = FrameRate { num: 2997, den: 1, exp: -2 };
    assert_eq!(loop_frame_time(0, 1, &r), Some(33_366));
    // 1e7 fps: frames of a tenth of a microsecond.
    let r = FrameRate { num: 1, den: 1, exp: 7 };
    assert_eq!(loop_frame_time(0, 25, &r), Some(2));
    let r = FrameRate { num: 1, den: 1, exp: 100 };
    assert_eq!(loop_frame_time(7, 1000, &r), Some(7));
    // 1e-3 fps: a frame lasts 1000 s.
    let r = FrameRate { num: 1, den: 1, exp: -3 };
    assert_eq!(loop_frame_time(0, 2, &r), Some(2_000_000_000));
    let r = FrameRate { num: -30, den: -1, exp: 0 };
    assert_eq!(loop_frame_time(0, 3, &r), Some(100_000));
    // No finite time at a rate that is not positive.
    assert_eq!(loop_frame_time(0, 1, &FrameRate { num: 0, den: 1, exp: 0 }), None);
    assert_eq!(loop_frame_time(0, 1, &FrameRate { num: -30, den: 1, exp: 0 }), None);
    assert_eq!(loop_frame_time(i64::MAX, 1, &FrameRate { num: 30, den: 1, exp: 0 }), None);
}

#[test]
fn loop_point_is_the_best_frame_or_the_end() {
    let r = FrameRate { num: 25, den: 1, exp: 0 };
    let mut s = LoopSearch::new(frame(1, 1, vec![100, 100, 100]));
    assert_eq!(s.loop_point(5_000_000, &r, 10_000_000), Some(10_000_000));
    s.observe(&frame(1, 1, vec![110, 100, 100]));
    s.observe(&frame(1, 1, vec![100, 100, 100]));
    assert_eq!(s.loop_point(5_000_000, &r, 10_000_000), Some(5_040_000));
    let z = FrameRate { num: 0, den: 1, exp: 0 };
    assert_eq!(s.loop_point(5_000_000, &z, 10_000_000), None);
}

#[test]
fn search_frame_names_and_command_lines() {
    assert_eq!(frame_file_name(1), "frame_0001.jpg");
    assert_eq!(frame_file_name(9999), "frame_9999.jpg");
    assert_eq!(frame_file_name(12345), "frame_12345.jpg");
    assert_eq!(
        extract_single_frame_args("in.mp4", 0),
        strs(&[
            "-y", "-ss", "0.000000", "-i", "in.mp4", "-frames:v", "1", "-vf", "scale=128:128",
            "-f", "image2", "-vcodec", "mjpeg", "pipe:1",
        ])
    );
    assert_eq!(
        search_frames_args("in.mp4", 7_250_000, "/tmp/f/frame_%04d.jpg"),
        strs(&[
            "-y", "-ss", "7.250000", "-i", "in.mp4", "-vf", "scale=128:128", "-q:v", "4",
            "/tmp/f/frame_%04d.jpg",
        ])
    );
}

#[test]
fn frames_are_decoded_from_jpeg() {
    let mut img = image::RgbImage::new(4, 2);
    for (x, y, p) in img.enumerate_pixels_mut() {
        *p = image::Rgb([(x * 60) as u8, (y * 100) as u8, 128]);
    }
    let mut bytes = Vec::new();
    image::codecs::jpeg::JpegEncoder::new_with_quality(&mut bytes, 100)
        .encode_image(&img)
        .unwrap();
    let f = load_and_preprocess(&bytes).ok().unwrap();
    assert_eq!((f.width, f.height), (4, 2));
    assert_eq!(f.pixels.len(), 4 * 2 * 3);
    assert!(matches!(load_and_preprocess(b"not an image"), Err(EditError::FrameDecode(_))));
}

#[test]
fn hardware_decoding_options_per_platform() {
    assert_eq!(hwaccel_args(Platform::Windows), vec!["-hwaccel", "d3d12va", "-hwaccel_output_format", "d3d12"]);
    assert_eq!(
        hwaccel_args(Platform::Linux),
        vec!["-hwaccel", "vaapi", "-vaapi_device", "/dev/dri/renderD128", "-hwaccel_output_format", "vaapi"]
    );
    assert!(hwaccel_args(Platform::MacOs).is_empty());
    assert!(hwaccel_args(Platform::Other).is_empty());
}

#[test]
fn frame_extraction_command_lines() {
    assert!(hwaccel_frame_args(Platform::MacOs, "in.mp4", 0).is_none());
    assert_eq!(
        hwaccel_frame_args(Platform::Linux, "in.mp4", 1_234_000).unwrap(),
        strs(&[
            "-hwaccel", "vaapi", "-vaapi_device", "/dev/dri/renderD128", "-hwaccel_output_format",
            "vaapi", "-ss", "1.234000", "-i", "in.mp4", "-frames:v", "1", "-c:v", "mjpeg_vaapi",
            "-f", "image2", "pipe:1",
        ])
    );
    assert_eq!(
        hwaccel_frame_args(Platform::Windows, "in.mp4", 0).unwrap(),
        strs(&[
            "-hwaccel", "d3d12va", "-hwaccel_output_format", "d3d12", "-ss", "0.000000", "-i",
            "in.mp4", "-frames:v", "1", "-vf", "hwdownload,format=nv12", "-c:v", "mjpeg", "-f",
            "image2", "-q:v", "4", "pipe:1",
        ])
    );
    assert_eq!(
        software_frame_args("in.mp4", 2_000_001),
        strs(&[
            "-ss", "2.000001", "-i", "in.mp4", "-frames:v", "1", "-f", "image2", "-vcodec",
            "mjpeg", "-q:v", "4", "pipe:1",
        ])
    );
}

#[test]
fn frame_extraction_outcomes() {
    assert_eq!(hwaccel_frame_outcome(Ok(vec![1, 2])).ok(), Some(vec![1, 2]));
    assert!(matches!(hwaccel_frame_outcome(Ok(vec![])), Err(EditError::EmptyFrameOutput)));
    match hwaccel_frame_outcome(Err("no such file".to_string())) {
        Err(EditError::Spawn { context, detail }) => {
            assert_eq!(context, "hwaccel frame extract spawn failed");
            assert_eq!(detail, "no such file");
        }
        _ => panic!("expected Spawn"),
    }
    assert_eq!(extract_frame(Ok(vec![9])), Some(vec![9]));
    assert_eq!(extract_frame(Ok(vec![])), None);
    assert_eq!(extract_frame(Err(EditError::EmptyFrameOutput)), None);
    assert_eq!(software_frame_outcome(Ok((vec![7], String::new()))).ok(), Some(vec![7]));
    match software_frame_outcome(Ok((vec![], "bad input".to_string()))) {
        Err(EditError::NoFrameData { stderr }) => assert_eq!(stderr, "bad input"),
        _ => panic!("expected NoFrameData"),
    }
    match software_frame_outcome(Err("denied".to_string())) {
        Err(EditError::Spawn { context, .. }) => {
            assert_eq!(context, "software frame extract spawn failed")
        }
        _ => panic!("expected Spawn"),
    }
}

#[test]
fn preview_frames_become_jpeg_data_urls() {
    assert_eq!(preview_frame(&[0, 1, 2]), "data:image/jpeg;base64,AAEC");
    assert_eq!(preview_frame(&[0xff, 0xd8]), "data:image/jpeg;base64,/9g=");
    assert_eq!(preview_frame(&[]), "data:image/jpeg;base64,");
    assert_eq!(preview_frame(b"Man"), "data:image/jpeg;base64,TWFu");
    assert_eq!(preview_frame(b"Ma"), "data:image/jpeg;base64,TWE=");
    assert_eq!(preview_frame(b"M"), "data:image/jpeg;base64,TQ==");
    assert_eq!(preview_frame(&[0xfb, 0xef, 0xbe]), "data:image/jpeg;base64,++++");
    assert_eq!(preview_frame(&[0xff, 0xff, 0xff]), "data:image/jpeg;base64,////");
    assert_eq!(jpeg_data_url("QQ=="), "data:image/jpeg;base64,QQ==");
}

#[test]
fn values_without_percent_are_kept() {
    assert_eq!(decode_value("a b+c.mp4"), "a b+c.mp4");
    assert_eq!(decode_value("%2Fx"), "/x");
    assert_eq!(decode_value("bad%ff"), "bad%ff");
    let q = parse_preview_query("path=C:\\v\\a+b.mp4&ts=0.5");
    assert_eq!(q.path, "C:\\v\\a+b.mp4");
    assert_eq!(q.ts.as_deref(), Some("0.5"));
}

#[test]
fn preview_query_is_read_pair_by_pair() {
    let q = parse_preview_query("path=%2Fhome%2Fme%2Fa%20b.mp4&ts=1.234");
    assert_eq!(q.path, "/home/me/a b.mp4");
    assert_eq!(q.ts.as_deref(), Some("1.234"));
    assert!(!q.is_bad_request());
    let q = parse_preview_query("ts=2&path=x.mp4&ts=3&junk&other=1");
    assert_eq!(q.path, "x.mp4");
    assert_eq!(q.ts.as_deref(), Some("3"));
    let q = parse_preview_query("ts=2");
    assert!(q.is_bad_request());
    let q = parse_preview_query("");
    assert!(q.is_bad_request());
    assert_eq!(q.ts, None);
    // Bytes that do not decode to UTF-8 leave the value as it stands.
    let q = parse_preview_query("path=a%ff.mp4");
    assert_eq!(q.path, "a%ff.mp4");
    // Only the text up to a second '=' is the value.
    let q = parse_preview_query("path=a=b");
    assert_eq!(q.path, "a");
}

#[test]
fn extended_length_prefix_is_stripped() {
    assert_eq!(dunce_path("\\\\?\\C:\\ffmpeg\\bin\\ffmpeg.exe"), "C:\\ffmpeg\\bin\\ffmpeg.exe");
    assert_eq!(dunce_path("/usr/bin/ffmpeg"), "/usr/bin/ffmpeg");
    assert_eq!(dunce_path("\\\\?"), "\\\\?");
}

#[test]
fn media_info_from_probe() {
    let mk = |kind: &str, codec: &str, w: Option<u32>, r: Option<&str>| ProbeStream {
        codec_type: kind.to_string(),
        codec_name: codec.to_string(),
        width: w,
        height: w.map(|x| x / 2),
        r_frame_rate: r.map(|s| s.to_string()),
        avg_frame_rate: None,
    };
    let streams = vec![mk("audio", "aac", None, None), mk("video", "hevc", Some(3840), Some("60000/1001"))];
    let info = probe_media("/m/a.mov", &streams, 12_500_000);
    assert_eq!(info.path, "/m/a.mov");
    assert_eq!(info.duration, 12_500_000);
    assert_eq!((info.fps.num, info.fps.den), (60000, 1001));
    assert_eq!((info.width, info.height), (3840, 1920));
    assert_eq!(info.codec, "hevc");
    assert!(info.has_audio);
    let info = probe_media("/m/b.wav", &[mk("audio", "pcm", None, None)], 0);
    assert_eq!((info.width, info.height), (0, 0));
    assert_eq!(info.codec, "unknown");
    assert_eq!((info.fps.num, info.fps.den), (30, 1));
    assert!(info.has_audio);
    let info = probe_media("/m/c.mp4", &[mk("video", "h264", None, None)], 0);
    assert!(!info.has_audio);
    assert_eq!((info.width, info.height), (0, 0));
}
