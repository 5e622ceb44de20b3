use passthrough_cut::model::{FrameRate, ProbeStream};
use passthrough_cut::rate::{
    detect_fps, keyframe_aligned, keyframe_counts_as_following, last_keyframe_at_or_before,
    nearest_following_keyframe, parse_rate_fraction,
};
use passthrough_cut::smartcut::{ClipCut, CutAction, CutMode, CutStage, Segment, SegmentTag};
use passthrough_cut::error::EditError;

fn rate(num: i128, den: i128) -> FrameRate {
    FrameRate { num, den, exp: 0 }
}

fn seg(mode: CutMode, tag: SegmentTag, start: i64, end: i64) -> Segment {
    Segment { mode, tag, start, end }
}

fn stream(kind: &str, codec: &str, r: Option<&str>, avg: Option<&str>) -> ProbeStream {
    ProbeStream {
        codec_type: kind.to_string(),
        codec_name: codec.to_string(),
        width: Some(1920),
        height: Some(1080),
        r_frame_rate: r.map(|s| s.to_string()),
        avg_frame_rate: avg.map(|s| s.to_string()),
    }
}

fn parts(r: &FrameRate) -> (i128, i128, i128) {
    (r.num, r.den, r.exp)
}

#[test]
fn rate_fraction_reads_numerator_and_denominator() {
    assert_eq!(parts(&parse_rate_fraction("30000/1001")), (30000, 1001, 0));
    assert_eq!(parts(&parse_rate_fraction(" 25 / 1 ")), (25, 1, 0));
    assert_eq!(parts(&parse_rate_fraction("24")), (24, 1, 0));
    assert_eq!(parts(&parse_rate_fraction("24/1/5")), (24, 1, 0));
}

#[test]
fn rate_fraction_reads_decimals_exactly() {
    assert_eq!(parts(&parse_rate_fraction("29.97")), (2997, 1, -2));
    assert_eq!(parts(&parse_rate_fraction(" 60 / 2 ")), (60, 2, 0));
    assert_eq!(parts(&parse_rate_fraction("23.976/1")), (23976, 1, -3));
    assert_eq!(parts(&parse_rate_fraction("30000/1001.0")), (30000, 10010, 1));
    assert_eq!(parts(&parse_rate_fraction("2.5e1/0.5")), (25, 5, 1));
    assert_eq!(parts(&parse_rate_fraction("1e19")), (1, 1, 19));
    assert_eq!(parts(&parse_rate_fraction("20000000000000000000/1")), (20000000000000000000, 1, 0));
    assert_eq!(parts(&parse_rate_fraction("0.0000000000000000001/1")), (1, 1, -19));
    assert_eq!(parts(&parse_rate_fraction("25/0.0")), (30, 1, 0));
}

#[test]
fn rate_fraction_falls_back() {
    assert_eq!(parts(&parse_rate_fraction("0/0")), (30, 1, 0));
    assert_eq!(parts(&parse_rate_fraction("abc/2")), (30, 2, 0));
    assert_eq!(parts(&parse_rate_fraction("60/x")), (60, 1, 0));
    assert_eq!(parts(&parse_rate_fraction("")), (30, 1, 0));
    assert_eq!(parts(&parse_rate_fraction("-5/-1")), (-5, -1, 0));
}

#[test]
fn detect_fps_uses_first_video_stream() {
    let streams = vec![
        stream("audio", "aac", Some("0/0"), None),
        stream("video", "h264", None, Some("25/1")),
        stream("video", "hevc", Some("50/1"), None),
    ];
    let r = detect_fps("a.mp4", &streams).ok().unwrap();
    assert_eq!((r.num, r.den), (25, 1));
    let streams = vec![stream("video", "h264", None, None)];
    let r = detect_fps("a.mp4", &streams).ok().unwrap();
    assert_eq!((r.num, r.den), (30, 1));
}

#[test]
fn detect_fps_without_video_is_an_error() {
    let streams = vec![stream("audio", "aac", None, None)];
    match detect_fps("song.m4a", &streams) {
        Err(EditError::NoVideoStream { source }) => assert_eq!(source, "song.m4a"),
        _ => panic!("expected NoVideoStream"),
    }
}

#[test]
fn keyframe_tolerance_is_half_a_frame() {
    // At 30 fps half a frame is 16 666.7 µs.
    let r = rate(30, 1);
    assert!(keyframe_counts_as_following(1_000_000, 1_000_000, &r));
    assert!(keyframe_counts_as_following(990_000, 1_000_000, &r));
    assert!(keyframe_counts_as_following(983_334, 1_000_000, &r));
    assert!(!keyframe_counts_as_following(983_333, 1_000_000, &r));
    // A rate of zero uses 42 ms frames: 21 ms of tolerance.
    let z = rate(0, 1);
    assert!(keyframe_counts_as_following(979_000, 1_000_000, &z));
    assert!(!keyframe_counts_as_following(978_999, 1_000_000, &z));
}

#[test]
fn following_keyframe_is_first_within_tolerance() {
    let r = rate(30, 1);
    let kfs = vec![500_000, 980_000, 1_000_000, 2_000_000];
    assert_eq!(nearest_following_keyframe(&kfs, 1_000_000, &r), Some(1_000_000));
    let kfs = vec![990_000, 2_000_000];
    assert_eq!(nearest_following_keyframe(&kfs, 1_000_000, &r), Some(990_000));
    let kfs = vec![100_000];
    assert_eq!(nearest_following_keyframe(&kfs, 1_000_000, &r), None);
}

#[test]
fn alignment_is_a_keyframe_within_half_a_frame() {
    let r = rate(30, 1);
    assert!(keyframe_aligned(&[1_010_000], 1_000_000, &r));
    assert!(keyframe_aligned(&[500_000, 983_334], 1_000_000, &r));
    assert!(keyframe_aligned(&[1_016_666], 1_000_000, &r));
    assert!(!keyframe_aligned(&[1_016_667, 983_333], 1_000_000, &r));
    assert!(!keyframe_aligned(&[], 1_000_000, &r));
    // 29.97 fps: half a frame is 16 683.35 µs.
    let r = FrameRate { num: 2997, den: 1, exp: -2 };
    assert!(keyframe_aligned(&[1_016_683], 1_000_000, &r));
    assert!(!keyframe_aligned(&[1_016_684], 1_000_000, &r));
}

#[test]
fn tolerance_follows_the_rate_exponent() {
    // 1e19 fps: half a frame is far below a microsecond.
    let fast = FrameRate { num: 1, den: 1, exp: 19 };
    assert!(keyframe_counts_as_following(1_000_000, 1_000_000, &fast));
    assert!(!keyframe_counts_as_following(999_999, 1_000_000, &fast));
    // 1e-19 fps: a frame lasts 1e19 s, so any keyframe before counts.
    let slow = FrameRate { num: 1, den: 1, exp: -19 };
    assert!(keyframe_counts_as_following(i64::MIN, i64::MAX, &slow));
    // 3e2 fps in exponent form: half a frame is 1 666.7 µs.
    let r = FrameRate { num: 3, den: 1, exp: 2 };
    assert!(keyframe_counts_as_following(998_334, 1_000_000, &r));
    assert!(!keyframe_counts_as_following(998_333, 1_000_000, &r));
    // 3e7 fps: 1/60 µs of tolerance.
    let r = FrameRate { num: 3, den: 1, exp: 7 };
    assert!(!keyframe_counts_as_following(999_999, 1_000_000, &r));
    let r = FrameRate { num: 1, den: 1, exp: 60 };
    assert!(!keyframe_counts_as_following(999_999, 1_000_000, &r));
}

#[test]
fn preceding_keyframe_is_the_last_at_or_before() {
    assert_eq!(last_keyframe_at_or_before(&[2_000_000, 4_000_000, 6_000_000], 5_000_000), Some(4_000_000));
    assert_eq!(last_keyframe_at_or_before(&[2_000_000, 5_000_000], 5_000_000), Some(5_000_000));
    assert_eq!(last_keyframe_at_or_before(&[6_000_000], 5_000_000), None);
    assert_eq!(last_keyframe_at_or_before(&[], 5_000_000), None);
}

#[test]
fn a_failed_run_stops_the_cut() {
    let mut c = ClipCut::new(1_500_000, 7_500_000, rate(30, 1), false);
    c.record_alignment(true);
    c.record_alignment(true);
    assert!(matches!(c.next_action(), CutAction::Write(_)));
    c.record_failure();
    assert!(c.stage == CutStage::Failed);
    assert!(matches!(c.next_action(), CutAction::Stopped));
    assert_eq!(c.issued.len(), 1);
}

#[test]
fn a_new_cut_starts_at_the_in_point() {
    let c = ClipCut::new(1_500_000, 7_500_000, rate(30, 1), false);
    assert_eq!(c.cur, 1_500_000);
    assert_eq!(c.start, 1_500_000);
    assert_eq!(c.end, 7_500_000);
}

/// Drives a cut with the given probe answers and returns the actions and the
/// segments handed out.
fn drive(
    start: i64,
    end: i64,
    force: bool,
    start_aligned: bool,
    end_aligned: bool,
    keyframes: Vec<i64>,
    preceding: Option<i64>,
) -> (Vec<String>, Vec<Segment>) {
    let mut c = ClipCut::new(start, end, rate(30, 1), force);
    let mut log = Vec::new();
    let mut probes = 0;
    loop {
        match c.next_action() {
            CutAction::ProbeAlignment { time } => {
                log.push(format!("probe {time}"));
                let a = if probes == 0 { start_aligned } else { end_aligned };
                probes += 1;
                c.record_alignment(a);
            }
            CutAction::ListKeyframes { from, to } => {
                log.push(format!("list {from} {to}"));
                c.record_keyframes(&keyframes);
            }
            CutAction::FindPrecedingKeyframe { time, window } => {
                log.push(format!("preceding {time} {window}"));
                c.record_preceding(preceding);
            }
            CutAction::Write(s) => {
                log.push(format!("write {} {}", s.start, s.end));
                c.record_written();
            }
            CutAction::Finished => break,
            CutAction::Stopped => panic!("no run failed"),
        }
    }
    assert!(c.stage == CutStage::Done);
    (log, c.issued.clone())
}

#[test]
fn aligned_clip_is_one_stream_copy() {
    let (log, segs) = drive(1_000_000, 5_000_000, false, true, true, vec![], None);
    assert_eq!(log, vec!["probe 1000000", "probe 5000000", "write 1000000 5000000"]);
    assert!(segs == vec![seg(CutMode::StreamCopy, SegmentTag::CopyFull, 1_000_000, 5_000_000)]);
}

#[test]
fn unaligned_start_reencodes_head_then_copies() {
    let (log, segs) =
        drive(1_500_000, 10_000_000, false, false, true, vec![2_000_000, 4_000_000], None);
    assert_eq!(
        log,
        vec![
            "probe 1500000",
            "probe 10000000",
            "list 1500000 5500000",
            "write 1500000 2000000",
            "write 2000000 10000000",
        ]
    );
    assert!(
        segs == vec![
            seg(CutMode::Reencode, SegmentTag::ReencHead, 1_500_000, 2_000_000),
            seg(CutMode::StreamCopy, SegmentTag::CopyTail, 2_000_000, 10_000_000),
        ]
    );
}

#[test]
fn unaligned_both_ends_copy_the_middle() {
    let (log, segs) =
        drive(1_500_000, 10_000_000, false, false, false, vec![2_000_000], Some(8_000_000));
    assert_eq!(
        log,
        vec![
            "probe 1500000",
            "probe 10000000",
            "list 1500000 5500000",
            "write 1500000 2000000",
            "preceding 10000000 10000000",
            "write 2000000 8000000",
            "write 8000000 10000000",
        ]
    );
    assert!(
        segs == vec![
            seg(CutMode::Reencode, SegmentTag::ReencHead, 1_500_000, 2_000_000),
            seg(CutMode::StreamCopy, SegmentTag::CopyMid, 2_000_000, 8_000_000),
            seg(CutMode::Reencode, SegmentTag::ReencTail, 8_000_000, 10_000_000),
        ]
    );
}

#[test]
fn keyframe_too_close_to_the_end_reencodes_everything() {
    let (_, segs) = drive(1_000_000, 2_000_000, false, false, false, vec![1_995_000], None);
    assert!(segs == vec![seg(CutMode::Reencode, SegmentTag::ReencAll, 1_000_000, 2_000_000)]);
    let (_, segs) = drive(1_000_000, 2_000_000, false, false, true, vec![], None);
    assert!(segs == vec![seg(CutMode::Reencode, SegmentTag::ReencAll, 1_000_000, 2_000_000)]);
}

#[test]
fn unaligned_end_without_preceding_keyframe_reencodes_tail() {
    let (log, segs) = drive(0, 3_000_000, false, true, false, vec![], None);
    assert_eq!(log, vec!["probe 0", "probe 3000000", "preceding 3000000 10000000", "write 0 3000000"]);
    assert!(segs == vec![seg(CutMode::Reencode, SegmentTag::ReencTail, 0, 3_000_000)]);
    // A preceding keyframe within 10 ms of the current position is not copied up to.
    let (_, segs) = drive(0, 3_000_000, false, true, false, vec![], Some(5_000));
    assert!(segs == vec![seg(CutMode::Reencode, SegmentTag::ReencTail, 0, 3_000_000)]);
}

#[test]
fn forced_smart_cut_probes_nothing_and_reencodes_both_ends() {
    let (log, segs) = drive(0, 9_000_000, true, true, true, vec![0, 4_000_000], Some(8_000_000));
    assert_eq!(log[0], "list 0 4000000");
    assert_eq!(segs.len(), 3);
    assert!(segs[0].mode == CutMode::Reencode);
    assert!(segs[2].mode == CutMode::Reencode);
    assert!(segs[1] == seg(CutMode::StreamCopy, SegmentTag::CopyMid, 0, 8_000_000));
}

#[test]
fn segments_tile_the_clip() {
    let cases = vec![
        (true, true, vec![], None),
        (false, true, vec![2_000_000], None),
        (false, false, vec![2_000_000], Some(7_000_000)),
        (true, false, vec![], Some(7_000_000)),
        (false, false, vec![], None),
    ];
    for (sa, ea, kfs, pk) in cases {
        let (_, segs) = drive(1_000_000, 9_000_000, false, sa, ea, kfs, pk);
        assert!(!segs.is_empty());
        assert_eq!(segs[0].start, 1_000_000);
        assert_eq!(segs[segs.len() - 1].end, 9_000_000);
        for w in segs.windows(2) {
            assert_eq!(w[0].end, w[1].start);
        }
    }
}

#[test]
fn head_window_saturates() {
    let mut c = ClipCut::new(i64::MAX - 1, i64::MAX, rate(30, 1), true);
    match c.next_action() {
        CutAction::ListKeyframes { from, to } => {
            assert_eq!(from, i64::MAX - 1);
            assert_eq!(to, i64::MAX);
        }
        _ => panic!("expected a keyframe listing"),
    }
    c.record_keyframes(&[]);
    assert!(c.stage == CutStage::LastWritten);
}
