//! The data that the editor hands to the export engine, and what a probe of
//! a media file reports. Times are integers in microseconds: the resolution
//! at which they are written into FFmpeg command lines.

use vstd::prelude::*;

verus! {

/// A single segment of source media on the timeline.
pub struct Clip {
    /// Absolute path to the source file.
    pub source_path: String,
    /// Trim in-point, in microseconds.
    pub start_time: i64,
    /// Trim out-point, in microseconds.
    pub end_time: i64,
    /// Track layer (0 = primary video track).
    pub z_index: u32,
    /// Optional clip label shown in the UI.
    pub label: Option<String>,
}

impl Clip {
    /// The clip's length in microseconds: out-point minus in-point.
    pub fn duration(&self) -> (d: i128)
        ensures
            d == self.end_time - self.start_time,
    {
        self.end_time as i128 - self.start_time as i128
    }
}

/// The ordered, single-track timeline passed from the frontend.
pub struct Timeline {
    /// Clips in display/playback order.
    pub clips: Vec<Clip>,
}

/// User-facing export configuration.
pub struct ExportSettings {
    /// Absolute path for the output file, meant to end in .mp4 or .mkv. The
    /// export does not check the extension: FFmpeg picks the container from
    /// it.
    pub output_path: String,
    /// If true, force re-encode at every cut regardless of keyframe alignment.
    /// Useful for frame-perfect trim on variable GOP sources.
    pub force_smart_cut: bool,
    /// A request for an export meant for gapless looping. The export reads
    /// no further setting from it: frames always pass through with their own
    /// timestamps.
    pub optimize_for_looping: bool,
    /// A request to trim the end point to the best matching loop frame. The
    /// export does not act on it; the loop point is offered separately, by
    /// the loop-point search.
    pub auto_trim_loop: bool,
    /// A container name. The export does not act on it: the container
    /// follows the output path's extension.
    pub container: Option<String>,
}

/// One stream of a media file as the probe reports it.
pub struct ProbeStream {
    /// "video", "audio", "subtitle", ...
    pub codec_type: String,
    /// "h264", "hevc", "aac", ...
    pub codec_name: String,
    pub width: Option<u32>,
    pub height: Option<u32>,
    /// Real base frame rate as a "num/den" fraction.
    pub r_frame_rate: Option<String>,
    /// Average frame rate as a "num/den" fraction.
    pub avg_frame_rate: Option<String>,
}

/// A frame rate kept exactly as `num / den * 10^exp` frames per second.
pub struct FrameRate {
    pub num: i128,
    pub den: i128,
    pub exp: i128,
}

} // verus!
