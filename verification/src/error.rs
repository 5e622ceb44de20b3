//! What can go wrong while planning and finishing an export.

use vstd::prelude::*;

verus! {

/// Why an export step, a probe reading or a frame extraction failed.
/// Times are in microseconds.
pub enum EditError {
    /// The timeline has no clips.
    EmptyTimeline,
    /// The probed file has no video stream.
    NoVideoStream { source: String },
    /// FFmpeg failed to stream-copy `[start, end]` of `source`.
    StreamCopyFailed { source: String, start: i64, end: i64 },
    /// Re-encoding `[start, end]` of `source` failed with libx264 itself.
    ReencodeFailed { source: String, start: i64, end: i64 },
    /// The software re-encode that followed a failed hardware one failed too.
    FallbackReencodeFailed { source: String, start: i64, end: i64 },
    /// The final join failed; `concat_list` is the list it was given.
    ConcatFailed { concat_list: String },
    /// Cutting the clip at `index` (of source `source`) failed.
    ClipFailed { index: usize, source: String, cause: Box<EditError> },
    /// An extracted frame could not be decoded.
    FrameDecode(image::ImageError),
    /// A program could not be started; `context` says which step, `detail`
    /// why.
    Spawn { context: String, detail: String },
    /// The platform has no hardware-accelerated decoding.
    NoHwaccel,
    /// The hardware frame extraction wrote nothing.
    EmptyFrameOutput,
    /// The software frame extraction wrote nothing; `stderr` is FFmpeg's
    /// error output.
    NoFrameData { stderr: String },
}

} // verus!
