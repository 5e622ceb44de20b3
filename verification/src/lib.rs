//! Smart-cut video export planning: which parts of a clip are stream-copied
//! and which are re-encoded, the FFmpeg command lines that carry the plan out,
//! and the small parsers and selections around them.

pub mod base64_text;
pub mod error;
pub mod export;
pub mod ffmpeg;
pub mod looping;
pub mod media;
pub mod model;
pub mod preview;
pub mod rate;
pub mod smartcut;
pub mod text;
