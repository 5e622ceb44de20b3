# passthrough_cut

Export planning for a smart-cut video editor: clips are cut out of their
sources by stream copy wherever the cut points fall on keyframes, and only
the stretches at unaligned cut points are re-encoded; the segments are then
joined with FFmpeg's concat demuxer.

The library in `src/` is written in Verus and verified:

- `smartcut` — the cut plan of a clip (`cut_plan`) and the step-by-step
  `ClipCut` that follows it; laws on the plan (the segments tile the clip,
  unaligned cut points are re-encoded, aligned clips are one stream copy).
- `export` — the export of a timeline step by step (`ExportJob`); progress
  never goes backwards and each clip is cut once, in order.
- `ffmpeg` — the FFmpeg command lines for copying, re-encoding (with the
  platform's encoder and the software fallback) and joining, the concat list,
  and the temporary file names.
- `looping` — the mean squared error between frames (within 0..=65025),
  the search for the frame that best matches a video's first frame, the
  search window, and the loop point it answers.
- `preview` — frame extraction command lines, the JPEG data URL, the
  `preview://` query parser and the Windows path prefix stripper.
- `base64_text` — standard base64 as the data URLs carry it, and the law
  that decoding it gives the bytes back.
- `rate` — frame rates read exactly from their "num/den" text, each side a
  number in decimal notation with a mantissa of up to 36 digits and an
  exponent of up to 10^18 in size (an `f64` keeps about 17 digits); the
  keyframe decisions at half-frame tolerance (is a time on a keyframe, which
  keyframe follows or precedes it).
- `media`, `text`, `model`, `error` — ffprobe's stream listing and file
  metadata, text rendering and parsing, the data model and the errors.

Times are integers in microseconds, the resolution at which they are written
into FFmpeg command lines.

`app/` holds the desktop side: running FFmpeg and ffprobe, temporary files,
floating-point seconds, and the commands the user interface calls.
