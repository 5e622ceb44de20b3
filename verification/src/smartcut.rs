//! The smart-cut rule for one clip: stream-copy what lies between keyframes,
//! re-encode only the stretches at unaligned cut points.
//!
//! `cut_plan` states the segments that a clip is cut into, given what the
//! probes report. `ClipCut` walks through the same decisions one probe at a
//! time, in the order in which the probes and the FFmpeg runs take place:
//! the caller performs each action it names and reports the answer back.

use vstd::prelude::*;
use crate::model::FrameRate;
use crate::rate::{first_following_from, nearest_following_keyframe};

verus! {

/// Cut points closer than this (10 ms, in microseconds) to a boundary are
/// treated as lying on it.
pub const MIN_GAP: i64 = 10_000;

/// How far after an unaligned in-point keyframes are looked for (4 s).
pub const HEAD_SEARCH_WINDOW: i64 = 4_000_000;

/// How far before an unaligned out-point the preceding keyframe is looked
/// for (10 s).
pub const TAIL_SEARCH_WINDOW: i64 = 10_000_000;

/// How a segment is produced.
#[derive(PartialEq, Eq, Structural, Clone, Copy)]
pub enum CutMode {
    /// Copied without re-encoding.
    StreamCopy,
    /// Re-encoded.
    Reencode,
}

/// Which part of the clip a segment is; it names the segment's file.
#[derive(PartialEq, Eq, Structural, Clone, Copy)]
pub enum SegmentTag {
    CopyFull,
    ReencHead,
    ReencAll,
    CopyMid,
    ReencTail,
    CopyTail,
}

/// A stretch `[start, end]` of the source (microseconds) and how it is
/// produced.
#[derive(PartialEq, Eq, Structural, Clone, Copy)]
pub struct Segment {
    pub mode: CutMode,
    pub tag: SegmentTag,
    pub start: i64,
    pub end: i64,
}

pub open spec fn seg(mode: CutMode, tag: SegmentTag, start: i64, end: i64) -> Segment {
    Segment { mode, tag, start, end }
}

/// Whether the first keyframe after an unaligned in-point lies far enough
/// before the out-point for the head alone to be re-encoded.
pub open spec fn head_fits(end: i64, following: Option<i64>) -> bool {
    following is Some && following->0 < end - MIN_GAP
}

/// The segments from `cur` to the out-point `end`.
pub open spec fn tail_cuts(cur: i64, end: i64, end_aligned: bool, preceding: Option<i64>) -> Seq<
    Segment,
> {
    if !end_aligned {
        if preceding is Some && preceding->0 > cur + MIN_GAP {
            seq![
                seg(CutMode::StreamCopy, SegmentTag::CopyMid, cur, preceding->0),
                seg(CutMode::Reencode, SegmentTag::ReencTail, preceding->0, end),
            ]
        } else {
            seq![seg(CutMode::Reencode, SegmentTag::ReencTail, cur, end)]
        }
    } else if end > cur + MIN_GAP {
        seq![seg(CutMode::StreamCopy, SegmentTag::CopyTail, cur, end)]
    } else {
        seq![]
    }
}

/// The segments that a clip `[start, end]` is cut into.
///
/// * Both cut points on keyframes: one stream copy of the whole clip.
/// * In-point off a keyframe: re-encode from it to the first following
///   keyframe `following` and go on from there; when there is no such
///   keyframe, or it lies within 10 ms of the out-point or beyond, the whole
///   clip is re-encoded.
/// * Out-point off a keyframe: stream-copy up to the keyframe `preceding`
///   that precedes it (when that lies more than 10 ms ahead) and re-encode
///   from there to the out-point.
/// * Out-point on a keyframe: stream-copy the rest, unless less than 10 ms
///   remain.
pub open spec fn cut_plan(
    start: i64,
    end: i64,
    start_aligned: bool,
    end_aligned: bool,
    following: Option<i64>,
    preceding: Option<i64>,
) -> Seq<Segment> {
    if start_aligned && end_aligned {
        seq![seg(CutMode::StreamCopy, SegmentTag::CopyFull, start, end)]
    } else if !start_aligned {
        if head_fits(end, following) {
            seq![seg(CutMode::Reencode, SegmentTag::ReencHead, start, following->0)]
                + tail_cuts(following->0, end, end_aligned, preceding)
        } else {
            seq![seg(CutMode::Reencode, SegmentTag::ReencAll, start, end)]
        }
    } else {
        tail_cuts(start, end, end_aligned, preceding)
    }
}

/// The segments of a clip tile it: there is at least one; the first begins
/// at the in-point, the last ends at the out-point, and each begins where
/// the one before it ends. This holds whatever the probes report.
pub proof fn lemma_cut_plan_tiles_clip(
    start: i64,
    end: i64,
    start_aligned: bool,
    end_aligned: bool,
    following: Option<i64>,
    preceding: Option<i64>,
)
    ensures
        ({
            let p = cut_plan(start, end, start_aligned, end_aligned, following, preceding);
            &&& p.len() >= 1
            &&& p[0].start == start
            &&& p.last().end == end
            &&& forall|i: int| 0 <= i < p.len() - 1 ==> #[trigger] p[i].end == p[i + 1].start
        }),
{
    let p = cut_plan(start, end, start_aligned, end_aligned, following, preceding);
    if !(start_aligned && end_aligned) && !start_aligned && head_fits(end, following) {
        let kf = following->0;
        let t = tail_cuts(kf, end, end_aligned, preceding);
        assert(t.len() >= 1);
        assert(p =~= seq![seg(CutMode::Reencode, SegmentTag::ReencHead, start, kf)] + t);
        assert(t[0].start == kf);
        assert forall|i: int| 0 <= i < p.len() - 1 implies #[trigger] p[i].end == p[i + 1].start by {
            if i > 0 {
                assert(p[i] == t[i - 1]);
                assert(p[i + 1] == t[i]);
            }
        }
    }
}

/// A cut point off its keyframe is re-encoded: when the in-point is off a
/// keyframe the first segment is re-encoded, and when the out-point is off a
/// keyframe the last one is. In particular a forced smart cut, for which
/// neither counts as aligned, re-encodes at both cut points.
pub proof fn lemma_cut_plan_reencodes_unaligned_cuts(
    start: i64,
    end: i64,
    start_aligned: bool,
    end_aligned: bool,
    following: Option<i64>,
    preceding: Option<i64>,
)
    ensures
        ({
            let p = cut_plan(start, end, start_aligned, end_aligned, following, preceding);
            &&& !start_aligned ==> p[0].mode == CutMode::Reencode
            &&& !end_aligned ==> p.last().mode == CutMode::Reencode
        }),
{
}

/// When both cut points lie on keyframes the clip is a single stream copy
/// of `[start, end]`; otherwise at least one segment is re-encoded.
pub proof fn lemma_cut_plan_aligned_is_pure_copy(
    start: i64,
    end: i64,
    start_aligned: bool,
    end_aligned: bool,
    following: Option<i64>,
    preceding: Option<i64>,
)
    ensures
        ({
            let p = cut_plan(start, end, start_aligned, end_aligned, following, preceding);
            &&& start_aligned && end_aligned ==> p == seq![
                seg(CutMode::StreamCopy, SegmentTag::CopyFull, start, end),
            ]
            &&& !(start_aligned && end_aligned) ==> exists|i: int|
                0 <= i < p.len() && #[trigger] p[i].mode == CutMode::Reencode
        }),
{
    let p = cut_plan(start, end, start_aligned, end_aligned, following, preceding);
    if !start_aligned {
        assert(p[0].mode == CutMode::Reencode);
    } else if !end_aligned {
        assert(p[p.len() - 1].mode == CutMode::Reencode);
    }
}

/// A clip is cut into at most three segments, at most two of them
/// re-encoded, and a stream copy never starts at an in-point that is off its
/// keyframe, nor ends at an out-point that is.
pub proof fn lemma_cut_plan_is_small(
    start: i64,
    end: i64,
    start_aligned: bool,
    end_aligned: bool,
    following: Option<i64>,
    preceding: Option<i64>,
)
    ensures
        ({
            let p = cut_plan(start, end, start_aligned, end_aligned, following, preceding);
            &&& 1 <= p.len() <= 3
            &&& p.filter(|s: Segment| s.mode == CutMode::Reencode).len() <= 2
            &&& forall|i: int|
                0 <= i < p.len() && #[trigger] p[i].mode == CutMode::StreamCopy ==> {
                    &&& (i == 0 ==> start_aligned)
                    &&& (i == p.len() - 1 ==> end_aligned)
                }
        }),
{
    let p = cut_plan(start, end, start_aligned, end_aligned, following, preceding);
    lemma_cut_plan_reencodes_unaligned_cuts(
        start,
        end,
        start_aligned,
        end_aligned,
        following,
        preceding,
    );
    let f = |s: Segment| s.mode == CutMode::Reencode;
    reveal_with_fuel(Seq::filter, 4);
    if !(start_aligned && end_aligned) && !start_aligned && head_fits(end, following) {
        let kf = following->0;
        let t = tail_cuts(kf, end, end_aligned, preceding);
        assert(p =~= seq![seg(CutMode::Reencode, SegmentTag::ReencHead, start, kf)] + t);
        if !end_aligned && preceding is Some && preceding->0 > kf + MIN_GAP {
            assert(p =~= seq![
                seg(CutMode::Reencode, SegmentTag::ReencHead, start, kf),
                seg(CutMode::StreamCopy, SegmentTag::CopyMid, kf, preceding->0),
                seg(CutMode::Reencode, SegmentTag::ReencTail, preceding->0, end),
            ]);
            assert(p.filter(f).len() == 2);
        }
    }
}

/// Where a clip's cut stands.
#[derive(PartialEq, Eq, Structural, Clone, Copy)]
pub enum CutStage {
    /// Waiting to learn whether the in-point lies on a keyframe.
    StartAlignment,
    /// Waiting to learn whether the out-point lies on a keyframe.
    EndAlignment,
    /// Waiting for the keyframes just after the in-point.
    FollowingKeyframes,
    /// Waiting for the head segment to be written.
    HeadWritten,
    /// Waiting for the keyframe that precedes the out-point.
    PrecedingKeyframe,
    /// Waiting for the middle stream copy to be written.
    MiddleWritten,
    /// Waiting for the clip's last segment to be written.
    LastWritten,
    /// All segments written.
    Done,
    /// A run failed: the clip is given up, and nothing more is asked.
    Failed,
}

/// What the caller is to do next for a clip.
pub enum CutAction {
    /// Report whether `time` lies on a keyframe of the source.
    ProbeAlignment { time: i64 },
    /// Report the keyframe times of the source between `from` and `to`.
    ListKeyframes { from: i64, to: i64 },
    /// Report the last keyframe at or before `time`, looking back at most
    /// `window`.
    FindPrecedingKeyframe { time: i64, window: i64 },
    /// Write this segment of the source to a file of its own.
    Write(Segment),
    /// The clip is cut.
    Finished,
    /// The clip could not be cut; nothing more is to be run.
    Stopped,
}

/// The smart cut of one clip `[start, end]` (microseconds), step by step.
pub struct ClipCut {
    pub start: i64,
    pub end: i64,
    /// The source's frame rate, for the half-frame tolerance.
    pub rate: FrameRate,
    pub start_aligned: bool,
    pub end_aligned: bool,
    /// The first keyframe found after the in-point, once looked for.
    pub following: Option<i64>,
    /// The keyframe found before the out-point, once looked for.
    pub preceding: Option<i64>,
    /// Where the next segment begins.
    pub cur: i64,
    pub stage: CutStage,
    /// The segments handed out for writing so far, in order.
    pub issued: Vec<Segment>,
}

/// The end of the keyframe search window after `t`.
pub open spec fn head_window_end(t: i64) -> i64 {
    if t <= i64::MAX - HEAD_SEARCH_WINDOW {
        (t + HEAD_SEARCH_WINDOW) as i64
    } else {
        i64::MAX
    }
}

impl ClipCut {
    /// The segments before the tail part: the re-encoded head when the
    /// in-point is off a keyframe.
    pub open spec fn head_part(self) -> Seq<Segment> {
        if self.start_aligned {
            seq![]
        } else {
            seq![seg(CutMode::Reencode, SegmentTag::ReencHead, self.start, self.following->0)]
        }
    }

    /// Where the tail part begins.
    pub open spec fn tail_start(self) -> i64 {
        if self.start_aligned {
            self.start
        } else {
            self.following->0
        }
    }

    /// The whole plan for the answers received.
    pub open spec fn plan(self) -> Seq<Segment> {
        cut_plan(
            self.start,
            self.end,
            self.start_aligned,
            self.end_aligned,
            self.following,
            self.preceding,
        )
    }

    /// The state is consistent: what has been handed out is the start of
    /// the plan that the answers received so far fix.
    pub open spec fn wf(self) -> bool {
        &&& self.rate.wf()
        &&& match self.stage {
            CutStage::StartAlignment => self.issued@ == Seq::<Segment>::empty(),
            CutStage::EndAlignment => self.issued@ == Seq::<Segment>::empty(),
            CutStage::FollowingKeyframes => {
                &&& !self.start_aligned
                &&& self.issued@ == Seq::<Segment>::empty()
            },
            CutStage::HeadWritten => {
                &&& !self.start_aligned
                &&& head_fits(self.end, self.following)
                &&& self.cur == self.following->0
                &&& self.issued@ == self.head_part()
            },
            CutStage::PrecedingKeyframe => {
                &&& !self.end_aligned
                &&& (self.start_aligned || head_fits(self.end, self.following))
                &&& self.cur == self.tail_start()
                &&& self.issued@ == self.head_part()
            },
            CutStage::MiddleWritten => {
                &&& !self.end_aligned
                &&& (self.start_aligned || head_fits(self.end, self.following))
                &&& self.preceding is Some
                &&& self.preceding->0 > self.tail_start() + MIN_GAP
                &&& self.cur == self.preceding->0
                &&& self.issued@ == self.head_part() + seq![
                    seg(CutMode::StreamCopy, SegmentTag::CopyMid, self.tail_start(), self.cur),
                ]
            },
            CutStage::LastWritten => {
                &&& self.issued@ == self.plan()
                &&& self.issued@.len() > 0
            },
            CutStage::Done => self.issued@ == self.plan(),
            CutStage::Failed => true,
        }
    }

    /// The action that the current stage asks for.
    pub open spec fn pending(self) -> CutAction {
        match self.stage {
            CutStage::StartAlignment => CutAction::ProbeAlignment { time: self.start },
            CutStage::EndAlignment => CutAction::ProbeAlignment { time: self.end },
            CutStage::FollowingKeyframes => CutAction::ListKeyframes {
                from: self.start,
                to: head_window_end(self.start),
            },
            CutStage::PrecedingKeyframe => CutAction::FindPrecedingKeyframe {
                time: self.end,
                window: TAIL_SEARCH_WINDOW,
            },
            CutStage::Done => CutAction::Finished,
            CutStage::Failed => CutAction::Stopped,
            _ => CutAction::Write(self.issued@.last()),
        }
    }

    /// The same clip and answers in another stage.
    pub open spec fn same_clip(self, other: Self) -> bool {
        &&& self.start == other.start
        &&& self.end == other.end
        &&& self.rate == other.rate
    }

    /// A finished cut has handed out exactly the plan for the answers it
    /// received.
    pub proof fn lemma_finished_cut_follows_plan(self)
        requires
            self.wf(),
            self.stage == CutStage::Done,
        ensures
            self.issued@ == cut_plan(
                self.start,
                self.end,
                self.start_aligned,
                self.end_aligned,
                self.following,
                self.preceding,
            ),
    {
    }

    /// A forced smart cut (both cut points counted as off their keyframes)
    /// that has finished re-encodes at both cut points.
    pub proof fn lemma_forced_cut_reencodes_both_ends(self)
        requires
            self.wf(),
            self.stage == CutStage::Done,
            !self.start_aligned,
            !self.end_aligned,
        ensures
            self.issued@.len() >= 1,
            self.issued@[0].mode == CutMode::Reencode,
            self.issued@.last().mode == CutMode::Reencode,
    {
        lemma_cut_plan_tiles_clip(
            self.start,
            self.end,
            false,
            false,
            self.following,
            self.preceding,
        );
        lemma_cut_plan_reencodes_unaligned_cuts(
            self.start,
            self.end,
            false,
            false,
            self.following,
            self.preceding,
        );
    }

    /// Starts the cut of the clip `[start, end]` of a source with frame
    /// rate `rate`. With `force_smart_cut`, both cut points count as off
    /// their keyframes and nothing is probed for them.
    pub fn new(start: i64, end: i64, rate: FrameRate, force_smart_cut: bool) -> (c: ClipCut)
        requires
            rate.wf(),
        ensures
            c.wf(),
            c.start == start,
            c.end == end,
            c.rate == rate,
            c.cur == start,
            c.issued@ == Seq::<Segment>::empty(),
            c.following is None,
            c.preceding is None,
            force_smart_cut ==> !c.start_aligned && !c.end_aligned && c.stage
                == CutStage::FollowingKeyframes,
            !force_smart_cut ==> c.stage == CutStage::StartAlignment,
    {
        let stage = if force_smart_cut {
            CutStage::FollowingKeyframes
        } else {
            CutStage::StartAlignment
        };
        ClipCut {
            start,
            end,
            rate,
            start_aligned: false,
            end_aligned: false,
            following: None,
            preceding: None,
            cur: start,
            stage,
            issued: Vec::new(),
        }
    }

    /// The action to perform next.
    pub fn next_action(&self) -> (a: CutAction)
        requires
            self.wf(),
        ensures
            a == self.pending(),
    {
        match self.stage {
            CutStage::StartAlignment => CutAction::ProbeAlignment { time: self.start },
            CutStage::EndAlignment => CutAction::ProbeAlignment { time: self.end },
            CutStage::FollowingKeyframes => {
                let to = if self.start <= i64::MAX - HEAD_SEARCH_WINDOW {
                    self.start + HEAD_SEARCH_WINDOW
                } else {
                    i64::MAX
                };
                CutAction::ListKeyframes { from: self.start, to }
            },
            CutStage::PrecedingKeyframe => CutAction::FindPrecedingKeyframe {
                time: self.end,
                window: TAIL_SEARCH_WINDOW,
            },
            CutStage::Done => CutAction::Finished,
            CutStage::Failed => CutAction::Stopped,
            _ => {
                let last = self.issued[self.issued.len() - 1];
                CutAction::Write(last)
            },
        }
    }

    /// Hands out `s` for writing and moves to `stage`.
    fn issue(&mut self, s: Segment, stage: CutStage)
        ensures
            final(self).issued@ == old(self).issued@.push(s),
            final(self).stage == stage,
            final(self).start == old(self).start,
            final(self).end == old(self).end,
            final(self).rate == old(self).rate,
            final(self).start_aligned == old(self).start_aligned,
            final(self).end_aligned == old(self).end_aligned,
            final(self).following == old(self).following,
            final(self).preceding == old(self).preceding,
            final(self).cur == old(self).cur,
    {
        self.issued.push(s);
        self.stage = stage;
    }

    /// Decides what follows once `cur` is where the tail part begins.
    fn decide_tail(&mut self)
        requires
            old(self).rate.wf(),
            !old(self).start_aligned || !old(self).end_aligned,
            old(self).start_aligned || head_fits(old(self).end, old(self).following),
            old(self).cur == old(self).tail_start(),
            old(self).issued@ == old(self).head_part(),
        ensures
            final(self).wf(),
            old(self).same_clip(*final(self)),
            final(self).start_aligned == old(self).start_aligned,
            final(self).end_aligned == old(self).end_aligned,
            final(self).following == old(self).following,
            final(self).preceding == old(self).preceding,
            !old(self).end_aligned ==> final(self).stage == CutStage::PrecedingKeyframe,
            old(self).end_aligned && old(self).end > old(self).cur + MIN_GAP ==> final(self).stage == CutStage::LastWritten,
            old(self).end_aligned && old(self).end <= old(self).cur + MIN_GAP ==> final(self).stage == CutStage::Done,
    {
        if !self.end_aligned {
            self.stage = CutStage::PrecedingKeyframe;
        } else if self.end as i128 > self.cur as i128 + MIN_GAP as i128 {
            let s = Segment {
                mode: CutMode::StreamCopy,
                tag: SegmentTag::CopyTail,
                start: self.cur,
                end: self.end,
            };
            self.issue(s, CutStage::LastWritten);
            proof {
                assert(self.issued@ =~= self.plan());
            }
        } else {
            self.stage = CutStage::Done;
            proof {
                assert(self.issued@ =~= self.plan());
            }
        }
    }

    /// Decides what follows once both alignments are known.
    fn decide_after_alignment(&mut self)
        requires
            old(self).rate.wf(),
            old(self).issued@ == Seq::<Segment>::empty(),
            old(self).cur == old(self).start,
            old(self).following is None,
            old(self).preceding is None,
        ensures
            final(self).wf(),
            old(self).same_clip(*final(self)),
            final(self).start_aligned == old(self).start_aligned,
            final(self).end_aligned == old(self).end_aligned,
            final(self).following == old(self).following,
            final(self).preceding == old(self).preceding,
            old(self).start_aligned && old(self).end_aligned ==> final(self).stage
                == CutStage::LastWritten,
            !old(self).start_aligned ==> final(self).stage == CutStage::FollowingKeyframes,
            old(self).start_aligned && !old(self).end_aligned ==> final(self).stage
                == CutStage::PrecedingKeyframe,
    {
        if self.start_aligned && self.end_aligned {
            let s = Segment {
                mode: CutMode::StreamCopy,
                tag: SegmentTag::CopyFull,
                start: self.start,
                end: self.end,
            };
            self.issue(s, CutStage::LastWritten);
            proof {
                assert(self.issued@ =~= self.plan());
            }
        } else if !self.start_aligned {
            self.stage = CutStage::FollowingKeyframes;
        } else {
            proof {
                assert(old(self).head_part() =~= Seq::<Segment>::empty());
            }
            self.decide_tail();
        }
    }

    /// Records whether the probed cut point lies on a keyframe.
    pub fn record_alignment(&mut self, aligned: bool)
        requires
            old(self).wf(),
            old(self).stage == CutStage::StartAlignment || old(self).stage
                == CutStage::EndAlignment,
            old(self).following is None,
            old(self).preceding is None,
            old(self).cur == old(self).start,
        ensures
            final(self).wf(),
            old(self).same_clip(*final(self)),
            final(self).following is None,
            final(self).preceding is None,
            old(self).stage == CutStage::StartAlignment ==> {
                &&& final(self).start_aligned == aligned
                &&& final(self).stage == CutStage::EndAlignment
                &&& final(self).cur == final(self).start
            },
            old(self).stage == CutStage::EndAlignment ==> {
                &&& final(self).start_aligned == old(self).start_aligned
                &&& final(self).end_aligned == aligned
                &&& (final(self).start_aligned && aligned ==> final(self).stage
                    == CutStage::LastWritten)
                &&& (!final(self).start_aligned ==> final(self).stage
                    == CutStage::FollowingKeyframes)
                &&& (final(self).start_aligned && !aligned ==> final(self).stage
                    == CutStage::PrecedingKeyframe)
            },
    {
        match self.stage {
            CutStage::StartAlignment => {
                self.start_aligned = aligned;
                self.stage = CutStage::EndAlignment;
            },
            _ => {
                self.end_aligned = aligned;
                self.decide_after_alignment();
            },
        }
    }

    /// Records the keyframes listed in the window after the in-point.
    pub fn record_keyframes(&mut self, keyframes: &[i64])
        requires
            old(self).wf(),
            old(self).stage == CutStage::FollowingKeyframes,
        ensures
            final(self).wf(),
            old(self).same_clip(*final(self)),
            final(self).start_aligned == old(self).start_aligned,
            final(self).end_aligned == old(self).end_aligned,
            final(self).preceding == old(self).preceding,
            final(self).following == first_following_from(
                keyframes@,
                0,
                old(self).start as int,
                old(self).rate,
            ),
            head_fits(final(self).end, final(self).following) ==> final(self).stage
                == CutStage::HeadWritten,
            !head_fits(final(self).end, final(self).following) ==> final(self).stage
                == CutStage::LastWritten,
    {
        let found = nearest_following_keyframe(keyframes, self.start, &self.rate);
        self.following = found;
        match found {
            Some(kf) => {
                if (kf as i128) < self.end as i128 - MIN_GAP as i128 {
                    self.cur = kf;
                    let s = Segment {
                        mode: CutMode::Reencode,
                        tag: SegmentTag::ReencHead,
                        start: self.start,
                        end: kf,
                    };
                    self.issue(s, CutStage::HeadWritten);
                    proof {
                        assert(self.issued@ =~= self.head_part());
                    }
                } else {
                    let s = Segment {
                        mode: CutMode::Reencode,
                        tag: SegmentTag::ReencAll,
                        start: self.start,
                        end: self.end,
                    };
                    self.issue(s, CutStage::LastWritten);
                    proof {
                        assert(self.issued@ =~= self.plan());
                    }
                }
            },
            None => {
                let s = Segment {
                    mode: CutMode::Reencode,
                    tag: SegmentTag::ReencAll,
                    start: self.start,
                    end: self.end,
                };
                self.issue(s, CutStage::LastWritten);
                proof {
                    assert(self.issued@ =~= self.plan());
                }
            },
        }
    }

    /// Records the keyframe found before the out-point, if any.
    pub fn record_preceding(&mut self, preceding: Option<i64>)
        requires
            old(self).wf(),
            old(self).stage == CutStage::PrecedingKeyframe,
        ensures
            final(self).wf(),
            old(self).same_clip(*final(self)),
            final(self).start_aligned == old(self).start_aligned,
            final(self).end_aligned == old(self).end_aligned,
            final(self).following == old(self).following,
            final(self).preceding == preceding,
            (preceding is Some && preceding->0 > old(self).cur + MIN_GAP) ==> final(self).stage
                == CutStage::MiddleWritten,
            !(preceding is Some && preceding->0 > old(self).cur + MIN_GAP) ==> final(self).stage
                == CutStage::LastWritten,
    {
        self.preceding = preceding;
        let take_middle = match preceding {
            Some(pk) => pk as i128 > self.cur as i128 + MIN_GAP as i128,
            None => false,
        };
        if take_middle {
            let pk = match preceding {
                Some(pk) => pk,
                None => self.cur,
            };
            let s = Segment {
                mode: CutMode::StreamCopy,
                tag: SegmentTag::CopyMid,
                start: self.cur,
                end: pk,
            };
            self.issue(s, CutStage::MiddleWritten);
            self.cur = pk;
            proof {
                assert(self.issued@ =~= self.head_part() + seq![
                    seg(CutMode::StreamCopy, SegmentTag::CopyMid, self.tail_start(), self.cur),
                ]);
            }
        } else {
            let s = Segment {
                mode: CutMode::Reencode,
                tag: SegmentTag::ReencTail,
                start: self.cur,
                end: self.end,
            };
            self.issue(s, CutStage::LastWritten);
            proof {
                assert(self.issued@ =~= self.plan());
            }
        }
    }

    /// A run that the pending action asked for failed: the cut is given up
    /// where it stands. What was handed out stays as it was, and the cut
    /// asks for nothing more.
    pub fn record_failure(&mut self)
        requires
            old(self).wf(),
            old(self).stage != CutStage::Done,
            old(self).stage != CutStage::Failed,
        ensures
            final(self).wf(),
            old(self).same_clip(*final(self)),
            final(self).issued@ == old(self).issued@,
            final(self).stage == CutStage::Failed,
            final(self).pending() == CutAction::Stopped,
    {
        self.stage = CutStage::Failed;
    }

    /// Records that the segment last handed out has been written.
    pub fn record_written(&mut self)
        requires
            old(self).wf(),
            old(self).stage == CutStage::HeadWritten || old(self).stage
                == CutStage::MiddleWritten || old(self).stage == CutStage::LastWritten,
        ensures
            final(self).wf(),
            old(self).same_clip(*final(self)),
            final(self).start_aligned == old(self).start_aligned,
            final(self).end_aligned == old(self).end_aligned,
            final(self).following == old(self).following,
            final(self).preceding == old(self).preceding,
            old(self).stage == CutStage::LastWritten ==> final(self).stage == CutStage::Done,
            old(self).stage == CutStage::MiddleWritten ==> final(self).stage
                == CutStage::LastWritten,
            old(self).stage == CutStage::HeadWritten ==> {
                &&& (!final(self).end_aligned ==> final(self).stage
                    == CutStage::PrecedingKeyframe)
                &&& (final(self).end_aligned ==> final(self).stage == CutStage::LastWritten)
            },
    {
        match self.stage {
            CutStage::HeadWritten => {
                self.decide_tail();
            },
            CutStage::MiddleWritten => {
                let s = Segment {
                    mode: CutMode::Reencode,
                    tag: SegmentTag::ReencTail,
                    start: self.cur,
                    end: self.end,
                };
                self.issue(s, CutStage::LastWritten);
                proof {
                    assert(self.issued@ =~= self.plan());
                }
            },
            _ => {
                self.stage = CutStage::Done;
            },
        }
    }
}

} // verus!
