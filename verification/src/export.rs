//! The export of a whole timeline: announce progress, cut every clip in
//! order, list the segments, join them, announce completion.
//!
//! `export_action` states the whole sequence of steps for a timeline of `n`
//! clips; `ExportJob` hands them out one at a time.

use vstd::prelude::*;
use crate::error::EditError;
use crate::model::{ExportSettings, FrameRate, Timeline};
use crate::text::{decimal_string, decimal_text};

verus! {

/// Progress shown to the user during an export. The percentage is the
/// fraction `percent_num / percent_den`.
pub struct ProgressEvent {
    pub stage: String,
    pub percent_num: u128,
    pub percent_den: u64,
    pub message: String,
}

/// A progress event as texts and numbers.
pub struct ProgressView {
    pub stage: Seq<char>,
    pub num: int,
    pub den: int,
    pub message: Seq<char>,
}

impl ProgressEvent {
    pub open spec fn view_of(self) -> ProgressView {
        ProgressView {
            stage: self.stage@,
            num: self.percent_num as int,
            den: self.percent_den as int,
            message: self.message@,
        }
    }
}

/// One step of an export.
pub enum ExportAction {
    /// Send this progress event to the user interface.
    Emit(ProgressEvent),
    /// Cut the clip at this position of the timeline into segments
    /// (see `ClipCut`), collecting their files.
    CutClip { index: usize },
    /// Write the list of all collected segment files (`concat_list_text`).
    WriteConcatList,
    /// Join the listed segments into the output (`concat_segments`, with the
    /// job's output path and metadata source).
    RunConcat,
    /// The export is complete.
    Finished,
}

/// A step of an export as texts and numbers.
pub enum ActionView {
    Emit(ProgressView),
    CutClip(int),
    WriteConcatList,
    RunConcat,
    Finished,
}

impl ExportAction {
    pub open spec fn view_of(self) -> ActionView {
        match self {
            ExportAction::Emit(e) => ActionView::Emit(e.view_of()),
            ExportAction::CutClip { index } => ActionView::CutClip(index as int),
            ExportAction::WriteConcatList => ActionView::WriteConcatList,
            ExportAction::RunConcat => ActionView::RunConcat,
            ExportAction::Finished => ActionView::Finished,
        }
    }
}

/// The progress event announced before clip `i` of `n` is cut: "segment",
/// at `85 * i / n` percent.
pub open spec fn clip_progress(i: int, n: int) -> ProgressView {
    ProgressView {
        stage: "segment"@,
        num: 85 * i,
        den: n,
        message: "Processing clip "@ + decimal_text((i + 1) as nat) + "/"@ + decimal_text(
            n as nat,
        ),
    }
}

/// Step `k` of the export of a timeline of `n` clips: "prepare" at 0 %,
/// then for each clip its progress event and its cut, then "concat" at
/// 87 %, the list, the join, and "done" at 100 %.
pub open spec fn export_action(n: int, k: int) -> ActionView {
    if k == 0 {
        ActionView::Emit(
            ProgressView { stage: "prepare"@, num: 0, den: 1, message: "Analysing clips\u{2026}"@ },
        )
    } else if 1 <= k <= 2 * n {
        let i = (k - 1) / 2;
        if (k - 1) % 2 == 0 {
            ActionView::Emit(clip_progress(i, n))
        } else {
            ActionView::CutClip(i)
        }
    } else if k == 2 * n + 1 {
        ActionView::Emit(
            ProgressView {
                stage: "concat"@,
                num: 87,
                den: 1,
                message: "Concatenating segments\u{2026}"@,
            },
        )
    } else if k == 2 * n + 2 {
        ActionView::WriteConcatList
    } else if k == 2 * n + 3 {
        ActionView::RunConcat
    } else if k == 2 * n + 4 {
        ActionView::Emit(
            ProgressView { stage: "done"@, num: 100, den: 1, message: "Export complete."@ },
        )
    } else {
        ActionView::Finished
    }
}

/// The progress shown never goes backwards: of two progress events of an
/// export, the later one shows at least the percentage of the earlier one,
/// and every percentage lies between 0 and 100. The first step announces
/// 0 % and the last event 100 %.
pub proof fn lemma_progress_never_decreases(n: int, k1: int, k2: int)
    requires
        n > 0,
        0 <= k1 <= k2,
        export_action(n, k1) is Emit,
        export_action(n, k2) is Emit,
    ensures
        ({
            let p1 = export_action(n, k1)->Emit_0;
            let p2 = export_action(n, k2)->Emit_0;
            &&& p1.den > 0
            &&& p2.den > 0
            &&& p1.num * p2.den <= p2.num * p1.den
            &&& 0 <= p1.num <= 100 * p1.den
        }),
        export_action(n, 0) == ActionView::Emit(
            ProgressView { stage: "prepare"@, num: 0, den: 1, message: "Analysing clips\u{2026}"@ },
        ),
        export_action(n, 2 * n + 4) == ActionView::Emit(
            ProgressView { stage: "done"@, num: 100, den: 1, message: "Export complete."@ },
        ),
{
    let p1 = export_action(n, k1)->Emit_0;
    let p2 = export_action(n, k2)->Emit_0;
    if 1 <= k2 <= 2 * n {
        let i2 = (k2 - 1) / 2;
        assert(0 <= i2 < n);
        assert(p2.num == 85 * i2 && p2.den == n);
        assert(0 <= 85 * i2);
    }
    if k1 == 0 {
        assert(p1.num == 0 && p1.den == 1);
        assert(p2.num >= 0);
        assert(p1.num * p2.den == 0);
        assert(p2.num * p1.den == p2.num);
    } else if 1 <= k1 <= 2 * n {
        let i1 = (k1 - 1) / 2;
        assert(0 <= i1 < n);
        assert(p1.num == 85 * i1 && p1.den == n);
        assert(0 <= 85 * i1 <= 100 * n) by (nonlinear_arith)
            requires
                0 <= i1 < n,
        ;
        if k2 <= 2 * n {
            let i2 = (k2 - 1) / 2;
            assert(i1 <= i2);
            assert((85 * i1) * n <= (85 * i2) * n) by (nonlinear_arith)
                requires
                    0 <= i1 <= i2,
                    n > 0,
            ;
        } else {
            assert(p2.den == 1);
            assert(p2.num == 87 || p2.num == 100);
            assert(85 * i1 <= 87 * n);
        }
    } else {
        assert(k1 == 2 * n + 1 || k1 == 2 * n + 4);
        assert(k2 == 2 * n + 1 || k2 == 2 * n + 4);
    }
}

/// Each clip is cut exactly once, in timeline order: step `2 i + 2` of an
/// export of `n` clips cuts clip `i`, and no other step cuts anything but
/// these.
pub proof fn lemma_clips_cut_in_order(n: int, k: int)
    requires
        n > 0,
        k >= 0,
    ensures
        export_action(n, k) matches ActionView::CutClip(i) ==> 0 <= i < n && k == 2 * i + 2,
        forall|i: int| 0 <= i < n ==> #[trigger] export_action(n, 2 * i + 2) == ActionView::CutClip(i),
{
    assert forall|i: int| 0 <= i < n implies #[trigger] export_action(n, 2 * i + 2)
        == ActionView::CutClip(i) by {
        assert((2 * i + 2 - 1) / 2 == i);
        assert((2 * i + 2 - 1) % 2 == 1);
    }
}

/// Where an export stands.
#[derive(PartialEq, Eq, Structural, Clone, Copy)]
pub enum ExportStage {
    Prepare,
    ClipProgress,
    ClipCut,
    ConcatProgress,
    WriteList,
    Concat,
    DoneProgress,
    Finished,
}

/// The export of one timeline, step by step.
pub struct ExportJob {
    /// The number of clips.
    pub clip_count: usize,
    /// The clip that is being announced or cut.
    pub clip_index: usize,
    pub stage: ExportStage,
    /// Where the output goes.
    pub output_path: String,
    /// The first clip's source, whose global metadata the output keeps.
    pub metadata_source: String,
    /// Whether every cut point is re-encoded regardless of keyframes.
    pub force_smart_cut: bool,
}

impl ExportJob {
    pub open spec fn wf(self) -> bool {
        &&& 0 < self.clip_count
        &&& self.stage == ExportStage::Prepare ==> self.clip_index == 0
        &&& (self.stage == ExportStage::ClipProgress || self.stage == ExportStage::ClipCut)
            ==> self.clip_index < self.clip_count
    }

    /// How many steps have been handed out before the current one.
    pub open spec fn step(self) -> int {
        let n = self.clip_count as int;
        match self.stage {
            ExportStage::Prepare => 0,
            ExportStage::ClipProgress => 1 + 2 * self.clip_index,
            ExportStage::ClipCut => 2 + 2 * self.clip_index,
            ExportStage::ConcatProgress => 2 * n + 1,
            ExportStage::WriteList => 2 * n + 2,
            ExportStage::Concat => 2 * n + 3,
            ExportStage::DoneProgress => 2 * n + 4,
            ExportStage::Finished => 2 * n + 5,
        }
    }

    /// The step that `next_action` hands out now.
    pub open spec fn pending(self) -> ActionView {
        export_action(self.clip_count as int, self.step())
    }

    /// Starts the export of `timeline` with `settings`; an empty timeline
    /// is refused.
    pub fn new(timeline: &Timeline, settings: &ExportSettings) -> (r: Result<ExportJob, EditError>)
        ensures
            timeline.clips@.len() == 0 <==> r is Err,
            r is Err ==> r == Err::<ExportJob, EditError>(EditError::EmptyTimeline),
            r matches Ok(job) ==> {
                &&& job.wf()
                &&& job.step() == 0
                &&& job.clip_count == timeline.clips@.len()
                &&& job.output_path@ == settings.output_path@
                &&& job.metadata_source@ == timeline.clips@[0].source_path@
                &&& job.force_smart_cut == settings.force_smart_cut
            },
    {
        if timeline.clips.len() == 0 {
            return Err(EditError::EmptyTimeline);
        }
        Ok(ExportJob {
            clip_count: timeline.clips.len(),
            clip_index: 0,
            stage: ExportStage::Prepare,
            output_path: settings.output_path.clone(),
            metadata_source: timeline.clips[0].source_path.clone(),
            force_smart_cut: settings.force_smart_cut,
        })
    }

    /// The step to perform now.
    pub fn next_action(&self) -> (a: ExportAction)
        requires
            self.wf(),
        ensures
            a.view_of() == self.pending(),
    {
        let n = self.clip_count;
        match self.stage {
            ExportStage::Prepare => {
                let e = ProgressEvent {
                    stage: String::from_str("prepare"),
                    percent_num: 0,
                    percent_den: 1,
                    message: String::from_str("Analysing clips\u{2026}"),
                };
                ExportAction::Emit(e)
            },
            ExportStage::ClipProgress => {
                let i = self.clip_index;
                let mut message = String::from_str("Processing clip ");
                let shown = decimal_string(i as u64 + 1);
                message.append(shown.as_str());
                message.append("/");
                let total = decimal_string(n as u64);
                message.append(total.as_str());
                let e = ProgressEvent {
                    stage: String::from_str("segment"),
                    percent_num: 85 * (i as u128),
                    percent_den: n as u64,
                    message,
                };
                proof {
                    let k = 1 + 2 * i;
                    assert((k - 1) / 2 == i);
                    assert((k - 1) % 2 == 0);
                }
                ExportAction::Emit(e)
            },
            ExportStage::ClipCut => {
                proof {
                    let k = 2 + 2 * self.clip_index;
                    assert((k - 1) / 2 == self.clip_index);
                    assert((k - 1) % 2 == 1);
                }
                ExportAction::CutClip { index: self.clip_index }
            },
            ExportStage::ConcatProgress => {
                let e = ProgressEvent {
                    stage: String::from_str("concat"),
                    percent_num: 87,
                    percent_den: 1,
                    message: String::from_str("Concatenating segments\u{2026}"),
                };
                ExportAction::Emit(e)
            },
            ExportStage::WriteList => ExportAction::WriteConcatList,
            ExportStage::Concat => ExportAction::RunConcat,
            ExportStage::DoneProgress => {
                let e = ProgressEvent {
                    stage: String::from_str("done"),
                    percent_num: 100,
                    percent_den: 1,
                    message: String::from_str("Export complete."),
                };
                ExportAction::Emit(e)
            },
            ExportStage::Finished => ExportAction::Finished,
        }
    }

    /// Records that the current step is done and moves to the next one.
    pub fn advance(&mut self)
        requires
            old(self).wf(),
        ensures
            final(self).wf(),
            final(self).clip_count == old(self).clip_count,
            final(self).output_path == old(self).output_path,
            final(self).metadata_source == old(self).metadata_source,
            final(self).force_smart_cut == old(self).force_smart_cut,
            old(self).stage == ExportStage::Finished ==> final(self).step() == old(self).step(),
            old(self).stage != ExportStage::Finished ==> final(self).step() == old(self).step()
                + 1,
    {
        match self.stage {
            ExportStage::Prepare => {
                self.stage = ExportStage::ClipProgress;
            },
            ExportStage::ClipProgress => {
                self.stage = ExportStage::ClipCut;
            },
            ExportStage::ClipCut => {
                if self.clip_index + 1 < self.clip_count {
                    self.clip_index = self.clip_index + 1;
                    self.stage = ExportStage::ClipProgress;
                } else {
                    self.stage = ExportStage::ConcatProgress;
                }
            },
            ExportStage::ConcatProgress => {
                self.stage = ExportStage::WriteList;
            },
            ExportStage::WriteList => {
                self.stage = ExportStage::Concat;
            },
            ExportStage::Concat => {
                self.stage = ExportStage::DoneProgress;
            },
            ExportStage::DoneProgress => {
                self.stage = ExportStage::Finished;
            },
            ExportStage::Finished => {},
        }
    }

    /// The error for a clip that could not be cut: it names the clip's
    /// position and source, and keeps the cause.
    pub fn clip_failed(index: usize, source: &str, cause: EditError) -> (e: EditError)
        ensures
            e matches EditError::ClipFailed { index: i, source: s, cause: c } && i == index && s@
                == source@ && *c == cause,
    {
        EditError::ClipFailed { index, source: source.to_owned(), cause: Box::new(cause) }
    }
}

/// The frame rate to cut a clip with: the probed one, or 30 fps when the
/// source's rate could not be found.
pub fn rate_or_default(probed: Result<FrameRate, EditError>) -> (r: FrameRate)
    ensures
        probed matches Ok(p) ==> r == p,
        (probed matches Ok(p) ==> p.wf()) ==> r.wf(),
        probed is Err ==> r == (FrameRate { num: 30, den: 1, exp: 0 }),
{
    match probed {
        Ok(p) => p,
        Err(_) => FrameRate { num: 30, den: 1, exp: 0 },
    }
}

} // verus!
