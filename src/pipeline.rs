//! The per-image job as a state machine.
//!
//! The job decides; its caller performs. Each call of `ImageJob::step` takes
//! the result of the last action performed (decoding, resizing, saving,
//! compressing) and returns the next action. Target widths are taken in list
//! order; a width that is out of range is skipped, and a failure on one width
//! is recorded and the job moves on to the next.

use vstd::prelude::*;
use crate::dds::{format_for_channels, map_channels_format, BlockFormat};
use crate::filetype::{container_file_name, container_name, raster_file_name, raster_name, FileType};
use crate::imagedata::ImageData;

verus! {

/// Where a job stands.
#[derive(PartialEq, Eq, Structural, Clone, Copy, Debug)]
pub enum Stage {
    /// Waiting for the source to be decoded.
    Decode,
    /// Waiting for the current width's resize.
    Resize,
    /// Waiting for the resized raster to be written.
    SaveRaster,
    /// Waiting for the gamma-encoded block compression.
    Compress,
    /// Waiting for the container to be written.
    SaveContainer,
    /// Nothing more to do.
    Done,
}

/// What became of one target width.
#[derive(Clone, Debug)]
pub enum WidthOutcome {
    /// The width was zero or wider than the source; nothing was made.
    Skipped,
    /// Both artifacts were written.
    Saved,
    /// A stage failed, with its message.
    Failed(String),
}

/// The result of the action last performed.
#[derive(Clone, Debug)]
pub enum JobEvent {
    /// The source was decoded.
    Decoded { width: u32, height: u32, channels: u8 },
    /// The action succeeded.
    Completed,
    /// The action failed, with its message.
    Failed(String),
}

/// What the caller is to do next.
#[derive(Clone, Debug)]
pub enum JobAction {
    /// Decode the source file.
    Decode,
    /// Resize the decoded image to `width` x `height` with a triangle filter.
    Resize { width: u32, height: u32 },
    /// Write the resized raster under `file_name` in the output directory.
    SaveRaster { width: u32, file_name: String },
    /// Gamma-encode the resized raster and compress it in `format`.
    Compress { width: u32, format: BlockFormat },
    /// Write the container under `file_name` in the output directory.
    SaveContainer { width: u32, file_name: String },
    /// The job is over.
    Finish,
}

/// A width for which artifacts are made: positive and no wider than the source.
pub open spec fn width_valid(w: u32, source_width: u32) -> bool {
    0 < w && w <= source_width
}

/// The height that keeps the aspect ratio at width `w`, rounded down.
pub open spec fn scaled_height(source_height: u32, w: u32, source_width: u32) -> int {
    (source_height as int * w as int) / (source_width as int)
}

/// The first index from `i` on whose width is valid; the list's length if none is.
pub open spec fn next_valid(widths: Seq<u32>, source_width: u32, i: int) -> int
    decreases widths.len() - i,
{
    if i >= widths.len() {
        widths.len() as int
    } else if width_valid(widths[i], source_width) {
        i
    } else {
        next_valid(widths, source_width, i + 1)
    }
}

pub open spec fn skipped_run(n: nat) -> Seq<WidthOutcome> {
    Seq::new(n, |k: int| WidthOutcome::Skipped)
}

/// The outcomes once the widths after `done` that are out of range are skipped.
pub open spec fn resume_outcomes(done: Seq<WidthOutcome>, widths: Seq<u32>, source_width: u32) -> Seq<WidthOutcome> {
    done + skipped_run((next_valid(widths, source_width, done.len() as int) - done.len()) as nat)
}

/// The stage once the widths after the first `done` are skipped up to a valid one.
pub open spec fn resume_stage(done: int, widths: Seq<u32>, source_width: u32) -> Stage {
    if next_valid(widths, source_width, done) < widths.len() { Stage::Resize } else { Stage::Done }
}

pub open spec fn is_width_stage(s: Stage) -> bool {
    s == Stage::Resize || s == Stage::SaveRaster || s == Stage::Compress || s == Stage::SaveContainer
}

/// The stage that follows a successful one within a width.
pub open spec fn following_stage(s: Stage) -> Stage {
    match s {
        Stage::Resize => Stage::SaveRaster,
        Stage::SaveRaster => Stage::Compress,
        _ => Stage::SaveContainer,
    }
}

/// The job on one source image.
pub struct ImageJob {
    pub data: ImageData,
    pub widths: Vec<u32>,
    pub source_width: u32,
    pub source_height: u32,
    pub stage: Stage,
    pub outcomes: Vec<WidthOutcome>,
    pub decode_error: Option<String>,
}

impl ImageJob {
    /// The width being worked on.
    pub open spec fn current_width(&self) -> u32 {
        self.widths@[self.outcomes@.len() as int]
    }

    pub open spec fn wf(&self) -> bool {
        &&& self.outcomes@.len() <= self.widths@.len()
        &&& self.stage == Stage::Decode ==> self.outcomes@.len() == 0 && self.decode_error is None
        &&& is_width_stage(self.stage) ==> {
            &&& self.outcomes@.len() < self.widths@.len()
            &&& width_valid(self.current_width(), self.source_width)
            &&& self.decode_error is None
        }
        &&& self.stage == Stage::Done && self.decode_error is None && self.data.file_type != FileType::UNKNOWN
            ==> self.outcomes@.len() == self.widths@.len()
        &&& self.decode_error is Some ==> self.stage == Stage::Done && self.outcomes@.len() == 0
        &&& self.data.file_type == FileType::UNKNOWN ==> self.stage == Stage::Done && self.outcomes@.len() == 0
        &&& forall|i: int| 0 <= i < self.outcomes@.len() ==>
            (self.outcomes@[i] is Skipped <==> !width_valid(self.widths@[i], self.source_width))
    }

    /// `a` is the action that this job asks for in its present state.
    pub open spec fn asks_for(&self, a: JobAction) -> bool {
        match self.stage {
            Stage::Decode => a is Decode,
            Stage::Resize => a == (JobAction::Resize {
                width: self.current_width(),
                height: scaled_height(self.source_height, self.current_width(), self.source_width) as u32,
            }),
            Stage::SaveRaster => match a {
                JobAction::SaveRaster { width, file_name } => width == self.current_width()
                    && file_name@ == raster_name(self.data.file_name@, width as nat, self.data.file_type),
                _ => false,
            },
            Stage::Compress => a == (JobAction::Compress {
                width: self.current_width(),
                format: format_for_channels(self.data.channels),
            }),
            Stage::SaveContainer => match a {
                JobAction::SaveContainer { width, file_name } => width == self.current_width()
                    && file_name@ == container_name(self.data.file_name@, width as nat),
                _ => false,
            },
            Stage::Done => a is Finish,
        }
    }

    /// What stays fixed over the whole job.
    pub open spec fn same_job(&self, other: &ImageJob) -> bool {
        &&& self.widths@ == other.widths@
        &&& self.data.file_path_in@ == other.data.file_path_in@
        &&& self.data.file_path_out@ == other.data.file_path_out@
        &&& self.data.file_name@ == other.data.file_name@
        &&& self.data.file_type == other.data.file_type
    }

    /// A new job on `data` over the target widths `widths`. A source of
    /// unrecognized kind gets a job with nothing to do.
    pub fn new(data: ImageData, widths: Vec<u32>) -> (r: ImageJob)
        ensures
            r.wf(),
            r.data == data,
            r.widths@ == widths@,
            r.outcomes@.len() == 0,
            r.decode_error is None,
            r.stage == (if data.file_type == FileType::UNKNOWN { Stage::Done } else { Stage::Decode }),
    {
        let stage = if data.file_type == FileType::UNKNOWN { Stage::Done } else { Stage::Decode };
        ImageJob {
            data,
            widths,
            source_width: 0,
            source_height: 0,
            stage,
            outcomes: Vec::new(),
            decode_error: None,
        }
    }
}

/// `next_valid` lands on a valid width, or at the end, past invalid ones only.
pub proof fn lemma_next_valid(widths: Seq<u32>, source_width: u32, i: int)
    requires
        0 <= i <= widths.len(),
    ensures
        i <= next_valid(widths, source_width, i) <= widths.len(),
        next_valid(widths, source_width, i) < widths.len()
            ==> width_valid(widths[next_valid(widths, source_width, i)], source_width),
        forall|k: int| i <= k < next_valid(widths, source_width, i) ==> !width_valid(#[trigger] widths[k], source_width),
    decreases widths.len() - i,
{
    if i < widths.len() && !width_valid(widths[i], source_width) {
        lemma_next_valid(widths, source_width, i + 1);
    }
}

/// The height that keeps the aspect ratio of a `source_width` x `source_height`
/// image at width `w`, rounded down.
pub fn scale_height(source_height: u32, w: u32, source_width: u32) -> (r: u32)
    requires
        width_valid(w, source_width),
    ensures
        r as int == scaled_height(source_height, w, source_width),
        r <= source_height,
{
    proof {
        assert(source_height as int * w as int <= 0xffff_ffff * 0xffff_ffff) by (nonlinear_arith)
            requires source_height <= 0xffff_ffffu32, w <= 0xffff_ffffu32;
    }
    let num: u64 = source_height as u64 * w as u64;
    proof {
        assert(num as int <= source_height as int * source_width as int) by (nonlinear_arith)
            requires num as int == source_height as int * w as int, w <= source_width;
        assert(num as int / (source_width as int) <= source_height as int) by (nonlinear_arith)
            requires num as int <= source_height as int * source_width as int, source_width > 0;
    }
    (num / (source_width as u64)) as u32
}

impl ImageJob {
    /// Skips the widths after those done that are out of range, up to the next
    /// valid one; ends the job where none is left.
    fn resume(&mut self)
        requires
            old(self).outcomes@.len() <= old(self).widths@.len(),
            old(self).decode_error is None,
            old(self).data.file_type != FileType::UNKNOWN,
            forall|i: int| 0 <= i < old(self).outcomes@.len() ==>
                (old(self).outcomes@[i] is Skipped <==> !width_valid(old(self).widths@[i], old(self).source_width)),
        ensures
            final(self).wf(),
            final(self).same_job(old(self)),
            final(self).data == old(self).data,
            final(self).source_width == old(self).source_width,
            final(self).source_height == old(self).source_height,
            final(self).decode_error == old(self).decode_error,
            final(self).outcomes@ == resume_outcomes(old(self).outcomes@, old(self).widths@, old(self).source_width),
            final(self).stage == resume_stage(old(self).outcomes@.len() as int, old(self).widths@, old(self).source_width),
    {
        let ghost start = self.outcomes@.len() as int;
        let ghost done = self.outcomes@;
        proof {
            lemma_next_valid(self.widths@, self.source_width, start);
        }
        let n = self.widths.len();
        let mut i = self.outcomes.len();
        while i < n && !(0 < self.widths[i] && self.widths[i] <= self.source_width)
            invariant
                n == self.widths@.len(),
                i == self.outcomes@.len(),
                start <= i <= next_valid(self.widths@, self.source_width, start),
                self.outcomes@ == done + skipped_run((i - start) as nat),
                self.same_job(old(self)),
                self.data == old(self).data,
                self.source_width == old(self).source_width,
                self.source_height == old(self).source_height,
                self.decode_error == old(self).decode_error,
                self.stage == old(self).stage,
                next_valid(self.widths@, self.source_width, start) <= n,
                next_valid(self.widths@, self.source_width, start) < n
                    ==> width_valid(self.widths@[next_valid(self.widths@, self.source_width, start)], self.source_width),
                forall|k: int| start <= k < next_valid(self.widths@, self.source_width, start)
                    ==> !width_valid(#[trigger] self.widths@[k], self.source_width),
            decreases n - i,
        {
            self.outcomes.push(WidthOutcome::Skipped);
            assert(self.outcomes@ =~= done + skipped_run((i + 1 - start) as nat));
            i = i + 1;
        }
        assert(i == next_valid(self.widths@, self.source_width, start));
        if i < n {
            self.stage = Stage::Resize;
        } else {
            self.stage = Stage::Done;
        }
        proof {
            assert forall|k: int| 0 <= k < self.outcomes@.len() implies
                (self.outcomes@[k] is Skipped <==> !width_valid(self.widths@[k], self.source_width)) by {
                if k >= start {
                    assert(self.outcomes@[k] == skipped_run((i - start) as nat)[k - start]);
                }
            }
        }
    }

    /// The action that this job asks for in its present state.
    pub fn current_action(&self) -> (a: JobAction)
        requires
            self.wf(),
        ensures
            self.asks_for(a),
    {
        match self.stage {
            Stage::Decode => JobAction::Decode,
            Stage::Resize => {
                let w = self.widths[self.outcomes.len()];
                JobAction::Resize { width: w, height: scale_height(self.source_height, w, self.source_width) }
            },
            Stage::SaveRaster => {
                let w = self.widths[self.outcomes.len()];
                JobAction::SaveRaster {
                    width: w,
                    file_name: raster_file_name(self.data.file_name.as_str(), w, self.data.file_type),
                }
            },
            Stage::Compress => {
                let w = self.widths[self.outcomes.len()];
                JobAction::Compress { width: w, format: map_channels_format(self.data.channels) }
            },
            Stage::SaveContainer => {
                let w = self.widths[self.outcomes.len()];
                JobAction::SaveContainer {
                    width: w,
                    file_name: container_file_name(self.data.file_name.as_str(), w),
                }
            },
            Stage::Done => JobAction::Finish,
        }
    }

    /// Takes the result of the last action and returns the next one.
    pub fn step(&mut self, event: JobEvent) -> (a: JobAction)
        requires
            old(self).wf(),
        ensures
            final(self).wf(),
            final(self).same_job(old(self)),
            final(self).asks_for(a),
            old(self).stage != Stage::Decode ==> {
                &&& final(self).data.channels == old(self).data.channels
                &&& final(self).source_width == old(self).source_width
                &&& final(self).source_height == old(self).source_height
            },
            old(self).stage == Stage::Done ==> *final(self) == *old(self),
            old(self).stage == Stage::Decode ==> match event {
                JobEvent::Decoded { width, height, channels } => {
                    &&& final(self).source_width == width
                    &&& final(self).source_height == height
                    &&& final(self).data.channels == channels
                    &&& final(self).decode_error is None
                    &&& final(self).outcomes@ == resume_outcomes(Seq::empty(), old(self).widths@, width)
                    &&& final(self).stage == resume_stage(0, old(self).widths@, width)
                },
                JobEvent::Failed(m) => {
                    &&& final(self).stage == Stage::Done
                    &&& final(self).decode_error == Some(m)
                    &&& final(self).outcomes@.len() == 0
                },
                JobEvent::Completed => {
                    &&& final(self).stage == Stage::Done
                    &&& final(self).decode_error is Some
                    &&& final(self).outcomes@.len() == 0
                },
            },
            is_width_stage(old(self).stage) ==> match event {
                JobEvent::Failed(m) => {
                    &&& final(self).outcomes@ == resume_outcomes(
                        old(self).outcomes@.push(WidthOutcome::Failed(m)), old(self).widths@, old(self).source_width)
                    &&& final(self).stage == resume_stage(
                        (old(self).outcomes@.len() + 1) as int, old(self).widths@, old(self).source_width)
                },
                _ => if old(self).stage == Stage::SaveContainer {
                    &&& final(self).outcomes@ == resume_outcomes(
                        old(self).outcomes@.push(WidthOutcome::Saved), old(self).widths@, old(self).source_width)
                    &&& final(self).stage == resume_stage(
                        (old(self).outcomes@.len() + 1) as int, old(self).widths@, old(self).source_width)
                } else {
                    &&& final(self).outcomes@ == old(self).outcomes@
                    &&& final(self).stage == following_stage(old(self).stage)
                },
            },
    {
        match self.stage {
            Stage::Done => {},
            Stage::Decode => {
                match event {
                    JobEvent::Decoded { width, height, channels } => {
                        self.source_width = width;
                        self.source_height = height;
                        self.data.channels = channels;
                        self.resume();
                    },
                    JobEvent::Failed(m) => {
                        self.decode_error = Some(m);
                        self.stage = Stage::Done;
                    },
                    JobEvent::Completed => {
                        self.decode_error = Some(String::new());
                        self.stage = Stage::Done;
                    },
                }
            },
            _ => {
                match event {
                    JobEvent::Failed(m) => {
                        self.outcomes.push(WidthOutcome::Failed(m));
                        self.resume();
                    },
                    _ => {
                        match self.stage {
                            Stage::Resize => { self.stage = Stage::SaveRaster; },
                            Stage::SaveRaster => { self.stage = Stage::Compress; },
                            Stage::Compress => { self.stage = Stage::SaveContainer; },
                            _ => {
                                self.outcomes.push(WidthOutcome::Saved);
                                self.resume();
                            },
                        }
                    },
                }
            },
        }
        self.current_action()
    }
}

} // verus!
