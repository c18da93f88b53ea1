//! Properties of the pipeline that hold across calls and states.

use vstd::prelude::*;
use crate::filetype::FileType;
use crate::dispatch::{lemma_all_reported, DispatchAction, Dispatcher, JobResult};
use crate::paths::{is_under, mirrored, parent_of};
use crate::pipeline::{width_valid, ImageJob, JobAction, Stage};

verus! {

/// The directory of a mirrored file is the mirror of the file's directory,
/// and that directory lies under the input root as well.
pub proof fn lemma_mirror_parent(base_in: Seq<Seq<char>>, base_out: Seq<Seq<char>>, p: Seq<Seq<char>>)
    requires
        is_under(base_in, p),
        p.len() > base_in.len(),
    ensures
        is_under(base_in, parent_of(p)),
        parent_of(mirrored(base_in, base_out, p)) == mirrored(base_in, base_out, parent_of(p)),
{
    assert(parent_of(p).subrange(0, base_in.len() as int) =~= p.subrange(0, base_in.len() as int));
    assert(parent_of(mirrored(base_in, base_out, p)) =~= mirrored(base_in, base_out, parent_of(p)));
}

/// For files under the input root, the directories that receive their
/// artifacts are exactly the input directories with the input root replaced
/// by the output root.
pub proof fn lemma_mirrored_directories(
    base_in: Seq<Seq<char>>,
    base_out: Seq<Seq<char>>,
    inputs: Set<Seq<Seq<char>>>,
)
    requires
        forall|p: Seq<Seq<char>>| inputs.contains(p) ==> is_under(base_in, p) && p.len() > base_in.len(),
    ensures
        inputs.map(|p: Seq<Seq<char>>| parent_of(mirrored(base_in, base_out, p)))
            == inputs.map(|p: Seq<Seq<char>>| parent_of(p)).map(|d: Seq<Seq<char>>| mirrored(base_in, base_out, d)),
{
    let lhs = inputs.map(|p: Seq<Seq<char>>| parent_of(mirrored(base_in, base_out, p)));
    let dirs = inputs.map(|p: Seq<Seq<char>>| parent_of(p));
    let rhs = dirs.map(|d: Seq<Seq<char>>| mirrored(base_in, base_out, d));
    assert forall|x: Seq<Seq<char>>| lhs.contains(x) implies rhs.contains(x) by {
        let p = choose|p: Seq<Seq<char>>| inputs.contains(p) && x == parent_of(mirrored(base_in, base_out, p));
        lemma_mirror_parent(base_in, base_out, p);
        assert(dirs.contains(parent_of(p)));
    }
    assert forall|x: Seq<Seq<char>>| rhs.contains(x) implies lhs.contains(x) by {
        let d = choose|d: Seq<Seq<char>>| dirs.contains(d) && x == mirrored(base_in, base_out, d);
        let p = choose|p: Seq<Seq<char>>| inputs.contains(p) && d == parent_of(p);
        lemma_mirror_parent(base_in, base_out, p);
        assert(lhs.contains(parent_of(mirrored(base_in, base_out, p))));
    }
    assert(lhs =~= rhs);
}

/// A job that ran to its end over a decoded source has one outcome per
/// target width, and a width is skipped exactly when it is zero or wider than
/// the source.
pub proof fn lemma_width_validity(job: ImageJob)
    requires
        job.wf(),
        job.stage == Stage::Done,
        job.decode_error is None,
        job.data.file_type != FileType::UNKNOWN,
    ensures
        job.outcomes@.len() == job.widths@.len(),
        forall|i: int| 0 <= i < job.widths@.len() ==>
            (job.outcomes@[i] is Skipped <==> !width_valid(job.widths@[i], job.source_width)),
{
}

/// A job asks to resize, save or compress only for a valid width.
pub proof fn lemma_work_only_on_valid_widths(job: ImageJob, a: JobAction)
    requires
        job.wf(),
        job.asks_for(a),
    ensures
        a matches JobAction::Resize { width, .. } ==> width_valid(width, job.source_width),
        a matches JobAction::SaveRaster { width, .. } ==> width_valid(width, job.source_width),
        a matches JobAction::Compress { width, .. } ==> width_valid(width, job.source_width),
        a matches JobAction::SaveContainer { width, .. } ==> width_valid(width, job.source_width),
{
}

/// No state of the dispatcher has more permits held than there are threads.
pub proof fn lemma_permits_bounded(g: Dispatcher)
    requires
        g.wf(),
    ensures
        g.active <= g.threads,
{
}

/// A job whose source failed to decode has ended with no width attempted, so
/// it makes no artifact.
pub proof fn lemma_decode_failure_makes_nothing(job: ImageJob)
    requires
        job.wf(),
        job.decode_error is Some,
    ensures
        job.stage == Stage::Done,
        job.outcomes@.len() == 0,
        forall|a: JobAction| job.asks_for(a) ==> a is Finish,
{
}

/// What one job reports has no bearing on the others: two dispatchers whose
/// counters agree decide alike whatever their jobs reported, and a batch is
/// complete only once every job has been started and has reported.
pub proof fn lemma_results_do_not_steer_dispatch(g1: Dispatcher, g2: Dispatcher)
    requires
        g1.wf(),
        g2.wf(),
        g1.threads == g2.threads,
        g1.total == g2.total,
        g1.dispatched == g2.dispatched,
        g1.active == g2.active,
    ensures
        g1.decision() == g2.decision(),
        g1.decision() == DispatchAction::Complete ==> g1.dispatched == g1.total
            && forall|k: int| 0 <= k < g1.total ==> g1.results@[k] is Some,
{
    if g1.decision() == DispatchAction::Complete {
        lemma_all_reported(g1);
    }
}

/// Whatever job `index` reports at its end (a decode failure, a fault, or
/// its artifacts), the dispatcher left by `job_finished` keeps every other
/// job's record, and its next decision is the same as for any other report.
pub proof fn lemma_report_isolated(
    g: Dispatcher,
    h1: Dispatcher,
    h2: Dispatcher,
    index: int,
    r1: JobResult,
    r2: JobResult,
)
    requires
        g.wf(),
        g.is_running(index),
        h1.threads == g.threads && h1.total == g.total && h1.dispatched == g.dispatched,
        h1.active == g.active - 1 && h1.finished == g.finished + 1,
        h1.results@ == g.results@.update(index, Some(r1)),
        h2.threads == g.threads && h2.total == g.total && h2.dispatched == g.dispatched,
        h2.active == g.active - 1 && h2.finished == g.finished + 1,
        h2.results@ == g.results@.update(index, Some(r2)),
    ensures
        h1.decision() == h2.decision(),
        forall|k: int| 0 <= k < g.total && k != index ==> h1.results@[k] == g.results@[k] && h2.results@[k] == g.results@[k],
{
}

/// Two jobs in the same place over the same source ask for the same resize
/// and the same raster file: the raster stage is a function of its inputs.
pub proof fn lemma_raster_request_determined(j1: ImageJob, j2: ImageJob, a1: JobAction, a2: JobAction)
    requires
        j1.wf(),
        j2.wf(),
        j1.asks_for(a1),
        j2.asks_for(a2),
        j1.stage == j2.stage,
        j1.stage == Stage::Resize || j1.stage == Stage::SaveRaster,
        j1.current_width() == j2.current_width(),
        j1.source_width == j2.source_width,
        j1.source_height == j2.source_height,
        j1.data.file_name@ == j2.data.file_name@,
        j1.data.file_type == j2.data.file_type,
    ensures
        j1.stage == Stage::Resize ==> a1 == a2,
        a1 matches JobAction::SaveRaster { width: w1, file_name: n1 } ==>
            a2 matches JobAction::SaveRaster { width: w2, file_name: n2 } && w1 == w2 && n1@ == n2@,
{
}

} // verus!
