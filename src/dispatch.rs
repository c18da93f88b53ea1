//! The dispatcher: a pool of `threads` permits over a batch of jobs.
//!
//! The dispatcher decides; its caller performs. `Dispatcher::next_action` says whether to
//! start the next job (taking a permit for it), to wait for a running job to
//! end, or that the batch is complete. `Dispatcher::job_finished` hands back the
//! permit of a job that ended and records what it reported. What one job
//! reports never changes what happens to the others.

use vstd::prelude::*;
use crate::pipeline::WidthOutcome;

verus! {

/// What one job reported at its end.
#[derive(Clone, Debug)]
pub enum JobResult {
    /// The job ran to its end: the outcome of each width, and the decode
    /// failure where there was one.
    Finished { outcomes: Vec<WidthOutcome>, decode_error: Option<String> },
    /// The job ended abnormally, with the fault's message.
    Fault(String),
}

/// What the caller is to do next.
#[derive(PartialEq, Eq, Structural, Clone, Copy, Debug)]
pub enum DispatchAction {
    /// Start the job with this index; its permit is taken.
    Dispatch(usize),
    /// Every permit is held, or nothing is left to start: wait for a job to end.
    AwaitCompletion,
    /// Every job has been started and has ended.
    Complete,
}

/// How many of `s` hold a result.
pub open spec fn count_reported(s: Seq<Option<JobResult>>) -> nat
    decreases s.len(),
{
    if s.len() == 0 {
        0
    } else {
        count_reported(s.drop_last()) + if s.last() is Some { 1nat } else { 0nat }
    }
}

proof fn lemma_count_update(s: Seq<Option<JobResult>>, i: int, v: JobResult)
    requires
        0 <= i < s.len(),
        s[i] is None,
    ensures
        count_reported(s.update(i, Some(v))) == count_reported(s) + 1,
    decreases s.len(),
{
    let t = s.update(i, Some(v));
    if i == s.len() - 1 {
        assert(t.drop_last() =~= s.drop_last());
    } else {
        assert(t.drop_last() =~= s.drop_last().update(i, Some(v)));
        lemma_count_update(s.drop_last(), i, v);
    }
}

proof fn lemma_count_bound(s: Seq<Option<JobResult>>, d: int)
    requires
        0 <= d <= s.len(),
        forall|k: int| d <= k < s.len() ==> s[k] is None,
    ensures
        count_reported(s) <= d,
        (exists|j: int| 0 <= j < d && s[j] is None) ==> count_reported(s) < d,
        count_reported(s) == d ==> forall|k: int| 0 <= k < d ==> s[k] is Some,
    decreases s.len(),
{
    if s.len() > 0 {
        let t = s.drop_last();
        if d == s.len() {
            lemma_count_bound(t, d - 1);
            if exists|j: int| 0 <= j < d && s[j] is None {
                let j = choose|j: int| 0 <= j < d && s[j] is None;
                if j < d - 1 {
                    assert(t[j] is None);
                }
            }
            if count_reported(s) == d {
                assert forall|k: int| 0 <= k < d implies s[k] is Some by {
                    if k < d - 1 {
                        assert(t[k] == s[k]);
                    }
                }
            }
        } else {
            lemma_count_bound(t, d);
            if exists|j: int| 0 <= j < d && s[j] is None {
                let j = choose|j: int| 0 <= j < d && s[j] is None;
                assert(t[j] is None);
            }
            if count_reported(s) == d {
                assert forall|k: int| 0 <= k < d implies s[k] is Some by {
                    assert(t[k] == s[k]);
                }
            }
        }
    }
}

/// With no permit held, every started job has reported.
pub proof fn lemma_all_reported(g: Dispatcher)
    requires
        g.wf(),
        g.active == 0,
    ensures
        forall|k: int| 0 <= k < g.dispatched ==> g.results@[k] is Some,
{
    lemma_count_bound(g.results@, g.dispatched as int);
}

/// The permit pool and the record of a batch of `total` jobs.
pub struct Dispatcher {
    /// Number of permits.
    pub threads: usize,
    /// Number of jobs in the batch.
    pub total: usize,
    /// Jobs started so far; they are started in index order.
    pub dispatched: usize,
    /// Permits held, one by each job that has started and not ended.
    pub active: usize,
    /// Jobs ended so far.
    pub finished: usize,
    /// What each ended job reported.
    pub results: Vec<Option<JobResult>>,
}

impl Dispatcher {
    /// What the dispatcher does next: it looks at its counters only, never at
    /// what the jobs reported.
    pub open spec fn decision(&self) -> DispatchAction {
        if self.dispatched < self.total && self.active < self.threads {
            DispatchAction::Dispatch(self.dispatched)
        } else if self.active > 0 {
            DispatchAction::AwaitCompletion
        } else {
            DispatchAction::Complete
        }
    }

    pub open spec fn wf(&self) -> bool {
        &&& self.threads >= 1
        &&& self.active <= self.threads
        &&& self.dispatched <= self.total
        &&& self.active + self.finished == self.dispatched
        &&& self.results@.len() == self.total
        &&& self.finished == count_reported(self.results@)
        &&& forall|k: int| self.dispatched <= k < self.total ==> self.results@[k] is None
    }

    /// Job `i` has been started and has not ended.
    pub open spec fn is_running(&self, i: int) -> bool {
        0 <= i < self.dispatched && self.results@[i] is None
    }

    /// A dispatcher of `threads` permits over `total` jobs, none started.
    pub fn new(threads: usize, total: usize) -> (r: Dispatcher)
        requires
            threads >= 1,
        ensures
            r.wf(),
            r.threads == threads,
            r.total == total,
            r.dispatched == 0,
            r.active == 0,
            r.finished == 0,
    {
        let mut results: Vec<Option<JobResult>> = Vec::new();
        let mut i: usize = 0;
        while i < total
            invariant
                i <= total,
                results@.len() == i,
                forall|k: int| 0 <= k < i ==> results@[k] is None,
                count_reported(results@) == 0,
            decreases total - i,
        {
            let ghost prev = results@;
            results.push(None);
            assert(results@.drop_last() =~= prev);
            i = i + 1;
        }
        Dispatcher { threads, total, dispatched: 0, active: 0, finished: 0, results }
    }

    /// Decides what to do next; a dispatch takes a permit.
    pub fn next_action(&mut self) -> (a: DispatchAction)
        requires
            old(self).wf(),
        ensures
            final(self).wf(),
            final(self).threads == old(self).threads,
            final(self).total == old(self).total,
            final(self).finished == old(self).finished,
            final(self).results@ == old(self).results@,
            a == old(self).decision(),
            old(self).dispatched < old(self).total && old(self).active < old(self).threads ==> {
                &&& a == DispatchAction::Dispatch(old(self).dispatched)
                &&& final(self).dispatched == old(self).dispatched + 1
                &&& final(self).active == old(self).active + 1
            },
            !(old(self).dispatched < old(self).total && old(self).active < old(self).threads) ==> {
                &&& *final(self) == *old(self)
                &&& a == (if old(self).active > 0 { DispatchAction::AwaitCompletion } else { DispatchAction::Complete })
            },
            a == DispatchAction::Complete ==> {
                &&& final(self).dispatched == final(self).total
                &&& final(self).finished == final(self).total
                &&& forall|k: int| 0 <= k < final(self).total ==> final(self).results@[k] is Some
            },
    {
        if self.dispatched < self.total && self.active < self.threads {
            let i = self.dispatched;
            self.dispatched = self.dispatched + 1;
            self.active = self.active + 1;
            DispatchAction::Dispatch(i)
        } else if self.active > 0 {
            DispatchAction::AwaitCompletion
        } else {
            proof {
                lemma_count_bound(self.results@, self.dispatched as int);
            }
            DispatchAction::Complete
        }
    }

    /// Job `index` has ended and reported `result`: its permit is handed back.
    pub fn job_finished(&mut self, index: usize, result: JobResult)
        requires
            old(self).wf(),
            old(self).is_running(index as int),
        ensures
            final(self).wf(),
            final(self).threads == old(self).threads,
            final(self).total == old(self).total,
            final(self).dispatched == old(self).dispatched,
            final(self).active == old(self).active - 1,
            final(self).finished == old(self).finished + 1,
            final(self).results@ == old(self).results@.update(index as int, Some(result)),
    {
        proof {
            lemma_count_bound(self.results@, self.dispatched as int);
            lemma_count_update(self.results@, index as int, result);
        }
        self.results.set(index, Some(result));
        self.active = self.active - 1;
        self.finished = self.finished + 1;
    }
}

} // verus!
