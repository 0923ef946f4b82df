//! The statistics of a workflow over its runs.

use vstd::prelude::*;
use crate::span::{running_mean, Span};
use crate::job::{
    counts_as_failure, job_elapsed, lemma_mean_with_in_range, max_with, mean_in_range, mean_with,
    mean_with_fits, min_with, opt_nanos, opt_wf, JobRecord,
};

verus! {

/// A run failed when one of its jobs counts as failed.
pub open spec fn run_failed(jobs: Seq<JobRecord>) -> bool
    decreases jobs.len(),
{
    if jobs.len() == 0 {
        false
    } else {
        run_failed(jobs.drop_last()) || counts_as_failure(jobs.last().conclusion)
    }
}

/// How long a run took: the longest duration among its jobs, if any job has one.
pub open spec fn run_elapsed(jobs: Seq<JobRecord>) -> Option<int>
    decreases jobs.len(),
{
    if jobs.len() == 0 {
        None
    } else {
        let before = run_elapsed(jobs.drop_last());
        match job_elapsed(jobs.last()) {
            Some(x) => Some(max_with(before, x)),
            None => before,
        }
    }
}

/// The statistics of a workflow, as a model, with durations in nanoseconds.
pub ghost struct WorkflowTally {
    pub total_runs: int,
    pub skipped_runs: int,
    pub failed_runs: int,
    pub timed_runs: int,
    pub avg: Option<int>,
    pub min: Option<int>,
    pub max: Option<int>,
    pub consecutive: int,
    pub current: int,
    pub longest: int,
}

/// The statistics of a workflow before any run is counted.
pub open spec fn fresh_workflow() -> WorkflowTally {
    WorkflowTally {
        total_runs: 0,
        skipped_runs: 0,
        failed_runs: 0,
        timed_runs: 0,
        avg: None,
        min: None,
        max: None,
        consecutive: 0,
        current: 0,
        longest: 0,
    }
}

/// The statistics after one more run that `failed` or was `skipped` (it had no jobs) and
/// took `duration`: a failed run is counted as failed and extends the streak; a skipped
/// run is counted as skipped and leaves the streak alone; any other run ends the current
/// streak. The duration, if any, is counted as one more timed run and enters the mean over
/// the timed runs, the minimum and the maximum.
pub open spec fn workflow_update(
    w: WorkflowTally,
    failed: bool,
    skipped: bool,
    duration: Option<int>,
) -> WorkflowTally {
    let runs = w.total_runs + 1;
    let timed = match duration {
        Some(x) => w.timed_runs + 1,
        None => w.timed_runs,
    };
    let avg = match duration {
        Some(x) => Some(mean_with(w.avg, timed, x)),
        None => w.avg,
    };
    let min = match duration {
        Some(x) => Some(min_with(w.min, x)),
        None => w.min,
    };
    let max = match duration {
        Some(x) => Some(max_with(w.max, x)),
        None => w.max,
    };
    if failed {
        let streak = w.consecutive + 1;
        WorkflowTally {
            total_runs: runs,
            skipped_runs: w.skipped_runs,
            failed_runs: w.failed_runs + 1,
            timed_runs: timed,
            avg,
            min,
            max,
            consecutive: streak,
            current: streak,
            longest: if w.longest >= streak { w.longest } else { streak },
        }
    } else if skipped {
        WorkflowTally {
            total_runs: runs,
            skipped_runs: w.skipped_runs + 1,
            failed_runs: w.failed_runs,
            timed_runs: timed,
            avg,
            min,
            max,
            consecutive: w.consecutive,
            current: w.current,
            longest: w.longest,
        }
    } else {
        WorkflowTally {
            total_runs: runs,
            skipped_runs: w.skipped_runs,
            failed_runs: w.failed_runs,
            timed_runs: timed,
            avg,
            min,
            max,
            consecutive: 0,
            current: 0,
            longest: w.longest,
        }
    }
}

/// The statistics after one more run with the jobs `jobs`.
pub open spec fn workflow_step(w: WorkflowTally, jobs: Seq<JobRecord>) -> WorkflowTally {
    workflow_update(w, run_failed(jobs), jobs.len() == 0, run_elapsed(jobs))
}

/// The run's duration can enter the mean without leaving chrono's range.
pub open spec fn workflow_update_fits(w: WorkflowTally, duration: Option<int>) -> bool {
    match duration {
        Some(x) => mean_with_fits(w.avg, w.timed_runs + 1, x),
        None => true,
    }
}

impl WorkflowTally {
    /// What holds of a workflow's statistics: failed and skipped runs are distinct runs,
    /// timed runs never outnumber runs, streaks never outnumber failed runs, the current
    /// streak is the run of consecutive failures and never exceeds the longest, and the
    /// duration figures are present exactly when a run was timed, the minimum below the
    /// maximum and the mean at most the maximum and, for chrono's rounding, at least the
    /// minimum less one nanosecond per timed run after the first.
    pub open spec fn inv(self) -> bool {
        &&& 0 <= self.failed_runs
        &&& 0 <= self.skipped_runs
        &&& self.failed_runs + self.skipped_runs <= self.total_runs
        &&& 0 <= self.timed_runs <= self.total_runs
        &&& 0 <= self.consecutive <= self.longest <= self.failed_runs
        &&& self.current == self.consecutive
        &&& (self.avg is Some <==> self.timed_runs > 0)
        &&& (self.min is Some <==> self.timed_runs > 0)
        &&& (self.max is Some <==> self.timed_runs > 0)
        &&& (self.min matches Some(lo) ==> self.max matches Some(hi) && lo <= hi)
        &&& (self.avg matches Some(m) ==> mean_in_range(m, self.min, self.max, self.timed_runs))
    }
}

/// The statistics gathered for a workflow.
#[derive(Debug)]
pub struct WorkflowStats {
    pub total_runs: i32,
    pub skipped_runs: i32,
    pub failed_runs: i32,
    pub timed_runs: i32,
    pub avg_duration: Option<Span>,
    pub min_duration: Option<Span>,
    pub max_duration: Option<Span>,
    pub consecutive_failures: i32,
    pub current_streak: i32,
    pub longest_streak: i32,
}

impl WorkflowStats {
    /// The statistics as a model.
    pub open spec fn tally(self) -> WorkflowTally {
        WorkflowTally {
            total_runs: self.total_runs as int,
            skipped_runs: self.skipped_runs as int,
            failed_runs: self.failed_runs as int,
            timed_runs: self.timed_runs as int,
            avg: opt_nanos(self.avg_duration),
            min: opt_nanos(self.min_duration),
            max: opt_nanos(self.max_duration),
            consecutive: self.consecutive_failures as int,
            current: self.current_streak as int,
            longest: self.longest_streak as int,
        }
    }

    /// The spans held are well formed.
    pub open spec fn wf(self) -> bool {
        &&& opt_wf(self.avg_duration)
        &&& opt_wf(self.min_duration)
        &&& opt_wf(self.max_duration)
    }

    /// Statistics with no run counted.
    pub fn new() -> (r: WorkflowStats)
        ensures
            r.wf(),
            r.tally() == fresh_workflow(),
    {
        WorkflowStats {
            total_runs: 0,
            skipped_runs: 0,
            failed_runs: 0,
            timed_runs: 0,
            avg_duration: None,
            min_duration: None,
            max_duration: None,
            consecutive_failures: 0,
            current_streak: 0,
            longest_streak: 0,
        }
    }

    /// Counts one more run that `failed` or was `skipped` and took `duration`. Returns
    /// `false`, and changes nothing, when the mean duration would leave chrono's range;
    /// otherwise the statistics become `workflow_update` of the old ones.
    pub fn record_run(&mut self, failed: bool, skipped: bool, duration: Option<Span>) -> (ok: bool)
        requires
            old(self).wf(),
            old(self).tally().inv(),
            opt_wf(duration),
            old(self).total_runs < 2147483647,
        ensures
            ok == workflow_update_fits(old(self).tally(), opt_nanos(duration)),
            ok ==> final(self).wf() && final(self).tally() == workflow_update(
                old(self).tally(),
                failed,
                skipped,
                opt_nanos(duration),
            ),
            !ok ==> *final(self) == *old(self),
    {
        let runs: i32 = self.total_runs + 1;
        let mut timed: i32 = self.timed_runs;
        let mut avg = self.avg_duration;
        let mut min = self.min_duration;
        let mut max = self.max_duration;
        match duration {
            Some(d) => {
                timed = timed + 1;
                match self.avg_duration {
                    Some(a) => {
                        match running_mean(a, timed, d) {
                            Some(m) => {
                                avg = Some(m);
                            },
                            None => {
                                return false;
                            },
                        }
                    },
                    None => {
                        avg = Some(d);
                    },
                }
                min = match self.min_duration {
                    Some(m) => Some(m.earliest(d)),
                    None => Some(d),
                };
                max = match self.max_duration {
                    Some(m) => Some(m.latest(d)),
                    None => Some(d),
                };
            },
            None => {},
        }
        self.total_runs = runs;
        self.timed_runs = timed;
        self.avg_duration = avg;
        self.min_duration = min;
        self.max_duration = max;
        if failed {
            self.failed_runs = self.failed_runs + 1;
            self.consecutive_failures = self.consecutive_failures + 1;
            self.current_streak = self.consecutive_failures;
            if self.longest_streak < self.current_streak {
                self.longest_streak = self.current_streak;
            }
        } else if skipped {
            self.skipped_runs = self.skipped_runs + 1;
        } else {
            self.consecutive_failures = 0;
            self.current_streak = 0;
        }
        true
    }
}

/// Counting a run keeps what holds of a workflow's statistics.
pub proof fn lemma_workflow_update_inv(
    w: WorkflowTally,
    failed: bool,
    skipped: bool,
    duration: Option<int>,
)
    requires
        w.inv(),
    ensures
        workflow_update(w, failed, skipped, duration).inv(),
{
    if let Some(x) = duration {
        lemma_mean_with_in_range(w.avg, w.min, w.max, w.timed_runs, x);
    }
}

} // verus!
