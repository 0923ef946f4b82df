//! One job's record in a run, and the statistics gathered for a job name across runs.

use vstd::prelude::*;
use crate::span::{
    elapsed, lemma_mean_step_bounds, mean_after, mean_fits, running_mean, Moment, Span,
    chrono_elapsed,
};

verus! {

/// How a job finished, as GitHub reports it.
#[derive(Clone, Copy, Debug, PartialEq, Eq, Structural)]
pub enum Conclusion {
    ActionRequired,
    Cancelled,
    Failure,
    Neutral,
    Skipped,
    Success,
    TimedOut,
}

/// A job counts as failed when it failed, was cancelled or timed out.
pub open spec fn counts_as_failure(c: Option<Conclusion>) -> bool {
    match c {
        Some(Conclusion::Failure) => true,
        Some(Conclusion::Cancelled) => true,
        Some(Conclusion::TimedOut) => true,
        _ => false,
    }
}

/// Whether a job with this conclusion counts as failed.
pub fn is_failure(c: Option<Conclusion>) -> (r: bool)
    ensures
        r == counts_as_failure(c),
{
    match c {
        Some(Conclusion::Failure) => true,
        Some(Conclusion::Cancelled) => true,
        Some(Conclusion::TimedOut) => true,
        _ => false,
    }
}

/// One job of a workflow run.
#[derive(Clone, Debug)]
pub struct JobRecord {
    pub name: String,
    pub conclusion: Option<Conclusion>,
    pub started_at: Moment,
    pub completed_at: Option<Moment>,
}

/// How long the job ran: from its start to its completion, when it completed and
/// chrono can place both instants.
pub open spec fn job_elapsed(j: JobRecord) -> Option<int> {
    match j.completed_at {
        Some(end) => chrono_elapsed(end, j.started_at),
        None => None,
    }
}

/// An optional span, by its length.
pub open spec fn opt_nanos(o: Option<Span>) -> Option<int> {
    match o {
        Some(s) => Some(s@),
        None => None,
    }
}

/// An optional span is well formed when present.
pub open spec fn opt_wf(o: Option<Span>) -> bool {
    match o {
        Some(s) => s.wf(),
        None => true,
    }
}

/// The duration of a job, when it has one.
pub fn job_duration(j: &JobRecord) -> (r: Option<Span>)
    ensures
        opt_wf(r),
        opt_nanos(r) == job_elapsed(*j),
{
    match j.completed_at {
        Some(end) => elapsed(end, j.started_at),
        None => None,
    }
}

/// The smaller of an optional running minimum and a new sample.
pub open spec fn min_with(m: Option<int>, x: int) -> int {
    match m {
        Some(v) => if v <= x { v } else { x },
        None => x,
    }
}

/// The larger of an optional running maximum and a new sample.
pub open spec fn max_with(m: Option<int>, x: int) -> int {
    match m {
        Some(v) => if v <= x { x } else { v },
        None => x,
    }
}

/// A mean `m` of `timed` samples lies between the minimum and the maximum, save that
/// chrono's rounding may take it below the minimum by one nanosecond per sample after
/// the first.
pub open spec fn mean_in_range(m: int, min: Option<int>, max: Option<int>, timed: int) -> bool {
    &&& min matches Some(lo)
    &&& max matches Some(hi)
    &&& lo - (timed - 1) <= m <= hi
}

/// One more sample keeps a mean, with the minimum and the maximum, in range.
pub proof fn lemma_mean_with_in_range(
    m: Option<int>,
    min: Option<int>,
    max: Option<int>,
    timed: int,
    x: int,
)
    requires
        timed >= 0,
        m is Some <==> timed > 0,
        m matches Some(v) ==> mean_in_range(v, min, max, timed),
    ensures
        mean_in_range(mean_with(m, timed + 1, x), Some(min_with(min, x)), Some(max_with(max, x)), timed + 1),
{
    match m {
        Some(v) => {
            let lo = min_with(min, x);
            let hi = max_with(max, x);
            lemma_mean_step_bounds(v, timed + 1, x, lo, hi);
        },
        None => {},
    }
}

/// The mean of `count` samples, given the mean `m` of the first `count - 1` (none when
/// there were none) and the `count`-th sample `x`; a first sample is its own mean.
pub open spec fn mean_with(m: Option<int>, count: int, x: int) -> int {
    match m {
        Some(v) => mean_after(v, count, x),
        None => x,
    }
}

/// The mean can take the `count`-th sample without leaving chrono's range.
pub open spec fn mean_with_fits(m: Option<int>, count: int, x: int) -> bool {
    match m {
        Some(v) => mean_fits(v, count, x),
        None => true,
    }
}

/// The statistics of a job name, as a model: counts, the last failure, the durations
/// (in nanoseconds) over the runs that have one, and streaks of consecutive failures.
pub ghost struct JobTally {
    pub total_runs: int,
    pub failures: int,
    pub last_failure: Option<Moment>,
    pub timed_runs: int,
    pub avg: Option<int>,
    pub min: Option<int>,
    pub max: Option<int>,
    pub consecutive: int,
    pub current: int,
    pub longest: int,
    pub last_status: Option<Conclusion>,
}

/// The statistics of a job name before its first run is counted.
pub open spec fn fresh_tally(status: Option<Conclusion>) -> JobTally {
    JobTally {
        total_runs: 0,
        failures: 0,
        last_failure: None,
        timed_runs: 0,
        avg: None,
        min: None,
        max: None,
        consecutive: 0,
        current: 0,
        longest: 0,
        last_status: status,
    }
}

/// The statistics after one more run `j` of the job, counted at the time `now`: the run
/// is counted; its duration, if any, is counted as one more timed run and enters the mean
/// over the timed runs, the minimum and the maximum; a failure is counted, is dated by its
/// completion (by `now` when it has none), extends the current streak and may extend the
/// longest; any other outcome ends the current streak.
pub open spec fn tally_step(t: JobTally, j: JobRecord, now: Moment) -> JobTally {
    let runs = t.total_runs + 1;
    let d = job_elapsed(j);
    let timed = match d {
        Some(x) => t.timed_runs + 1,
        None => t.timed_runs,
    };
    let avg = match d {
        Some(x) => Some(mean_with(t.avg, timed, x)),
        None => t.avg,
    };
    let min = match d {
        Some(x) => Some(min_with(t.min, x)),
        None => t.min,
    };
    let max = match d {
        Some(x) => Some(max_with(t.max, x)),
        None => t.max,
    };
    if counts_as_failure(j.conclusion) {
        let streak = t.consecutive + 1;
        JobTally {
            total_runs: runs,
            failures: t.failures + 1,
            last_failure: Some(
                match j.completed_at {
                    Some(at) => at,
                    None => now,
                },
            ),
            timed_runs: timed,
            avg,
            min,
            max,
            consecutive: streak,
            current: streak,
            longest: if t.longest >= streak { t.longest } else { streak },
            last_status: j.conclusion,
        }
    } else {
        JobTally {
            total_runs: runs,
            failures: t.failures,
            last_failure: t.last_failure,
            timed_runs: timed,
            avg,
            min,
            max,
            consecutive: 0,
            current: 0,
            longest: t.longest,
            last_status: j.conclusion,
        }
    }
}

/// Run `j` can be counted without any duration figure leaving chrono's range.
pub open spec fn tally_step_fits(t: JobTally, j: JobRecord) -> bool {
    match job_elapsed(j) {
        Some(x) => mean_with_fits(t.avg, t.timed_runs + 1, x),
        None => true,
    }
}

impl JobTally {
    /// What holds of every job's statistics: failures and timed runs never outnumber runs,
    /// streaks never outnumber failures, the current streak is the run of consecutive
    /// failures and never exceeds the longest, the duration figures are present exactly
    /// when a run was timed, with the minimum below the maximum and the mean at most the
    /// maximum and, for chrono's rounding, at least the minimum less one nanosecond per
    /// timed run after the first, and a last failure is recorded exactly when there was a
    /// failure.
    pub open spec fn inv(self) -> bool {
        &&& 0 <= self.consecutive <= self.failures <= self.total_runs
        &&& 0 <= self.current <= self.longest <= self.failures
        &&& self.current == self.consecutive
        &&& 0 <= self.timed_runs <= self.total_runs
        &&& (self.avg is Some <==> self.timed_runs > 0)
        &&& (self.min is Some <==> self.timed_runs > 0)
        &&& (self.max is Some <==> self.timed_runs > 0)
        &&& (self.min matches Some(lo) ==> self.max matches Some(hi) && lo <= hi)
        &&& (self.avg matches Some(m) ==> mean_in_range(m, self.min, self.max, self.timed_runs))
        &&& (self.last_failure is Some <==> self.failures > 0)
    }
}

/// The statistics gathered for one job name.
#[derive(Debug)]
pub struct JobStats {
    pub total_runs: u32,
    pub failures: u32,
    pub last_failure: Option<Moment>,
    pub timed_runs: u32,
    pub avg_duration: Option<Span>,
    pub min_duration: Option<Span>,
    pub max_duration: Option<Span>,
    pub consecutive_failures: u32,
    pub current_streak: u32,
    pub longest_streak: u32,
    pub last_status: Option<Conclusion>,
}

impl JobStats {
    /// The statistics as a model.
    pub open spec fn tally(self) -> JobTally {
        JobTally {
            total_runs: self.total_runs as int,
            failures: self.failures as int,
            last_failure: self.last_failure,
            timed_runs: self.timed_runs as int,
            avg: opt_nanos(self.avg_duration),
            min: opt_nanos(self.min_duration),
            max: opt_nanos(self.max_duration),
            consecutive: self.consecutive_failures as int,
            current: self.current_streak as int,
            longest: self.longest_streak as int,
            last_status: self.last_status,
        }
    }

    /// The spans held are well formed.
    pub open spec fn wf(self) -> bool {
        &&& opt_wf(self.avg_duration)
        &&& opt_wf(self.min_duration)
        &&& opt_wf(self.max_duration)
    }

    /// Statistics with nothing counted yet and `status` as the last status.
    pub fn new(status: Option<Conclusion>) -> (r: JobStats)
        ensures
            r.wf(),
            r.tally() == fresh_tally(status),
    {
        JobStats {
            total_runs: 0,
            failures: 0,
            last_failure: None,
            timed_runs: 0,
            avg_duration: None,
            min_duration: None,
            max_duration: None,
            consecutive_failures: 0,
            current_streak: 0,
            longest_streak: 0,
            last_status: status,
        }
    }

    /// Counts one more run `job` of this job, which took `duration`, at the time `now`.
    /// Returns `false`, and changes nothing, when the mean duration would leave chrono's
    /// range (where chrono panics); otherwise the statistics become `tally_step` of the
    /// old ones.
    pub fn record(&mut self, job: &JobRecord, duration: Option<Span>, now: Moment) -> (ok: bool)
        requires
            old(self).wf(),
            opt_wf(duration),
            opt_nanos(duration) == job_elapsed(*job),
            old(self).tally().inv(),
            old(self).total_runs < 2147483647,
        ensures
            ok == tally_step_fits(old(self).tally(), *job),
            ok ==> final(self).wf() && final(self).tally() == tally_step(
                old(self).tally(),
                *job,
                now,
            ),
            !ok ==> *final(self) == *old(self),
    {
        let runs: u32 = self.total_runs + 1;
        let mut timed: u32 = self.timed_runs;
        let mut avg = self.avg_duration;
        let mut min = self.min_duration;
        let mut max = self.max_duration;
        match duration {
            Some(d) => {
                timed = timed + 1;
                match self.avg_duration {
                    Some(a) => {
                        match running_mean(a, timed as i32, d) {
                            Some(m) => {
                                avg = Some(m);
                            },
                            None => {
                                return false;
                            },
                        }
                    },
                    None => {
                        avg = Some(d);
                    },
                }
                min = match self.min_duration {
                    Some(m) => Some(m.earliest(d)),
                    None => Some(d),
                };
                max = match self.max_duration {
                    Some(m) => Some(m.latest(d)),
                    None => Some(d),
                };
            },
            None => {},
        }
        self.total_runs = runs;
        self.timed_runs = timed;
        self.avg_duration = avg;
        self.min_duration = min;
        self.max_duration = max;
        if is_failure(job.conclusion) {
            self.failures = self.failures + 1;
            self.last_failure = match job.completed_at {
                Some(at) => Some(at),
                None => Some(now),
            };
            self.consecutive_failures = self.consecutive_failures + 1;
            self.current_streak = self.consecutive_failures;
            if self.longest_streak < self.current_streak {
                self.longest_streak = self.current_streak;
            }
        } else {
            self.consecutive_failures = 0;
            self.current_streak = 0;
        }
        self.last_status = job.conclusion;
        true
    }
}

/// Counting a run keeps what holds of every job's statistics.
pub proof fn lemma_tally_step_inv(t: JobTally, j: JobRecord, now: Moment)
    requires
        t.inv(),
    ensures
        tally_step(t, j, now).inv(),
{
    if let Some(x) = job_elapsed(j) {
        lemma_mean_with_in_range(t.avg, t.min, t.max, t.timed_runs, x);
    }
}

} // verus!
