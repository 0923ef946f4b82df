//! What holds of every analysis, whatever runs it was gathered from.

use vstd::prelude::*;
use crate::job::{
    counts_as_failure, fresh_tally, job_elapsed, lemma_tally_step_inv, tally_step, JobRecord,
    JobTally,
};
use crate::span::Moment;
use crate::workflow::{lemma_workflow_update_inv, run_elapsed, run_failed};
use crate::analysis::{
    analysis_after, entries_after, entries_inv, entries_step, entry_names, first_index,
    lemma_first_index, EntryModel,
};

verus! {

/// How many of the jobs carry the name `n`.
pub open spec fn jobs_named(jobs: Seq<JobRecord>, n: Seq<char>) -> int
    decreases jobs.len(),
{
    if jobs.len() == 0 {
        0
    } else {
        jobs_named(jobs.drop_last(), n) + if jobs.last().name@ == n {
            1int
        } else {
            0int
        }
    }
}

/// How many of the jobs carry the name `n` and count as failed.
pub open spec fn failures_named(jobs: Seq<JobRecord>, n: Seq<char>) -> int
    decreases jobs.len(),
{
    if jobs.len() == 0 {
        0
    } else {
        failures_named(jobs.drop_last(), n) + if jobs.last().name@ == n && counts_as_failure(
            jobs.last().conclusion,
        ) {
            1int
        } else {
            0int
        }
    }
}

/// How many jobs, over all the runs, carry the name `n`.
pub open spec fn runs_of_job(runs: Seq<Vec<JobRecord>>, n: Seq<char>) -> int
    decreases runs.len(),
{
    if runs.len() == 0 {
        0
    } else {
        runs_of_job(runs.drop_last(), n) + jobs_named(runs.last()@, n)
    }
}

/// How many jobs, over all the runs, carry the name `n` and count as failed.
pub open spec fn failures_of_job(runs: Seq<Vec<JobRecord>>, n: Seq<char>) -> int
    decreases runs.len(),
{
    if runs.len() == 0 {
        0
    } else {
        failures_of_job(runs.drop_last(), n) + failures_named(runs.last()@, n)
    }
}

/// The number of runs counted for the job name `n` among the entries (0 when absent).
pub open spec fn counted_runs(es: Seq<EntryModel>, n: Seq<char>) -> int {
    let i = first_index(entry_names(es), n);
    if i >= 0 {
        es[i].tally.total_runs
    } else {
        0
    }
}

/// The number of failures counted for the job name `n` among the entries (0 when absent).
pub open spec fn counted_failures(es: Seq<EntryModel>, n: Seq<char>) -> int {
    let i = first_index(entry_names(es), n);
    if i >= 0 {
        es[i].tally.failures
    } else {
        0
    }
}

/// No two entries share a name.
pub open spec fn names_distinct(es: Seq<EntryModel>) -> bool {
    forall|a: int, b: int|
        0 <= a < es.len() && 0 <= b < es.len() && a != b ==> (#[trigger] es[a]).name != (
        #[trigger] es[b]).name
}

/// Every entry has counted at least one run.
pub open spec fn entries_counted(es: Seq<EntryModel>) -> bool {
    forall|i: int| 0 <= i < es.len() ==> (#[trigger] es[i]).tally.total_runs >= 1
}

/// Counting one job: the entry of its name counts one more run, and one more failure when
/// it failed; every other name is left as it was; names stay distinct.
proof fn lemma_entries_step_counts(es: Seq<EntryModel>, j: JobRecord, now: Moment, n: Seq<char>)
    requires
        names_distinct(es),
        entries_counted(es),
    ensures
        counted_runs(entries_step(es, j, now), n) == counted_runs(es, n) + if j.name@ == n {
            1int
        } else {
            0int
        },
        counted_failures(entries_step(es, j, now), n) == counted_failures(es, n) + if j.name@ == n
            && counts_as_failure(j.conclusion) {
            1int
        } else {
            0int
        },
        names_distinct(entries_step(es, j, now)),
        entries_counted(entries_step(es, j, now)),
{
    let names = entry_names(es);
    let i = first_index(names, j.name@);
    lemma_first_index(names, j.name@);
    lemma_first_index(names, n);
    let stepped = entries_step(es, j, now);
    let names2 = entry_names(stepped);
    lemma_first_index(names2, n);
    if i >= 0 {
        assert(names2 =~= names);
    } else {
        assert(names2 =~= names.push(j.name@));
        assert(names2.drop_last() =~= names);
        assert forall|a: int, b: int|
            0 <= a < stepped.len() && 0 <= b < stepped.len() && a != b implies (
            #[trigger] stepped[a]).name != (#[trigger] stepped[b]).name by {
            if a == es.len() {
                assert(names[b] == es[b].name);
            }
            if b == es.len() {
                assert(names[a] == es[a].name);
            }
        }
    }
}

/// Counting jobs keeps the counts of every name in step with the jobs counted.
proof fn lemma_entries_after_counts(
    es: Seq<EntryModel>,
    jobs: Seq<JobRecord>,
    now: Moment,
    n: Seq<char>,
)
    requires
        names_distinct(es),
        entries_counted(es),
    ensures
        counted_runs(entries_after(es, jobs, now), n) == counted_runs(es, n) + jobs_named(jobs, n),
        counted_failures(entries_after(es, jobs, now), n) == counted_failures(es, n)
            + failures_named(jobs, n),
        names_distinct(entries_after(es, jobs, now)),
        entries_counted(entries_after(es, jobs, now)),
    decreases jobs.len(),
{
    if jobs.len() > 0 {
        lemma_entries_after_counts(es, jobs.drop_last(), now, n);
        lemma_entries_step_counts(entries_after(es, jobs.drop_last(), now), jobs.last(), now, n);
    }
}

/// For every job name, the analysis counts as many runs as there are jobs of that name
/// in all the runs, and as many failures as there are failed, cancelled or timed-out jobs
/// of that name; a name has statistics exactly when some job carries it; and no name has
/// two sets of statistics.
pub proof fn law_runs_and_failures_per_job(runs: Seq<Vec<JobRecord>>, now: Moment, n: Seq<char>)
    ensures
        counted_runs(analysis_after(runs, now).entries, n) == runs_of_job(runs, n),
        counted_failures(analysis_after(runs, now).entries, n) == failures_of_job(runs, n),
        (first_index(entry_names(analysis_after(runs, now).entries), n) >= 0) <==> runs_of_job(
            runs,
            n,
        ) > 0,
        names_distinct(analysis_after(runs, now).entries),
        entries_counted(analysis_after(runs, now).entries),
    decreases runs.len(),
{
    if runs.len() > 0 {
        law_runs_and_failures_per_job(runs.drop_last(), now, n);
        lemma_analysis_counted(runs.drop_last(), now);
        lemma_entries_after_counts(
            analysis_after(runs.drop_last(), now).entries,
            runs.last()@,
            now,
            n,
        );
    }
    lemma_analysis_counted(runs, now);
    let es = analysis_after(runs, now).entries;
    lemma_first_index(entry_names(es), n);
    let i = first_index(entry_names(es), n);
    if i >= 0 {
        assert(es[i].tally.total_runs >= 1);
    }
}

/// A count of jobs by name is never negative.
proof fn lemma_jobs_named_nonneg(jobs: Seq<JobRecord>, n: Seq<char>)
    ensures
        jobs_named(jobs, n) >= 0,
    decreases jobs.len(),
{
    if jobs.len() > 0 {
        lemma_jobs_named_nonneg(jobs.drop_last(), n);
    }
}

/// The jobs before position `k`, with the job at `k`, hold no more jobs named `n` than all
/// the jobs.
proof fn lemma_jobs_named_prefix(jobs: Seq<JobRecord>, k: int, n: Seq<char>)
    requires
        0 <= k < jobs.len(),
    ensures
        jobs_named(jobs.take(k), n) + (if jobs[k].name@ == n {
            1int
        } else {
            0int
        }) <= jobs_named(jobs, n),
    decreases jobs.len(),
{
    if k + 1 < jobs.len() {
        lemma_jobs_named_prefix(jobs.drop_last(), k, n);
        assert(jobs.drop_last().take(k) == jobs.take(k));
        assert(jobs.drop_last()[k] == jobs[k]);
    } else {
        assert(jobs.take(k) == jobs.drop_last());
    }
}

/// The runs before position `i`, with the run at `i`, hold no more jobs named `n` than all
/// the runs.
proof fn lemma_runs_of_job_prefix(runs: Seq<Vec<JobRecord>>, i: int, n: Seq<char>)
    requires
        0 <= i < runs.len(),
    ensures
        runs_of_job(runs.take(i), n) + jobs_named(runs[i]@, n) <= runs_of_job(runs, n),
    decreases runs.len(),
{
    if i + 1 < runs.len() {
        lemma_runs_of_job_prefix(runs.drop_last(), i, n);
        assert(runs.drop_last().take(i) == runs.take(i));
        assert(runs.drop_last()[i] == runs[i]);
        lemma_jobs_named_nonneg(runs.last()@, n);
    } else {
        assert(runs.take(i) == runs.drop_last());
    }
}

/// Just before the job at position `j` of the run at position `i` is counted, its name
/// has been counted at least once fewer than there are jobs of that name in all the runs.
pub proof fn lemma_counted_before_job(runs: Seq<Vec<JobRecord>>, now: Moment, i: int, j: int)
    requires
        0 <= i < runs.len(),
        0 <= j < runs[i]@.len(),
    ensures
        counted_runs(
            entries_after(analysis_after(runs.take(i), now).entries, runs[i]@.take(j), now),
            runs[i]@[j].name@,
        ) + 1 <= runs_of_job(runs, runs[i]@[j].name@),
{
    let n = runs[i]@[j].name@;
    let jobs = runs[i]@;
    law_runs_and_failures_per_job(runs.take(i), now, n);
    lemma_entries_after_counts(analysis_after(runs.take(i), now).entries, jobs.take(j), now, n);
    lemma_jobs_named_prefix(jobs, j, n);
    lemma_runs_of_job_prefix(runs, i, n);
}

/// Every job name of an analysis has counted at least one run, and names are distinct.
proof fn lemma_analysis_counted(runs: Seq<Vec<JobRecord>>, now: Moment)
    ensures
        entries_counted(analysis_after(runs, now).entries),
        names_distinct(analysis_after(runs, now).entries),
    decreases runs.len(),
{
    if runs.len() > 0 {
        lemma_analysis_counted(runs.drop_last(), now);
        lemma_entries_after_counts(
            analysis_after(runs.drop_last(), now).entries,
            runs.last()@,
            now,
            Seq::empty(),
        );
    }
}

/// How many runs have a failed job.
pub open spec fn failed_run_count(runs: Seq<Vec<JobRecord>>) -> int
    decreases runs.len(),
{
    if runs.len() == 0 {
        0
    } else {
        failed_run_count(runs.drop_last()) + if run_failed(runs.last()@) {
            1int
        } else {
            0int
        }
    }
}

/// How many runs have no jobs at all.
pub open spec fn empty_run_count(runs: Seq<Vec<JobRecord>>) -> int
    decreases runs.len(),
{
    if runs.len() == 0 {
        0
    } else {
        empty_run_count(runs.drop_last()) + if runs.last()@.len() == 0 {
            1int
        } else {
            0int
        }
    }
}

/// An empty run has no failed job.
proof fn lemma_empty_run_not_failed(jobs: Seq<JobRecord>)
    requires
        jobs.len() == 0,
    ensures
        !run_failed(jobs),
{
}

/// The workflow counts every run once; its failed runs are the runs with a failed,
/// cancelled or timed-out job; its skipped runs are the runs without jobs; and its
/// statistics keep their invariant (failed and skipped runs are distinct, streaks never
/// outnumber failed runs, the current streak is the run of consecutive failed runs, the
/// mean duration over the timed runs is at most the maximum and at least the minimum less
/// one nanosecond per timed run after the first).
pub proof fn law_workflow_counts(runs: Seq<Vec<JobRecord>>, now: Moment)
    ensures
        analysis_after(runs, now).workflow.total_runs == runs.len(),
        analysis_after(runs, now).workflow.failed_runs == failed_run_count(runs),
        analysis_after(runs, now).workflow.skipped_runs == empty_run_count(runs),
        analysis_after(runs, now).workflow.inv(),
    decreases runs.len(),
{
    if runs.len() > 0 {
        law_workflow_counts(runs.drop_last(), now);
        let jobs = runs.last()@;
        if jobs.len() == 0 {
            lemma_empty_run_not_failed(jobs);
        }
        let w = analysis_after(runs.drop_last(), now).workflow;
        lemma_workflow_update_inv(w, run_failed(jobs), jobs.len() == 0, run_elapsed(jobs));
    }
}

/// Counting jobs keeps the invariant of every job's statistics.
proof fn lemma_entries_after_inv(es: Seq<EntryModel>, jobs: Seq<JobRecord>, now: Moment)
    requires
        entries_inv(es),
    ensures
        entries_inv(entries_after(es, jobs, now)),
    decreases jobs.len(),
{
    if jobs.len() > 0 {
        lemma_entries_after_inv(es, jobs.drop_last(), now);
        let before = entries_after(es, jobs.drop_last(), now);
        let j = jobs.last();
        let i = first_index(entry_names(before), j.name@);
        lemma_first_index(entry_names(before), j.name@);
        if i >= 0 {
            lemma_tally_step_inv(before[i].tally, j, now);
        } else {
            lemma_tally_step_inv(fresh_tally(j.conclusion), j, now);
        }
    }
}

/// Every job's statistics keep their invariant: failures and timed runs never outnumber
/// runs, streaks never outnumber failures, the current streak is the run of consecutive
/// failures ending with the latest run and never exceeds the longest, the duration figures
/// are present exactly when some run was timed, the mean duration is at most the maximum
/// and at least the minimum less one nanosecond per timed run after the first (chrono's
/// rounding), the minimum is at most the maximum, and a last failure is recorded exactly
/// when the job failed at least once.
pub proof fn law_job_invariant(runs: Seq<Vec<JobRecord>>, now: Moment)
    ensures
        entries_inv(analysis_after(runs, now).entries),
    decreases runs.len(),
{
    if runs.len() > 0 {
        law_job_invariant(runs.drop_last(), now);
        lemma_entries_after_inv(analysis_after(runs.drop_last(), now).entries, runs.last()@, now);
    }
}

/// All the jobs of all the runs, in order.
pub open spec fn all_jobs(runs: Seq<Vec<JobRecord>>) -> Seq<JobRecord>
    decreases runs.len(),
{
    if runs.len() == 0 {
        Seq::empty()
    } else {
        all_jobs(runs.drop_last()) + runs.last()@
    }
}

/// The jobs named `n`, in order.
pub open spec fn named(jobs: Seq<JobRecord>, n: Seq<char>) -> Seq<JobRecord>
    decreases jobs.len(),
{
    if jobs.len() == 0 {
        Seq::empty()
    } else if jobs.last().name@ == n {
        named(jobs.drop_last(), n).push(jobs.last())
    } else {
        named(jobs.drop_last(), n)
    }
}

/// The statistics of a job counted over its own runs `history`, oldest first, starting
/// with the first run's conclusion as the last status.
pub open spec fn tally_over(history: Seq<JobRecord>, now: Moment) -> JobTally
    decreases history.len(),
{
    if history.len() <= 1 {
        tally_step(fresh_tally(history[0].conclusion), history[0], now)
    } else {
        tally_step(tally_over(history.drop_last(), now), history.last(), now)
    }
}

/// The entries hold, for every name, the statistics counted over the jobs of that name in
/// `history`; a name is absent exactly when no job of `history` carries it.
pub open spec fn follows(es: Seq<EntryModel>, history: Seq<JobRecord>, now: Moment) -> bool {
    forall|n: Seq<char>|
        {
            let i = #[trigger] first_index(entry_names(es), n);
            &&& (i >= 0 ==> es[i].tally == tally_over(named(history, n), now))
            &&& (i < 0 <==> named(history, n).len() == 0)
        }
}

/// Counting one more job keeps the entries in step with the jobs counted.
proof fn lemma_step_follows(es: Seq<EntryModel>, history: Seq<JobRecord>, j: JobRecord, now: Moment)
    requires
        follows(es, history, now),
    ensures
        follows(entries_step(es, j, now), history.push(j), now),
{
    let names = entry_names(es);
    let stepped = entries_step(es, j, now);
    let names2 = entry_names(stepped);
    let h2 = history.push(j);
    assert(h2.drop_last() =~= history);
    lemma_first_index(names, j.name@);
    let i = first_index(names, j.name@);
    if i >= 0 {
        assert(names2 =~= names);
    } else {
        assert(names2 =~= names.push(j.name@));
        assert(names2.drop_last() =~= names);
    }
    assert forall|n: Seq<char>|
        {
            let k = #[trigger] first_index(entry_names(stepped), n);
            &&& (k >= 0 ==> stepped[k].tally == tally_over(named(h2, n), now))
            &&& (k < 0 <==> named(h2, n).len() == 0)
        } by {
        lemma_first_index(names, n);
        lemma_first_index(names2, n);
        let k0 = first_index(names, n);
        assert(k0 >= 0 ==> es[k0].tally == tally_over(named(history, n), now));
        assert(k0 < 0 <==> named(history, n).len() == 0);
        if n == j.name@ {
            assert(named(h2, n) == named(history, n).push(j));
            assert(named(h2, n).drop_last() =~= named(history, n));
        } else {
            assert(named(h2, n) == named(history, n));
            if i >= 0 && k0 >= 0 {
                assert(names[i] == j.name@);
                assert(k0 != i);
            }
        }
    }
}

/// Counting the jobs of a run keeps the entries in step with the jobs counted.
proof fn lemma_after_follows(
    es: Seq<EntryModel>,
    history: Seq<JobRecord>,
    jobs: Seq<JobRecord>,
    now: Moment,
)
    requires
        follows(es, history, now),
    ensures
        follows(entries_after(es, jobs, now), history + jobs, now),
    decreases jobs.len(),
{
    if jobs.len() == 0 {
        assert(history + jobs =~= history);
    } else {
        lemma_after_follows(es, history, jobs.drop_last(), now);
        lemma_step_follows(
            entries_after(es, jobs.drop_last(), now),
            history + jobs.drop_last(),
            jobs.last(),
            now,
        );
        assert((history + jobs.drop_last()).push(jobs.last()) =~= history + jobs);
    }
}

/// Each job's statistics depend on its own runs alone: for every name, the statistics
/// are those counted, in order, over the jobs of that name in all the runs (its count of
/// runs and failures, its streaks, its last status and last failure, its durations);
/// and a name has statistics exactly when some job carries it.
pub proof fn law_statistics_follow_own_runs(runs: Seq<Vec<JobRecord>>, now: Moment, n: Seq<char>)
    ensures
        ({
            let es = analysis_after(runs, now).entries;
            let i = first_index(entry_names(es), n);
            &&& (i >= 0 ==> es[i].tally == tally_over(named(all_jobs(runs), n), now))
            &&& (i < 0 <==> named(all_jobs(runs), n).len() == 0)
        }),
{
    lemma_analysis_follows(runs, now);
}

/// The analysis is in step with all the jobs of all the runs.
proof fn lemma_analysis_follows(runs: Seq<Vec<JobRecord>>, now: Moment)
    ensures
        follows(analysis_after(runs, now).entries, all_jobs(runs), now),
    decreases runs.len(),
{
    if runs.len() == 0 {
        assert forall|n: Seq<char>|
            {
                let i = #[trigger] first_index(entry_names(Seq::<EntryModel>::empty()), n);
                &&& (i >= 0 ==> Seq::<EntryModel>::empty()[i].tally == tally_over(
                    named(Seq::<JobRecord>::empty(), n),
                    now,
                ))
                &&& (i < 0 <==> named(Seq::<JobRecord>::empty(), n).len() == 0)
            } by {
            lemma_first_index(entry_names(Seq::<EntryModel>::empty()), n);
        }
    } else {
        lemma_analysis_follows(runs.drop_last(), now);
        lemma_after_follows(
            analysis_after(runs.drop_last(), now).entries,
            all_jobs(runs.drop_last()),
            runs.last()@,
            now,
        );
    }
}

/// The jobs of `h` from position `a` up to, not including, `b` all count as failed.
pub open spec fn all_failed(h: Seq<JobRecord>, a: int, b: int) -> bool {
    forall|k: int| a <= k < b ==> counts_as_failure((#[trigger] h[k]).conclusion)
}

/// The `len` jobs of `h` from position `a` on all count as failed.
pub open spec fn failed_block_at(h: Seq<JobRecord>, a: int, len: int) -> bool {
    all_failed(h, a, a + len)
}

/// `len` is the length of the longest block of consecutive failed jobs in `h`.
pub open spec fn longest_failure_block(h: Seq<JobRecord>, len: int) -> bool {
    &&& 0 <= len <= h.len()
    &&& exists|a: int| 0 <= a && a + len <= h.len() && #[trigger] failed_block_at(h, a, len)
    &&& forall|a: int, b: int|
        0 <= a <= b <= h.len() && #[trigger] all_failed(h, a, b) ==> b - a <= len
}

/// `len` is the length of the block of consecutive failed jobs that ends `h`.
pub open spec fn trailing_failure_block(h: Seq<JobRecord>, len: int) -> bool {
    &&& 0 <= len <= h.len()
    &&& all_failed(h, h.len() - len, h.len() as int)
    &&& len < h.len() ==> !counts_as_failure(h[h.len() - len - 1].conclusion)
}

/// The streaks counted over a job's runs: the current streak is the block of failures
/// that ends them, the longest streak the longest block of failures among them.
proof fn lemma_streaks(h: Seq<JobRecord>, now: Moment)
    requires
        h.len() >= 1,
    ensures
        trailing_failure_block(h, tally_over(h, now).consecutive),
        tally_over(h, now).current == tally_over(h, now).consecutive,
        longest_failure_block(h, tally_over(h, now).longest),
    decreases h.len(),
{
    let n = h.len();
    let t = tally_over(h, now);
    if n == 1 {
        let x = h[0];
        if counts_as_failure(x.conclusion) {
            assert(failed_block_at(h, 0, 1));
        } else {
            assert(failed_block_at(h, 0, 0));
            assert forall|a: int, b: int|
                0 <= a <= b <= h.len() && #[trigger] all_failed(h, a, b) implies b - a <= 0 by {
                if a < b {
                    assert(h[a] == x);
                }
            }
        }
    } else {
        let p = h.drop_last();
        let x = h.last();
        lemma_streaks(p, now);
        let tp = tally_over(p, now);
        let c = tp.consecutive;
        let l = tp.longest;
        assert(t == tally_step(tp, x, now));
        assert forall|k: int| 0 <= k < n - 1 implies p[k] == h[k] by {}
        let a0 = choose|a: int| 0 <= a && a + l <= p.len() && #[trigger] failed_block_at(p, a, l);
        assert(failed_block_at(h, a0, l)) by {
            assert forall|k: int| a0 <= k < a0 + l implies counts_as_failure((#[trigger] h[k]).conclusion) by {
                assert(p[k] == h[k]);
            }
        }
        assert forall|a: int, b: int|
            0 <= a <= b <= n - 1 && all_failed(h, a, b) implies #[trigger] all_failed(p, a, b) by {
            assert forall|k: int| a <= k < b implies counts_as_failure((#[trigger] p[k]).conclusion) by {
                assert(p[k] == h[k]);
            }
        }
        if counts_as_failure(x.conclusion) {
            assert(all_failed(h, n - 1 - c, n as int)) by {
                assert forall|k: int| n - 1 - c <= k < n implies counts_as_failure((#[trigger] h[k]).conclusion) by {
                    if k < n - 1 {
                        assert(p[k] == h[k]);
                    }
                }
            }
            if c + 1 < n {
                assert(h[n - c - 2] == p[n - c - 2]);
            }
            assert(failed_block_at(h, n - 1 - c, c + 1));
            assert forall|a: int, b: int|
                0 <= a <= b <= h.len() && #[trigger] all_failed(h, a, b) implies b - a <= t.longest by {
                if b <= n - 1 {
                    assert(all_failed(p, a, b));
                } else if a < n - 1 - c {
                    let k = n - 2 - c;
                    assert(a <= k < b);
                    assert(counts_as_failure(h[k].conclusion));
                    assert(h[k] == p[k]);
                }
            }
        } else {
            assert(all_failed(h, n as int, n as int));
            assert forall|a: int, b: int|
                0 <= a <= b <= h.len() && #[trigger] all_failed(h, a, b) implies b - a <= t.longest by {
                if b <= n - 1 {
                    assert(all_failed(p, a, b));
                } else if a < b {
                    assert(counts_as_failure(h[n - 1].conclusion));
                }
            }
        }
    }
}

/// For every job name, taking the job's runs in order: the current streak is the number
/// of consecutive failed runs that end them, and the longest streak is the length of the
/// longest block of consecutive failed runs among them (so a passing run between two
/// failures leaves a longest streak of one).
pub proof fn law_failure_streaks(runs: Seq<Vec<JobRecord>>, now: Moment, n: Seq<char>)
    ensures
        ({
            let es = analysis_after(runs, now).entries;
            let i = first_index(entry_names(es), n);
            i >= 0 ==> {
                &&& trailing_failure_block(named(all_jobs(runs), n), es[i].tally.current)
                &&& longest_failure_block(named(all_jobs(runs), n), es[i].tally.longest)
            }
        }),
{
    law_statistics_follow_own_runs(runs, now, n);
    let es = analysis_after(runs, now).entries;
    let i = first_index(entry_names(es), n);
    if i >= 0 {
        lemma_streaks(named(all_jobs(runs), n), now);
    }
}

/// Some job of the run has a duration.
pub open spec fn has_timed_job(jobs: Seq<JobRecord>) -> bool {
    exists|k: int| 0 <= k < jobs.len() && (#[trigger] job_elapsed(jobs[k])) is Some
}

/// `d` is the longest duration among the jobs of a run: some job took `d`, and none of
/// the jobs that have a duration took longer.
pub open spec fn longest_job(jobs: Seq<JobRecord>, d: int) -> bool {
    &&& exists|k: int| 0 <= k < jobs.len() && #[trigger] job_elapsed(jobs[k]) == Some(d)
    &&& forall|k: int|
        0 <= k < jobs.len() && (#[trigger] job_elapsed(jobs[k])) is Some ==> job_elapsed(
            jobs[k],
        )->0 <= d
}

/// A run has at most one longest duration, and has one only if some job has a duration.
proof fn lemma_longest_job_unique(jobs: Seq<JobRecord>, d: int, e: int)
    requires
        longest_job(jobs, d),
    ensures
        has_timed_job(jobs),
        longest_job(jobs, e) ==> d == e,
{
    let k = choose|k: int| 0 <= k < jobs.len() && #[trigger] job_elapsed(jobs[k]) == Some(d);
    assert(job_elapsed(jobs[k]) is Some);
    if longest_job(jobs, e) {
        let k2 = choose|k: int| 0 <= k < jobs.len() && #[trigger] job_elapsed(jobs[k]) == Some(e);
        assert(job_elapsed(jobs[k2]) is Some);
    }
}

/// A run's duration is the longest duration among its jobs: it has one exactly when some
/// job has one, and then some job took that long and none took longer.
pub proof fn law_run_duration(jobs: Seq<JobRecord>)
    ensures
        run_elapsed(jobs) is Some <==> has_timed_job(jobs),
        run_elapsed(jobs) matches Some(d) ==> longest_job(jobs, d),
    decreases jobs.len(),
{
    if jobs.len() > 0 {
        let p = jobs.drop_last();
        let n = jobs.len() - 1;
        law_run_duration(p);
        assert forall|k: int| 0 <= k < n implies p[k] == jobs[k] by {}
        if has_timed_job(p) {
            let k = choose|k: int| 0 <= k < p.len() && (#[trigger] job_elapsed(p[k])) is Some;
            assert(job_elapsed(jobs[k]) is Some);
        }
        if has_timed_job(jobs) {
            let k = choose|k: int| 0 <= k < jobs.len() && (#[trigger] job_elapsed(jobs[k])) is Some;
            if k < n {
                assert(job_elapsed(p[k]) is Some);
            }
        }
        match run_elapsed(jobs) {
            Some(d) => {
                let x = job_elapsed(jobs[n]);
                match run_elapsed(p) {
                    Some(m) => {
                        let kp = choose|k: int| 0 <= k < p.len() && #[trigger] job_elapsed(p[k]) == Some(m);
                        assert(job_elapsed(jobs[kp]) == Some(m));
                    },
                    None => {},
                }
                assert(exists|k: int| 0 <= k < jobs.len() && #[trigger] job_elapsed(jobs[k]) == Some(d)) by {
                    if x is Some && (run_elapsed(p) is None || run_elapsed(p)->0 <= x->0) {
                        assert(job_elapsed(jobs[n]) == Some(d));
                    } else {
                        let m = run_elapsed(p)->0;
                        let kp = choose|k: int| 0 <= k < p.len() && #[trigger] job_elapsed(p[k]) == Some(m);
                        assert(job_elapsed(jobs[kp]) == Some(d));
                    }
                }
                assert forall|k: int| 0 <= k < jobs.len() && (#[trigger] job_elapsed(jobs[k])) is Some
                    implies job_elapsed(jobs[k])->0 <= d by {
                    if k < n {
                        assert(job_elapsed(p[k]) is Some);
                    }
                }
            },
            None => {},
        }
    }
}

/// The workflow's duration figures are taken over its runs' durations, a run lasting as
/// long as its longest job: there is a maximum exactly when some job has a duration; the
/// maximum is at least the duration of every job and is some run's duration; the minimum
/// is some run's duration and at most every run's duration.
pub proof fn law_workflow_durations(runs: Seq<Vec<JobRecord>>, now: Moment)
    ensures
        ({
            let w = analysis_after(runs, now).workflow;
            &&& (w.max is Some <==> exists|i: int|
                0 <= i < runs.len() && #[trigger] has_timed_job(runs[i]@))
            &&& (w.min is Some <==> w.max is Some)
            &&& forall|i: int, k: int|
                0 <= i < runs.len() && 0 <= k < runs[i]@.len() && (#[trigger] job_elapsed(
                    runs[i]@[k],
                )) is Some ==> w.max is Some && job_elapsed(runs[i]@[k])->0 <= w.max->0
            &&& w.max matches Some(hi) ==> exists|i: int|
                0 <= i < runs.len() && #[trigger] longest_job(runs[i]@, hi)
            &&& w.max matches Some(hi) ==> forall|i: int, d: int|
                0 <= i < runs.len() && #[trigger] longest_job(runs[i]@, d) ==> d <= hi
            &&& w.min matches Some(lo) ==> exists|i: int|
                0 <= i < runs.len() && #[trigger] longest_job(runs[i]@, lo)
            &&& w.min matches Some(lo) ==> forall|i: int, d: int|
                0 <= i < runs.len() && #[trigger] longest_job(runs[i]@, d) ==> lo <= d
        }),
    decreases runs.len(),
{
    if runs.len() > 0 {
        let p = runs.drop_last();
        let n = runs.len() - 1;
        let jobs = runs[n]@;
        law_workflow_durations(p, now);
        law_run_duration(jobs);
        let wp = analysis_after(p, now).workflow;
        let w = analysis_after(runs, now).workflow;
        assert(jobs == runs.last()@);
        assert forall|i: int| 0 <= i < n implies p[i] == runs[i] by {}
        // Facts about the earlier runs carry over.
        assert forall|i: int| 0 <= i < n && #[trigger] has_timed_job(runs[i]@) implies wp.max is Some by {
            assert(has_timed_job(p[i]@));
        }
        if wp.max is Some {
            let i0 = choose|i: int| 0 <= i < p.len() && #[trigger] has_timed_job(p[i]@);
            assert(has_timed_job(runs[i0]@));
        }
        match run_elapsed(jobs) {
            Some(x) => {
                assert(has_timed_job(runs[n]@));
                assert forall|d: int| #[trigger] longest_job(jobs, d) implies d == x by {
                    lemma_longest_job_unique(jobs, x, d);
                }
                match wp.max {
                    Some(m) => {
                        let ih = choose|i: int| 0 <= i < p.len() && #[trigger] longest_job(p[i]@, m);
                        assert(longest_job(runs[ih]@, m));
                        let l = wp.min->0;
                        let il = choose|i: int| 0 <= i < p.len() && #[trigger] longest_job(p[i]@, l);
                        assert(longest_job(runs[il]@, l));
                    },
                    None => {
                        assert forall|i: int, d: int| 0 <= i < n implies !#[trigger] longest_job(runs[i]@, d) by {
                            if longest_job(runs[i]@, d) {
                                lemma_longest_job_unique(runs[i]@, d, d);
                                assert(has_timed_job(p[i]@));
                            }
                        }
                    },
                }
                assert(longest_job(runs[n]@, x));
                assert forall|i: int, d: int| 0 <= i < runs.len() && #[trigger] longest_job(runs[i]@, d)
                    implies d <= w.max->0 && w.min->0 <= d by {
                    if i < n {
                        assert(longest_job(p[i]@, d));
                    }
                }
                assert forall|i: int, k: int|
                    0 <= i < runs.len() && 0 <= k < runs[i]@.len() && (#[trigger] job_elapsed(
                        runs[i]@[k],
                    )) is Some implies w.max is Some && job_elapsed(runs[i]@[k])->0 <= w.max->0 by {
                    if i < n {
                        assert(job_elapsed(p[i]@[k]) is Some);
                    }
                }
            },
            None => {
                assert(!has_timed_job(runs[n]@));
                assert forall|d: int| !#[trigger] longest_job(jobs, d) by {
                    if longest_job(jobs, d) {
                        lemma_longest_job_unique(jobs, d, d);
                    }
                }
                if wp.max is Some {
                    let ih = choose|i: int| 0 <= i < p.len() && #[trigger] longest_job(p[i]@, wp.max->0);
                    assert(longest_job(runs[ih]@, wp.max->0));
                    let il = choose|i: int| 0 <= i < p.len() && #[trigger] longest_job(p[i]@, wp.min->0);
                    assert(longest_job(runs[il]@, wp.min->0));
                }
                assert forall|i: int, d: int| 0 <= i < runs.len() && #[trigger] longest_job(runs[i]@, d)
                    implies w.max is Some && d <= w.max->0 && w.min->0 <= d by {
                    if i < n {
                        assert(longest_job(p[i]@, d));
                    }
                }
                assert forall|i: int, k: int|
                    0 <= i < runs.len() && 0 <= k < runs[i]@.len() && (#[trigger] job_elapsed(
                        runs[i]@[k],
                    )) is Some implies w.max is Some && job_elapsed(runs[i]@[k])->0 <= w.max->0 by {
                    if i < n {
                        assert(job_elapsed(p[i]@[k]) is Some);
                    } else {
                        assert(job_elapsed(jobs[k]) is Some);
                    }
                }
            },
        }
    }
}

/// `d` is the shortest duration among the jobs: some job took `d`, and none of the jobs
/// that have a duration took less.
pub open spec fn shortest_job(jobs: Seq<JobRecord>, d: int) -> bool {
    &&& exists|k: int| 0 <= k < jobs.len() && #[trigger] job_elapsed(jobs[k]) == Some(d)
    &&& forall|k: int|
        0 <= k < jobs.len() && (#[trigger] job_elapsed(jobs[k])) is Some ==> d <= job_elapsed(
            jobs[k],
        )->0
}

/// The duration figures and the last status counted over a job's runs: the minimum and
/// the maximum are the shortest and the longest duration among the runs, present exactly
/// when some run has a duration, and the last status is the latest run's conclusion.
proof fn lemma_job_durations(h: Seq<JobRecord>, now: Moment)
    requires
        h.len() >= 1,
    ensures
        tally_over(h, now).max is Some <==> has_timed_job(h),
        tally_over(h, now).min is Some <==> has_timed_job(h),
        tally_over(h, now).max matches Some(hi) ==> longest_job(h, hi),
        tally_over(h, now).min matches Some(lo) ==> shortest_job(h, lo),
        tally_over(h, now).last_status == h.last().conclusion,
    decreases h.len(),
{
    let n = h.len() - 1;
    let t = tally_over(h, now);
    let x = job_elapsed(h[n]);
    if n == 0 {
        if x is Some {
            assert(job_elapsed(h[0]) == x);
        } else {
            assert forall|k: int| 0 <= k < h.len() implies (#[trigger] job_elapsed(h[k])) is None by {
                assert(k == 0);
            }
        }
    } else {
        let p = h.drop_last();
        lemma_job_durations(p, now);
        let tp = tally_over(p, now);
        assert(t == tally_step(tp, h.last(), now));
        assert forall|k: int| 0 <= k < n implies p[k] == h[k] by {}
        if has_timed_job(p) {
            let k = choose|k: int| 0 <= k < p.len() && (#[trigger] job_elapsed(p[k])) is Some;
            assert(job_elapsed(h[k]) is Some);
        }
        if has_timed_job(h) {
            let k = choose|k: int| 0 <= k < h.len() && (#[trigger] job_elapsed(h[k])) is Some;
            if k < n {
                assert(job_elapsed(p[k]) is Some);
            }
        }
        match tp.max {
            Some(m) => {
                let k = choose|k: int| 0 <= k < p.len() && #[trigger] job_elapsed(p[k]) == Some(m);
                assert(job_elapsed(h[k]) == Some(m));
            },
            None => {},
        }
        match tp.min {
            Some(m) => {
                let k = choose|k: int| 0 <= k < p.len() && #[trigger] job_elapsed(p[k]) == Some(m);
                assert(job_elapsed(h[k]) == Some(m));
            },
            None => {},
        }
        assert forall|k: int| 0 <= k < h.len() && (#[trigger] job_elapsed(h[k])) is Some implies {
            &&& (t.max matches Some(hi) && job_elapsed(h[k])->0 <= hi)
            &&& (t.min matches Some(lo) && lo <= job_elapsed(h[k])->0)
        } by {
            if k < n {
                assert(job_elapsed(p[k]) is Some);
            }
        }
        if t.max is Some {
            assert(exists|k: int| 0 <= k < h.len() && #[trigger] job_elapsed(h[k]) == t.max) by {
                if x is Some && (tp.max is None || tp.max->0 <= x->0) {
                    assert(job_elapsed(h[n]) == t.max);
                } else {
                    let k = choose|k: int| 0 <= k < p.len() && #[trigger] job_elapsed(p[k]) == tp.max;
                    assert(job_elapsed(h[k]) == t.max);
                }
            }
        }
        if t.min is Some {
            assert(exists|k: int| 0 <= k < h.len() && #[trigger] job_elapsed(h[k]) == t.min) by {
                if x is Some && (tp.min is None || x->0 <= tp.min->0) {
                    assert(job_elapsed(h[n]) == t.min);
                } else {
                    let k = choose|k: int| 0 <= k < p.len() && #[trigger] job_elapsed(p[k]) == tp.min;
                    assert(job_elapsed(h[k]) == t.min);
                }
            }
        }
    }
}

/// For every job name, taking the job's runs in order: the minimum and the maximum
/// duration are the shortest and the longest duration among its runs, present exactly
/// when some run has a duration, and the last status is the conclusion of its latest run.
pub proof fn law_job_durations(runs: Seq<Vec<JobRecord>>, now: Moment, n: Seq<char>)
    ensures
        ({
            let es = analysis_after(runs, now).entries;
            let i = first_index(entry_names(es), n);
            let h = named(all_jobs(runs), n);
            i >= 0 ==> {
                &&& (es[i].tally.max is Some <==> has_timed_job(h))
                &&& (es[i].tally.min is Some <==> has_timed_job(h))
                &&& (es[i].tally.max matches Some(hi) ==> longest_job(h, hi))
                &&& (es[i].tally.min matches Some(lo) ==> shortest_job(h, lo))
                &&& es[i].tally.last_status == h.last().conclusion
            }
        }),
{
    law_statistics_follow_own_runs(runs, now, n);
    let es = analysis_after(runs, now).entries;
    let i = first_index(entry_names(es), n);
    if i >= 0 {
        lemma_job_durations(named(all_jobs(runs), n), now);
    }
}

/// A run passed: it has jobs, and none of them counts as failed.
pub open spec fn run_passed(jobs: Seq<JobRecord>) -> bool {
    jobs.len() > 0 && !run_failed(jobs)
}

/// How many of the runs from position `a` up to, not including, `b` failed.
pub open spec fn failed_between(runs: Seq<Vec<JobRecord>>, a: int, b: int) -> int
    decreases b - a,
{
    if b <= a {
        0
    } else {
        failed_between(runs, a, b - 1) + if run_failed(runs[b - 1]@) {
            1int
        } else {
            0int
        }
    }
}

/// None of the runs from position `a` up to, not including, `b` passed.
pub open spec fn none_passed(runs: Seq<Vec<JobRecord>>, a: int, b: int) -> bool {
    forall|k: int| a <= k < b ==> !run_passed((#[trigger] runs[k])@)
}

/// The runs from `a` to `b` hold a streak of `len` failed runs: none of them passed
/// (skipped runs neither extend nor end a streak), and `len` of them failed.
pub open spec fn streak_between(runs: Seq<Vec<JobRecord>>, a: int, b: int, len: int) -> bool {
    &&& 0 <= a <= b <= runs.len()
    &&& none_passed(runs, a, b)
    &&& failed_between(runs, a, b) == len
}

/// `len` is the longest streak of failed runs: some stretch of runs holds it, and no
/// stretch without a passing run holds more failed runs.
pub open spec fn longest_run_streak(runs: Seq<Vec<JobRecord>>, len: int) -> bool {
    &&& exists|a: int, b: int| #[trigger] streak_between(runs, a, b, len)
    &&& forall|a: int, b: int|
        0 <= a <= b <= runs.len() && #[trigger] none_passed(runs, a, b) ==> failed_between(
            runs,
            a,
            b,
        ) <= len
}

/// `len` is the streak of failed runs that ends the runs: the failed runs counted since
/// the latest passing run (since the first run when none passed).
pub open spec fn trailing_run_streak(runs: Seq<Vec<JobRecord>>, len: int) -> bool {
    exists|a: int|
        #[trigger] streak_between(runs, a, runs.len() as int, len) && (a == 0 || run_passed(
            runs[a - 1]@,
        ))
}

/// Counts of failed runs add up over adjacent stretches and are never negative.
proof fn lemma_failed_between(runs: Seq<Vec<JobRecord>>, a: int, m: int, b: int)
    requires
        a <= m <= b,
    ensures
        failed_between(runs, a, b) == failed_between(runs, a, m) + failed_between(runs, m, b),
        failed_between(runs, m, b) >= 0,
    decreases b - m,
{
    if m < b {
        lemma_failed_between(runs, a, m, b - 1);
    }
}

/// A count over runs before the last is the same without the last.
proof fn lemma_failed_between_prefix(runs: Seq<Vec<JobRecord>>, a: int, b: int)
    requires
        0 <= a,
        b < runs.len(),
    ensures
        failed_between(runs.drop_last(), a, b) == failed_between(runs, a, b),
    decreases b - a,
{
    if a < b {
        lemma_failed_between_prefix(runs, a, b - 1);
        assert(runs.drop_last()[b - 1] == runs[b - 1]);
    }
}

/// The workflow's streaks, over its runs in order: the current streak is the number of
/// failed runs since the latest passing run, and the longest streak the largest number of
/// failed runs in a stretch of runs without a passing one; a skipped run (one without
/// jobs) neither extends nor ends a streak (so a passing run between two failed runs
/// leaves a longest streak of one).
pub proof fn law_workflow_streaks(runs: Seq<Vec<JobRecord>>, now: Moment)
    ensures
        trailing_run_streak(runs, analysis_after(runs, now).workflow.current),
        longest_run_streak(runs, analysis_after(runs, now).workflow.longest),
    decreases runs.len(),
{
    let w = analysis_after(runs, now).workflow;
    law_workflow_counts(runs, now);
    if runs.len() == 0 {
        assert(streak_between(runs, 0, 0, 0));
    } else {
        let p = runs.drop_last();
        let n = runs.len() - 1;
        let jobs = runs[n]@;
        law_workflow_streaks(p, now);
        law_workflow_counts(p, now);
        let wp = analysis_after(p, now).workflow;
        assert(jobs == runs.last()@);
        assert(w == crate::workflow::workflow_step(wp, jobs));
        let c = wp.current;
        let l = wp.longest;
        assert forall|k: int| 0 <= k < n implies p[k] == runs[k] by {}
        let ac = choose|a: int|
            #[trigger] streak_between(p, a, n, c) && (a == 0 || run_passed(p[a - 1]@));
        let (al, bl) = choose|a: int, b: int| #[trigger] streak_between(p, a, b, l);
        lemma_failed_between_prefix(runs, al, bl);
        lemma_failed_between_prefix(runs, ac, n);
        assert(streak_between(runs, al, bl, l));
        assert(none_passed(runs, ac, n)) by {
            assert forall|k: int| ac <= k < n implies !run_passed((#[trigger] runs[k])@) by {
                assert(p[k] == runs[k]);
            }
        }
        if ac > 0 {
            assert(p[ac - 1] == runs[ac - 1]);
        }
        // A stretch that ends before the last run is a stretch of the earlier runs.
        assert forall|a: int, b: int|
            0 <= a <= b <= n && #[trigger] none_passed(runs, a, b) implies failed_between(runs, a, b)
            <= l by {
            assert(none_passed(p, a, b)) by {
                assert forall|k: int| a <= k < b implies !run_passed((#[trigger] p[k])@) by {
                    assert(p[k] == runs[k]);
                }
            }
            lemma_failed_between_prefix(runs, a, b);
        }
        // A stretch without a passing run that ends with the earlier runs starts no
        // earlier than the current streak does.
        assert forall|a: int| 0 <= a <= n && #[trigger] none_passed(runs, a, n) implies failed_between(
            runs,
            a,
            n,
        ) <= c by {
            if a < ac {
                assert(run_passed(runs[ac - 1]@));
                assert(!run_passed(runs[ac - 1]@));
            } else {
                lemma_failed_between(runs, ac, a, n);
                lemma_failed_between(runs, ac, ac, a);
            }
        }
        if run_failed(jobs) {
            assert(failed_between(runs, ac, n + 1) == c + 1);
            assert(streak_between(runs, ac, n + 1, c + 1)) by {
                assert forall|k: int| ac <= k < n + 1 implies !run_passed((#[trigger] runs[k])@) by {}
            }
            assert forall|a: int, b: int|
                0 <= a <= b <= runs.len() && #[trigger] none_passed(runs, a, b) implies failed_between(
                runs,
                a,
                b,
            ) <= w.longest by {
                if b == n + 1 && a <= n {
                    assert(none_passed(runs, a, n));
                }
            }
        } else if jobs.len() == 0 {
            assert(failed_between(runs, ac, n + 1) == c);
            assert(streak_between(runs, ac, n + 1, c)) by {
                assert forall|k: int| ac <= k < n + 1 implies !run_passed((#[trigger] runs[k])@) by {}
            }
            assert forall|a: int, b: int|
                0 <= a <= b <= runs.len() && #[trigger] none_passed(runs, a, b) implies failed_between(
                runs,
                a,
                b,
            ) <= w.longest by {
                if b == n + 1 && a <= n {
                    assert(none_passed(runs, a, n));
                }
            }
        } else {
            assert(run_passed(runs[n]@));
            assert(streak_between(runs, n + 1, n + 1, 0));
            assert forall|a: int, b: int|
                0 <= a <= b <= runs.len() && #[trigger] none_passed(runs, a, b) implies failed_between(
                runs,
                a,
                b,
            ) <= w.longest by {
                if b == n + 1 && a <= n {
                    assert(!run_passed(runs[n]@));
                }
            }
        }
    }
}

} // verus!
