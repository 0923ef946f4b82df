//! Turning the fetched runs of a workflow into job and workflow statistics.

use vstd::prelude::*;
use crate::span::{Moment, Span};
use crate::job::{
    fresh_tally, is_failure, job_duration, lemma_tally_step_inv, opt_nanos, opt_wf, tally_step,
    tally_step_fits, JobRecord, JobStats, JobTally,
};
use crate::laws::{counted_runs, runs_of_job};
use crate::workflow::{
    fresh_workflow, lemma_workflow_update_inv, run_elapsed, run_failed, workflow_step,
    workflow_update_fits, WorkflowStats, WorkflowTally,
};

verus! {

/// The statistics of one job name, as a model.
pub ghost struct EntryModel {
    pub name: Seq<char>,
    pub tally: JobTally,
}

/// The names of the entries, in order.
pub open spec fn entry_names(es: Seq<EntryModel>) -> Seq<Seq<char>> {
    es.map_values(|e: EntryModel| e.name)
}

/// The first position of `n` in `names`, or -1.
pub open spec fn first_index(names: Seq<Seq<char>>, n: Seq<char>) -> int
    decreases names.len(),
{
    if names.len() == 0 {
        -1
    } else {
        let p = first_index(names.drop_last(), n);
        if p >= 0 {
            p
        } else if names.last() == n {
            names.len() - 1
        } else {
            -1
        }
    }
}

/// `first_index` is the first position holding the name, or -1 when none does.
pub proof fn lemma_first_index(names: Seq<Seq<char>>, n: Seq<char>)
    ensures
        -1 <= first_index(names, n) < names.len(),
        first_index(names, n) >= 0 ==> names[first_index(names, n)] == n,
        forall|k: int| 0 <= k < first_index(names, n) ==> names[k] != n,
        first_index(names, n) == -1 ==> forall|k: int| 0 <= k < names.len() ==> names[k] != n,
    decreases names.len(),
{
    if names.len() > 0 {
        let before = names.drop_last();
        lemma_first_index(before, n);
        assert forall|k: int| 0 <= k < before.len() implies before[k] == names[k] by {}
    }
}

/// The job statistics after counting one more job `j` at the time `now`: under its name,
/// the statistics of that name count it; a name not seen before is added at the end, its
/// statistics starting with `j`'s conclusion as the last status.
pub open spec fn entries_step(es: Seq<EntryModel>, j: JobRecord, now: Moment) -> Seq<EntryModel> {
    let i = first_index(entry_names(es), j.name@);
    if i >= 0 {
        es.update(i, EntryModel { name: es[i].name, tally: tally_step(es[i].tally, j, now) })
    } else {
        es.push(EntryModel { name: j.name@, tally: tally_step(fresh_tally(j.conclusion), j, now) })
    }
}

/// Counting `j` keeps every duration figure within chrono's range.
pub open spec fn entries_step_fits(es: Seq<EntryModel>, j: JobRecord) -> bool {
    let i = first_index(entry_names(es), j.name@);
    if i >= 0 {
        tally_step_fits(es[i].tally, j)
    } else {
        tally_step_fits(fresh_tally(j.conclusion), j)
    }
}

/// The job statistics after counting the jobs `jobs`, in order, at the time `now`.
pub open spec fn entries_after(es: Seq<EntryModel>, jobs: Seq<JobRecord>, now: Moment) -> Seq<
    EntryModel,
>
    decreases jobs.len(),
{
    if jobs.len() == 0 {
        es
    } else {
        entries_step(entries_after(es, jobs.drop_last(), now), jobs.last(), now)
    }
}

/// Counting the jobs `jobs`, in order, keeps every duration figure within chrono's range.
pub open spec fn entries_fit(es: Seq<EntryModel>, jobs: Seq<JobRecord>, now: Moment) -> bool
    decreases jobs.len(),
{
    if jobs.len() == 0 {
        true
    } else {
        entries_fit(es, jobs.drop_last(), now) && entries_step_fits(
            entries_after(es, jobs.drop_last(), now),
            jobs.last(),
        )
    }
}

/// The statistics of a workflow and of its jobs, as a model.
pub ghost struct AnalysisModel {
    pub entries: Seq<EntryModel>,
    pub workflow: WorkflowTally,
}

/// The statistics after counting the runs `runs`, oldest first, at the time `now`: each
/// run counts its jobs, in order, under their names, and then counts itself for the
/// workflow.
pub open spec fn analysis_after(runs: Seq<Vec<JobRecord>>, now: Moment) -> AnalysisModel
    decreases runs.len(),
{
    if runs.len() == 0 {
        AnalysisModel { entries: Seq::empty(), workflow: fresh_workflow() }
    } else {
        let before = analysis_after(runs.drop_last(), now);
        let jobs = runs.last()@;
        AnalysisModel {
            entries: entries_after(before.entries, jobs, now),
            workflow: workflow_step(before.workflow, jobs),
        }
    }
}

/// Counting the runs `runs` keeps every duration figure within chrono's range, so that
/// none of chrono's operators panics.
pub open spec fn analysis_fits(runs: Seq<Vec<JobRecord>>, now: Moment) -> bool
    decreases runs.len(),
{
    if runs.len() == 0 {
        true
    } else {
        let before = analysis_after(runs.drop_last(), now);
        let jobs = runs.last()@;
        &&& analysis_fits(runs.drop_last(), now)
        &&& entries_fit(before.entries, jobs, now)
        &&& workflow_update_fits(before.workflow, run_elapsed(jobs))
    }
}

/// The statistics gathered for one job name.
#[derive(Debug)]
pub struct JobEntry {
    pub name: String,
    pub stats: JobStats,
}

/// The statistics of a workflow and of its jobs, the jobs in the order in which their
/// names first appeared.
#[derive(Debug)]
pub struct Analysis {
    pub jobs: Vec<JobEntry>,
    pub workflow: WorkflowStats,
}

/// The entries hold the statistics of the model, name by name.
pub open spec fn entries_agree(ex: Seq<JobEntry>, es: Seq<EntryModel>) -> bool {
    &&& ex.len() == es.len()
    &&& forall|i: int|
        0 <= i < ex.len() ==> {
            &&& (#[trigger] ex[i]).name@ == es[i].name
            &&& ex[i].stats.wf()
            &&& ex[i].stats.tally() == es[i].tally
        }
}

/// Every job's statistics satisfy their invariant.
pub open spec fn entries_inv(es: Seq<EntryModel>) -> bool {
    forall|i: int| 0 <= i < es.len() ==> (#[trigger] es[i]).tally.inv()
}

impl Analysis {
    /// The analysis holds the statistics of the model.
    pub open spec fn agrees(self, m: AnalysisModel) -> bool {
        &&& entries_agree(self.jobs@, m.entries)
        &&& self.workflow.wf()
        &&& self.workflow.tally() == m.workflow
    }
}

/// Counting a job keeps every job's invariant.
pub proof fn lemma_entries_step(es: Seq<EntryModel>, j: JobRecord, now: Moment)
    requires
        entries_inv(es),
    ensures
        entries_inv(entries_step(es, j, now)),
{
    let i = first_index(entry_names(es), j.name@);
    lemma_first_index(entry_names(es), j.name@);
    if i >= 0 {
        lemma_tally_step_inv(es[i].tally, j, now);
    } else {
        lemma_tally_step_inv(fresh_tally(j.conclusion), j, now);
    }
}

/// Where `n` stands among the entries' names, if anywhere.
fn position_of(entries: &Vec<JobEntry>, n: &String) -> (r: Option<usize>)
    ensures
        match r {
            Some(i) => i < entries@.len() && entries@[i as int].name@ == n@ && forall|k: int|
                0 <= k < i ==> entries@[k].name@ != n@,
            None => forall|k: int| 0 <= k < entries@.len() ==> entries@[k].name@ != n@,
        },
{
    let mut i: usize = 0;
    while i < entries.len()
        invariant
            i <= entries@.len(),
            forall|k: int| 0 <= k < i ==> entries@[k].name@ != n@,
        decreases entries@.len() - i,
    {
        if entries[i].name == *n {
            return Some(i);
        }
        i = i + 1;
    }
    None
}

/// Counts `job`, which took `duration`, under its name at the time `now`. Returns `false`
/// when a duration figure would leave chrono's range.
fn record_job(
    entries: &mut Vec<JobEntry>,
    job: &JobRecord,
    duration: Option<Span>,
    now: Moment,
    Ghost(model): Ghost<Seq<EntryModel>>,
) -> (ok: bool)
    requires
        entries_agree(old(entries)@, model),
        entries_inv(model),
        counted_runs(model, job.name@) < 2147483647,
        opt_wf(duration),
        opt_nanos(duration) == crate::job::job_elapsed(*job),
    ensures
        ok == entries_step_fits(model, *job),
        ok ==> entries_agree(final(entries)@, entries_step(model, *job, now)),
{
    let ghost names = entry_names(model);
    proof {
        lemma_first_index(names, job.name@);
        assert(names.len() == entries@.len());
        assert forall|k: int| 0 <= k < names.len() implies names[k] == entries@[k].name@ by {
            assert(entries@[k].name@ == model[k].name);
        }
    }
    let pos = position_of(entries, &job.name);
    let ghost before = entries@;
    let idx: usize = match pos {
        Some(i) => {
            proof {
                let fi = first_index(names, job.name@);
                assert(names[i as int] == job.name@);
                if 0 <= fi < i {
                    assert(names[fi] == entries@[fi].name@);
                }
            }
            assert(first_index(names, job.name@) == i);
            i
        },
        None => {
            assert(first_index(names, job.name@) == -1);
            let fresh = JobEntry { name: job.name.clone(), stats: JobStats::new(job.conclusion) };
            entries.push(fresh);
            entries.len() - 1
        },
    };
    let ghost m = if idx < model.len() {
        model[idx as int].tally
    } else {
        fresh_tally(job.conclusion)
    };
    assert(entries@[idx as int].stats.wf());
    assert(entries@[idx as int].stats.tally() == m);
    proof {
        if idx < model.len() {
            assert(m.inv());
        }
    }
    let ghost pushed = entries@;
    let mut entry = entries.remove(idx);
    let ok = entry.stats.record(job, duration, now);
    if !ok {
        return false;
    }
    entries.insert(idx, entry);
    proof {
        let stepped = entries_step(model, *job, now);
        assert(entries@ == pushed.update(idx as int, entry));
        assert forall|k: int| 0 <= k < entries@.len() implies {
            &&& (#[trigger] entries@[k]).name@ == stepped[k].name
            &&& entries@[k].stats.wf()
            &&& entries@[k].stats.tally() == stepped[k].tally
        } by {
            if k != idx {
                assert(entries@[k] == before[k]);
            }
        }
    }
    true
}

/// Counting a prefix of runs that can be counted, can itself be counted.
pub proof fn lemma_entries_fit_prefix(
    es: Seq<EntryModel>,
    jobs: Seq<JobRecord>,
    now: Moment,
    k: int,
)
    requires
        0 <= k <= jobs.len(),
        entries_fit(es, jobs, now),
    ensures
        entries_fit(es, jobs.take(k), now),
    decreases jobs.len(),
{
    if k < jobs.len() {
        lemma_entries_fit_prefix(es, jobs.drop_last(), now, k);
        assert(jobs.drop_last().take(k) == jobs.take(k));
    } else {
        assert(jobs.take(k) == jobs);
    }
}

/// The runs of a prefix can be counted when all of them can.
pub proof fn lemma_analysis_fits_prefix(runs: Seq<Vec<JobRecord>>, now: Moment, k: int)
    requires
        0 <= k <= runs.len(),
        analysis_fits(runs, now),
    ensures
        analysis_fits(runs.take(k), now),
    decreases runs.len(),
{
    if k < runs.len() {
        lemma_analysis_fits_prefix(runs.drop_last(), now, k);
        assert(runs.drop_last().take(k) == runs.take(k));
    } else {
        assert(runs.take(k) == runs);
    }
}

/// Gathers the statistics of a workflow and of its jobs from its runs, oldest first, each
/// run being the list of its jobs; `now` dates the failures of jobs that never completed.
/// `None` when a mean duration leaves chrono's range, where the computation panics in
/// chrono.
pub fn analyze(runs: &Vec<Vec<JobRecord>>, now: Moment) -> (r: Option<Analysis>)
    requires
        runs@.len() < 2147483647,
        forall|n: Seq<char>| #[trigger] runs_of_job(runs@, n) < 2147483647,
    ensures
        r is Some <==> analysis_fits(runs@, now),
        r matches Some(a) ==> a.agrees(analysis_after(runs@, now)),
        r matches Some(a) ==> forall|i: int|
            0 <= i < a.jobs@.len() ==> (#[trigger] a.jobs@[i]).stats.total_runs >= 1
                && a.jobs@[i].stats.tally().inv(),
{
    let mut entries: Vec<JobEntry> = Vec::new();
    let mut workflow = WorkflowStats::new();
    let mut i: usize = 0;
    assert(runs@.take(0) == Seq::<Vec<JobRecord>>::empty());
    while i < runs.len()
        invariant
            i <= runs@.len(),
            runs@.len() < 2147483647,
            forall|n: Seq<char>| #[trigger] runs_of_job(runs@, n) < 2147483647,
            analysis_fits(runs@.take(i as int), now),
            entries_agree(entries@, analysis_after(runs@.take(i as int), now).entries),
            entries_inv(analysis_after(runs@.take(i as int), now).entries),
            workflow.wf(),
            workflow.tally() == analysis_after(runs@.take(i as int), now).workflow,
            workflow.tally().inv(),
            workflow.total_runs == i,
        decreases runs@.len() - i,
    {
        let ghost done = runs@.take(i as int);
        let ghost next = runs@.take(i + 1);
        let ghost before = analysis_after(done, now);
        let jobs = &runs[i];
        proof {
            assert(next.drop_last() == done);
            assert(next.last() == runs@[i as int]);
        }
        let mut failed = false;
        let mut run_duration: Option<Span> = None;
        let mut j: usize = 0;
        assert(jobs@.take(0) == Seq::<JobRecord>::empty());
        while j < jobs.len()
            invariant
                j <= jobs@.len(),
                i < runs@.len(),
                jobs == runs@[i as int],
                done == runs@.take(i as int),
                next == runs@.take(i + 1),
                next.drop_last() == done,
                next.last() == runs@[i as int],
                before == analysis_after(done, now),
                analysis_fits(done, now),
                runs@.len() < 2147483647,
                forall|n: Seq<char>| #[trigger] runs_of_job(runs@, n) < 2147483647,
                entries_fit(before.entries, jobs@.take(j as int), now),
                entries_agree(entries@, entries_after(before.entries, jobs@.take(j as int), now)),
                entries_inv(entries_after(before.entries, jobs@.take(j as int), now)),
                failed == run_failed(jobs@.take(j as int)),
                opt_wf(run_duration),
                opt_nanos(run_duration) == run_elapsed(jobs@.take(j as int)),
            decreases jobs@.len() - j,
        {
            let ghost seen = jobs@.take(j as int);
            let ghost upto = jobs@.take(j + 1);
            proof {
                assert(upto.drop_last() == seen);
                assert(upto.last() == jobs@[j as int]);
            }
            let job = &jobs[j];
            proof {
                crate::laws::lemma_counted_before_job(runs@, now, i as int, j as int);
            }
            let d = job_duration(job);
            let ok = record_job(
                &mut entries,
                job,
                d,
                now,
                Ghost(entries_after(before.entries, seen, now)),
            );
            if !ok {
                proof {
                    assert(!entries_fit(before.entries, upto, now));
                    if entries_fit(before.entries, jobs@, now) {
                        lemma_entries_fit_prefix(before.entries, jobs@, now, j + 1);
                    }
                    assert(!analysis_fits(next, now));
                    if analysis_fits(runs@, now) {
                        lemma_analysis_fits_prefix(runs@, now, i + 1);
                    }
                }
                return None;
            }
            proof {
                lemma_entries_step(entries_after(before.entries, seen, now), *job, now);
            }
            match d {
                Some(x) => {
                    run_duration = match run_duration {
                        Some(y) => Some(y.latest(x)),
                        None => Some(x),
                    };
                },
                None => {},
            }
            if is_failure(job.conclusion) {
                failed = true;
            }
            j = j + 1;
        }
        proof {
            assert(jobs@.take(jobs@.len() as int) == jobs@);
        }
        let skipped = jobs.len() == 0;
        let ok = workflow.record_run(failed, skipped, run_duration);
        if !ok {
            proof {
                assert(!analysis_fits(next, now));
                if analysis_fits(runs@, now) {
                    lemma_analysis_fits_prefix(runs@, now, i + 1);
                }
            }
            return None;
        }
        proof {
            lemma_workflow_update_inv(before.workflow, failed, skipped, opt_nanos(run_duration));
        }
        i = i + 1;
    }
    proof {
        assert(runs@.take(runs@.len() as int) == runs@);
        crate::laws::law_runs_and_failures_per_job(runs@, now, Seq::empty());
        assert forall|k: int| 0 <= k < entries@.len() implies (#[trigger] entries@[k]).stats.total_runs
            >= 1 && entries@[k].stats.tally().inv() by {
            assert(entries@[k].stats.tally() == analysis_after(runs@, now).entries[k].tally);
        }
    }
    Some(Analysis { jobs: entries, workflow })
}

} // verus!
