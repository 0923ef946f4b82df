//! The figures of the report: jobs ranked by failure rate, and the summary over all jobs.

use vstd::prelude::*;
use crate::span::{div_toward_zero, whole_minutes};
use crate::job::JobStats;
use crate::analysis::JobEntry;

verus! {

broadcast use vstd::seq_lib::group_to_multiset_ensures;

/// `a` fails at least as often as `b`: `a.failures / a.total_runs >= b.failures /
/// b.total_runs`, compared without division.
pub open spec fn rate_at_least(a: JobStats, b: JobStats) -> bool {
    a.failures * b.total_runs >= b.failures * a.total_runs
}

/// The entries are ranked by failure rate, highest first.
pub open spec fn ranked(s: Seq<JobEntry>) -> bool {
    forall|i: int, j: int|
        0 <= i < j < s.len() ==> rate_at_least((#[trigger] s[i]).stats, (#[trigger] s[j]).stats)
}

/// Every entry has a failure rate: it counted a run or a failure (0/0 has none).
pub open spec fn rates_defined(s: Seq<JobEntry>) -> bool {
    forall|i: int| 0 <= i < s.len() ==> rate_defined((#[trigger] s[i]).stats)
}

/// The statistics have a failure rate: not 0 failures out of 0 runs.
pub open spec fn rate_defined(a: JobStats) -> bool {
    a.failures > 0 || a.total_runs > 0
}

/// Whether `a` fails at least as often as `b`.
pub fn fails_at_least_as_often(a: &JobStats, b: &JobStats) -> (r: bool)
    ensures
        r == rate_at_least(*a, *b),
{
    let af: u64 = a.failures as u64;
    let at: u64 = a.total_runs as u64;
    let bf: u64 = b.failures as u64;
    let bt: u64 = b.total_runs as u64;
    assert(af * bt <= 0xffff_ffff * 0xffff_ffff) by (nonlinear_arith)
        requires
            af <= 0xffff_ffff,
            bt <= 0xffff_ffff,
    ;
    assert(bf * at <= 0xffff_ffff * 0xffff_ffff) by (nonlinear_arith)
        requires
            bf <= 0xffff_ffff,
            at <= 0xffff_ffff,
    ;
    af * bt >= bf * at
}

/// Comparing failure rates is transitive through any statistics that have a rate.
pub proof fn lemma_rate_transitive(a: JobStats, b: JobStats, c: JobStats)
    requires
        rate_defined(b),
        rate_at_least(a, b),
        rate_at_least(b, c),
    ensures
        rate_at_least(a, c),
{
    if b.total_runs == 0 {
        assert(a.total_runs == 0) by (nonlinear_arith)
            requires
                (a.failures as int) * (b.total_runs as int) >= (b.failures as int) * (
                a.total_runs as int),
                b.total_runs == 0,
                b.failures > 0,
                a.total_runs >= 0,
        ;
        assert((c.failures as int) * (a.total_runs as int) == 0);
        assert((a.failures as int) * (c.total_runs as int) >= 0) by (nonlinear_arith)
            requires
                a.failures >= 0,
                c.total_runs >= 0,
        ;
        return;
    }
    let af = a.failures as int;
    let at = a.total_runs as int;
    let bf = b.failures as int;
    let bt = b.total_runs as int;
    let cf = c.failures as int;
    let ct = c.total_runs as int;
    assert(af * ct >= cf * at) by (nonlinear_arith)
        requires
            af * bt >= bf * at,
            bf * ct >= cf * bt,
            bt >= 1,
            at >= 0,
            ct >= 0,
            af >= 0,
            cf >= 0,
    {
        assert(af * bt * ct >= bf * at * ct);
        assert(bf * ct * at >= cf * bt * at);
        assert(af * ct * bt >= cf * at * bt);
    }
}

/// Comparing failure rates is total: of two entries, one fails at least as often.
pub proof fn lemma_rate_total(a: JobStats, b: JobStats)
    ensures
        rate_at_least(a, b) || rate_at_least(b, a),
{
}

/// Ranks the entries by failure rate, highest first. Where two or more entries are
/// ranked, each needs a failure rate, as 0/0 cannot be compared.
pub fn rank_by_failure_rate(entries: Vec<JobEntry>) -> (r: Vec<JobEntry>)
    requires
        entries@.len() <= 1 || rates_defined(entries@),
    ensures
        r@.to_multiset() == entries@.to_multiset(),
        ranked(r@),
{
    let mut rest = entries;
    let mut r: Vec<JobEntry> = Vec::new();
    let ghost all = rest@;
    assert(all.subrange(0, 0) =~= Seq::<JobEntry>::empty());
    assert(all.subrange(0, all.len() as int) =~= all);
    while rest.len() > 0
        invariant
            all.len() <= 1 || rates_defined(all),
            rest@.len() <= all.len(),
            rest@ == all.subrange(all.len() - rest@.len(), all.len() as int),
            r@.to_multiset() == all.subrange(0, all.len() - rest@.len()).to_multiset(),
            all.len() <= 1 || rates_defined(r@),
            r@.len() == all.len() - rest@.len(),
            ranked(r@),
        decreases rest@.len(),
    {
        let ghost taken = all.len() - rest@.len();
        let e = rest.remove(0);
        assert(e == all[taken]);
        assert(rest@ =~= all.subrange(all.len() - rest@.len(), all.len() as int));
        assert(all.subrange(0, taken + 1) =~= all.subrange(0, taken).push(e));
        let mut p: usize = 0;
        while p < r.len() && fails_at_least_as_often(&r[p].stats, &e.stats)
            invariant
                p <= r@.len(),
                forall|k: int| 0 <= k < p ==> rate_at_least(r@[k].stats, e.stats),
            decreases r@.len() - p,
        {
            p = p + 1;
        }
        let ghost before = r@;
        proof {
            if p < r@.len() {
                assert(!rate_at_least(r@[p as int].stats, e.stats));
                lemma_rate_total(r@[p as int].stats, e.stats);
                assert forall|k: int| p <= k < before.len() implies rate_at_least(
                    e.stats,
                    before[k].stats,
                ) by {
                    if k > p {
                        lemma_rate_transitive(e.stats, before[p as int].stats, before[k].stats);
                    }
                }
            }
        }
        r.insert(p, e);
        proof {
            assert(r@ == before.insert(p as int, e));
            assert forall|i: int, j: int| 0 <= i < j < r@.len() implies rate_at_least(
                (#[trigger] r@[i]).stats,
                (#[trigger] r@[j]).stats,
            ) by {
                if i < p && j == p {
                } else if i < p && j > p {
                    assert(r@[j] == before[j - 1]);
                } else if i == p {
                    assert(r@[j] == before[j - 1]);
                } else if i > p {
                    assert(r@[i] == before[i - 1]);
                    assert(r@[j] == before[j - 1]);
                } else {
                    assert(r@[i] == before[i]);
                    assert(r@[j] == before[j]);
                }
            }
            if all.len() > 1 {
                assert forall|k: int| 0 <= k < r@.len() implies rate_defined(
                    (#[trigger] r@[k]).stats,
                ) by {
                    if k < p {
                        assert(r@[k] == before[k]);
                    } else if k > p {
                        assert(r@[k] == before[k - 1]);
                    }
                }
            }
        }
    }
    r
}

/// The sum of the runs counted for the jobs.
pub open spec fn sum_runs(s: Seq<JobEntry>) -> int
    decreases s.len(),
{
    if s.len() == 0 {
        0
    } else {
        sum_runs(s.drop_last()) + s.last().stats.total_runs
    }
}

/// The sum of the failures counted for the jobs.
pub open spec fn sum_failures(s: Seq<JobEntry>) -> int
    decreases s.len(),
{
    if s.len() == 0 {
        0
    } else {
        sum_failures(s.drop_last()) + s.last().stats.failures
    }
}

/// How many jobs failed at least once.
pub open spec fn count_ever_failed(s: Seq<JobEntry>) -> int
    decreases s.len(),
{
    if s.len() == 0 {
        0
    } else {
        count_ever_failed(s.drop_last()) + if s.last().stats.failures > 0 {
            1int
        } else {
            0int
        }
    }
}

/// How many jobs failed in their latest run.
pub open spec fn count_failing_now(s: Seq<JobEntry>) -> int
    decreases s.len(),
{
    if s.len() == 0 {
        0
    } else {
        count_failing_now(s.drop_last()) + if s.last().stats.consecutive_failures > 0 {
            1int
        } else {
            0int
        }
    }
}

/// The longest failure streak of any job (0 without jobs).
pub open spec fn max_streak(s: Seq<JobEntry>) -> int
    decreases s.len(),
{
    if s.len() == 0 {
        0
    } else {
        let m = max_streak(s.drop_last());
        if m >= s.last().stats.longest_streak {
            m
        } else {
            s.last().stats.longest_streak as int
        }
    }
}

/// How many jobs have a mean duration.
pub open spec fn count_timed(s: Seq<JobEntry>) -> int
    decreases s.len(),
{
    if s.len() == 0 {
        0
    } else {
        count_timed(s.drop_last()) + if s.last().stats.avg_duration is Some {
            1int
        } else {
            0int
        }
    }
}

/// The sum, over the jobs that have a mean duration, of that mean in whole minutes.
pub open spec fn sum_mean_minutes(s: Seq<JobEntry>) -> int
    decreases s.len(),
{
    if s.len() == 0 {
        0
    } else {
        sum_mean_minutes(s.drop_last()) + match s.last().stats.avg_duration {
            Some(d) => div_toward_zero(d@, 60_000_000_000),
            None => 0,
        }
    }
}

/// The summary's figures over two lists of jobs joined are those of the two lists
/// combined: counts and sums add up, and the longest streak is the larger of the two.
pub proof fn law_summary_of_joined_jobs(s1: Seq<JobEntry>, s2: Seq<JobEntry>)
    ensures
        sum_runs(s1 + s2) == sum_runs(s1) + sum_runs(s2),
        sum_failures(s1 + s2) == sum_failures(s1) + sum_failures(s2),
        count_ever_failed(s1 + s2) == count_ever_failed(s1) + count_ever_failed(s2),
        count_failing_now(s1 + s2) == count_failing_now(s1) + count_failing_now(s2),
        count_timed(s1 + s2) == count_timed(s1) + count_timed(s2),
        sum_mean_minutes(s1 + s2) == sum_mean_minutes(s1) + sum_mean_minutes(s2),
        max_streak(s1 + s2) == if max_streak(s1) >= max_streak(s2) {
            max_streak(s1)
        } else {
            max_streak(s2)
        },
    decreases s2.len(),
{
    if s2.len() == 0 {
        assert(s1 + s2 =~= s1);
        lemma_max_streak_nonneg(s1);
    } else {
        law_summary_of_joined_jobs(s1, s2.drop_last());
        assert((s1 + s2).drop_last() =~= s1 + s2.drop_last());
        assert((s1 + s2).last() == s2.last());
    }
}

/// The longest streak over jobs is never negative.
proof fn lemma_max_streak_nonneg(s: Seq<JobEntry>)
    ensures
        max_streak(s) >= 0,
    decreases s.len(),
{
    if s.len() > 0 {
        lemma_max_streak_nonneg(s.drop_last());
    }
}

/// The summary's figures over a single job are that job's own: its runs and failures,
/// whether it ever failed and whether its latest run failed, its longest streak, and its
/// mean duration in whole minutes.
pub proof fn law_summary_of_one_job(e: JobEntry)
    ensures
        sum_runs(seq![e]) == e.stats.total_runs,
        sum_failures(seq![e]) == e.stats.failures,
        count_ever_failed(seq![e]) == if e.stats.failures > 0 {
            1int
        } else {
            0int
        },
        count_failing_now(seq![e]) == if e.stats.consecutive_failures > 0 {
            1int
        } else {
            0int
        },
        max_streak(seq![e]) == e.stats.longest_streak,
        count_timed(seq![e]) == if e.stats.avg_duration is Some {
            1int
        } else {
            0int
        },
        sum_mean_minutes(seq![e]) == match e.stats.avg_duration {
            Some(d) => div_toward_zero(d@, 60_000_000_000),
            None => 0,
        },
{
    let none = Seq::<JobEntry>::empty();
    assert(seq![e].drop_last() =~= none);
    assert(seq![e].last() == e);
    assert(sum_runs(none) == 0 && sum_failures(none) == 0);
    assert(count_ever_failed(none) == 0 && count_failing_now(none) == 0);
    assert(count_timed(none) == 0 && sum_mean_minutes(none) == 0 && max_streak(none) == 0);
}

/// Job `i` has a mean duration of `m` whole minutes (rounded toward zero).
pub open spec fn mean_minutes_is(s: Seq<JobEntry>, i: int, m: int) -> bool {
    &&& 0 <= i < s.len()
    &&& s[i].stats.avg_duration matches Some(d) && div_toward_zero(d@, 60_000_000_000) == m
}

/// No job has a mean duration: none counts, and the minutes sum to nothing.
proof fn lemma_no_mean_minutes(s: Seq<JobEntry>)
    ensures
        count_timed(s) >= 0,
        count_timed(s) == 0 <==> forall|i: int|
            0 <= i < s.len() ==> (#[trigger] s[i]).stats.avg_duration is None,
        count_timed(s) == 0 ==> sum_mean_minutes(s) == 0,
    decreases s.len(),
{
    if s.len() > 0 {
        let before = s.drop_last();
        lemma_no_mean_minutes(before);
        assert forall|i: int| 0 <= i < before.len() implies before[i] == s[i] by {}
        if count_timed(s) == 0 {
            assert forall|i: int| 0 <= i < s.len() implies (#[trigger] s[i]).stats.avg_duration is None by {
                if i < before.len() {
                    assert(before[i] == s[i]);
                }
            }
        }
        if forall|i: int| 0 <= i < s.len() ==> (#[trigger] s[i]).stats.avg_duration is None {
            assert(s[s.len() - 1].stats.avg_duration is None);
            assert forall|i: int| 0 <= i < before.len() implies (#[trigger] before[i]).stats.avg_duration is None by {
                assert(before[i] == s[i]);
            }
        }
    }
}

/// Where some job has a mean duration, the minutes summed over them lie between the
/// smallest and the largest of those means, times their number: the bounds come with the
/// positions of jobs that attain them.
proof fn lemma_mean_minutes_witnesses(s: Seq<JobEntry>) -> (r: (int, int, int, int))
    requires
        count_timed(s) > 0,
    ensures
        mean_minutes_is(s, r.2, r.0),
        mean_minutes_is(s, r.3, r.1),
        r.0 * count_timed(s) <= sum_mean_minutes(s) <= r.1 * count_timed(s),
    decreases s.len(),
{
    let before = s.drop_last();
    let n = s.len() - 1;
    lemma_no_mean_minutes(before);
    assert forall|i: int, m: int| mean_minutes_is(before, i, m) implies mean_minutes_is(s, i, m) by {
        assert(before[i] == s[i]);
    }
    if s.last().stats.avg_duration is None {
        let r = lemma_mean_minutes_witnesses(before);
        assert(mean_minutes_is(before, r.2, r.0));
        assert(mean_minutes_is(before, r.3, r.1));
        r
    } else {
        let d = s.last().stats.avg_duration->0;
        let x = div_toward_zero(d@, 60_000_000_000);
        assert(mean_minutes_is(s, n, x));
        let c = count_timed(before);
        if c == 0 {
            assert(sum_mean_minutes(s) == x);
            assert(count_timed(s) == 1);
            (x, x, n, n)
        } else {
            let r = lemma_mean_minutes_witnesses(before);
            assert(mean_minutes_is(before, r.2, r.0));
            assert(mean_minutes_is(before, r.3, r.1));
            let sum = sum_mean_minutes(before);
            let lo = if r.0 <= x { r.0 } else { x };
            let hi = if r.1 >= x { r.1 } else { x };
            let ilo = if r.0 <= x { r.2 } else { n };
            let ihi = if r.1 >= x { r.3 } else { n };
            assert(lo * (c + 1) <= sum + x <= hi * (c + 1)) by (nonlinear_arith)
                requires
                    r.0 * c <= sum <= r.1 * c,
                    lo <= r.0,
                    lo <= x,
                    hi >= r.1,
                    hi >= x,
                    c >= 1,
            ;
            (lo, hi, ilo, ihi)
        }
    }
}

/// A sum that lies between `lo` and `hi` times `c` gives, divided by `c` toward zero, a
/// quotient between `lo` and `hi`.
proof fn lemma_quotient_between(total: int, c: int, lo: int, hi: int)
    requires
        c >= 1,
        lo * c <= total <= hi * c,
    ensures
        lo <= div_toward_zero(total, c) <= hi,
{
    let q = div_toward_zero(total, c);
    crate::span::lemma_div_toward_zero(total, c);
    if total >= 0 {
        assert(lo <= q <= hi) by (nonlinear_arith)
            requires
                total - c < q * c <= total,
                lo * c <= total <= hi * c,
                c >= 1,
        ;
    } else {
        assert(lo <= q <= hi) by (nonlinear_arith)
            requires
                total <= q * c < total + c,
                lo * c <= total <= hi * c,
                c >= 1,
        ;
    }
}

/// The summary's average job duration: there is one exactly when some job has a mean
/// duration, and it lies between the smallest and the largest of the jobs' mean
/// durations in whole minutes (so that, for a single job, it is that job's mean).
pub proof fn law_summary_mean_minutes(s: Seq<JobEntry>)
    ensures
        count_timed(s) == 0 <==> forall|i: int|
            0 <= i < s.len() ==> (#[trigger] s[i]).stats.avg_duration is None,
        count_timed(s) > 0 ==> {
            let q = div_toward_zero(sum_mean_minutes(s), count_timed(s));
            &&& exists|i: int, m: int| #[trigger] mean_minutes_is(s, i, m) && m <= q
            &&& exists|i: int, m: int| #[trigger] mean_minutes_is(s, i, m) && q <= m
        },
{
    lemma_no_mean_minutes(s);
    if count_timed(s) > 0 {
        let w = lemma_mean_minutes_witnesses(s);
        let c = count_timed(s);
        lemma_quotient_between(sum_mean_minutes(s), c, w.0, w.1);
        assert(mean_minutes_is(s, w.2, w.0));
        assert(mean_minutes_is(s, w.3, w.1));
    }
}

/// Over any jobs whose statistics keep their invariant, failures never outnumber runs,
/// the jobs that failed at least once are among the jobs, and the jobs failing now are
/// among those that failed at least once.
pub proof fn law_summary_bounds(s: Seq<JobEntry>)
    requires
        forall|i: int| 0 <= i < s.len() ==> (#[trigger] s[i]).stats.tally().inv(),
    ensures
        0 <= sum_failures(s) <= sum_runs(s),
        0 <= count_failing_now(s) <= count_ever_failed(s) <= s.len(),
        0 <= count_timed(s) <= s.len(),
    decreases s.len(),
{
    if s.len() > 0 {
        let before = s.drop_last();
        assert forall|i: int| 0 <= i < before.len() implies (#[trigger] before[i]).stats.tally().inv() by {
            assert(before[i] == s[i]);
        }
        law_summary_bounds(before);
        assert(s.last().stats.tally().inv());
    }
}

/// A span within chrono's range lasts fewer than 2 * 10^14 whole minutes.
proof fn lemma_minutes_bound(x: int)
    requires
        -crate::span::span_limit() <= x <= crate::span::span_limit(),
    ensures
        -200_000_000_000_000 <= div_toward_zero(x, 60_000_000_000) <= 200_000_000_000_000,
{
}

/// The figures over all jobs that the report's job summary shows.
#[derive(Debug, Clone, Copy, PartialEq, Eq)]
pub struct JobSummary {
    /// The number of distinct jobs.
    pub total_jobs: usize,
    /// The runs counted over all jobs.
    pub total_runs: u64,
    /// The failures counted over all jobs.
    pub total_failures: u64,
    /// The jobs that failed at least once.
    pub jobs_with_failures: usize,
    /// The jobs that never failed.
    pub jobs_never_failed: usize,
    /// The longest failure streak of any job.
    pub longest_streak: u32,
    /// The jobs whose latest run failed.
    pub currently_failing: usize,
    /// The mean, over the jobs that have a mean duration, of that mean in whole minutes,
    /// rounded toward zero; `None` when no job has one.
    pub avg_duration_minutes: Option<i64>,
}

/// The job summary of the entries.
pub fn summarize(entries: &Vec<JobEntry>) -> (r: JobSummary)
    requires
        entries@.len() <= 0xffff_ffff,
        forall|i: int| 0 <= i < entries@.len() ==> (#[trigger] entries@[i]).stats.wf(),
    ensures
        r.total_jobs == entries@.len(),
        r.total_runs == sum_runs(entries@),
        r.total_failures == sum_failures(entries@),
        r.jobs_with_failures == count_ever_failed(entries@),
        r.jobs_never_failed == entries@.len() - count_ever_failed(entries@),
        r.longest_streak == max_streak(entries@),
        r.currently_failing == count_failing_now(entries@),
        r.avg_duration_minutes == if count_timed(entries@) == 0 {
            None::<i64>
        } else {
            Some(div_toward_zero(sum_mean_minutes(entries@), count_timed(entries@)) as i64)
        },
        r.avg_duration_minutes is None <==> forall|i: int|
            0 <= i < entries@.len() ==> (#[trigger] entries@[i]).stats.avg_duration is None,
        r.avg_duration_minutes matches Some(m) ==> {
            &&& exists|i: int, k: int| #[trigger] mean_minutes_is(entries@, i, k) && k <= m
            &&& exists|i: int, k: int| #[trigger] mean_minutes_is(entries@, i, k) && m <= k
        },
{
    let mut runs: u64 = 0;
    let mut failures: u64 = 0;
    let mut ever: usize = 0;
    let mut now: usize = 0;
    let mut longest: u32 = 0;
    let mut timed: u64 = 0;
    let mut minutes: i128 = 0;
    let mut i: usize = 0;
    while i < entries.len()
        invariant
            i <= entries@.len(),
            forall|k: int| 0 <= k < entries@.len() ==> (#[trigger] entries@[k]).stats.wf(),
            runs == sum_runs(entries@.take(i as int)),
            failures == sum_failures(entries@.take(i as int)),
            ever == count_ever_failed(entries@.take(i as int)),
            now == count_failing_now(entries@.take(i as int)),
            longest == max_streak(entries@.take(i as int)),
            timed == count_timed(entries@.take(i as int)),
            minutes == sum_mean_minutes(entries@.take(i as int)),
            runs <= i * 0xffff_ffff,
            failures <= i * 0xffff_ffff,
            ever <= i,
            now <= i,
            timed <= i,
            timed <= 0xffff_ffff,
            entries@.len() <= 0xffff_ffff,
            -(timed * 200_000_000_000_000) <= minutes <= timed * 200_000_000_000_000,
        decreases entries@.len() - i,
    {
        let ghost seen = entries@.take(i as int);
        let ghost upto = entries@.take(i + 1);
        assert(upto.drop_last() == seen);
        assert(upto.last() == entries@[i as int]);
        let st = &entries[i].stats;
        runs = runs + st.total_runs as u64;
        failures = failures + st.failures as u64;
        if st.failures > 0 {
            ever = ever + 1;
        }
        if st.consecutive_failures > 0 {
            now = now + 1;
        }
        if longest < st.longest_streak {
            longest = st.longest_streak;
        }
        match st.avg_duration {
            Some(d) => {
                timed = timed + 1;
                let m: i64 = whole_minutes(d);
                proof {
                    lemma_minutes_bound(d@);
                }
                minutes = minutes + m as i128;
            },
            None => {},
        }
        i = i + 1;
    }
    assert(entries@.take(entries@.len() as int) == entries@);
    let avg = if timed == 0 {
        None
    } else {
        assert(-200_000_000_000_000 <= div_toward_zero(minutes as int, timed as int)
            <= 200_000_000_000_000) by (nonlinear_arith)
            requires
                timed >= 1,
                -(timed * 200_000_000_000_000) <= minutes <= timed * 200_000_000_000_000,
        ;
        let q: i128 = if minutes >= 0 {
            minutes / (timed as i128)
        } else {
            -((-minutes) / (timed as i128))
        };
        Some(q as i64)
    };
    proof {
        law_summary_mean_minutes(entries@);
    }
    JobSummary {
        total_jobs: entries.len(),
        total_runs: runs,
        total_failures: failures,
        jobs_with_failures: ever,
        jobs_never_failed: entries.len() - ever,
        longest_streak: longest,
        currently_failing: now,
        avg_duration_minutes: avg,
    }
}

} // verus!
