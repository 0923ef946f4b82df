use gh_flake_detector::analysis::{analyze, Analysis, JobEntry};
use gh_flake_detector::fetch::{
    default_analyze_limit, default_limit, enough_runs, order_oldest_first, page_size,
};
use gh_flake_detector::job::{is_failure, Conclusion, JobRecord};
use gh_flake_detector::report::{rank_by_failure_rate, summarize};
use gh_flake_detector::span::{elapsed, running_mean, whole_minutes, Moment, Span};

fn at(secs: i64) -> Moment {
    Moment { secs, nanos: 0 }
}

fn secs(s: i64) -> Span {
    Span { secs: s, nanos: 0 }
}

fn job(name: &str, conclusion: Option<Conclusion>, start: i64, end: Option<i64>) -> JobRecord {
    JobRecord {
        name: name.to_string(),
        conclusion,
        started_at: at(start),
        completed_at: end.map(at),
    }
}

fn entry<'a>(analysis: &'a Analysis, name: &str) -> &'a JobEntry {
    analysis.jobs.iter().find(|e| e.name == name).expect("job present")
}

const T0: i64 = 1_700_000_000;

const NOW: Moment = Moment { secs: 1_800_000_000, nanos: 7 };

fn sample_runs() -> Vec<Vec<JobRecord>> {
    vec![
        vec![
            job("build", Some(Conclusion::Success), T0, Some(T0 + 60)),
            job("test", Some(Conclusion::Failure), T0, Some(T0 + 120)),
        ],
        vec![
            job("build", Some(Conclusion::Success), T0 + 1000, Some(T0 + 1090)),
            job("test", Some(Conclusion::Cancelled), T0 + 1000, None),
        ],
        vec![
            job("build", Some(Conclusion::TimedOut), T0 + 2000, Some(T0 + 2030)),
            job("test", Some(Conclusion::Success), T0 + 2000, Some(T0 + 2060)),
        ],
        vec![],
    ]
}

#[test]
fn limits_default_to_ten_and_a_hundred() {
    assert_eq!(default_limit(), 10);
    assert_eq!(default_analyze_limit(), 100);
}

#[test]
fn page_size_is_the_limit_cut_to_eight_bits() {
    assert_eq!(page_size(100), 100);
    assert_eq!(page_size(255), 255);
    assert_eq!(page_size(256), 0);
    assert_eq!(page_size(300), 44);
}

#[test]
fn paging_stops_at_the_limit() {
    assert!(!enough_runs(9, 10));
    assert!(enough_runs(10, 10));
    assert!(enough_runs(11, 10));
    assert!(enough_runs(0, 0));
}

#[test]
fn failures_are_failed_cancelled_or_timed_out() {
    assert!(is_failure(Some(Conclusion::Failure)));
    assert!(is_failure(Some(Conclusion::Cancelled)));
    assert!(is_failure(Some(Conclusion::TimedOut)));
    assert!(!is_failure(Some(Conclusion::Success)));
    assert!(!is_failure(Some(Conclusion::Skipped)));
    assert!(!is_failure(Some(Conclusion::Neutral)));
    assert!(!is_failure(Some(Conclusion::ActionRequired)));
    assert!(!is_failure(None));
}

#[test]
fn running_mean_of_one_and_two_seconds() {
    let m = running_mean(secs(1), 2, secs(2)).expect("in range");
    assert_eq!(m, Span { secs: 1, nanos: 500_000_000 });
}

#[test]
fn running_mean_rounds_as_chrono_does() {
    let d = Span { secs: 0, nanos: 333_333_334 };
    let second = running_mean(d, 2, d).expect("in range");
    assert_eq!(second, d);
    let third = running_mean(second, 3, d).expect("in range");
    assert_eq!(third, Span { secs: 0, nanos: 333_333_333 });
}

#[test]
fn running_mean_refuses_products_out_of_range() {
    let big = Span { secs: 9_000_000_000_000_000, nanos: 0 };
    assert_eq!(running_mean(big, 3, secs(1)), None);
    // Here the product's whole seconds leave `i64` before the sample is added.
    assert_eq!(running_mean(big, 2000, secs(1)), None);
}

#[test]
fn running_mean_accepts_a_product_beyond_the_span_range() {
    // `mean * 2` is 193 ms past chrono's range; adding the sample brings it back.
    let mean = Span { secs: 4_611_686_018_427_388, nanos: 0 };
    let m = running_mean(mean, 3, secs(-1)).expect("in range");
    assert_eq!(m, Span { secs: 3_074_457_345_618_258, nanos: 333_333_333 });
}

#[test]
fn whole_minutes_round_toward_zero() {
    assert_eq!(whole_minutes(secs(150)), 2);
    assert_eq!(whole_minutes(secs(-90)), -1);
    assert_eq!(whole_minutes(Span { secs: 59, nanos: 999_999_999 }), 0);
}

#[test]
fn elapsed_is_end_minus_start() {
    let d = elapsed(at(100), Moment { secs: 40, nanos: 500_000_000 }).expect("representable");
    assert_eq!(d, Span { secs: 59, nanos: 500_000_000 });
    let back = elapsed(at(40), at(100)).expect("representable");
    assert_eq!(back, secs(-60));
}

#[test]
fn elapsed_counts_a_leap_second() {
    let leap = Moment { secs: 59, nanos: 1_500_000_000 };
    assert_eq!(elapsed(leap, at(0)).expect("on the calendar"), Span { secs: 60, nanos: 500_000_000 });
    assert_eq!(elapsed(at(60), leap).expect("on the calendar"), Span { secs: 0, nanos: 500_000_000 });
}

#[test]
fn elapsed_refuses_instants_off_the_calendar() {
    assert_eq!(elapsed(at(i64::MAX), at(0)), None);
}

#[test]
fn job_statistics_of_the_sample() {
    let analysis = analyze(&sample_runs(), NOW).expect("in range");
    assert_eq!(analysis.jobs.len(), 2);
    assert_eq!(analysis.jobs[0].name, "build");
    assert_eq!(analysis.jobs[1].name, "test");

    let build = &entry(&analysis, "build").stats;
    assert_eq!(build.total_runs, 3);
    assert_eq!(build.timed_runs, 3);
    assert_eq!(build.failures, 1);
    assert_eq!(build.avg_duration, Some(secs(60)));
    assert_eq!(build.min_duration, Some(secs(30)));
    assert_eq!(build.max_duration, Some(secs(90)));
    assert_eq!(build.consecutive_failures, 1);
    assert_eq!(build.current_streak, 1);
    assert_eq!(build.longest_streak, 1);
    assert_eq!(build.last_failure, Some(at(T0 + 2030)));
    assert_eq!(build.last_status, Some(Conclusion::TimedOut));

    let test = &entry(&analysis, "test").stats;
    assert_eq!(test.total_runs, 3);
    assert_eq!(test.timed_runs, 2);
    assert_eq!(test.failures, 2);
    // The mean is taken over the two runs that have a duration.
    assert_eq!(test.avg_duration, Some(secs(90)));
    assert_eq!(test.min_duration, Some(secs(60)));
    assert_eq!(test.max_duration, Some(secs(120)));
    assert_eq!(test.consecutive_failures, 0);
    assert_eq!(test.current_streak, 0);
    assert_eq!(test.longest_streak, 2);
    assert_eq!(test.last_status, Some(Conclusion::Success));
    // The cancelled job never completed: its failure is dated by the time given.
    assert_eq!(test.last_failure, Some(NOW));
}

#[test]
fn the_current_streak_ends_with_a_passing_run() {
    let runs = vec![
        vec![job("build", Some(Conclusion::Failure), T0, None)],
        vec![job("build", Some(Conclusion::Failure), T0, None)],
        vec![job("build", Some(Conclusion::Success), T0, None)],
    ];
    let analysis = analyze(&runs, NOW).expect("in range");
    let build = &analysis.jobs[0].stats;
    assert_eq!(build.total_runs, 3);
    assert_eq!(build.failures, 2);
    assert_eq!(build.current_streak, 0);
    assert_eq!(build.consecutive_failures, 0);
    assert_eq!(build.longest_streak, 2);
    assert_eq!(build.last_status, Some(Conclusion::Success));
    let w = &analysis.workflow;
    assert_eq!(w.total_runs, 3);
    assert_eq!(w.skipped_runs, 0);
    assert_eq!(w.failed_runs, 2);
    assert_eq!(w.current_streak, 0);
    assert_eq!(w.longest_streak, 2);
}

#[test]
fn the_mean_counts_only_runs_with_a_duration() {
    let runs = vec![
        vec![job("j", Some(Conclusion::Success), T0, None)],
        vec![job("j", Some(Conclusion::Success), T0, Some(T0))],
        vec![job("j", Some(Conclusion::Success), T0, Some(T0 + 240))],
    ];
    let analysis = analyze(&runs, NOW).expect("in range");
    assert_eq!(analysis.jobs[0].stats.avg_duration, Some(secs(120)));
    assert_eq!(analysis.jobs[0].stats.timed_runs, 2);
    let skipped_first = vec![
        vec![],
        vec![job("j", Some(Conclusion::Success), T0, Some(T0))],
        vec![job("j", Some(Conclusion::Success), T0, Some(T0 + 240))],
    ];
    let w = analyze(&skipped_first, NOW).expect("in range").workflow;
    assert_eq!(w.avg_duration, Some(secs(120)));
    assert_eq!(w.timed_runs, 2);
    assert_eq!(w.min_duration, Some(secs(0)));
    assert_eq!(w.max_duration, Some(secs(240)));
}

#[test]
fn workflow_statistics_of_the_sample() {
    let analysis = analyze(&sample_runs(), NOW).expect("in range");
    let w = &analysis.workflow;
    assert_eq!(w.total_runs, 4);
    assert_eq!(w.failed_runs, 3);
    assert_eq!(w.skipped_runs, 1);
    assert_eq!(w.consecutive_failures, 3);
    assert_eq!(w.current_streak, 3);
    assert_eq!(w.longest_streak, 3);
    assert_eq!(w.timed_runs, 3);
    assert_eq!(w.avg_duration, Some(secs(90)));
    assert_eq!(w.min_duration, Some(secs(60)));
    assert_eq!(w.max_duration, Some(secs(120)));
}

#[test]
fn a_success_ends_the_workflow_streak() {
    let runs = vec![
        vec![job("a", Some(Conclusion::Failure), T0, Some(T0 + 1))],
        vec![job("a", Some(Conclusion::Success), T0, Some(T0 + 1))],
        vec![job("a", Some(Conclusion::Failure), T0, Some(T0 + 1))],
    ];
    let w = analyze(&runs, NOW).expect("in range").workflow;
    assert_eq!(w.failed_runs, 2);
    assert_eq!(w.consecutive_failures, 1);
    assert_eq!(w.current_streak, 1);
    assert_eq!(w.longest_streak, 1);
}

#[test]
fn no_runs_give_empty_statistics() {
    let analysis = analyze(&vec![], NOW).expect("in range");
    assert!(analysis.jobs.is_empty());
    assert_eq!(analysis.workflow.total_runs, 0);
    assert_eq!(analysis.workflow.avg_duration, None);
}

#[test]
fn counts_per_job_match_the_records() {
    let runs = sample_runs();
    let analysis = analyze(&runs, NOW).expect("in range");
    for e in &analysis.jobs {
        let records: Vec<&JobRecord> = runs.iter().flatten().filter(|j| j.name == e.name).collect();
        assert_eq!(e.stats.total_runs as usize, records.len());
        let failed = records.iter().filter(|j| is_failure(j.conclusion)).count();
        assert_eq!(e.stats.failures as usize, failed);
        assert!(e.stats.failures <= e.stats.total_runs);
        assert!(e.stats.current_streak <= e.stats.longest_streak);
    }
}

#[test]
fn means_that_leave_chronos_range_give_none() {
    // About 507,000 years per run: after some 577 runs the weighted mean overflows.
    let runs: Vec<Vec<JobRecord>> = (0..600)
        .map(|_| {
            vec![job(
                "long",
                Some(Conclusion::Success),
                -8_000_000_000_000,
                Some(8_000_000_000_000),
            )]
        })
        .collect();
    assert!(analyze(&runs, NOW).is_none());
    assert!(analyze(&runs[..500].to_vec(), NOW).is_some());
}

#[test]
fn ranking_puts_the_most_failing_job_first() {
    let analysis = analyze(&sample_runs(), NOW).expect("in range");
    let ranked = rank_by_failure_rate(analysis.jobs);
    let names: Vec<&str> = ranked.iter().map(|e| e.name.as_str()).collect();
    assert_eq!(names, vec!["test", "build"]);
}

#[test]
fn summary_of_the_sample() {
    let analysis = analyze(&sample_runs(), NOW).expect("in range");
    let s = summarize(&analysis.jobs);
    assert_eq!(s.total_jobs, 2);
    assert_eq!(s.total_runs, 6);
    assert_eq!(s.total_failures, 3);
    assert_eq!(s.jobs_with_failures, 2);
    assert_eq!(s.jobs_never_failed, 0);
    assert_eq!(s.longest_streak, 2);
    assert_eq!(s.currently_failing, 1);
    assert_eq!(s.avg_duration_minutes, Some(1));
}

#[test]
fn summary_without_durations() {
    let runs = vec![vec![job("x", Some(Conclusion::Success), T0, None)]];
    let analysis = analyze(&runs, NOW).expect("in range");
    let s = summarize(&analysis.jobs);
    assert_eq!(s.avg_duration_minutes, None);
    assert_eq!(s.jobs_with_failures, 0);
    assert_eq!(s.jobs_never_failed, 1);
}

#[test]
fn a_job_counts_only_its_own_runs() {
    let runs = sample_runs();
    let only_test: Vec<Vec<JobRecord>> = runs
        .iter()
        .map(|run| run.iter().filter(|j| j.name == "test").cloned().collect())
        .collect();
    let mixed = analyze(&runs, NOW).expect("in range");
    let alone = analyze(&only_test, NOW).expect("in range");
    let a = &entry(&mixed, "test").stats;
    let b = &entry(&alone, "test").stats;
    assert_eq!(a.total_runs, b.total_runs);
    assert_eq!(a.failures, b.failures);
    assert_eq!(a.avg_duration, b.avg_duration);
    assert_eq!(a.min_duration, b.min_duration);
    assert_eq!(a.max_duration, b.max_duration);
    assert_eq!(a.consecutive_failures, b.consecutive_failures);
    assert_eq!(a.current_streak, b.current_streak);
    assert_eq!(a.longest_streak, b.longest_streak);
    assert_eq!(a.last_status, b.last_status);
    assert_eq!(a.last_failure, b.last_failure);
}

#[test]
fn the_mean_can_fall_a_nanosecond_below_the_minimum() {
    let d = 333_333_334;
    let runs: Vec<Vec<JobRecord>> = (0..3)
        .map(|_| {
            vec![JobRecord {
                name: "j".to_string(),
                conclusion: Some(Conclusion::Success),
                started_at: at(T0),
                completed_at: Some(Moment { secs: T0, nanos: d }),
            }]
        })
        .collect();
    let stats = &analyze(&runs, NOW).expect("in range").jobs[0].stats;
    assert_eq!(stats.min_duration, Some(Span { secs: 0, nanos: d }));
    assert_eq!(stats.avg_duration, Some(Span { secs: 0, nanos: d - 1 }));
}

#[test]
fn ranking_a_single_job_without_runs() {
    let lone = JobEntry {
        name: "idle".to_string(),
        stats: gh_flake_detector::job::JobStats::new(None),
    };
    let ranked = rank_by_failure_rate(vec![lone]);
    assert_eq!(ranked.len(), 1);
    assert_eq!(ranked[0].name, "idle");
}

#[test]
fn ranking_keeps_every_job() {
    let runs = vec![
        vec![
            job("a", Some(Conclusion::Success), T0, None),
            job("b", Some(Conclusion::Failure), T0, None),
            job("c", Some(Conclusion::Failure), T0, None),
        ],
        vec![
            job("a", Some(Conclusion::Failure), T0, None),
            job("b", Some(Conclusion::Success), T0, None),
            job("c", Some(Conclusion::Failure), T0, None),
        ],
    ];
    let ranked = rank_by_failure_rate(analyze(&runs, NOW).expect("in range").jobs);
    let names: Vec<&str> = ranked.iter().map(|e| e.name.as_str()).collect();
    assert_eq!(names.len(), 3);
    assert_eq!(names[0], "c");
    assert!(names.contains(&"a") && names.contains(&"b"));
}

#[test]
fn elapsed_accepts_exactly_the_calendar() {
    assert!(elapsed(at(8_210_266_876_799), at(0)).is_some());
    assert!(elapsed(at(8_210_266_876_800), at(0)).is_none());
    assert!(elapsed(at(0), at(-8_334_601_228_800)).is_some());
    assert!(elapsed(at(0), at(-8_334_601_228_801)).is_none());
    assert!(elapsed(Moment { secs: 59, nanos: 1_500_000_000 }, at(0)).is_some());
    assert!(elapsed(Moment { secs: 58, nanos: 1_500_000_000 }, at(0)).is_none());
    assert!(elapsed(Moment { secs: 59, nanos: 2_000_000_000 }, at(0)).is_none());
    assert!(elapsed(Moment { secs: -1, nanos: 1_000_000_000 }, at(0)).is_some());
}

#[test]
fn runs_are_ordered_oldest_first_and_stably() {
    let created = vec![
        at(30),
        Moment { secs: 10, nanos: 5 },
        at(20),
        at(10),
        Moment { secs: 10, nanos: 5 },
    ];
    assert_eq!(order_oldest_first(&created), vec![3, 1, 4, 2, 0]);
    assert_eq!(order_oldest_first(&vec![]), Vec::<usize>::new());
}
