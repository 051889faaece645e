use wg_vanity::cuda_run::{
    benchmark_count, benchmark_end, plan_cuda_search, CudaPlanError, CudaRun, Share,
};
use wg_vanity::PatternKind;

#[test]
fn literals_must_fit_the_range() {
    assert_eq!(plan_cuda_search(PatternKind::Literal, 4, None, 1), Ok(10));
    assert_eq!(plan_cuda_search(PatternKind::Literal, 12, None, 1), Ok(22));
    assert_eq!(plan_cuda_search(PatternKind::Literal, 40, None, 1), Ok(44));
    assert_eq!(plan_cuda_search(PatternKind::Literal, 4, Some(4), 1), Ok(4));
    assert_eq!(
        plan_cuda_search(PatternKind::Literal, 5, Some(4), 1),
        Err(CudaPlanError::Prefix { end: 4 })
    );
    assert_eq!(
        plan_cuda_search(PatternKind::Literal, 0, None, 0),
        Err(CudaPlanError::Prefix { end: 10 })
    );
    assert_eq!(plan_cuda_search(PatternKind::Regex, 30, None, 1), Ok(10));
    assert_eq!(plan_cuda_search(PatternKind::Literal, 4, None, 0), Err(CudaPlanError::Batch));
}

#[test]
fn plan_errors_are_described() {
    assert_eq!(
        CudaPlanError::Prefix { end: 16 }.message(),
        "prefix must fit in the selected range (0..16)"
    );
    assert_eq!(CudaPlanError::Batch.message(), "--batch must be greater than zero");
}

#[test]
fn trials_bound_the_launches() {
    let mut run = CudaRun::new(100, Some(250), None);
    let mut counts = Vec::new();
    loop {
        let shares = run.plan_round(1, false);
        match shares.first() {
            Some(share) => {
                assert_eq!(shares.len(), 1);
                assert_eq!(share.base_counter, run.total());
                counts.push(share.count);
                run.record(share.count);
            }
            None => break,
        }
    }
    assert_eq!(counts, [100, 100, 50]);
    assert_eq!(run.total(), 250);
}

#[test]
fn rounds_cover_several_devices() {
    let run = CudaRun::new(100, Some(250), None);
    assert_eq!(
        run.plan_round(8, false),
        [
            Share { count: 100, base_counter: 0 },
            Share { count: 100, base_counter: 100 },
            Share { count: 50, base_counter: 200 },
        ]
    );
    assert_eq!(run.plan_round(2, false).len(), 2);
    assert_eq!(run.plan_round(0, false).len(), 0);
}

#[test]
fn first_limit_wins() {
    let mut run = CudaRun::new(10, Some(1000), Some(2));
    assert_eq!(run.plan_round(5, false).len(), 2);
    assert_eq!(run.plan_round(5, true).len(), 0);
    run.record(10);
    run.record(10);
    assert_eq!(run.plan_round(5, false).len(), 0);
    assert_eq!(CudaRun::new(10, Some(0), None).plan_round(1, false).len(), 0);
    assert_eq!(CudaRun::new(0, None, None).plan_round(1, false).len(), 0);
    assert_eq!(CudaRun::new(10, None, None).plan_round(3, false).len(), 3);
}

#[test]
fn progress_saturates() {
    let mut run = CudaRun::new(u64::MAX, None, None);
    run.record(u64::MAX - 1);
    run.record(5);
    assert_eq!(run.total(), u64::MAX);
    assert_eq!(
        run.plan_round(1, false),
        [Share { count: u64::MAX, base_counter: u64::MAX }]
    );
}

#[test]
fn every_tenth_launch_is_reported() {
    let mut run = CudaRun::new(1, None, None);
    let mut limited = CudaRun::new(1, None, Some(100));
    for launch in 1..=30u64 {
        assert!(launch != 1 || !run.report_due());
        run.record(1);
        limited.record(1);
        assert_eq!(run.report_due(), launch % 10 == 0);
        assert!(!limited.report_due());
    }
}

#[test]
fn benchmarks_cover_all_trials() {
    assert_eq!(benchmark_end(4), 10);
    assert_eq!(benchmark_end(12), 12);
    assert_eq!(benchmark_end(60), 44);
    assert_eq!(benchmark_count(0, 25, 10), Some(10));
    assert_eq!(benchmark_count(20, 25, 10), Some(5));
    assert_eq!(benchmark_count(25, 25, 10), None);
    assert_eq!(benchmark_count(0, 25, 0), Some(0));
}
