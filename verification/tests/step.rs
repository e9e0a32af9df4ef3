use bench_rs::agent::Agent;
use bench_rs::benchmark::step::BenchmarkStepResult;
use bench_rs::errors::{BenchmarkError, Errors};
use bench_rs::score::Score;

fn agent() -> Agent {
    Agent::try_new("http://127.0.0.1:1234").unwrap()
}

#[test]
fn test_benchmark_step() {
    let agent = agent();

    let mut score = Score::new();
    score.add_point_table("a", 1);
    score.add_point_table("b", 2);
    score.add_point_table("c", 3);

    let errors = Errors::new();

    fn step(_agent: &Agent, score: &Score, errors: &Errors) -> BenchmarkStepResult {
        let mut score = score.clone();
        let mut errors = errors.clone();

        score.record("a");
        score.record("b");
        score.record("c");

        errors.record(BenchmarkError::Penalty {
            cause: "error".into(),
            point: 1,
        });

        BenchmarkStepResult::new(score, errors)
    }

    let benchmark_step_result = step(&agent, &score, &errors);
    assert_eq!(benchmark_step_result.total_score(), 5);
    assert_eq!(benchmark_step_result.total_gain(), 6);
    assert_eq!(benchmark_step_result.total_lose(), 1);
}

#[test]
fn test_benchmark_step_result_is_success() {
    let agent = agent();

    let mut score = Score::new();
    score.add_point_table("a", 1);

    let errors = Errors::new();

    fn step(_agent: &Agent, score: &Score, errors: &Errors) -> BenchmarkStepResult {
        let mut score = score.clone();
        let mut errors = errors.clone();

        score.record("a");

        errors.record(BenchmarkError::Penalty {
            cause: "error".into(),
            point: 1,
        });

        BenchmarkStepResult::new(score, errors)
    }

    let benchmark_step_result = step(&agent, &score, &errors);
    assert_eq!(benchmark_step_result.is_success(), true);
    assert_eq!(benchmark_step_result.is_failure(), false);
}

#[test]
fn test_benchmark_step_result_is_failure() {
    let agent = agent();

    let mut score = Score::new();
    score.add_point_table("a", 1);

    let errors = Errors::new();

    fn step(_agent: &Agent, score: &Score, errors: &Errors) -> BenchmarkStepResult {
        let mut score = score.clone();
        let mut errors = errors.clone();

        score.record("a");

        errors.record(BenchmarkError::Fail {
            cause: "error".into(),
        });

        BenchmarkStepResult::new(score, errors)
    }

    let benchmark_step_result = step(&agent, &score, &errors);
    assert_eq!(benchmark_step_result.is_success(), false);
    assert_eq!(benchmark_step_result.is_failure(), true);
}

#[test]
fn step_result_of_nothing() {
    let result = BenchmarkStepResult::new(Score::new(), Errors::new());
    assert_eq!(result.total_gain(), 0);
    assert_eq!(result.total_lose(), 0);
    assert_eq!(result.total_score(), 0);
    assert!(result.is_success());
    assert!(!result.is_failure());
    assert_eq!(result.checked_total_gain(), Some(0));
    assert_eq!(result.checked_total_lose(), Some(0));
}

#[test]
fn step_score_can_be_negative() {
    let mut score = Score::new();
    score.add_point_table("a", 2);
    score.record("a");
    let mut errors = Errors::new();
    errors.record(BenchmarkError::Penalty {
        cause: "slow".into(),
        point: 10,
    });
    let result = BenchmarkStepResult::new(score, errors);
    assert_eq!(result.total_gain(), 2);
    assert_eq!(result.total_lose(), 10);
    assert_eq!(result.total_score(), -8);
}

#[test]
fn step_with_fail_keeps_its_points() {
    let mut score = Score::new();
    score.add_point_table("a", 2);
    score.record("a");
    let mut errors = Errors::new();
    errors.record(BenchmarkError::Penalty {
        cause: "slow".into(),
        point: 1,
    });
    let before = BenchmarkStepResult::new(score.clone(), errors.clone());
    errors.record(BenchmarkError::Fail {
        cause: "down".into(),
    });
    let after = BenchmarkStepResult::new(score, errors);

    assert!(!before.is_failure());
    assert!(after.is_failure());
    assert_eq!(before.total_score(), 1);
    assert_eq!(after.total_score(), 1);
    assert_eq!(after.total_gain(), 2);
    assert_eq!(after.total_lose(), 1);
}

#[test]
fn step_checked_totals_report_what_does_not_fit() {
    let largest = isize::MAX as usize;

    let mut score = Score::new();
    score.add_point_table("most", largest);
    score.add_point_table("one", 1);
    score.record("most");
    let mut errors = Errors::new();
    errors.record(BenchmarkError::Penalty {
        cause: "most".into(),
        point: largest,
    });
    let fits = BenchmarkStepResult::new(score.clone(), errors.clone());
    assert_eq!(fits.checked_total_gain(), Some(isize::MAX));
    assert_eq!(fits.checked_total_lose(), Some(isize::MAX));
    assert_eq!(fits.total_gain(), isize::MAX);
    assert_eq!(fits.total_lose(), isize::MAX);
    assert_eq!(fits.total_score(), 0);

    score.record("one");
    errors.record(BenchmarkError::Penalty {
        cause: "one".into(),
        point: 1,
    });
    let too_much = BenchmarkStepResult::new(score.clone(), errors.clone());
    assert_eq!(too_much.checked_total_gain(), None);
    assert_eq!(too_much.checked_total_lose(), None);

    score.record("most");
    score.record("one");
    let far_too_much = BenchmarkStepResult::new(score, Errors::new());
    assert_eq!(far_too_much.checked_total_gain(), None);
    assert_eq!(far_too_much.checked_total_lose(), Some(0));
}

#[test]
fn clone_of_step_result_has_the_same_totals() {
    let mut score = Score::new();
    score.add_point_table("a", 3);
    score.record("a");
    let mut errors = Errors::new();
    errors.record(BenchmarkError::Fail {
        cause: "down".into(),
    });
    let result = BenchmarkStepResult::new(score, errors);
    let copy = result.clone();
    assert_eq!(copy.total_gain(), 3);
    assert_eq!(copy.total_lose(), 0);
    assert!(copy.is_failure());
}
