use bench_rs::agent::Agent;
use bench_rs::benchmark::scenario::{BenchmarkScenario, BenchmarkScenarioResult};
use bench_rs::benchmark::step::BenchmarkStepResult;
use bench_rs::errors::{BenchmarkError, Errors};
use bench_rs::score::Score;

type Step = fn(&Agent, &Score, &Errors) -> BenchmarkStepResult;

fn agent() -> Agent {
    Agent::try_new("http://127.0.0.1:1234").unwrap()
}

fn step_a(_agent: &Agent, score: &Score, errors: &Errors) -> BenchmarkStepResult {
    let mut score = score.clone();
    let mut errors = errors.clone();
    score.record("a");
    errors.record(BenchmarkError::Penalty {
        cause: "error_a".into(),
        point: 1,
    });
    BenchmarkStepResult::new(score, errors)
}

fn step_b(_agent: &Agent, score: &Score, errors: &Errors) -> BenchmarkStepResult {
    let mut score = score.clone();
    let mut errors = errors.clone();
    score.record("b");
    errors.record(BenchmarkError::Penalty {
        cause: "error_b".into(),
        point: 2,
    });
    BenchmarkStepResult::new(score, errors)
}

fn step_c(_agent: &Agent, score: &Score, errors: &Errors) -> BenchmarkStepResult {
    let mut score = score.clone();
    let mut errors = errors.clone();
    score.record("c");
    errors.record(BenchmarkError::Penalty {
        cause: "error_c".into(),
        point: 3,
    });
    BenchmarkStepResult::new(score, errors)
}

fn step_with_penalty(_agent: &Agent, score: &Score, errors: &Errors) -> BenchmarkStepResult {
    let mut score = score.clone();
    let mut errors = errors.clone();
    score.record("a");
    errors.record(BenchmarkError::Penalty {
        cause: "error".into(),
        point: 1,
    });
    BenchmarkStepResult::new(score, errors)
}

fn step_with_fail(_agent: &Agent, score: &Score, errors: &Errors) -> BenchmarkStepResult {
    let mut score = score.clone();
    let mut errors = errors.clone();
    score.record("a");
    errors.record(BenchmarkError::Fail {
        cause: "error".into(),
    });
    BenchmarkStepResult::new(score, errors)
}

fn step_result(gain: usize, lose: usize, fail: bool) -> BenchmarkStepResult {
    let mut score = Score::new();
    score.add_point_table("gain", gain);
    score.record("gain");
    let mut errors = Errors::new();
    errors.record(BenchmarkError::Penalty {
        cause: "lose".into(),
        point: lose,
    });
    if fail {
        errors.record(BenchmarkError::Fail {
            cause: "fail".into(),
        });
    }
    BenchmarkStepResult::new(score, errors)
}

#[test]
fn test_benchmark_scenario() {
    let agent = agent();

    let mut score = Score::new();
    score.add_point_table("a", 1);
    score.add_point_table("b", 2);
    score.add_point_table("c", 3);

    let errors = Errors::new();

    let mut benchmark_scenario: BenchmarkScenario<Step> = BenchmarkScenario::new("scenario");

    benchmark_scenario.add_benchmark_step(step_a);
    benchmark_scenario.add_benchmark_step(step_b);
    benchmark_scenario.add_benchmark_step(step_c);

    let benchmark_scenario_result = benchmark_scenario.run(&agent, &score, &errors);
    assert_eq!(benchmark_scenario_result.total_score(), 0);
    assert_eq!(benchmark_scenario_result.total_gain(), 6);
    assert_eq!(benchmark_scenario_result.total_lose(), 6);
}

#[test]
fn test_benchmark_scenario_result_is_success() {
    let agent = agent();

    let mut score = Score::new();
    score.add_point_table("a", 1);

    let errors = Errors::new();

    let mut benchmark_scenario: BenchmarkScenario<Step> = BenchmarkScenario::new("scenario");
    benchmark_scenario.add_benchmark_step(step_with_penalty);

    let benchmark_scenario_result = benchmark_scenario.run(&agent, &score, &errors);
    assert_eq!(benchmark_scenario_result.is_success(), true);
    assert_eq!(benchmark_scenario_result.is_failure(), false);
}

#[test]
fn test_benchmark_scenario_result_is_failure() {
    let agent = agent();

    let mut score = Score::new();
    score.add_point_table("a", 1);

    let errors = Errors::new();

    let mut benchmark_scenario: BenchmarkScenario<Step> = BenchmarkScenario::new("scenario");
    benchmark_scenario.add_benchmark_step(step_with_fail);

    let benchmark_scenario_result = benchmark_scenario.run(&agent, &score, &errors);
    assert_eq!(benchmark_scenario_result.is_success(), false);
    assert_eq!(benchmark_scenario_result.is_failure(), true);
}

#[test]
fn scenario_keeps_name_and_steps() {
    let mut scenario: BenchmarkScenario<u32> = BenchmarkScenario::new("numbers");
    assert_eq!(scenario.name(), "numbers");
    assert_eq!(scenario.steps().len(), 0);
    scenario.add_benchmark_step(3);
    scenario.add_benchmark_step(1);
    scenario.add_benchmark_step(2);
    assert_eq!(scenario.name(), "numbers");
    assert_eq!(scenario.steps(), &vec![3, 1, 2]);

    let copy = scenario.clone();
    scenario.add_benchmark_step(4);
    assert_eq!(copy.name(), "numbers");
    assert_eq!(copy.steps(), &vec![3, 1, 2]);
    assert_eq!(scenario.steps().len(), 4);
}

#[test]
fn scenario_without_steps_yields_an_empty_outcome() {
    let scenario: BenchmarkScenario<Step> = BenchmarkScenario::new("empty");
    let result = scenario.run(&agent(), &Score::new(), &Errors::new());
    assert_eq!(result.scenario_name(), "empty");
    assert_eq!(result.total_gain(), 0);
    assert_eq!(result.total_lose(), 0);
    assert_eq!(result.total_score(), 0);
    assert!(result.is_success());
}

#[test]
fn scenario_runs_its_steps_in_order() {
    let order = std::cell::RefCell::new(Vec::new());
    let mut scenario = BenchmarkScenario::new("ordered");
    for number in [2usize, 0, 1] {
        let order = &order;
        scenario.add_benchmark_step(move |_: &Agent, score: &Score, errors: &Errors| {
            order.borrow_mut().push(number);
            let mut errors = errors.clone();
            errors.record(BenchmarkError::Penalty {
                cause: "step".into(),
                point: number,
            });
            BenchmarkStepResult::new(score.clone(), errors)
        });
    }
    let result = scenario.run(&agent(), &Score::new(), &Errors::new());
    assert_eq!(*order.borrow(), vec![2, 0, 1]);
    assert_eq!(result.scenario_name(), "ordered");
    assert_eq!(result.total_lose(), 3);
}

#[test]
fn every_step_is_given_the_same_score_and_ledger() {
    let mut score = Score::new();
    score.add_point_table("a", 1);
    score.record("a");
    let mut errors = Errors::new();
    errors.record(BenchmarkError::Penalty {
        cause: "before".into(),
        point: 5,
    });

    let mut scenario: BenchmarkScenario<Step> = BenchmarkScenario::new("shared");
    scenario.add_benchmark_step(step_a);
    scenario.add_benchmark_step(step_a);
    let result = scenario.run(&agent(), &score, &errors);

    assert_eq!(result.total_gain(), 4);
    assert_eq!(result.total_lose(), 12);
    assert_eq!(result.total_score(), -8);
    assert_eq!(score.records().len(), 1);
    assert_eq!(errors.len(), 1);
}

#[test]
fn steps_see_the_agent() {
    let mut agent = agent();
    agent.set_user_agent("BENCH_RS");
    fn step(agent: &Agent, score: &Score, errors: &Errors) -> BenchmarkStepResult {
        let mut errors = errors.clone();
        if agent.user_agent() != "BENCH_RS" || agent.base_url() != "http://127.0.0.1:1234" {
            errors.record(BenchmarkError::Fail {
                cause: "agent".into(),
            });
        }
        BenchmarkStepResult::new(score.clone(), errors)
    }
    let mut scenario: BenchmarkScenario<Step> = BenchmarkScenario::new("agent");
    scenario.add_benchmark_step(step);
    assert!(scenario.run(&agent, &Score::new(), &Errors::new()).is_success());
}

#[test]
fn failed_step_does_not_stop_the_scenario() {
    let mut score = Score::new();
    score.add_point_table("a", 1);
    score.add_point_table("b", 2);
    score.add_point_table("c", 3);
    let mut scenario: BenchmarkScenario<Step> = BenchmarkScenario::new("goes on");
    scenario.add_benchmark_step(step_with_fail);
    scenario.add_benchmark_step(step_b);
    scenario.add_benchmark_step(step_c);
    let result = scenario.run(&agent(), &score, &Errors::new());
    assert!(result.is_failure());
    assert_eq!(result.total_gain(), 6);
    assert_eq!(result.total_lose(), 5);
    assert_eq!(result.total_score(), 1);
}

#[test]
fn scenario_result_adds_up_its_steps() {
    let mut result = BenchmarkScenarioResult::new("sum");
    assert_eq!(result.scenario_name(), "sum");
    assert_eq!(result.total_score(), 0);
    assert!(result.is_success());

    result.add_step_result(step_result(10, 1, false));
    assert_eq!(result.total_gain(), 10);
    assert_eq!(result.total_lose(), 1);
    assert_eq!(result.total_score(), 9);

    result.add_step_result(step_result(0, 20, false));
    assert_eq!(result.total_gain(), 10);
    assert_eq!(result.total_lose(), 21);
    assert_eq!(result.total_score(), -11);
    assert!(result.is_success());
    assert_eq!(result.checked_total_gain(), Some(10));
    assert_eq!(result.checked_total_lose(), Some(21));
}

#[test]
fn scenario_fails_exactly_if_a_step_fails() {
    for failing in 0..4usize {
        let mut result = BenchmarkScenarioResult::new("fails");
        for step in 0..3usize {
            result.add_step_result(step_result(1, 0, step == failing));
        }
        assert_eq!(result.is_failure(), failing < 3);
        assert_eq!(result.is_success(), failing >= 3);
        assert_eq!(result.total_score(), 3);
    }
}

#[test]
fn scenario_checked_totals_report_what_does_not_fit() {
    let largest = isize::MAX as usize;
    let mut result = BenchmarkScenarioResult::new("large");
    result.add_step_result(step_result(largest - 1, largest, false));
    result.add_step_result(step_result(1, 0, false));
    assert_eq!(result.checked_total_gain(), Some(isize::MAX));
    assert_eq!(result.checked_total_lose(), Some(isize::MAX));
    assert_eq!(result.total_score(), 0);

    result.add_step_result(step_result(1, 1, false));
    assert_eq!(result.checked_total_gain(), None);
    assert_eq!(result.checked_total_lose(), None);

    let mut single = BenchmarkScenarioResult::new("single");
    single.add_step_result(step_result(largest + 1, usize::MAX, false));
    single.add_step_result(step_result(0, 0, false));
    assert_eq!(single.checked_total_gain(), None);
    assert_eq!(single.checked_total_lose(), None);
}

#[test]
fn clone_of_scenario_result_is_independent() {
    let mut result = BenchmarkScenarioResult::new("copy");
    result.add_step_result(step_result(4, 1, false));
    let mut copy = result.clone();
    copy.add_step_result(step_result(4, 1, true));
    assert_eq!(result.total_score(), 3);
    assert!(result.is_success());
    assert_eq!(copy.scenario_name(), "copy");
    assert_eq!(copy.total_score(), 6);
    assert!(copy.is_failure());
}
