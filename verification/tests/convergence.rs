use monte_carlo_puzzles::monty_hall::Strategy;
use monte_carlo_puzzles::runner::{run_trials, TrialEvaluator};
use monte_carlo_puzzles::source::RandomSource;

fn probability_of(evaluator: TrialEvaluator, trials: u64) -> f64 {
    let mut source = RandomSource::seeded();
    let result = run_trials(&evaluator, &mut source, trials);
    result.successes as f64 / result.trials as f64
}

#[test]
fn stay_strategy_converges_to_one_third() {
    let p = probability_of(TrialEvaluator::MontyHall { strategy: Strategy::Stay }, 1_000_000);
    assert!((p - 1.0 / 3.0).abs() <= 0.01, "stay probability was {p}");
}

#[test]
fn switch_strategy_converges_to_two_thirds() {
    let p = probability_of(TrialEvaluator::MontyHall { strategy: Strategy::Switch }, 1_000_000);
    assert!((p - 2.0 / 3.0).abs() <= 0.01, "switch probability was {p}");
}

#[test]
fn oversized_group_probability_is_one() {
    let p = probability_of(
        TrialEvaluator::Birthday { group_size: 400, label_space: 365 },
        2_000,
    );
    assert_eq!(p, 1.0);
}

#[test]
fn classic_group_of_23_is_near_even_odds() {
    let p = probability_of(
        TrialEvaluator::Birthday { group_size: 23, label_space: 365 },
        100_000,
    );
    assert!((p - 0.5073).abs() <= 0.02, "group-of-23 probability was {p}");
}
