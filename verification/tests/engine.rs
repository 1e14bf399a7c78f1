use monte_carlo_puzzles::birthday::{birthday_trial, contains_duplicate};
use monte_carlo_puzzles::monty_hall::{monty_hall_outcome, monty_hall_trial, Strategy};
use monte_carlo_puzzles::runner::{run_trials, TrialEvaluator};
use monte_carlo_puzzles::source::RandomSource;

#[test]
fn duplicate_sequence_detected() {
    assert!(contains_duplicate(&vec![10u64, 200, 10]));
    assert!(contains_duplicate(&vec![5u64, 5]));
    assert!(contains_duplicate(&vec![1u64, 2, 3, 2, 9]));
}

#[test]
fn injective_sequence_has_no_duplicate() {
    assert!(!contains_duplicate(&vec![1u64, 2, 3]));
    assert!(!contains_duplicate(&vec![42u64]));
    assert!(!contains_duplicate(&Vec::new()));
}

#[test]
fn group_of_at_most_one_never_collides() {
    let mut source = RandomSource::seeded();
    for _ in 0..100 {
        assert!(!birthday_trial(&mut source, 0, 365));
        assert!(!birthday_trial(&mut source, 1, 365));
    }
    let result = run_trials(
        &TrialEvaluator::Birthday { group_size: 1, label_space: 365 },
        &mut source,
        1000,
    );
    assert_eq!(result.successes, 0);
}

#[test]
fn oversized_group_always_collides() {
    let mut source = RandomSource::seeded();
    let result = run_trials(
        &TrialEvaluator::Birthday { group_size: 400, label_space: 365 },
        &mut source,
        1000,
    );
    assert_eq!(result.successes, 1000);
    let probability = result.successes as f64 / result.trials as f64;
    assert_eq!(probability, 1.0);
}

#[test]
fn mocked_draws_with_duplicate_give_collision() {
    let mut source = RandomSource::fixed(vec![10, 200, 10]);
    assert!(birthday_trial(&mut source, 3, 365));
}

#[test]
fn mocked_injective_draws_give_no_collision() {
    let mut source = RandomSource::fixed(vec![10, 200, 30]);
    assert!(!birthday_trial(&mut source, 3, 365));
}

#[test]
fn birthday_trial_stops_at_first_repeat() {
    let mut source = RandomSource::fixed(vec![7, 7, 9]);
    assert!(birthday_trial(&mut source, 3, 365));
    // Only the two draws up to the repeat were consumed, so the next draw
    // hands out the third stored value.
    assert_eq!(source.draw_uniform_int(1, 365), 9);
}

#[test]
fn birthday_trial_without_repeat_consumes_every_draw() {
    let mut source = RandomSource::fixed(vec![10, 200, 30]);
    assert!(!birthday_trial(&mut source, 3, 365));
    // All three draws were consumed, so the next draw cycles back to the
    // first stored value.
    assert_eq!(source.draw_uniform_int(1, 365), 10);
}

#[test]
fn duplicate_at_last_draw_is_still_detected() {
    // The repeat is the second occurrence of 10, found at the third draw.
    let mut source = RandomSource::fixed(vec![10, 200, 10, 77]);
    assert!(birthday_trial(&mut source, 3, 365));
    // The collision sits at the final draw, so all three were consumed.
    assert_eq!(source.draw_uniform_int(1, 365), 77);
}

#[test]
fn opened_door_never_car_nor_choice() {
    for car_door in 0..3u64 {
        for initial_choice in 0..3u64 {
            for strategy in [Strategy::Stay, Strategy::Switch] {
                let (opened, chosen, _) = monty_hall_outcome(car_door, initial_choice, strategy);
                assert!(opened < 3);
                assert_ne!(opened, car_door);
                assert_ne!(opened, initial_choice);
                assert!(chosen < 3);
                assert_ne!(chosen, opened);
            }
        }
    }
}

#[test]
fn stay_wins_exactly_when_initial_pick_is_car() {
    for car_door in 0..3u64 {
        for initial_choice in 0..3u64 {
            let (_, chosen, won) = monty_hall_outcome(car_door, initial_choice, Strategy::Stay);
            assert_eq!(chosen, initial_choice);
            assert_eq!(won, car_door == initial_choice);
        }
    }
}

#[test]
fn switch_wins_exactly_when_initial_pick_misses_car() {
    for car_door in 0..3u64 {
        for initial_choice in 0..3u64 {
            let (opened, chosen, won) = monty_hall_outcome(car_door, initial_choice, Strategy::Switch);
            assert_ne!(chosen, initial_choice);
            assert_ne!(chosen, opened);
            assert_eq!(won, car_door != initial_choice);
        }
    }
}

#[test]
fn mocked_game_switch_wins_and_stay_loses() {
    let (opened, chosen, won) = monty_hall_outcome(0, 1, Strategy::Switch);
    assert_eq!(opened, 2);
    assert_eq!(chosen, 0);
    assert!(won);
    let (opened, chosen, won) = monty_hall_outcome(0, 1, Strategy::Stay);
    assert_eq!(opened, 2);
    assert_eq!(chosen, 1);
    assert!(!won);

    let mut source = RandomSource::fixed(vec![0, 1]);
    assert!(monty_hall_trial(&mut source, Strategy::Switch));
    let mut source = RandomSource::fixed(vec![0, 1]);
    assert!(!monty_hall_trial(&mut source, Strategy::Stay));
}

#[test]
fn mocked_run_counts_every_trial() {
    let mut source = RandomSource::fixed(vec![0, 1, 1, 0]);
    let result = run_trials(
        &TrialEvaluator::MontyHall { strategy: Strategy::Switch },
        &mut source,
        2,
    );
    assert_eq!(result.successes, 2);
    assert_eq!(result.trials, 2);
    let mut source = RandomSource::fixed(vec![0, 1, 1, 0]);
    let result = run_trials(
        &TrialEvaluator::MontyHall { strategy: Strategy::Stay },
        &mut source,
        2,
    );
    assert_eq!(result.successes, 0);
}

#[test]
fn run_result_counts_are_exact() {
    let mut source = RandomSource::seeded();
    let result = run_trials(
        &TrialEvaluator::MontyHall { strategy: Strategy::Stay },
        &mut source,
        1000,
    );
    assert_eq!(result.trials, 1000);
    assert!(result.successes <= result.trials);
    let probability = result.successes as f64 / result.trials as f64;
    assert_eq!(probability, result.successes as f64 / 1000.0);
    assert!((0.0..=1.0).contains(&probability));
}

#[test]
fn single_trial_run_works() {
    let mut source = RandomSource::seeded();
    let result = run_trials(
        &TrialEvaluator::Birthday { group_size: 23, label_space: 365 },
        &mut source,
        1,
    );
    assert_eq!(result.trials, 1);
    assert!(result.successes <= 1);
}

#[test]
fn fixed_source_replays_and_clamps() {
    let mut source = RandomSource::fixed(vec![0, 500, 7]);
    assert_eq!(source.draw_uniform_int(1, 365), 1);
    assert_eq!(source.draw_uniform_int(1, 365), 365);
    assert_eq!(source.draw_uniform_int(1, 365), 7);
    assert_eq!(source.draw_uniform_int(1, 365), 1);
}

#[test]
fn empty_fixed_source_hands_out_lower_bound() {
    let mut source = RandomSource::fixed(Vec::new());
    assert_eq!(source.draw_uniform_int(1, 365), 1);
    assert_eq!(source.draw_uniform_int(0, 2), 0);
}

#[test]
fn seeded_draws_stay_in_range_and_vary() {
    let mut source = RandomSource::seeded();
    let mut seen = [false; 3];
    for _ in 0..1000 {
        let door = source.draw_uniform_int(0, 2);
        assert!(door <= 2);
        seen[door as usize] = true;
        let day = source.draw_uniform_int(1, 365);
        assert!(1 <= day && day <= 365);
    }
    assert!(seen[0] && seen[1] && seen[2]);
}
