//! The Monty Hall trial: one play of the three-door game under a fixed
//! decision policy.
//!
//! The host's door is the lowest-indexed door that hides a goat and was not
//! picked by the contestant. When the contestant's initial pick already
//! hides the car, two goat doors qualify and the lowest index is the
//! deliberate, deterministic tie-break: both candidates are symmetric goats,
//! so the choice cannot affect the win probability under either policy.

use vstd::prelude::*;
use crate::source::{fixed_draw, fixed_position_after, next_position, RandomSource};

verus! {

/// The contestant's fixed decision policy for the final pick.
#[derive(Clone, Copy, PartialEq, Eq, Structural, Debug)]
pub enum Strategy {
    /// Keep the initial pick.
    Stay,
    /// Move to the one door that is neither the initial pick nor the opened one.
    Switch,
}

/// The door the host opens: the lowest-indexed door that is neither the car
/// door nor the contestant's initial pick.
pub open spec fn opened_door(car_door: u64, initial_choice: u64) -> u64 {
    if car_door != 0 && initial_choice != 0 {
        0
    } else if car_door != 1 && initial_choice != 1 {
        1
    } else {
        2
    }
}

/// The door a switching contestant moves to: the lowest-indexed door that is
/// neither the initial pick nor the opened one (for valid inputs it is the
/// only such door).
pub open spec fn switch_choice(initial_choice: u64, opened: u64) -> u64 {
    if initial_choice != 0 && opened != 0 {
        0
    } else if initial_choice != 1 && opened != 1 {
        1
    } else {
        2
    }
}

/// The contestant's final pick under the given policy.
pub open spec fn final_choice(car_door: u64, initial_choice: u64, strategy: Strategy) -> u64 {
    match strategy {
        Strategy::Stay => initial_choice,
        Strategy::Switch => switch_choice(initial_choice, opened_door(car_door, initial_choice)),
    }
}

/// Whether the trial is won: the final pick hides the car.
pub open spec fn monty_hall_wins(car_door: u64, initial_choice: u64, strategy: Strategy) -> bool {
    final_choice(car_door, initial_choice, strategy) == car_door
}

/// The host never opens the car door nor the contestant's pick, for every
/// pair of valid draws.
pub proof fn lemma_opened_door_excluded(car_door: u64, initial_choice: u64)
    requires
        car_door < 3,
        initial_choice < 3,
    ensures
        opened_door(car_door, initial_choice) < 3,
        opened_door(car_door, initial_choice) != car_door,
        opened_door(car_door, initial_choice) != initial_choice,
{
}

/// Staying keeps the initial pick, so the trial is won exactly when the
/// initial pick already hides the car.
pub proof fn lemma_stay_wins_iff(car_door: u64, initial_choice: u64)
    requires
        car_door < 3,
        initial_choice < 3,
    ensures
        final_choice(car_door, initial_choice, Strategy::Stay) == initial_choice,
        monty_hall_wins(car_door, initial_choice, Strategy::Stay) <==> car_door == initial_choice,
{
}

/// Switching lands on the car exactly when the initial pick missed it: the
/// opened door is a goat distinct from the pick, so the remaining door is
/// the car whenever the pick was not.
pub proof fn lemma_switch_wins_iff(car_door: u64, initial_choice: u64)
    requires
        car_door < 3,
        initial_choice < 3,
    ensures
        final_choice(car_door, initial_choice, Strategy::Switch) < 3,
        final_choice(car_door, initial_choice, Strategy::Switch) != initial_choice,
        final_choice(car_door, initial_choice, Strategy::Switch) != opened_door(
            car_door,
            initial_choice,
        ),
        monty_hall_wins(car_door, initial_choice, Strategy::Switch) <==> car_door
            != initial_choice,
{
}

/// Plays out the deterministic part of one game: given the two random draws
/// and the policy, returns the opened door, the final pick, and whether the
/// contestant won.
pub fn monty_hall_outcome(car_door: u64, initial_choice: u64, strategy: Strategy) -> (r: (
    u64,
    u64,
    bool,
))
    requires
        car_door < 3,
        initial_choice < 3,
    ensures
        r.0 == opened_door(car_door, initial_choice),
        r.1 == final_choice(car_door, initial_choice, strategy),
        r.2 == monty_hall_wins(car_door, initial_choice, strategy),
        r.0 < 3,
        r.0 != car_door,
        r.0 != initial_choice,
        r.1 < 3,
{
    let opened: u64 = if car_door != 0 && initial_choice != 0 {
        0
    } else if car_door != 1 && initial_choice != 1 {
        1
    } else {
        2
    };
    let chosen: u64 = match strategy {
        Strategy::Stay => initial_choice,
        Strategy::Switch => {
            if initial_choice != 0 && opened != 0 {
                0
            } else if initial_choice != 1 && opened != 1 {
                1
            } else {
                2
            }
        },
    };
    (opened, chosen, chosen == car_door)
}

/// One Monty Hall trial: draw the car door and the initial pick uniformly
/// from `[0, 2]`, let the host open a door, apply the policy, and report a
/// win. For a fixed source the outcome is exactly the game played on the
/// two values the source replays.
pub fn monty_hall_trial(source: &mut RandomSource, strategy: Strategy) -> (r: bool)
    ensures
        final(source).is_seeded() == old(source).is_seeded(),
        final(source).draws() == old(source).draws(),
        old(source).is_seeded() ==> final(source).position() == old(source).position(),
        !old(source).is_seeded() ==> r == monty_hall_wins(
            fixed_draw(old(source).draws(), old(source).position(), 0, 2),
            fixed_draw(
                old(source).draws(),
                next_position(old(source).draws(), old(source).position()),
                0,
                2,
            ),
            strategy,
        ),
        !old(source).is_seeded() ==> final(source).position() == fixed_position_after(
            old(source).draws(),
            old(source).position(),
            2,
        ),
{
    proof {
        let values = old(source).draws();
        let pos = old(source).position();
        assert(fixed_position_after(values, pos, 2) == fixed_position_after(
            values,
            next_position(values, pos),
            1,
        ));
        assert(fixed_position_after(values, next_position(values, pos), 1)
            == fixed_position_after(
            values,
            next_position(values, next_position(values, pos)),
            0,
        ));
    }
    let car_door = source.draw_uniform_int(0, 2);
    let initial_choice = source.draw_uniform_int(0, 2);
    let (_opened, _chosen, won) = monty_hall_outcome(car_door, initial_choice, strategy);
    won
}

} // verus!
