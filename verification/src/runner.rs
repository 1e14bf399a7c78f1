//! The Monte Carlo aggregation loop: runs one trial evaluator a given number
//! of times against a shared random source and counts the successful
//! outcomes. The empirical probability is the derived quotient
//! `successes / trials`; only the two exact integers are stored, so the
//! count and the reported probability can never drift apart.

use vstd::prelude::*;
use crate::birthday::{birthday_trial, has_duplicate, labels_consumed};
use crate::monty_hall::{monty_hall_trial, monty_hall_wins, Strategy};
use crate::source::{
    fixed_draw, fixed_draw_seq, fixed_position_after, next_position, RandomSource,
};

verus! {

/// A puzzle-specific trial: one set of random draws in, one boolean outcome
/// out.
#[derive(Clone, Copy, PartialEq, Eq, Structural, Debug)]
pub enum TrialEvaluator {
    /// Draw `group_size` labels uniformly from `[1, label_space]` and report
    /// a collision.
    Birthday { group_size: usize, label_space: u64 },
    /// Play one three-door game under the given policy and report a win.
    MontyHall { strategy: Strategy },
}

impl TrialEvaluator {
    /// A valid configuration: the birthday label space is non-empty.
    pub open spec fn wf(self) -> bool {
        match self {
            TrialEvaluator::Birthday { label_space, .. } => 1 <= label_space,
            TrialEvaluator::MontyHall { .. } => true,
        }
    }

    /// A birthday trial whose group is too small for any collision.
    pub open spec fn collision_impossible(self) -> bool {
        match self {
            TrialEvaluator::Birthday { group_size, .. } => group_size <= 1,
            TrialEvaluator::MontyHall { .. } => false,
        }
    }

    /// A birthday trial whose group outnumbers the label space, so every
    /// trial collides (pigeonhole).
    pub open spec fn collision_certain(self) -> bool {
        match self {
            TrialEvaluator::Birthday { group_size, label_space } => group_size > label_space,
            TrialEvaluator::MontyHall { .. } => false,
        }
    }

    /// How many values one trial replayed from a fixed source at position
    /// `pos` consumes: a birthday trial stops at the first repeated label,
    /// a three-door game always takes its two draws.
    pub open spec fn fixed_draws_consumed(self, values: Seq<u64>, pos: int) -> nat {
        match self {
            TrialEvaluator::Birthday { group_size, label_space } => labels_consumed(
                fixed_draw_seq(values, pos, group_size as nat, 1, label_space),
            ),
            TrialEvaluator::MontyHall { .. } => 2,
        }
    }

    /// The source position after `k` trials replayed from a fixed source at
    /// position `pos`, each trial advancing by what it consumed.
    pub open spec fn fixed_position_after_trials(self, values: Seq<u64>, pos: int, k: nat) -> int
        decreases k,
    {
        if k == 0 {
            pos
        } else {
            self.fixed_position_after_trials(
                values,
                fixed_position_after(values, pos, self.fixed_draws_consumed(values, pos)),
                (k - 1) as nat,
            )
        }
    }

    /// The outcome of one trial replayed from a fixed source at position
    /// `pos`.
    pub open spec fn fixed_outcome(self, values: Seq<u64>, pos: int) -> bool {
        match self {
            TrialEvaluator::Birthday { group_size, label_space } => has_duplicate(
                fixed_draw_seq(values, pos, group_size as nat, 1, label_space),
            ),
            TrialEvaluator::MontyHall { strategy } => monty_hall_wins(
                fixed_draw(values, pos, 0, 2),
                fixed_draw(values, next_position(values, pos), 0, 2),
                strategy,
            ),
        }
    }

    /// The number of successes among `k` trials replayed from a fixed
    /// source at position `pos`.
    pub open spec fn fixed_success_count(self, values: Seq<u64>, pos: int, k: nat) -> nat
        decreases k,
    {
        if k == 0 {
            0
        } else {
            (if self.fixed_outcome(values, pos) {
                1nat
            } else {
                0nat
            }) + self.fixed_success_count(
                values,
                fixed_position_after(values, pos, self.fixed_draws_consumed(values, pos)),
                (k - 1) as nat,
            )
        }
    }

    /// Evaluates one trial against the source.
    pub fn evaluate(&self, source: &mut RandomSource) -> (r: bool)
        requires
            self.wf(),
        ensures
            self.collision_impossible() ==> !r,
            self.collision_certain() ==> r,
            final(source).is_seeded() == old(source).is_seeded(),
            final(source).draws() == old(source).draws(),
            old(source).is_seeded() ==> final(source).position() == old(source).position(),
            !old(source).is_seeded() ==> r == self.fixed_outcome(
                old(source).draws(),
                old(source).position(),
            ),
            !old(source).is_seeded() ==> final(source).position() == fixed_position_after(
                old(source).draws(),
                old(source).position(),
                self.fixed_draws_consumed(old(source).draws(), old(source).position()),
            ),
    {
        match self {
            TrialEvaluator::Birthday { group_size, label_space } => birthday_trial(
                source,
                *group_size,
                *label_space,
            ),
            TrialEvaluator::MontyHall { strategy } => monty_hall_trial(source, *strategy),
        }
    }
}

/// One more replayed trial advances the position by exactly what that
/// trial, started at the position reached after the first `k` trials,
/// consumes.
pub proof fn lemma_fixed_trial_position_step(
    evaluator: TrialEvaluator,
    values: Seq<u64>,
    pos: int,
    k: nat,
)
    ensures
        evaluator.fixed_position_after_trials(values, pos, k + 1) == fixed_position_after(
            values,
            evaluator.fixed_position_after_trials(values, pos, k),
            evaluator.fixed_draws_consumed(
                values,
                evaluator.fixed_position_after_trials(values, pos, k),
            ),
        ),
    decreases k,
{
    let after_one = fixed_position_after(
        values,
        pos,
        evaluator.fixed_draws_consumed(values, pos),
    );
    assert(evaluator.fixed_position_after_trials(values, pos, k + 1)
        == evaluator.fixed_position_after_trials(values, after_one, ((k + 1) - 1) as nat));
    if k == 0 {
        assert(evaluator.fixed_position_after_trials(values, after_one, 0) == after_one);
        assert(evaluator.fixed_position_after_trials(values, pos, 0) == pos);
    } else {
        lemma_fixed_trial_position_step(evaluator, values, after_one, (k - 1) as nat);
        assert(evaluator.fixed_position_after_trials(values, pos, k)
            == evaluator.fixed_position_after_trials(values, after_one, (k - 1) as nat));
    }
}

/// Counting one more replayed trial adds exactly that trial's outcome,
/// observed at the position reached after the first `k` trials.
pub proof fn lemma_fixed_success_count_step(
    evaluator: TrialEvaluator,
    values: Seq<u64>,
    pos: int,
    k: nat,
)
    ensures
        evaluator.fixed_success_count(values, pos, k + 1) == evaluator.fixed_success_count(
            values,
            pos,
            k,
        ) + (if evaluator.fixed_outcome(
            values,
            evaluator.fixed_position_after_trials(values, pos, k),
        ) {
            1nat
        } else {
            0nat
        }),
    decreases k,
{
    let after_one = fixed_position_after(
        values,
        pos,
        evaluator.fixed_draws_consumed(values, pos),
    );
    if k == 0 {
        assert(evaluator.fixed_position_after_trials(values, pos, 0) == pos);
        assert(evaluator.fixed_success_count(values, after_one, 0) == 0);
    } else {
        lemma_fixed_success_count_step(evaluator, values, after_one, (k - 1) as nat);
        assert(evaluator.fixed_position_after_trials(values, pos, k)
            == evaluator.fixed_position_after_trials(values, after_one, (k - 1) as nat));
    }
}

/// The outcome of a whole run: the exact success count out of the exact
/// number of trials. The empirical probability is the derived quotient and
/// is never stored, so it cannot drift from the counts.
#[derive(Clone, Copy, PartialEq, Eq, Structural, Debug)]
pub struct RunResult {
    /// How many trials reported `true`.
    pub successes: u64,
    /// How many trials were run.
    pub trials: u64,
}

impl RunResult {
    /// The counts are consistent: at least one trial, and no more successes
    /// than trials.
    pub open spec fn wf(self) -> bool {
        self.successes <= self.trials && 1 <= self.trials
    }
}

/// Runs `trials` independent trials of `evaluator` against `source` and
/// counts the successful outcomes.
///
/// A trivially small birthday group never succeeds; a birthday group larger
/// than the label space succeeds on every single trial. For a fixed source
/// the count is exactly the number of replayed trials that succeed.
pub fn run_trials(evaluator: &TrialEvaluator, source: &mut RandomSource, trials: u64) -> (r:
    RunResult)
    requires
        1 <= trials,
        evaluator.wf(),
    ensures
        r.wf(),
        r.trials == trials,
        r.successes <= trials,
        evaluator.collision_impossible() ==> r.successes == 0,
        evaluator.collision_certain() ==> r.successes == trials,
        final(source).is_seeded() == old(source).is_seeded(),
        final(source).draws() == old(source).draws(),
        old(source).is_seeded() ==> final(source).position() == old(source).position(),
        !old(source).is_seeded() ==> r.successes == evaluator.fixed_success_count(
            old(source).draws(),
            old(source).position(),
            trials as nat,
        ),
        !old(source).is_seeded() ==> final(source).position()
            == evaluator.fixed_position_after_trials(
            old(source).draws(),
            old(source).position(),
            trials as nat,
        ),
{
    let ghost values0 = source.draws();
    let ghost pos0 = source.position();
    let ghost seeded0 = source.is_seeded();
    let mut successes: u64 = 0;
    let mut i: u64 = 0;
    proof {
        assert(evaluator.fixed_position_after_trials(values0, pos0, 0) == pos0);
    }
    while i < trials
        invariant
            i <= trials,
            successes <= i,
            evaluator.wf(),
            evaluator.collision_impossible() ==> successes == 0,
            evaluator.collision_certain() ==> successes == i,
            source.is_seeded() == seeded0,
            source.draws() == values0,
            seeded0 ==> source.position() == pos0,
            !seeded0 ==> successes == evaluator.fixed_success_count(values0, pos0, i as nat),
            !seeded0 ==> source.position() == evaluator.fixed_position_after_trials(
                values0,
                pos0,
                i as nat,
            ),
        decreases trials - i,
    {
        proof {
            if !seeded0 {
                lemma_fixed_success_count_step(*evaluator, values0, pos0, i as nat);
                lemma_fixed_trial_position_step(*evaluator, values0, pos0, i as nat);
            }
        }
        let won = evaluator.evaluate(source);
        if won {
            successes = successes + 1;
        }
        i = i + 1;
    }
    RunResult { successes, trials }
}

} // verus!
