//! A uniform integer draw abstraction over a closed range.
//!
//! A `RandomSource` is either *seeded* — it hands out values from the
//! process's pseudorandom stream — or *fixed* — it replays a given list of
//! values, cycling, with each value clamped into the requested range. The
//! fixed form makes a trial fully deterministic, so its outcome can be
//! pinned down exactly in a contract.

use vstd::prelude::*;
use rand::Rng;

verus! {

/// Clamps `v` into the closed interval `[low, high]`.
pub open spec fn clamp_to_range(v: u64, low: u64, high: u64) -> u64 {
    if v < low {
        low
    } else if v > high {
        high
    } else {
        v
    }
}

/// The value a fixed source at position `pos` hands out for the range
/// `[low, high]`: the stored value at `pos` (cycling), clamped; `low` when
/// no values were stored at all.
pub open spec fn fixed_draw(values: Seq<u64>, pos: int, low: u64, high: u64) -> u64 {
    if values.len() == 0 {
        low
    } else {
        clamp_to_range(values[pos % values.len() as int], low, high)
    }
}

/// The position of a fixed source after one draw from position `pos`.
pub open spec fn next_position(values: Seq<u64>, pos: int) -> int {
    if values.len() == 0 {
        pos
    } else if pos % (values.len() as int) + 1 == values.len() as int {
        0
    } else {
        pos % (values.len() as int) + 1
    }
}

/// The position of a fixed source after `k` draws from position `pos`.
pub open spec fn fixed_position_after(values: Seq<u64>, pos: int, k: nat) -> int
    decreases k,
{
    if k == 0 {
        pos
    } else {
        fixed_position_after(values, next_position(values, pos), (k - 1) as nat)
    }
}

/// The sequence of `k` values a fixed source hands out from position `pos`,
/// each drawn over the range `[low, high]`.
pub open spec fn fixed_draw_seq(values: Seq<u64>, pos: int, k: nat, low: u64, high: u64) -> Seq<u64>
    decreases k,
{
    if k == 0 {
        Seq::empty()
    } else {
        seq![fixed_draw(values, pos, low, high)]
            + fixed_draw_seq(values, next_position(values, pos), (k - 1) as nat, low, high)
    }
}

/// After `k` draws, one more draw advances the position by one step.
pub proof fn lemma_fixed_position_after_step(values: Seq<u64>, pos: int, k: nat)
    ensures
        fixed_position_after(values, pos, k + 1)
            == next_position(values, fixed_position_after(values, pos, k)),
    decreases k,
{
    let next = next_position(values, pos);
    assert(fixed_position_after(values, pos, k + 1) == fixed_position_after(
        values,
        next,
        ((k + 1) - 1) as nat,
    ));
    if k == 0 {
        assert(fixed_position_after(values, next, 0) == next);
    } else {
        lemma_fixed_position_after_step(values, next, (k - 1) as nat);
        assert(fixed_position_after(values, pos, k) == fixed_position_after(
            values,
            next,
            (k - 1) as nat,
        ));
    }
}

/// A fixed source hands out exactly `k` values over `k` draws.
pub proof fn lemma_fixed_draw_seq_len(values: Seq<u64>, pos: int, k: nat, low: u64, high: u64)
    ensures
        fixed_draw_seq(values, pos, k, low, high).len() == k,
    decreases k,
{
    if k > 0 {
        lemma_fixed_draw_seq_len(values, next_position(values, pos), (k - 1) as nat, low, high);
    }
}

/// The `i`-th of `k` replayed draws is the draw made at the position reached
/// after the first `i` draws.
pub proof fn lemma_fixed_draw_seq_index(
    values: Seq<u64>,
    pos: int,
    k: nat,
    low: u64,
    high: u64,
    i: int,
)
    requires
        0 <= i < k,
    ensures
        fixed_draw_seq(values, pos, k, low, high)[i] == fixed_draw(
            values,
            fixed_position_after(values, pos, i as nat),
            low,
            high,
        ),
    decreases k,
{
    let next = next_position(values, pos);
    lemma_fixed_draw_seq_len(values, next, (k - 1) as nat, low, high);
    assert(fixed_draw_seq(values, pos, k, low, high) == seq![
        fixed_draw(values, pos, low, high),
    ] + fixed_draw_seq(values, next, (k - 1) as nat, low, high));
    if i == 0 {
        assert(fixed_position_after(values, pos, 0) == pos);
    } else {
        lemma_fixed_draw_seq_index(values, next, (k - 1) as nat, low, high, i - 1);
        assert(fixed_position_after(values, pos, i as nat) == fixed_position_after(
            values,
            next,
            (i - 1) as nat,
        ));
    }
}

/// A uniform integer source over closed ranges: either the process's
/// pseudorandom stream, or a replayed list of fixed values.
pub struct RandomSource {
    seeded: bool,
    values: Vec<u64>,
    pos: usize,
}

impl RandomSource {
    /// Whether this source draws from the pseudorandom stream.
    pub closed spec fn is_seeded(self) -> bool {
        self.seeded
    }

    /// The stored values of a fixed source (empty for a seeded one).
    pub closed spec fn draws(self) -> Seq<u64> {
        self.values@
    }

    /// The current replay position of a fixed source.
    pub closed spec fn position(self) -> int {
        self.pos as int
    }

    /// A source backed by the process's pseudorandom stream.
    pub fn seeded() -> (r: RandomSource)
        ensures
            r.is_seeded(),
    {
        RandomSource { seeded: true, values: Vec::new(), pos: 0 }
    }

    /// A deterministic source that replays `values`, cycling.
    pub fn fixed(values: Vec<u64>) -> (r: RandomSource)
        ensures
            !r.is_seeded(),
            r.draws() == values@,
            r.position() == 0,
    {
        RandomSource { seeded: false, values, pos: 0 }
    }

    /// Draws one integer uniformly from the closed interval `[low, high]`.
    ///
    /// A fixed source instead hands out its stored values in order,
    /// clamped into the interval, and cycles when they run out.
    pub fn draw_uniform_int(&mut self, low: u64, high: u64) -> (r: u64)
        requires
            low <= high,
        ensures
            low <= r <= high,
            final(self).is_seeded() == old(self).is_seeded(),
            final(self).draws() == old(self).draws(),
            old(self).is_seeded() ==> final(self).position() == old(self).position(),
            !old(self).is_seeded() ==> r == fixed_draw(
                old(self).draws(),
                old(self).position(),
                low,
                high,
            ),
            !old(self).is_seeded() ==> final(self).position() == next_position(
                old(self).draws(),
                old(self).position(),
            ),
    {
        if self.seeded {
            draw_from_thread_stream(low, high)
        } else {
            let n = self.values.len();
            if n == 0 {
                low
            } else {
                let idx = self.pos % n;
                let v = self.values[idx];
                self.pos = if idx + 1 == n {
                    0
                } else {
                    idx + 1
                };
                if v < low {
                    low
                } else if v > high {
                    high
                } else {
                    v
                }
            }
        }
    }
}

/// Relies on rand: `thread_rng` hands back the calling thread's generator,
/// and `Rng::gen_range` over the non-empty closed range `low..=high` returns
/// a value inside that range. The result is random, so nothing more than the
/// range is stated.
#[verifier::external_body]
fn draw_from_thread_stream(low: u64, high: u64) -> (r: u64)
    requires
        low <= high,
    ensures
        low <= r <= high,
{
    rand::thread_rng().gen_range(low..=high)
}

} // verus!
