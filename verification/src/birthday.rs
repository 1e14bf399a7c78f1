//! The birthday-collision trial: whether a group of independently drawn
//! labels contains at least one repeated value.
//!
//! The trial draws its labels one at a time, keeps the labels seen so far,
//! and stops at the first repeated one: a collision consumes only the draws
//! up to and including the repeat, which bounds the work of a trial whose
//! group outnumbers the label space.

use vstd::prelude::*;
use vstd::set_lib::{lemma_int_range, lemma_len_subset, set_int_range};
use crate::source::{
    fixed_draw_seq, fixed_position_after, lemma_fixed_draw_seq_index, lemma_fixed_draw_seq_len,
    lemma_fixed_position_after_step, RandomSource,
};

verus! {

/// Whether the sequence holds the same value at two different places.
pub open spec fn has_duplicate(s: Seq<u64>) -> bool {
    exists|i: int, j: int| 0 <= i < j < s.len() && s[i] == s[j]
}

/// A sequence of length at most one cannot hold a duplicate.
pub proof fn lemma_short_seq_has_no_duplicate(s: Seq<u64>)
    requires
        s.len() <= 1,
    ensures
        !has_duplicate(s),
{
}

/// Pigeonhole: more than `label_space` values, all inside `[1, label_space]`,
/// force at least one repeated value.
pub proof fn lemma_pigeonhole_duplicate(s: Seq<u64>, label_space: u64)
    requires
        s.len() > label_space,
        forall|i: int| 0 <= i < s.len() ==> 1 <= #[trigger] s[i] <= label_space,
    ensures
        has_duplicate(s),
{
    if !has_duplicate(s) {
        let t = s.map_values(|v: u64| v as int);
        assert(t.no_duplicates()) by {
            assert forall|i: int, j: int|
                0 <= i < t.len() && 0 <= j < t.len() && i != j implies t[i] != t[j] by {
                if i < j {
                    assert(!(0 <= i < j < s.len() && s[i] == s[j]));
                } else {
                    assert(!(0 <= j < i < s.len() && s[j] == s[i]));
                }
            }
        }
        t.unique_seq_to_set();
        let range = set_int_range(1, label_space as int + 1);
        assert(t.to_set().subset_of(range)) by {
            assert forall|x: int| t.to_set().contains(x) implies range.contains(x) by {
                let i = choose|i: int| 0 <= i < t.len() && t[i] == x;
                assert(1 <= s[i] <= label_space);
            }
        }
        lemma_int_range(1, label_space as int + 1);
        lemma_len_subset(t.to_set(), range);
        assert(false);
    }
}

/// Whether `v@` contains `x`, by a linear scan.
fn vec_contains(v: &Vec<u64>, x: u64) -> (r: bool)
    ensures
        r == v@.contains(x),
{
    let mut i: usize = 0;
    while i < v.len()
        invariant
            i <= v@.len(),
            forall|j: int| 0 <= j < i ==> v@[j] != x,
        decreases v@.len() - i,
    {
        if v[i] == x {
            assert(v@[i as int] == x);
            return true;
        }
        i = i + 1;
    }
    false
}

/// Decides whether the group of labels holds a collision: a scan that keeps
/// the labels seen so far and stops at the first repeated one.
pub fn contains_duplicate(labels: &Vec<u64>) -> (r: bool)
    ensures
        r == has_duplicate(labels@),
{
    let mut seen: Vec<u64> = Vec::new();
    let mut i: usize = 0;
    while i < labels.len()
        invariant
            i <= labels@.len(),
            seen@ == labels@.subrange(0, i as int),
            !has_duplicate(labels@.subrange(0, i as int)),
        decreases labels@.len() - i,
    {
        let day = labels[i];
        if vec_contains(&seen, day) {
            proof {
                let j = choose|j: int| 0 <= j < seen@.len() && seen@[j] == day;
                assert(labels@[j] == labels@[i as int]);
            }
            return true;
        }
        proof {
            let prefix = labels@.subrange(0, (i + 1) as int);
            assert(seen@.push(day) =~= prefix);
            assert(!has_duplicate(prefix)) by {
                if has_duplicate(prefix) {
                    let (a, b) = choose|a: int, b: int|
                        0 <= a < b < prefix.len() && prefix[a] == prefix[b];
                    if b == i as int {
                        assert(seen@[a] == day);
                        assert(seen@.contains(day));
                    } else {
                        assert(labels@.subrange(0, i as int)[a]
                            == labels@.subrange(0, i as int)[b]);
                    }
                }
            }
        }
        seen.push(day);
        i = i + 1;
    }
    proof {
        assert(labels@.subrange(0, labels@.len() as int) =~= labels@);
    }
    false
}

/// Where a stop-at-first-repeat scan of `s`, already past the first `i`
/// labels without a repeat, stops: one past the first label that repeats an
/// earlier one, or `s.len()` when no label from `i` on repeats.
pub open spec fn first_collision_index(s: Seq<u64>, i: nat) -> nat
    decreases s.len() - i,
{
    if i >= s.len() {
        s.len()
    } else if s.subrange(0, i as int).contains(s[i as int]) {
        i + 1
    } else {
        first_collision_index(s, i + 1)
    }
}

/// The number of labels a stop-at-first-repeat scan of `s` consumes: one
/// past the first label that repeats an earlier one, or all of `s` when the
/// labels are distinct.
pub open spec fn labels_consumed(s: Seq<u64>) -> nat {
    first_collision_index(s, 0)
}

/// One birthday trial: draw labels uniformly from `[1, label_space]`, one
/// per person in the group, keeping the labels seen so far, and stop at the
/// first repeated label. Reports whether any two labels coincide; on a
/// collision only the draws up to and including the repeat are consumed.
///
/// A group of at most one person can never collide; a group larger than the
/// label space always does (pigeonhole). For a fixed source the outcome is
/// exactly the duplicate test on the `group_size` values the source would
/// replay (a repeat in the consumed prefix is a repeat of the full replay
/// and the other way round), and the source advances by exactly the number
/// of consumed draws.
#[verifier::loop_isolation(false)]
pub fn birthday_trial(source: &mut RandomSource, group_size: usize, label_space: u64) -> (r: bool)
    requires
        1 <= label_space,
    ensures
        group_size <= 1 ==> !r,
        group_size > label_space ==> r,
        final(source).is_seeded() == old(source).is_seeded(),
        final(source).draws() == old(source).draws(),
        old(source).is_seeded() ==> final(source).position() == old(source).position(),
        !old(source).is_seeded() ==> r == has_duplicate(
            fixed_draw_seq(
                old(source).draws(),
                old(source).position(),
                group_size as nat,
                1,
                label_space,
            ),
        ),
        !old(source).is_seeded() ==> final(source).position() == fixed_position_after(
            old(source).draws(),
            old(source).position(),
            labels_consumed(
                fixed_draw_seq(
                    old(source).draws(),
                    old(source).position(),
                    group_size as nat,
                    1,
                    label_space,
                ),
            ),
        ),
{
    let ghost values0 = source.draws();
    let ghost pos0 = source.position();
    let ghost seeded0 = source.is_seeded();
    let ghost full = fixed_draw_seq(values0, pos0, group_size as nat, 1, label_space);
    proof {
        lemma_fixed_draw_seq_len(values0, pos0, group_size as nat, 1, label_space);
    }
    let mut seen: Vec<u64> = Vec::new();
    let mut i: usize = 0;
    while i < group_size
        invariant
            i <= group_size,
            1 <= label_space,
            seen@.len() == i,
            forall|j: int| 0 <= j < seen@.len() ==> 1 <= #[trigger] seen@[j] <= label_space,
            !has_duplicate(seen@),
            source.is_seeded() == seeded0,
            source.draws() == values0,
            seeded0 ==> source.position() == pos0,
            full == fixed_draw_seq(values0, pos0, group_size as nat, 1, label_space),
            full.len() == group_size,
            !seeded0 ==> seen@ == full.subrange(0, i as int),
            !seeded0 ==> source.position() == fixed_position_after(values0, pos0, i as nat),
            !seeded0 ==> first_collision_index(full, 0) == first_collision_index(full, i as nat),
        decreases group_size - i,
    {
        proof {
            if !seeded0 {
                lemma_fixed_position_after_step(values0, pos0, i as nat);
                lemma_fixed_draw_seq_index(values0, pos0, group_size as nat, 1, label_space, i as int);
            }
        }
        let day = source.draw_uniform_int(1, label_space);
        if vec_contains(&seen, day) {
            proof {
                if !seeded0 {
                    let j = choose|j: int| 0 <= j < seen@.len() && seen@[j] == day;
                    assert(full.subrange(0, i as int)[j] == full[i as int]);
                    assert(full[j] == full[i as int]);
                    assert(full.subrange(0, i as int).contains(full[i as int]));
                    assert(first_collision_index(full, i as nat) == i + 1);
                }
            }
            return true;
        }
        proof {
            if !seeded0 {
                assert(seen@.push(day) =~= full.subrange(0, (i + 1) as int));
                assert(!full.subrange(0, i as int).contains(full[i as int]));
                assert(first_collision_index(full, i as nat) == first_collision_index(
                    full,
                    (i + 1) as nat,
                ));
            }
            assert(!has_duplicate(seen@.push(day))) by {
                if has_duplicate(seen@.push(day)) {
                    let (a, b) = choose|a: int, b: int|
                        0 <= a < b < seen@.push(day).len() && seen@.push(day)[a] == seen@.push(
                            day,
                        )[b];
                    if b == seen@.len() {
                        assert(seen@[a] == day);
                        assert(seen@.contains(day));
                    } else {
                        assert(seen@[a] == seen@[b]);
                    }
                }
            }
        }
        seen.push(day);
        i = i + 1;
    }
    proof {
        if group_size > label_space {
            lemma_pigeonhole_duplicate(seen@, label_space);
        }
        if !seeded0 {
            assert(full.subrange(0, group_size as int) =~= full);
            assert(first_collision_index(full, group_size as nat) == group_size);
        }
    }
    false
}

} // verus!
