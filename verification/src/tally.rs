//! Counting rolls per face, and finding the leading and the trailing face.

use vstd::prelude::*;

verus! {

/// A roll is one of the values `1..=20`.
pub open spec fn is_roll(roll: usize) -> bool {
    1 <= roll <= 20
}

/// Every entry of `rolls` is a roll.
pub open spec fn all_rolls(rolls: Seq<usize>) -> bool {
    forall|k: int| 0 <= k < rolls.len() ==> is_roll(#[trigger] rolls[k])
}

/// The counters as mathematical integers.
pub open spec fn as_ints(counts: Seq<u64>) -> Seq<int> {
    Seq::new(counts.len(), |i: int| counts[i] as int)
}

/// How often `rolls` shows the face with index `face`, that is the value
/// `face + 1`.
pub open spec fn times_rolled(rolls: Seq<usize>, face: int) -> nat {
    rolls.filter(|roll: usize| roll == face + 1).len()
}

/// The counters after `rolls` have been counted in: each face gains the
/// number of times it was rolled.
pub open spec fn tallied(counts: Seq<int>, rolls: Seq<usize>) -> Seq<int> {
    Seq::new(counts.len(), |face: int| counts[face] + times_rolled(rolls, face))
}

/// The sum of all counters.
pub open spec fn total(counts: Seq<int>) -> int
    decreases counts.len(),
{
    if counts.len() == 0 {
        0
    } else {
        total(counts.drop_last()) + counts.last()
    }
}

/// `k` is the first position at which `counts` holds `value`.
pub open spec fn first_at(counts: Seq<int>, k: int, value: int) -> bool {
    &&& 0 <= k < counts.len()
    &&& counts[k] == value
    &&& forall|j: int| 0 <= j < k ==> counts[j] != value
}

/// What the winning face is after a scan of `counts`: the first face that
/// holds the maximum. A scan that finds nothing above zero leaves the
/// earlier answer `before` in place.
pub open spec fn winner_after(
    counts: Seq<int>,
    before: Option<usize>,
    after: Option<usize>,
) -> bool {
    if counts.max() > 0 {
        after.is_some() && first_at(counts, after.unwrap() as int, counts.max())
    } else {
        after == before
    }
}

/// What the losing face is after a scan of `counts`: the first face that
/// holds the minimum. A scan that finds nothing below the largest
/// representable count leaves the earlier answer `before` in place.
pub open spec fn loser_after(
    counts: Seq<int>,
    before: Option<usize>,
    after: Option<usize>,
) -> bool {
    if counts.min() < u64::MAX {
        after.is_some() && first_at(counts, after.unwrap() as int, counts.min())
    } else {
        after == before
    }
}

/// One more roll adds one to the times its face was rolled, and nothing to
/// the others.
pub proof fn lemma_times_rolled_push(rolls: Seq<usize>, roll: usize, face: int)
    ensures
        times_rolled(rolls.push(roll), face) == times_rolled(rolls, face) + if roll == face + 1 {
            1nat
        } else {
            0nat
        },
{
    let pred = |r: usize| r == face + 1;
    let longer = rolls.push(roll);
    assert(longer.drop_last() =~= rolls);
    assert(longer.last() == roll);
    reveal(Seq::filter);
    assert(longer.filter(pred) == if pred(roll) {
        rolls.filter(pred).push(roll)
    } else {
        rolls.filter(pred)
    });
}

/// No face was rolled in an empty sequence of rolls.
pub proof fn lemma_times_rolled_empty(face: int)
    ensures
        times_rolled(Seq::<usize>::empty(), face) == 0,
{
    reveal(Seq::filter);
}

/// A face was rolled at most as often as there were rolls.
pub proof fn lemma_times_rolled_bounded(rolls: Seq<usize>, face: int)
    ensures
        times_rolled(rolls, face) <= rolls.len(),
{
    rolls.lemma_filter_len(|roll: usize| roll == face + 1);
}

/// An entry of `rolls` counts for its own face and for no other: a face
/// that an entry shows was rolled at least once, and a face that an entry
/// does not show was rolled less often than there were rolls.
pub proof fn lemma_times_rolled_of_entry(rolls: Seq<usize>, k: int, face: int)
    requires
        0 <= k < rolls.len(),
    ensures
        rolls[k] == face + 1 ==> times_rolled(rolls, face) >= 1,
        rolls[k] != face + 1 ==> times_rolled(rolls, face) < rolls.len(),
    decreases rolls.len(),
{
    let earlier = rolls.drop_last();
    assert(rolls =~= earlier.push(rolls.last()));
    lemma_times_rolled_push(earlier, rolls.last(), face);
    lemma_times_rolled_bounded(earlier, face);
    if k < rolls.len() - 1 {
        lemma_times_rolled_of_entry(earlier, k, face);
    }
}

/// Counts one roll.
pub fn record(counts: &mut [u64; 20], roll: usize)
    requires
        is_roll(roll),
        old(counts)[roll - 1] < u64::MAX,
    ensures
        final(counts)@ == old(counts)@.update(roll - 1, (old(counts)[roll - 1] + 1) as u64),
{
    let face: usize = roll - 1;
    counts[face] = counts[face] + 1;
}

/// Scans the counters once for the leading and the trailing face.
///
/// A face takes the lead only by a strictly larger count, and falls behind
/// only by a strictly smaller one, so among equal counts the first face
/// stands. Returns the largest count found.
pub fn rank(
    counts: &[u64; 20],
    winner: &mut Option<usize>,
    loser: &mut Option<usize>,
) -> (max_found: u64)
    ensures
        max_found == as_ints(counts@).max(),
        winner_after(as_ints(counts@), *old(winner), *final(winner)),
        loser_after(as_ints(counts@), *old(loser), *final(loser)),
{
    let ghost ints = as_ints(counts@);
    let mut max_found: u64 = 0;
    let mut min_found: u64 = u64::MAX;
    let mut i: usize = 0;
    while i < 20
        invariant
            0 <= i <= 20,
            ints == as_ints(counts@),
            forall|j: int| 0 <= j < i ==> ints[j] <= max_found,
            forall|j: int| 0 <= j < i ==> ints[j] >= min_found,
            max_found == 0 ==> *winner == *old(winner),
            max_found > 0 ==> winner.is_some() && winner.unwrap() < i && first_at(
                ints,
                winner.unwrap() as int,
                max_found as int,
            ),
            min_found == u64::MAX ==> *loser == *old(loser),
            min_found < u64::MAX ==> loser.is_some() && loser.unwrap() < i && first_at(
                ints,
                loser.unwrap() as int,
                min_found as int,
            ),
        decreases 20 - i,
    {
        let count: u64 = counts[i];
        assert(ints[i as int] == count);
        if count > max_found {
            max_found = count;
            *winner = Some(i);
        }
        if count < min_found {
            min_found = count;
            *loser = Some(i);
        }
        i += 1;
    }
    proof {
        ints.max_ensures();
        ints.min_ensures();
        assert(ints.contains(ints.max()));
        assert(ints.contains(ints.min()));
    }
    max_found
}

/// At most one position is the first to hold a value.
pub proof fn lemma_first_at_unique(counts: Seq<int>, k1: int, k2: int, value: int)
    requires
        first_at(counts, k1, value),
        first_at(counts, k2, value),
    ensures
        k1 == k2,
{
}

/// Raising one counter by one raises the sum by one.
pub proof fn lemma_total_bump(counts: Seq<int>, face: int)
    requires
        0 <= face < counts.len(),
    ensures
        total(counts.update(face, counts[face] + 1)) == total(counts) + 1,
    decreases counts.len(),
{
    let bumped = counts.update(face, counts[face] + 1);
    if face == counts.len() - 1 {
        assert(bumped.drop_last() =~= counts.drop_last());
    } else {
        lemma_total_bump(counts.drop_last(), face);
        assert(bumped.drop_last() =~= counts.drop_last().update(face, counts[face] + 1));
    }
}

/// Where no counter of `lower` exceeds its counterpart in `upper`, the sum
/// of `lower` does not exceed that of `upper`.
pub proof fn lemma_total_monotone(lower: Seq<int>, upper: Seq<int>)
    requires
        lower.len() == upper.len(),
        forall|i: int| 0 <= i < lower.len() ==> lower[i] <= upper[i],
    ensures
        total(lower) <= total(upper),
    decreases lower.len(),
{
    if lower.len() > 0 {
        lemma_total_monotone(lower.drop_last(), upper.drop_last());
    }
}

/// Counting one more roll raises the counter of its face by one and leaves
/// the others as they are.
pub proof fn lemma_tallied_push(counts: Seq<int>, rolls: Seq<usize>, roll: usize)
    requires
        is_roll(roll),
        roll <= counts.len(),
    ensures
        tallied(counts, rolls.push(roll)) == tallied(counts, rolls).update(
            roll - 1,
            tallied(counts, rolls)[roll - 1] + 1,
        ),
{
    let next = tallied(counts, rolls.push(roll));
    let step = tallied(counts, rolls).update(roll - 1, tallied(counts, rolls)[roll - 1] + 1);
    assert forall|face: int| 0 <= face < counts.len() implies next[face] == step[face] by {
        lemma_times_rolled_push(rolls, roll, face);
    }
    assert(next =~= step);
}

/// Counting rolls adds their number to the sum of the counters: every roll
/// is counted once.
pub proof fn lemma_tallied_total(counts: Seq<int>, rolls: Seq<usize>)
    requires
        counts.len() == 20,
        all_rolls(rolls),
    ensures
        total(tallied(counts, rolls)) == total(counts) + rolls.len(),
    decreases rolls.len(),
{
    if rolls.len() == 0 {
        assert forall|face: int| 0 <= face < 20 implies tallied(counts, rolls)[face]
            == counts[face] by {
            assert(rolls =~= Seq::<usize>::empty());
            lemma_times_rolled_empty(face);
        }
        assert(tallied(counts, rolls) =~= counts);
    } else {
        let earlier = rolls.drop_last();
        let roll = rolls.last();
        assert(rolls =~= earlier.push(roll));
        lemma_tallied_total(counts, earlier);
        lemma_tallied_push(counts, earlier, roll);
        lemma_total_bump(tallied(counts, earlier), roll - 1);
    }
}

/// Counting rolls never lowers a counter.
pub proof fn lemma_tallied_never_shrinks(counts: Seq<int>, rolls: Seq<usize>, face: int)
    requires
        0 <= face < counts.len(),
    ensures
        counts[face] <= tallied(counts, rolls)[face] <= counts[face] + rolls.len(),
{
    lemma_times_rolled_bounded(rolls, face);
}

} // verus!
