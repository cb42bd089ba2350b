//! The state of the histogram: the counters, the leading and the trailing
//! face, and the layout of the canvas.

use crate::dice::gen_range_inclusive;
use crate::layout::{column_width, column_width_of, left_margin, left_margin_of};
use crate::normalize::{
    capacity, lemma_normalized_near_capacity, lemma_normalized_over_capacity,
    lemma_normalized_total, lemma_normalized_within_capacity, normalize, normalized, settles,
};
use crate::palette::{gradient, is_gradient};
use crate::tally::{
    all_rolls, as_ints, lemma_tallied_total, lemma_times_rolled_bounded,
    lemma_times_rolled_empty, lemma_times_rolled_of_entry, lemma_times_rolled_push, loser_after,
    rank, record, tallied, times_rolled, total, winner_after,
};
use vstd::prelude::*;

verus! {

/// Number of rolls that one update adds.
pub const ROLLS_PER_UPDATE: usize = 10000;

/// The histogram of die rolls and where it stands on the canvas.
pub struct World {
    /// How often each face was rolled; the face with the value `i + 1` is at
    /// index `i`.
    pub roll_counts: [u64; 20],
    /// Index of the face that led at the last update.
    pub winning_roll_key: Option<usize>,
    /// Index of the face that trailed at the last update.
    pub losing_roll_key: Option<usize>,
    /// Width of the canvas in pixels.
    pub width: u32,
    /// Height of the canvas in pixels.
    pub height: u32,
    /// Width of one column in pixels.
    pub column_width: u32,
    /// Pixels left of the first column.
    pub offset: u32,
    /// The colour of each face's bar.
    pub colors: [[u8; 4]; 20],
}

impl World {
    /// The counters as mathematical integers.
    pub open spec fn counts(&self) -> Seq<int> {
        as_ints(self.roll_counts@)
    }

    /// The columns are laid out for the canvas width, and the colours are
    /// the gradient.
    pub open spec fn wf(&self) -> bool {
        &&& self.column_width == column_width_of(self.width as int)
        &&& self.offset == left_margin_of(self.width as int)
        &&& is_gradient(self.colors@)
    }

    /// `other` has the canvas, the layout and the colours of `self`.
    pub open spec fn same_canvas(&self, other: &World) -> bool {
        &&& other.width == self.width
        &&& other.height == self.height
        &&& other.column_width == self.column_width
        &&& other.offset == self.offset
        &&& other.colors == self.colors
    }

    /// `next` is what ranking the faces on the counters `counted` and then
    /// normalizing those counters makes of `self`.
    ///
    /// The faces are ranked on the counters as they stand before
    /// normalization.
    pub open spec fn settles_to(&self, counted: Seq<int>, next: &World) -> bool {
        &&& next.counts() == normalized(counted, self.column_width as int, self.height as int)
        &&& winner_after(counted, self.winning_roll_key, next.winning_roll_key)
        &&& loser_after(counted, self.losing_roll_key, next.losing_roll_key)
        &&& self.same_canvas(next)
    }

    /// `next` is what counting `rolls`, ranking the faces and normalizing
    /// the counters makes of `self`.
    pub open spec fn updates_to(&self, rolls: Seq<usize>, next: &World) -> bool {
        self.settles_to(tallied(self.counts(), rolls), next)
    }

    /// A histogram with all counters at zero and no face ranked, laid out
    /// for a canvas of `width` by `height` pixels.
    pub fn new(width: u32, height: u32) -> (world: World)
        ensures
            world.wf(),
            world.width == width,
            world.height == height,
            world.winning_roll_key.is_none(),
            world.losing_roll_key.is_none(),
            forall|face: int| 0 <= face < 20 ==> world.roll_counts[face] == 0,
    {
        let mut world = World {
            roll_counts: [0; 20],
            winning_roll_key: None,
            losing_roll_key: None,
            width: 0,
            height: 0,
            column_width: 0,
            offset: 0,
            colors: gradient(),
        };
        world.set_size(width, height);
        world
    }

    /// Lays the columns out anew for a canvas of `width` by `height` pixels.
    /// Counters, ranking and colours stay as they are.
    ///
    /// On a canvas less than twenty pixels wide the columns have no width:
    /// nothing but background is drawn on it, and `update` must not be
    /// called until the canvas is wider.
    pub fn set_size(&mut self, width: u32, height: u32)
        ensures
            final(self).width == width,
            final(self).height == height,
            final(self).column_width == column_width_of(width as int),
            final(self).offset == left_margin_of(width as int),
            final(self).roll_counts == old(self).roll_counts,
            final(self).winning_roll_key == old(self).winning_roll_key,
            final(self).losing_roll_key == old(self).losing_roll_key,
            final(self).colors == old(self).colors,
    {
        self.width = width;
        self.height = height;
        self.column_width = column_width(width);
        self.offset = left_margin(width);
    }

    /// Ranks the faces on the counters as they stand, then normalizes the
    /// counters: the second half of an update.
    ///
    /// Where the largest counter exceeds the capacity of a column, that
    /// capacity must not be zero.
    pub fn settle(&mut self)
        requires
            old(self).counts().max() > capacity(
                old(self).column_width as int,
                old(self).height as int,
            ) ==> capacity(old(self).column_width as int, old(self).height as int) > 0,
        ensures
            old(self).settles_to(old(self).counts(), final(self)),
    {
        let max_found = rank(
            &self.roll_counts,
            &mut self.winning_roll_key,
            &mut self.losing_roll_key,
        );
        normalize(&mut self.roll_counts, max_found, self.column_width, self.height);
    }

    /// Counts the given rolls, ranks the faces and normalizes the counters:
    /// an update on rolls that the caller supplies.
    ///
    /// No counter may overflow, and where the largest counter then exceeds
    /// the capacity of a column, that capacity must not be zero.
    pub fn update_with(&mut self, rolls: &[usize])
        requires
            all_rolls(rolls@),
            forall|face: int|
                0 <= face < 20 ==> old(self).roll_counts[face] + times_rolled(rolls@, face)
                    <= u64::MAX,
            tallied(old(self).counts(), rolls@).max() > capacity(
                old(self).column_width as int,
                old(self).height as int,
            ) ==> capacity(old(self).column_width as int, old(self).height as int) > 0,
        ensures
            old(self).updates_to(rolls@, final(self)),
    {
        let mut n: usize = 0;
        proof {
            assert(rolls@.take(0) =~= Seq::<usize>::empty());
            assert forall|face: int| 0 <= face < 20 implies times_rolled(rolls@.take(0), face)
                == 0 by {
                lemma_times_rolled_empty(face);
            }
        }
        while n < rolls.len()
            invariant
                0 <= n <= rolls.len(),
                all_rolls(rolls@),
                forall|face: int|
                    0 <= face < 20 ==> old(self).roll_counts[face] + times_rolled(rolls@, face)
                        <= u64::MAX,
                forall|face: int|
                    0 <= face < 20 ==> self.roll_counts[face] == old(self).roll_counts[face]
                        + times_rolled(rolls@.take(n as int), face),
                self.winning_roll_key == old(self).winning_roll_key,
                self.losing_roll_key == old(self).losing_roll_key,
                old(self).same_canvas(self),
            decreases rolls.len() - n,
        {
            let roll: usize = rolls[n];
            proof {
                assert(rolls@.take(n + 1) =~= rolls@.take(n as int).push(roll));
                assert forall|face: int| 0 <= face < 20 implies times_rolled(
                    rolls@.take(n + 1),
                    face,
                ) == times_rolled(rolls@.take(n as int), face) + if roll == face + 1 {
                    1nat
                } else {
                    0nat
                } by {
                    lemma_times_rolled_push(rolls@.take(n as int), roll, face);
                }
                lemma_times_rolled_grows(rolls@, n + 1, roll - 1);
            }
            record(&mut self.roll_counts, roll);
            n += 1;
        }
        assert(rolls@.take(n as int) =~= rolls@);
        assert(self.counts() =~= tallied(old(self).counts(), rolls@));
        self.settle();
    }

    /// Rolls the die ten thousand times, counts the rolls, ranks the faces
    /// and normalizes the counters.
    ///
    /// What was rolled is up to the die: the histogram ends as
    /// `update_with` would leave it on some ten thousand rolls. Whatever
    /// they were, both a winning and a losing face are named afterwards, and
    /// every counter is less than a column width above the capacity of a
    /// column.
    pub fn update(&mut self)
        requires
            capacity(old(self).column_width as int, old(self).height as int) > 0,
            forall|face: int|
                0 <= face < 20 ==> old(self).roll_counts[face] + ROLLS_PER_UPDATE <= u64::MAX,
        ensures
            exists|rolls: Seq<usize>|
                rolls.len() == ROLLS_PER_UPDATE && all_rolls(rolls) && old(self).updates_to(
                    rolls,
                    final(self),
                ),
            final(self).winning_roll_key.is_some(),
            final(self).losing_roll_key.is_some(),
            forall|face: int|
                0 <= face < 20 ==> final(self).roll_counts[face] < capacity(
                    final(self).column_width as int,
                    final(self).height as int,
                ) + final(self).column_width,
    {
        let mut rng = rand::thread_rng();
        let ghost mut rolls: Seq<usize> = Seq::empty();
        let mut n: usize = 0;
        proof {
            assert forall|face: int| 0 <= face < 20 implies times_rolled(rolls, face) == 0 by {
                lemma_times_rolled_empty(face);
            }
        }
        while n < ROLLS_PER_UPDATE
            invariant
                0 <= n <= ROLLS_PER_UPDATE,
                rolls.len() == n,
                all_rolls(rolls),
                forall|face: int|
                    0 <= face < 20 ==> old(self).roll_counts[face] + ROLLS_PER_UPDATE <= u64::MAX,
                forall|face: int|
                    0 <= face < 20 ==> self.roll_counts[face] == old(self).roll_counts[face]
                        + times_rolled(rolls, face),
                self.winning_roll_key == old(self).winning_roll_key,
                self.losing_roll_key == old(self).losing_roll_key,
                old(self).same_canvas(self),
            decreases ROLLS_PER_UPDATE - n,
        {
            let roll: usize = gen_range_inclusive(&mut rng, 1, 20);
            proof {
                assert forall|face: int| 0 <= face < 20 implies times_rolled(
                    rolls.push(roll),
                    face,
                ) == times_rolled(rolls, face) + if roll == face + 1 {
                    1nat
                } else {
                    0nat
                } by {
                    lemma_times_rolled_push(rolls, roll, face);
                }
                lemma_times_rolled_bounded(rolls, roll - 1);
                rolls = rolls.push(roll);
            }
            record(&mut self.roll_counts, roll);
            n += 1;
        }
        assert(self.counts() =~= tallied(old(self).counts(), rolls));
        let ghost counted = self.counts();
        self.settle();
        proof {
            let shown: int = rolls[0] - 1;
            let other: int = if shown == 0 {
                1
            } else {
                0
            };
            lemma_times_rolled_of_entry(rolls, 0, shown);
            lemma_times_rolled_of_entry(rolls, 0, other);
            counted.max_ensures();
            counted.min_ensures();
            assert(counted[shown] >= 1);
            assert(counted[other] < u64::MAX);
            assert forall|face: int| 0 <= face < 20 implies self.roll_counts[face] < capacity(
                self.column_width as int,
                self.height as int,
            ) + self.column_width by {
                lemma_update_near_capacity(old(self), rolls, self, face);
            }
        }
    }

    /// Sets every counter back to zero. Ranking and layout stay as they are.
    pub fn reset_counts(&mut self)
        ensures
            forall|face: int| 0 <= face < 20 ==> final(self).roll_counts[face] == 0,
            final(self).winning_roll_key == old(self).winning_roll_key,
            final(self).losing_roll_key == old(self).losing_roll_key,
            old(self).same_canvas(final(self)),
    {
        let mut face: usize = 0;
        while face < 20
            invariant
                0 <= face <= 20,
                forall|done: int| 0 <= done < face ==> self.roll_counts[done] == 0,
                self.winning_roll_key == old(self).winning_roll_key,
                self.losing_roll_key == old(self).losing_roll_key,
                old(self).same_canvas(self),
            decreases 20 - face,
        {
            self.roll_counts[face] = 0;
            face += 1;
        }
    }
}

/// Before normalization an update has raised the sum of the counters by the
/// number of rolls, and normalization has not raised it after that.
pub proof fn lemma_update_totals(before: &World, rolls: Seq<usize>, after: &World)
    requires
        all_rolls(rolls),
        capacity(before.column_width as int, before.height as int) > 0,
        before.updates_to(rolls, after),
    ensures
        total(tallied(before.counts(), rolls)) == total(before.counts()) + rolls.len(),
        total(after.counts()) <= total(tallied(before.counts(), rolls)),
        forall|face: int| 0 <= face < 20 ==> 0 <= #[trigger] after.counts()[face],
{
    let counted = tallied(before.counts(), rolls);
    lemma_tallied_total(before.counts(), rolls);
    lemma_capacity_sides(before.column_width as int, before.height as int);
    lemma_normalized_total(counted, before.column_width as int, before.height as int);
}

/// After an update no counter exceeds the capacity of a column, as long as
/// the largest counter settles. It settles whenever its excess over the
/// capacity is a multiple of the column width.
pub proof fn lemma_update_within_capacity(
    before: &World,
    rolls: Seq<usize>,
    after: &World,
    face: int,
)
    requires
        capacity(before.column_width as int, before.height as int) > 0,
        before.updates_to(rolls, after),
        settles(
            tallied(before.counts(), rolls).max(),
            capacity(before.column_width as int, before.height as int),
            before.column_width as int,
        ),
        0 <= face < 20,
    ensures
        0 <= after.counts()[face] <= capacity(after.column_width as int, after.height as int),
{
    let counted = tallied(before.counts(), rolls);
    lemma_capacity_sides(before.column_width as int, before.height as int);
    lemma_normalized_within_capacity(
        counted,
        before.column_width as int,
        before.height as int,
        face,
    );
}

/// After an update every counter is less than one column width above the
/// capacity of a column.
pub proof fn lemma_update_near_capacity(
    before: &World,
    rolls: Seq<usize>,
    after: &World,
    face: int,
)
    requires
        capacity(before.column_width as int, before.height as int) > 0,
        before.updates_to(rolls, after),
        0 <= face < 20,
    ensures
        0 <= after.counts()[face] < capacity(after.column_width as int, after.height as int)
            + after.column_width,
{
    let counted = tallied(before.counts(), rolls);
    lemma_capacity_sides(before.column_width as int, before.height as int);
    lemma_normalized_near_capacity(
        counted,
        before.column_width as int,
        before.height as int,
        face,
    );
}

/// Where the largest counter does not settle, the update leaves it above
/// the capacity of a column.
pub proof fn lemma_update_over_capacity(
    before: &World,
    rolls: Seq<usize>,
    after: &World,
    face: int,
)
    requires
        capacity(before.column_width as int, before.height as int) > 0,
        before.updates_to(rolls, after),
        !settles(
            tallied(before.counts(), rolls).max(),
            capacity(before.column_width as int, before.height as int),
            before.column_width as int,
        ),
        0 <= face < 20,
        tallied(before.counts(), rolls)[face] == tallied(before.counts(), rolls).max(),
    ensures
        after.counts()[face] > capacity(after.column_width as int, after.height as int),
{
    let counted = tallied(before.counts(), rolls);
    lemma_capacity_sides(before.column_width as int, before.height as int);
    lemma_normalized_over_capacity(
        counted,
        before.column_width as int,
        before.height as int,
        face,
    );
}

/// A column with room for a count is at least one pixel wide and tall.
proof fn lemma_capacity_sides(column_width: int, height: int)
    requires
        0 <= column_width,
        0 <= height,
        capacity(column_width, height) > 0,
    ensures
        column_width > 0,
        height > 0,
{
    assert(column_width > 0 && height > 0) by (nonlinear_arith)
        requires
            0 <= column_width,
            0 <= height,
            column_width * height > 0,
    ;
}

/// A face was rolled in the first `n` rolls at most as often as in all of
/// them.
proof fn lemma_times_rolled_grows(rolls: Seq<usize>, n: int, face: int)
    requires
        0 <= n <= rolls.len(),
    ensures
        times_rolled(rolls.take(n), face) <= times_rolled(rolls, face),
    decreases rolls.len() - n,
{
    if n < rolls.len() {
        lemma_times_rolled_grows(rolls, n + 1, face);
        assert(rolls.take(n + 1) =~= rolls.take(n).push(rolls[n]));
        lemma_times_rolled_push(rolls.take(n), rolls[n], face);
    } else {
        assert(rolls.take(n) =~= rolls);
    }
}

} // verus!
