//! Keeping the counters within what one column can show.
//!
//! A column is `column_width` pixels wide and `height` pixels tall, and shows
//! one pixel per counted roll. When the largest counter outgrows that, every
//! counter is cut in proportion to its size, so that the bars keep their
//! relation to each other.

use crate::tally::{as_ints, total};
use vstd::prelude::*;

verus! {

/// The largest count that one column can show.
pub open spec fn capacity(column_width: int, height: int) -> int {
    column_width * height
}

/// By how much the counters are to shrink: the excess of `peak` over
/// `allowed`, rounded down to a multiple of `column_width`.
pub open spec fn adjustment(peak: int, allowed: int, column_width: int) -> int {
    (peak - allowed) - (peak - allowed) % column_width
}

/// What is taken from `count`: its share `adjustment * count / allowed`,
/// rounded down, and never more than the count itself.
pub open spec fn cut(count: int, adjustment: int, allowed: int) -> int {
    let share = adjustment * count / allowed;
    if share < count {
        share
    } else {
        count
    }
}

/// A counter after its cut.
pub open spec fn reduced(count: int, adjustment: int, allowed: int) -> int {
    count - cut(count, adjustment, allowed)
}

/// The counters after they were scaled down for a largest count of `peak`.
/// They change only when `peak` exceeds the capacity of a column.
pub open spec fn rescaled(counts: Seq<int>, peak: int, column_width: int, height: int) -> Seq<
    int,
> {
    let allowed = capacity(column_width, height);
    if peak > allowed {
        Seq::new(
            counts.len(),
            |i: int| reduced(counts[i], adjustment(peak, allowed, column_width), allowed),
        )
    } else {
        counts
    }
}

/// The counters after normalization: scaled down for the largest of them.
pub open spec fn normalized(counts: Seq<int>, column_width: int, height: int) -> Seq<int> {
    rescaled(counts, counts.max(), column_width, height)
}

/// Whether normalization brings a largest counter `peak` down to `allowed`
/// or below. It does when the peak is within capacity to begin with, and
/// else when the rounded adjustment still takes the whole excess from it.
pub open spec fn settles(peak: int, allowed: int, column_width: int) -> bool {
    peak <= allowed || adjustment(peak, allowed, column_width) * peak >= (peak - allowed) * allowed
}

/// Computes the capacity of one column.
pub fn column_capacity(column_width: u32, height: u32) -> (allowed: u64)
    ensures
        allowed == capacity(column_width as int, height as int),
{
    assert(column_width as int * height as int <= 0xffff_ffff * 0xffff_ffff) by (nonlinear_arith)
        requires
            column_width <= 0xffff_ffff,
            height <= 0xffff_ffff,
    ;
    column_width as u64 * height as u64
}

/// Computes a counter after its cut.
pub fn reduce(count: u64, adjustment: u64, allowed: u64) -> (left: u64)
    requires
        allowed > 0,
    ensures
        left == reduced(count as int, adjustment as int, allowed as int),
{
    assert(adjustment as int * count as int <= 0xffff_ffff_ffff_ffff * 0xffff_ffff_ffff_ffff)
        by (nonlinear_arith)
        requires
            adjustment <= 0xffff_ffff_ffff_ffff,
            count <= 0xffff_ffff_ffff_ffff,
    ;
    let share: u128 = adjustment as u128 * count as u128 / allowed as u128;
    if share < count as u128 {
        count - share as u64
    } else {
        0
    }
}

/// Scales the counters down for a largest count of `max_found`. Called with
/// the largest of the counters, this normalizes them.
///
/// Where `max_found` exceeds the capacity of a column, that capacity must
/// not be zero.
pub fn normalize(counts: &mut [u64; 20], max_found: u64, column_width: u32, height: u32)
    requires
        max_found > capacity(column_width as int, height as int) ==> capacity(
            column_width as int,
            height as int,
        ) > 0,
    ensures
        as_ints(final(counts)@) == rescaled(
            as_ints(old(counts)@),
            max_found as int,
            column_width as int,
            height as int,
        ),
{
    let max_allowed: u64 = column_capacity(column_width, height);
    if max_found > max_allowed {
        assert(column_width > 0) by (nonlinear_arith)
            requires
                column_width as int * height as int > 0,
                column_width >= 0,
        ;
        let excess: u64 = max_found - max_allowed;
        proof {
            lemma_adjustment_bounds(max_found as int, max_allowed as int, column_width as int);
        }
        let adjustment: u64 = excess - excess % (column_width as u64);
        let ghost before = as_ints(counts@);
        let mut i: usize = 0;
        while i < 20
            invariant
                0 <= i <= 20,
                max_allowed > 0,
                before == as_ints(old(counts)@),
                forall|j: int|
                    0 <= j < i ==> counts[j] == reduced(
                        #[trigger] before[j],
                        adjustment as int,
                        max_allowed as int,
                    ),
                forall|j: int| i <= j < 20 ==> counts[j] == #[trigger] before[j],
            decreases 20 - i,
        {
            assert(before[i as int] == counts[i as int]);
            counts[i] = reduce(counts[i], adjustment, max_allowed);
            i += 1;
        }
        assert(as_ints(counts@) =~= rescaled(
            before,
            max_found as int,
            column_width as int,
            height as int,
        ));
    } else {
        assert(as_ints(counts@) =~= as_ints(old(counts)@));
    }
}

/// The adjustment is a multiple of the column width that takes away the
/// excess up to less than one column width.
pub proof fn lemma_adjustment_bounds(peak: int, allowed: int, column_width: int)
    requires
        column_width > 0,
        peak >= allowed,
    ensures
        adjustment(peak, allowed, column_width) % column_width == 0,
        0 <= adjustment(peak, allowed, column_width) <= peak - allowed,
        peak - allowed - column_width < adjustment(peak, allowed, column_width),
{
    let excess = peak - allowed;
    vstd::arithmetic::div_mod::lemma_fundamental_div_mod(excess, column_width);
    vstd::arithmetic::div_mod::lemma_mod_bound(excess, column_width);
    let whole = excess / column_width;
    assert(0 <= whole) by (nonlinear_arith)
        requires
            whole == excess / column_width,
            excess >= 0,
            column_width > 0,
    ;
    assert(column_width * whole >= 0) by (nonlinear_arith)
        requires
            whole >= 0,
            column_width > 0,
    ;
    vstd::arithmetic::div_mod::lemma_mod_multiples_basic(whole, column_width);
    assert(column_width * whole == whole * column_width) by (nonlinear_arith);
}

/// A cut leaves a counter between zero and what it was.
pub proof fn lemma_reduced_bounds(count: int, adjustment: int, allowed: int)
    requires
        0 <= count,
        0 <= adjustment,
        0 < allowed,
    ensures
        0 <= reduced(count, adjustment, allowed) <= count,
{
    assert(adjustment * count / allowed >= 0) by (nonlinear_arith)
        requires
            0 <= count,
            0 <= adjustment,
            0 < allowed,
    ;
}

/// Normalization never raises a counter and never takes one below zero.
pub proof fn lemma_normalized_never_grows(counts: Seq<int>, column_width: int, height: int, i: int)
    requires
        forall|j: int| 0 <= j < counts.len() ==> 0 <= counts[j],
        counts.max() > capacity(column_width, height) ==> column_width > 0 && height > 0,
        0 <= i < counts.len(),
    ensures
        normalized(counts, column_width, height).len() == counts.len(),
        0 <= normalized(counts, column_width, height)[i] <= counts[i],
{
    let allowed = capacity(column_width, height);
    let peak = counts.max();
    if peak > allowed {
        assert(allowed > 0) by (nonlinear_arith)
            requires
                allowed == column_width * height,
                column_width > 0,
                height > 0,
        ;
        lemma_adjustment_bounds(peak, allowed, column_width);
        lemma_reduced_bounds(counts[i], adjustment(peak, allowed, column_width), allowed);
    }
}

/// Normalization only ever lowers the sum of the counters.
pub proof fn lemma_normalized_total(counts: Seq<int>, column_width: int, height: int)
    requires
        forall|j: int| 0 <= j < counts.len() ==> 0 <= counts[j],
        counts.max() > capacity(column_width, height) ==> column_width > 0 && height > 0,
    ensures
        total(normalized(counts, column_width, height)) <= total(counts),
{
    let after = normalized(counts, column_width, height);
    assert forall|i: int| 0 <= i < after.len() implies after[i] <= counts[i] by {
        lemma_normalized_never_grows(counts, column_width, height, i);
    }
    crate::tally::lemma_total_monotone(after, counts);
}

/// After normalization no counter exceeds the capacity of a column, as long
/// as the largest counter settles.
pub proof fn lemma_normalized_within_capacity(
    counts: Seq<int>,
    column_width: int,
    height: int,
    i: int,
)
    requires
        forall|j: int| 0 <= j < counts.len() ==> 0 <= counts[j],
        column_width > 0,
        height > 0,
        settles(counts.max(), capacity(column_width, height), column_width),
        0 <= i < counts.len(),
    ensures
        0 <= normalized(counts, column_width, height)[i] <= capacity(column_width, height),
{
    let allowed = capacity(column_width, height);
    let peak = counts.max();
    let count = counts[i];
    counts.max_ensures();
    lemma_normalized_never_grows(counts, column_width, height, i);
    assert(allowed > 0) by (nonlinear_arith)
        requires
            allowed == column_width * height,
            column_width > 0,
            height > 0,
    ;
    if peak > allowed && count > allowed {
        let adj = adjustment(peak, allowed, column_width);
        lemma_adjustment_bounds(peak, allowed, column_width);
        assert(adj * count >= (count - allowed) * allowed) by (nonlinear_arith)
            requires
                adj * peak >= (peak - allowed) * allowed,
                0 < allowed < count <= peak,
                0 <= adj,
        ;
        lemma_share_covers(adj * count, count - allowed, allowed);
    }
}

/// After normalization every counter is less than one column width above
/// the capacity of a column, whether the largest counter settles or not.
pub proof fn lemma_normalized_near_capacity(
    counts: Seq<int>,
    column_width: int,
    height: int,
    i: int,
)
    requires
        forall|j: int| 0 <= j < counts.len() ==> 0 <= counts[j],
        column_width > 0,
        height > 0,
        0 <= i < counts.len(),
    ensures
        0 <= normalized(counts, column_width, height)[i] < capacity(column_width, height)
            + column_width,
{
    let allowed = capacity(column_width, height);
    let peak = counts.max();
    let count = counts[i];
    counts.max_ensures();
    lemma_normalized_never_grows(counts, column_width, height, i);
    assert(allowed > 0) by (nonlinear_arith)
        requires
            allowed == column_width * height,
            column_width > 0,
            height > 0,
    ;
    if peak > allowed && count > allowed {
        let adj = adjustment(peak, allowed, column_width);
        lemma_adjustment_bounds(peak, allowed, column_width);
        assert(adj * count >= adj * allowed) by (nonlinear_arith)
            requires
                0 <= adj,
                allowed < count,
        ;
        lemma_share_covers(adj * count, adj, allowed);
    }
}

/// Where the largest counter does not settle, it stays above the capacity of
/// a column after normalization.
pub proof fn lemma_normalized_over_capacity(
    counts: Seq<int>,
    column_width: int,
    height: int,
    i: int,
)
    requires
        forall|j: int| 0 <= j < counts.len() ==> 0 <= counts[j],
        column_width > 0,
        height > 0,
        !settles(counts.max(), capacity(column_width, height), column_width),
        0 <= i < counts.len(),
        counts[i] == counts.max(),
    ensures
        normalized(counts, column_width, height)[i] > capacity(column_width, height),
{
    let allowed = capacity(column_width, height);
    let peak = counts.max();
    let adj = adjustment(peak, allowed, column_width);
    assert(allowed > 0) by (nonlinear_arith)
        requires
            allowed == column_width * height,
            column_width > 0,
            height > 0,
    ;
    lemma_adjustment_bounds(peak, allowed, column_width);
    lemma_share_falls_short(adj * peak, peak - allowed, allowed);
}

/// A largest counter settles whenever its excess over the capacity is a
/// multiple of the column width: nothing is then lost in rounding.
pub proof fn lemma_settles_on_multiples(peak: int, allowed: int, column_width: int)
    requires
        column_width > 0,
        0 < allowed < peak,
        (peak - allowed) % column_width == 0,
    ensures
        settles(peak, allowed, column_width),
{
    let excess = peak - allowed;
    assert(excess * peak >= excess * allowed) by (nonlinear_arith)
        requires
            excess > 0,
            peak > allowed,
    ;
}

/// A product of at least `whole * divisor` holds `divisor` at least `whole`
/// times.
proof fn lemma_share_covers(product: int, whole: int, divisor: int)
    requires
        divisor > 0,
        product >= whole * divisor,
    ensures
        product / divisor >= whole,
{
    vstd::arithmetic::div_mod::lemma_fundamental_div_mod(product, divisor);
    vstd::arithmetic::div_mod::lemma_mod_bound(product, divisor);
    let share = product / divisor;
    assert(share >= whole) by (nonlinear_arith)
        requires
            product == divisor * share + product % divisor,
            product % divisor < divisor,
            product >= whole * divisor,
            divisor > 0,
    ;
}

/// A product below `whole * divisor` holds `divisor` fewer than `whole`
/// times.
proof fn lemma_share_falls_short(product: int, whole: int, divisor: int)
    requires
        divisor > 0,
        product < whole * divisor,
    ensures
        product / divisor < whole,
{
    vstd::arithmetic::div_mod::lemma_fundamental_div_mod(product, divisor);
    vstd::arithmetic::div_mod::lemma_mod_bound(product, divisor);
    let share = product / divisor;
    assert(share < whole) by (nonlinear_arith)
        requires
            product == divisor * share + product % divisor,
            0 <= product % divisor,
            product < whole * divisor,
            divisor > 0,
    ;
}

} // verus!
