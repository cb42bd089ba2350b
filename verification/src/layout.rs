//! Where the twenty columns stand on a canvas of a given width.

use vstd::prelude::*;

verus! {

/// Number of faces of the die, and of columns in the histogram.
pub const FACES: usize = 20;

/// Width in pixels of one column: a twentieth of the canvas, rounded down.
pub open spec fn column_width_of(width: int) -> int {
    width / 20
}

/// Pixels left of the first column: half of what twenty columns leave over.
pub open spec fn left_margin_of(width: int) -> int {
    (width - column_width_of(width) * 20) / 2
}

/// The column that the horizontal position `x` falls into, if any.
///
/// Columns are `column_width` pixels wide and start at `offset`; positions
/// left of the first or right of the twentieth belong to no column.
pub open spec fn column_at(offset: int, column_width: int, x: int) -> Option<int> {
    if offset <= x < offset + column_width * 20 {
        Some((x - offset) / column_width)
    } else {
        None
    }
}

/// Computes the width of one column for a canvas `width` pixels wide.
pub fn column_width(width: u32) -> (w: u32)
    ensures
        w == column_width_of(width as int),
{
    width / 20
}

/// Computes the margin left of the first column for a canvas `width` pixels
/// wide.
pub fn left_margin(width: u32) -> (m: u32)
    ensures
        m == left_margin_of(width as int),
{
    (width - (width / 20) * 20) / 2
}

/// Finds the column under the horizontal position `x`.
pub fn column_of(offset: u32, column_width: u32, x: u32) -> (face: Option<usize>)
    ensures
        match face {
            Some(found) => found < FACES && column_at(offset as int, column_width as int, x as int)
                == Some(found as int),
            None => column_at(offset as int, column_width as int, x as int).is_none(),
        },
{
    let cutoff: u64 = offset as u64 + column_width as u64 * 20;
    if x >= offset && (x as u64) < cutoff {
        proof {
            lemma_column_in_range(offset as int, column_width as int, x as int);
        }
        let face: u32 = (x - offset) / column_width;
        Some(face as usize)
    } else {
        None
    }
}

/// A position inside the twenty columns falls into one of them, and within
/// that column it lies left of the column's right edge.
pub proof fn lemma_column_in_range(offset: int, column_width: int, x: int)
    requires
        offset <= x < offset + column_width * 20,
    ensures
        column_width > 0,
        0 <= (x - offset) / column_width < 20,
        0 <= x - offset - ((x - offset) / column_width) * column_width < column_width,
{
    assert(column_width > 0) by (nonlinear_arith)
        requires
            offset < offset + column_width * 20,
    ;
    let d = x - offset;
    let q = d / column_width;
    assert(0 <= q < 20 && 0 <= d - q * column_width < column_width) by (nonlinear_arith)
        requires
            0 <= d < column_width * 20,
            column_width > 0,
            q == d / column_width,
    ;
}

/// The twenty columns and the margin left of them fit on the canvas, for
/// every width.
pub proof fn lemma_columns_fit(width: int)
    requires
        0 <= width,
    ensures
        0 <= left_margin_of(width),
        left_margin_of(width) + column_width_of(width) * 20 <= width,
        left_margin_of(width) == (width % 20) / 2,
{
}

/// The margin is narrower than a column: what the columns leave over is
/// spread to both sides and never makes room for a twenty-first column.
///
/// This holds from a width of 200 on, and below that exactly where the
/// remainder of the width by twenty is less than twice the column width.
pub proof fn lemma_margin_narrower_than_column(width: int)
    requires
        20 <= width,
        width >= 200 || width % 20 < 2 * (width / 20),
    ensures
        left_margin_of(width) < column_width_of(width),
{
}

/// On the widths that the previous law leaves out, the margin is at least as
/// wide as a column.
pub proof fn lemma_margin_reaches_column(width: int)
    requires
        20 <= width < 200,
        width % 20 >= 2 * (width / 20),
    ensures
        left_margin_of(width) >= column_width_of(width),
{
}

} // verus!
