//! Cursor-advance logic: given the current position, the grid bounds and an
//! input character, compute the next cursor position, including line breaks,
//! row overflow and the full-screen rollover at the bottom-right cell.

use vstd::prelude::*;

verus! {

/// The line-break character (ASCII line feed). Writing it moves the cursor
/// to the start of the next row and puts nothing on the grid.
pub const LINE_BREAK: u8 = 10;

/// A cell coordinate: column `x`, row `y`.
#[derive(Clone, Copy, PartialEq, Eq, Structural, Debug)]
pub struct Point {
    pub x: usize,
    pub y: usize,
}

/// The next cursor position after writing `c` at bounds `max`, evaluated in
/// this order:
/// - a line break goes to the start of the next row, whatever the column —
///   deliberately without clamping the row against the height, so a line
///   break on the last row leaves the row one past the bounds until a later
///   character moves it again;
/// - from the bottom-right cell the cursor rolls over to the top-left;
/// - from any other cell of the last row it goes to the start of the next
///   row, again without clamping;
/// - otherwise it moves one column to the right.
pub open spec fn advance_spec(current: Point, max: Point, c: u8) -> Point
    recommends
        1 <= max.x,
        1 <= max.y,
{
    if c == LINE_BREAK {
        Point { x: 0, y: ((current.y + 1) as usize) }
    } else if current.x == max.x - 1 && current.y == max.y - 1 {
        Point { x: 0, y: 0 }
    } else if current.y == max.y - 1 {
        Point { x: 0, y: ((current.y + 1) as usize) }
    } else {
        Point { x: ((current.x + 1) as usize), y: current.y }
    }
}

/// Whether advancing from `current` stays within the machine's integer
/// range, so that `advance_spec` truncates nothing.
pub open spec fn advance_fits(current: Point, max: Point, c: u8) -> bool {
    if c == LINE_BREAK {
        current.y < usize::MAX
    } else if current.x == max.x - 1 && current.y == max.y - 1 {
        true
    } else if current.y == max.y - 1 {
        current.y < usize::MAX
    } else {
        current.x < usize::MAX
    }
}

/// Compute the next cursor position. Pure: no side effects, deterministic
/// in its inputs.
pub fn advance(current: Point, max: Point, c: u8) -> (next: Point)
    requires
        1 <= max.x,
        1 <= max.y,
        advance_fits(current, max, c),
    ensures
        next == advance_spec(current, max, c),
{
    if c == LINE_BREAK {
        Point { x: 0, y: current.y + 1 }
    } else if current.x == max.x - 1 && current.y == max.y - 1 {
        Point { x: 0, y: 0 }
    } else if current.y == max.y - 1 {
        Point { x: 0, y: current.y + 1 }
    } else {
        Point { x: current.x + 1, y: current.y }
    }
}

/// From a position strictly interior to the grid — not on the last column
/// and not on the last row — a non-line-break character moves the cursor
/// exactly one column to the right and leaves the row unchanged.
pub proof fn lemma_advance_interior(current: Point, max: Point, c: u8)
    requires
        1 <= max.x,
        1 <= max.y,
        c != LINE_BREAK,
        current.x < max.x - 1,
        current.y < max.y - 1,
    ensures
        advance_spec(current, max, c) == (Point {
            x: ((current.x + 1) as usize),
            y: current.y,
        }),
{
}

/// From the bottom-right cell a non-line-break character rolls the cursor
/// over to the top-left cell.
pub proof fn lemma_advance_rollover(max: Point, c: u8)
    requires
        1 <= max.x,
        1 <= max.y,
        c != LINE_BREAK,
    ensures
        advance_spec(
            Point { x: ((max.x - 1) as usize), y: ((max.y - 1) as usize) },
            max,
            c,
        ) == (Point { x: 0, y: 0 }),
{
}

/// From any cell of the last row except the bottom-right one, a
/// non-line-break character moves the cursor to the start of the next row —
/// one row past the grid, deliberately unclamped. The column plays no part:
/// there is no wrap at the last column of an earlier row.
pub proof fn lemma_advance_last_row(current: Point, max: Point, c: u8)
    requires
        1 <= max.x,
        1 <= max.y,
        c != LINE_BREAK,
        current.y == max.y - 1,
        !(current.x == max.x - 1 && current.y == max.y - 1),
    ensures
        advance_spec(current, max, c) == (Point {
            x: 0,
            y: ((current.y + 1) as usize),
        }),
{
}

/// A line break moves the cursor to the start of the next row, independent
/// of the column and of the grid bounds.
pub proof fn lemma_advance_line_break(current: Point, max: Point)
    ensures
        advance_spec(current, max, LINE_BREAK) == (Point {
            x: 0,
            y: ((current.y + 1) as usize),
        }),
{
}

} // verus!
