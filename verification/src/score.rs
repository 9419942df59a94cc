//! The scoring policy: a pure mapping from lines cleared in one lock and the
//! resulting level to a score award, and from total lines to the level.

use vstd::prelude::*;

verus! {

/// The score awarded for clearing `lines_cleared` lines at `level`:
/// 100, 300, 500 or 800 points per level for one, two, three or four lines,
/// and nothing otherwise.
pub open spec fn score_delta(lines_cleared: int, level: int) -> int {
    if lines_cleared == 1 {
        100 * level
    } else if lines_cleared == 2 {
        300 * level
    } else if lines_cleared == 3 {
        500 * level
    } else if lines_cleared == 4 {
        800 * level
    } else {
        0
    }
}

/// The level a total line count puts the game at: one level per ten lines,
/// starting at level one.
pub open spec fn level_for(lines: int) -> int {
    lines / 10 + 1
}

/// The score awarded for clearing `lines_cleared` lines at `level`.
pub fn score_for(lines_cleared: i32, level: i32) -> (r: i32)
    requires
        0 <= level,
        800 * level <= i32::MAX,
    ensures
        r as int == score_delta(lines_cleared as int, level as int),
{
    if lines_cleared == 1 {
        100 * level
    } else if lines_cleared == 2 {
        300 * level
    } else if lines_cleared == 3 {
        500 * level
    } else if lines_cleared == 4 {
        800 * level
    } else {
        0
    }
}

/// Adding to an `i32` total, stopping at the largest representable value.
pub open spec fn add_saturating(a: int, b: int) -> int {
    if a + b > i32::MAX {
        i32::MAX as int
    } else {
        a + b
    }
}

} // verus!
