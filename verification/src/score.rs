//! The score rule: what a number of cleared rows is worth.

use vstd::prelude::*;

verus! {

/// The points for one cleared row.
pub const BASE_SCORE: i32 = 1000;

/// The number of rows cleared at once from which the bonus is paid.
pub const BONUS_LINES: i32 = 4;

/// The largest number of rows, in either direction, whose plain worth is
/// still a score.
pub const MAX_LINES: i32 = 2_147_483;

/// The worth of `lines` rows cleared at once: `BASE_SCORE` for each, and half
/// as much again from `BONUS_LINES` rows on, but never more than the largest
/// score there is.
pub open spec fn score_of(lines: int) -> int {
    if lines >= BONUS_LINES {
        let raised = lines * BASE_SCORE * 3 / 2;
        if raised > i32::MAX {
            i32::MAX as int
        } else {
            raised
        }
    } else {
        lines * BASE_SCORE
    }
}

/// The points for `lines_cleared` rows cleared at once.
pub fn get_score(lines_cleared: i32) -> (score: i32)
    requires
        -MAX_LINES <= lines_cleared <= MAX_LINES,
    ensures
        score == score_of(lines_cleared as int),
{
    let plain: i64 = lines_cleared as i64 * BASE_SCORE as i64;
    if lines_cleared >= BONUS_LINES {
        let raised: i64 = plain * 3 / 2;
        if raised > i32::MAX as i64 {
            i32::MAX
        } else {
            raised as i32
        }
    } else {
        plain as i32
    }
}

} // verus!
