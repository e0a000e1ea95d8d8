//! The verifier's challenge: open a row, a column, a box, or the clue cells
//! together with the digit mapping.  Drawn uniformly over the four kinds,
//! then uniformly over the index where one is needed.
use vstd::prelude::*;
use crate::rng::random_below;

verus! {

#[derive(Debug, Clone, Copy, PartialEq, Eq, Structural)]
pub enum ChallengeType {
    Row(usize),
    Col(usize),
    Box(usize),
    Clue,
}

/// A challenge whose index, if any, is below `n`.
pub open spec fn challenge_wf(c: ChallengeType, n: int) -> bool {
    match c {
        ChallengeType::Row(k) => (k as int) < n,
        ChallengeType::Col(k) => (k as int) < n,
        ChallengeType::Box(k) => (k as int) < n,
        ChallengeType::Clue => true,
    }
}

/// Draw a challenge: one of the four kinds uniformly, then a uniform index
/// in `0..n` where the kind needs one.
pub fn random_challenge(n: usize) -> (c: ChallengeType)
    requires
        n >= 1,
    ensures
        challenge_wf(c, n as int),
{
    let t = random_below(4);
    if t == 0 {
        ChallengeType::Row(random_below(n as u64) as usize)
    } else if t == 1 {
        ChallengeType::Col(random_below(n as u64) as usize)
    } else if t == 2 {
        ChallengeType::Box(random_below(n as u64) as usize)
    } else {
        ChallengeType::Clue
    }
}

/// Test a challenge against the board size; true exactly when any index it
/// carries is below `n`.
pub fn challenge_in_range(c: ChallengeType, n: usize) -> (b: bool)
    ensures
        b == challenge_wf(c, n as int),
{
    match c {
        ChallengeType::Row(k) => k < n,
        ChallengeType::Col(k) => k < n,
        ChallengeType::Box(k) => k < n,
        ChallengeType::Clue => true,
    }
}

} // verus!
