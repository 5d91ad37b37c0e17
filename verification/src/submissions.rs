use vstd::prelude::*;

verus! {

/// The most submissions one contestant makes on one task.
pub const SUBMISSION_CAP: usize = 50;

/// The number of submissions of one contestant on one attempted task: the
/// first submission plus the sampled extra ones, capped at
/// `SUBMISSION_CAP`; the flag tells whether the cap was reached.
pub fn capped_submission_count(extra: usize) -> (r: (usize, bool))
    requires
        extra < usize::MAX,
    ensures
        r.0 == if extra + 1 < SUBMISSION_CAP {
            extra + 1
        } else {
            SUBMISSION_CAP as int
        },
        1 <= r.0 <= SUBMISSION_CAP,
        r.1 == (r.0 == SUBMISSION_CAP),
{
    let count = if 1 + extra < SUBMISSION_CAP {
        1 + extra
    } else {
        SUBMISSION_CAP
    };
    (count, count == SUBMISSION_CAP)
}

} // verus!
