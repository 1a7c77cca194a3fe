//! Plain response bodies of the account API.

use vstd::prelude::*;

verus! {

/// The body of a plain "it worked" response.
pub struct Success {
    pub success: bool,
}

impl Default for Success {
    /// The default response reports success.
    fn default() -> (r: Self)
        ensures
            r.success,
    {
        Success { success: true }
    }
}

/// The offset patterns the account page suggests: one fixed
/// spaced-repetition ladder.
pub fn suggested_recurrences() -> (r: Vec<Vec<u32>>)
    ensures
        r@.len() == 1,
        r@[0]@ == seq![0u32, 1, 3, 7, 14, 21, 30, 45, 60, 75, 90, 95, 110],
{
    let mut ladder: Vec<u32> = Vec::new();
    ladder.push(0);
    ladder.push(1);
    ladder.push(3);
    ladder.push(7);
    ladder.push(14);
    ladder.push(21);
    ladder.push(30);
    ladder.push(45);
    ladder.push(60);
    ladder.push(75);
    ladder.push(90);
    ladder.push(95);
    ladder.push(110);
    proof {
        assert(ladder@ =~= seq![0u32, 1, 3, 7, 14, 21, 30, 45, 60, 75, 90, 95, 110]);
    }
    let mut r: Vec<Vec<u32>> = Vec::new();
    r.push(ladder);
    r
}

} // verus!
