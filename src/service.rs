use vstd::prelude::*;

verus! {

/// The banner the submission service answers at its root path.
pub fn index() -> (r: &'static str)
    ensures
        r@ == "RUST JOB SCHEDULER"@,
{
    "RUST JOB SCHEDULER"
}

} // verus!
