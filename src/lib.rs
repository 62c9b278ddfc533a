use vstd::prelude::*;

pub mod protocol;
pub mod codec;
pub mod presence;
pub mod session;
pub mod args;

verus! {

/// The daemon reports itself alive whenever it is able to answer.
pub fn alive() -> (r: bool)
    ensures
        r,
{
    true
}

} // verus!
