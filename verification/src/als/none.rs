//! The null ambient-light source.

use vstd::prelude::*;

verus! {

#[derive(Default)]
pub struct Als {}

impl Als {
    /// A source that never sees any ambient light.
    pub fn get(&mut self) -> (r: u64)
        ensures
            r == 0,
    {
        0
    }
}

} // verus!
