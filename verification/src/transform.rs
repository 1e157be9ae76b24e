//! Transformations applied to each migrated tree, once frozen.

use vstd::prelude::*;

verus! {

/// A transformation frozen for use after its module has been evaluated.
#[derive(Debug)]
pub struct FrozenTransform {}

impl FrozenTransform {
    /// The text by which a frozen transformation shows itself.
    pub fn describe(&self) -> (s: String)
        ensures
            s@ == "transform\n"@,
    {
        String::from_str("transform\n")
    }
}

} // verus!
