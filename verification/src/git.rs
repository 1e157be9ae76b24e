//! Git-specific configuration values.

use vstd::prelude::*;

verus! {

/// A callable that computes the tags of a destination, frozen for use after its module
/// has been evaluated.
#[derive(Debug)]
pub struct FrozenDynamicTagCallable {}

impl FrozenDynamicTagCallable {
    /// The text by which a frozen tag callable shows itself.
    pub fn describe(&self) -> (s: String)
        ensures
            s@ == "dynamic_tag\n"@,
    {
        String::from_str("dynamic_tag\n")
    }
}

} // verus!
