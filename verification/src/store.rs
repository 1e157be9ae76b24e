//! Values that configuration code records while it is evaluated.

use vstd::prelude::*;

verus! {

/// The strings recorded while a configuration is evaluated, in the order recorded.
#[derive(Debug)]
pub struct Store(pub Vec<String>);

impl Store {
    /// An empty store.
    pub fn new() -> (s: Store)
        ensures
            s.0@.len() == 0,
    {
        Store(Vec::new())
    }
}

impl Default for Store {
    fn default() -> (s: Store)
        ensures
            s.0@.len() == 0,
    {
        Store::new()
    }
}

} // verus!
