//! The repository into which history is migrated.

use vstd::prelude::*;

verus! {

/// A repository to migrate into: its URL, the branch that receives the commits, and the
/// tags to set.
#[derive(Debug)]
pub struct Destination {
    pub url: String,
    pub branch: String,
    pub tags: Vec<String>,
}

/// A destination by the characters of its URL, branch and tags.
pub struct DestinationView {
    pub url: Seq<char>,
    pub branch: Seq<char>,
    pub tags: Seq<Seq<char>>,
}

impl View for Destination {
    type V = DestinationView;

    open spec fn view(&self) -> DestinationView {
        DestinationView {
            url: self.url@,
            branch: self.branch@,
            tags: self.tags@.map_values(|t: String| t@),
        }
    }
}

impl Destination {
    /// The destination at `url` that receives commits on `branch`, with no tags.
    pub fn new(url: String, branch: String) -> (d: Destination)
        ensures
            d.url == url,
            d.branch == branch,
            d.tags@.len() == 0,
    {
        Destination { url, branch, tags: Vec::new() }
    }

    /// The text by which a destination shows itself.
    pub fn describe(&self) -> (s: String)
        ensures
            s@ == "destination TODO"@,
    {
        String::from_str("destination TODO")
    }
}

} // verus!
