//! The repository whose history is migrated.

use vstd::prelude::*;

verus! {

/// A repository to migrate from: its URL and the reference (branch) whose history is read.
#[derive(Debug)]
pub struct Origin {
    pub url: String,
    pub reference: String,
}

/// An origin by the characters of its URL and reference.
pub struct OriginView {
    pub url: Seq<char>,
    pub reference: Seq<char>,
}

impl View for Origin {
    type V = OriginView;

    open spec fn view(&self) -> OriginView {
        OriginView { url: self.url@, reference: self.reference@ }
    }
}

impl Origin {
    /// The origin at `url`, read at `reference`.
    pub fn new(url: String, reference: String) -> (o: Origin)
        ensures
            o.url == url,
            o.reference == reference,
    {
        Origin { url, reference }
    }

    /// The text by which an origin shows itself.
    pub fn describe(&self) -> (s: String)
        ensures
            s@ == "origin TODO"@,
    {
        String::from_str("origin TODO")
    }
}

} // verus!
