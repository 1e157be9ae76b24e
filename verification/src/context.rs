//! The context handed to a transformation while it runs.

use vstd::prelude::*;
use crate::error::WorkflowError;

verus! {

/// The context of a transformation: what a transformation calls to copy files and to
/// report how it went.
#[derive(Debug)]
pub struct Context;

impl Context {
    /// A new context; making one always succeeds.
    pub fn new() -> (r: Result<Context, WorkflowError>)
        ensures
            r is Ok,
    {
        Ok(Context)
    }

    /// Copies a file in the tree being transformed; reports the code 3.
    pub fn copy(&self) -> (code: i32)
        ensures
            code == 3,
    {
        3
    }

    /// Reports that the transformation succeeded: true.
    pub fn success(&self) -> (ok: bool)
        ensures
            ok,
    {
        true
    }

    /// Reports that the transformation failed with `error`: false, whatever the error.
    pub fn fail(&self, error: &str) -> (ok: bool)
        ensures
            !ok,
    {
        false
    }

    /// The text by which a context shows itself.
    pub fn describe(&self) -> (s: String)
        ensures
            s@ == "transform\n"@,
    {
        String::from_str("transform\n")
    }
}

} // verus!
