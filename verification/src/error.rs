//! The errors that a migration reports.

use vstd::prelude::*;

verus! {

/// `git2::Error`, carried through unchanged so that a caller can report what libgit2 said.
#[verifier::external_type_specification]
#[verifier::external_body]
pub struct ExGitError(git2::Error);

/// What went wrong while planning a migration.
#[derive(Debug)]
pub enum WorkflowError {
    /// libgit2 could not read the trailers of a commit message.
    Trailers(git2::Error),
}

} // verus!
