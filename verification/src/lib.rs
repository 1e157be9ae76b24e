//! A library that plans the migration of a git repository's history into another
//! repository: it decides which commits to copy, writes the messages of the commits it
//! creates, finds in a destination's history where an earlier migration stopped, and
//! renders the log lines that accompany each step.

pub mod text;
pub mod paths;
pub mod error;
pub mod history;
pub mod escape;
pub mod origin;
pub mod destination;
pub mod workflow;

pub use destination::Destination;
pub use origin::Origin;
pub use workflow::Workflow;
pub mod report;
pub mod context;
pub mod transform;
pub mod git;
pub mod store;

pub use context::Context;
pub use git::FrozenDynamicTagCallable;
pub use store::Store;
pub use transform::FrozenTransform;
