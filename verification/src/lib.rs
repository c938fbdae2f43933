//! Finding build artefacts and caches that a repository's ignore rules exclude,
//! accounting for the space they take, and deciding what may be deleted.
//!
//! The library holds every decision; its callers read directories, ask the
//! questions it poses and carry out the deletions it names.

pub mod text;
pub mod path;
pub mod entry;
pub mod walk;
pub mod scan;
pub mod size;
pub mod human;
pub mod order;
pub mod discover;
pub mod report;
pub mod execute;
pub mod session;
pub mod oracle;
pub mod tree;
