//! The rules of a file manager's back end, apart from the filesystem itself:
//! how the size of a directory is added up to a bounded depth, which entries of
//! a directory are listed, which names complete a path that is being typed,
//! and where a pasted file goes.

/// The errors of adding up a size.
pub mod error;
/// What holds of the size of a tree, whatever the tree.
pub mod laws;
/// The entries that a directory listing shows.
pub mod listing;
/// Names that complete a path, and the target of a paste.
pub mod paths;
/// Comparing texts character by character.
pub mod text;
/// A filesystem as a value, and its size.
pub mod tree;
/// Adding up sizes visit by visit.
pub mod walk;
