//! Verified core of a repository diff viewer: parsing unified-diff text into
//! per-file hunks with line statistics, deciding which diff invocations a
//! comparison request needs, merging their outputs, listing references, and
//! shaping the advisory file metadata attached to each hunk.

pub mod editor;
pub mod hunks;
pub mod meta;
pub mod refs;
pub mod resolve;
pub mod text;
