//! Confined file-tree operations: path resolution that cannot escape a root
//! directory, race-tolerant unique-name allocation, bounded tree traversal,
//! conflict-checked mutation planning, and change-event fan-out.
//!
//! The filesystem itself is outside this library: callers probe it and execute
//! the plans these functions produce, feeding the observed answers back in.

pub mod content;
pub mod events;
pub mod names;
pub mod ops;
pub mod paths;
pub mod text;
pub mod trusted;
pub mod walker;

use vstd::prelude::*;

verus! {

/// Why an operation was refused.
#[derive(Clone, Copy, PartialEq, Eq, Structural, Debug)]
pub enum OpError {
    /// The path resolves outside the root; the real filesystem path is
    /// never revealed.
    Confinement,
    /// The target is absent.
    NotFound,
    /// The destination name is already occupied, or a new file's target
    /// exists.
    Conflict,
    /// A required field is missing or a supplied name is not acceptable.
    InvalidInput,
    /// The extension is not on the editable allow-list.
    NotEditable,
    /// The content is not valid text.
    Encoding,
    /// An underlying filesystem error not otherwise classified.
    IoFailure,
}

} // verus!
