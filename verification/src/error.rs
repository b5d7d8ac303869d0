//! What can go wrong while a document is taken apart.

use vstd::prelude::*;

verus! {

/// Why a document was refused. Either one ends the whole normalization: no
/// table set is handed out beside it.
#[derive(Debug, Clone, Copy, PartialEq, Eq, Structural)]
pub enum NormalizationError {
    /// The document, or an array inside it, has a shape that cannot be laid
    /// out in tables: a root that is neither object nor array, a root array
    /// holding something other than objects, or an array that mixes objects
    /// with other values.
    InputShape,
    /// An object was met where only a cell value can stand, below an array
    /// that is kept as one cell.
    ObjectType,
}

impl NormalizationError {
    /// A sentence for a person to read.
    pub fn message(&self) -> (text: String)
        ensures
            text@ == match *self {
                NormalizationError::InputShape => "input shape cannot be normalized"@,
                NormalizationError::ObjectType => "cannot convert an object into a cell value"@,
            },
    {
        match self {
            NormalizationError::InputShape => String::from_str("input shape cannot be normalized"),
            NormalizationError::ObjectType => String::from_str(
                "cannot convert an object into a cell value",
            ),
        }
    }
}

} // verus!
