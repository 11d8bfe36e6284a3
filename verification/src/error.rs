//! The errors of the library.

use vstd::prelude::*;

verus! {

/// Why a stack description cannot be turned into a power grid.
#[derive(Debug, Clone, Copy, PartialEq, Eq, Structural)]
pub enum BuildFailure {
    /// The number of layers, rows or columns is zero.
    EmptyDimension,
    /// The number of cells of the stack does not fit in `usize`.
    TooManyCells,
    /// The number of layers described differs from the number of layers of
    /// the grid.
    LayerCount,
    /// The layer with this index is a source and has no floorplan.
    MissingFloorplan { layer: usize },
    /// The layer with this index is no source and has a floorplan.
    UnexpectedFloorplan { layer: usize },
    /// The number of elements of all floorplans together does not fit in
    /// `usize`.
    TooManyElements,
}

/// What can go wrong when a grid is built or used.
#[derive(Debug, Clone, Copy, PartialEq, Eq, Structural)]
pub enum Error {
    /// The stack description is not one a grid can be built from.
    BuildFailure(BuildFailure),
    /// The output buffer does not have one entry per cell of the stack.
    InvalidBufferSize,
}

impl Error {
    /// The text of [`Error::message`].
    pub open spec fn message_text(self) -> Seq<char> {
        match self {
            Error::BuildFailure(BuildFailure::EmptyDimension) =>
                "failed to build the power grid: a dimension of the grid is zero"@,
            Error::BuildFailure(BuildFailure::TooManyCells) =>
                "failed to build the power grid: the number of cells is too large"@,
            Error::BuildFailure(BuildFailure::LayerCount) =>
                "failed to build the power grid: the number of layers is inconsistent"@,
            Error::BuildFailure(BuildFailure::MissingFloorplan { .. }) =>
                "failed to build the power grid: a source layer has no floorplan"@,
            Error::BuildFailure(BuildFailure::UnexpectedFloorplan { .. }) =>
                "failed to build the power grid: a layer without sources has a floorplan"@,
            Error::BuildFailure(BuildFailure::TooManyElements) =>
                "failed to build the power grid: the number of elements is too large"@,
            Error::InvalidBufferSize => "the size of the output buffer is invalid"@,
        }
    }

    /// A message for the user.
    pub fn message(&self) -> (text: String)
        ensures
            text@ == self.message_text(),
    {
        let text = match self {
            Error::BuildFailure(BuildFailure::EmptyDimension) =>
                "failed to build the power grid: a dimension of the grid is zero",
            Error::BuildFailure(BuildFailure::TooManyCells) =>
                "failed to build the power grid: the number of cells is too large",
            Error::BuildFailure(BuildFailure::LayerCount) =>
                "failed to build the power grid: the number of layers is inconsistent",
            Error::BuildFailure(BuildFailure::MissingFloorplan { .. }) =>
                "failed to build the power grid: a source layer has no floorplan",
            Error::BuildFailure(BuildFailure::UnexpectedFloorplan { .. }) =>
                "failed to build the power grid: a layer without sources has a floorplan",
            Error::BuildFailure(BuildFailure::TooManyElements) =>
                "failed to build the power grid: the number of elements is too large",
            Error::InvalidBufferSize => "the size of the output buffer is invalid",
        };
        text.to_owned()
    }
}

} // verus!
