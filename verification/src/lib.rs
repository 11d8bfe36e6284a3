//! Distribution of per-element power values onto the cells of a layered
//! thermal grid.
//!
//! A stack is a sequence of layers over a uniform grid of `rows x columns`
//! cells. Some layers carry a floorplan of processing elements that dissipate
//! power; the others do not. [`PowerGrid::distribute`] takes one power value
//! per element, layer by layer, and fills the cell vector of the whole stack:
//! the block of each source layer receives the product of that layer's
//! surface coefficients with that layer's slice of the power vector, and the
//! block of every other layer is left as it was.
//!
//! The library is generic in the numeric type and in the coefficient matrix.
//! The product itself is supplied by the caller as a function; everything
//! around it (validation, layer dispatch, slicing of the two flat buffers) is
//! done and proved here.

pub mod dimensions;
pub mod error;
pub mod guarantees;
pub mod layout;
pub mod power_grid;
pub mod stack;

pub use dimensions::{Dimensions, Shape};
pub use error::{BuildFailure, Error};
pub use power_grid::{new, PowerGrid};
pub use stack::{Floorplan, Layer, LayerProfile, StackDescription};
