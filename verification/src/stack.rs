//! The description of a stack: its dimensions and, layer by layer, what the
//! distribution reads of it.

use vstd::prelude::*;
use crate::dimensions::{Dimensions, Shape};
use crate::error::BuildFailure;

verus! {

/// The kind of a layer, as far as power is concerned.
#[derive(Debug, Clone, Copy, PartialEq, Eq, Structural)]
pub enum LayerProfile {
    /// The layer holds processing elements.
    Source,
    /// The layer holds processing elements and touches the ambient.
    SourceConnectedToAmbient,
    /// The layer dissipates no power.
    Other,
}

impl LayerProfile {
    /// Whether a layer of this kind injects power into its cells.
    pub open spec fn spec_is_source(&self) -> bool {
        *self is Source || *self is SourceConnectedToAmbient
    }

    /// Whether a layer of this kind injects power into its cells.
    #[verifier::when_used_as_spec(spec_is_source)]
    pub fn is_source(&self) -> (b: bool)
        ensures
            b == self.spec_is_source(),
    {
        match self {
            LayerProfile::Source | LayerProfile::SourceConnectedToAmbient => true,
            LayerProfile::Other => false,
        }
    }
}

/// The processing elements of one source layer.
///
/// `coefficients` maps a vector of `element_count` power values to the
/// vector of the contributions to the cells of the layer. The library never
/// looks inside it: it hands it to the function that multiplies.
#[derive(Debug)]
pub struct Floorplan<M> {
    pub element_count: usize,
    pub coefficients: M,
}

/// One layer of a stack.
#[derive(Debug)]
pub struct Layer<M> {
    pub profile: LayerProfile,
    pub floorplan: Option<Floorplan<M>>,
}

/// A stack: the dimensions of its grid and its layers, in order.
#[derive(Debug)]
pub struct StackDescription<M> {
    pub dimensions: Dimensions,
    pub layers: Vec<Layer<M>>,
}

impl<M> Layer<M> {
    /// What is wrong with the layer as layer `k` of a stack, if anything: a
    /// source has a floorplan, and no other layer has one.
    pub open spec fn defect(&self, k: int) -> Option<BuildFailure> {
        if self.profile.is_source() && self.floorplan is None {
            Some(BuildFailure::MissingFloorplan { layer: k as usize })
        } else if !self.profile.is_source() && self.floorplan is Some {
            Some(BuildFailure::UnexpectedFloorplan { layer: k as usize })
        } else {
            None
        }
    }

    /// The number of power values that the layer reads: the number of its
    /// elements if it is a source, none otherwise.
    pub open spec fn elements(&self) -> nat {
        if self.profile.is_source() && self.floorplan is Some {
            self.floorplan->0.element_count as nat
        } else {
            0
        }
    }
}

impl<M> StackDescription<M> {
    /// The shape of the grid.
    pub open spec fn shape(&self) -> Shape {
        self.dimensions@
    }

    /// Whether layer `k` is a source.
    pub open spec fn is_source(&self, k: int) -> bool {
        self.layers@[k].profile.is_source()
    }

    /// The coefficients of source layer `k`.
    pub open spec fn coefficients(&self, k: int) -> M {
        self.layers@[k].floorplan->0.coefficients
    }

    /// The number of power values that layer `k` reads.
    pub open spec fn elements(&self, k: int) -> nat {
        self.layers@[k].elements()
    }

    /// The index in a power vector of the first value of layer `k`: the
    /// number of values that the layers before it read.
    pub open spec fn power_offset(&self, k: int) -> nat
        decreases k,
    {
        if k <= 0 {
            0
        } else {
            self.power_offset(k - 1) + self.elements(k - 1)
        }
    }

    /// The number of power values that the stack reads.
    pub open spec fn total_elements(&self) -> nat {
        self.power_offset(self.layers@.len() as int)
    }

    /// The index in a cell vector of the first cell of layer `k`.
    pub open spec fn cell_offset(&self, k: int) -> int {
        self.shape().cell_offset(k)
    }

    /// The first defect among the layers before `n`, if there is one.
    pub open spec fn layer_defect_before(&self, n: int) -> Option<BuildFailure>
        decreases n,
    {
        if n <= 0 {
            None
        } else if self.layer_defect_before(n - 1) is Some {
            self.layer_defect_before(n - 1)
        } else {
            self.layers@[n - 1].defect(n - 1)
        }
    }

    /// What keeps a grid from being built from this stack, if anything. The
    /// number of layers is looked at first, then the layers in order, then
    /// the number of elements.
    pub open spec fn defect(&self) -> Option<BuildFailure> {
        if self.layers@.len() != self.shape().layers {
            Some(BuildFailure::LayerCount)
        } else if self.layer_defect_before(self.layers@.len() as int) is Some {
            self.layer_defect_before(self.layers@.len() as int)
        } else if self.total_elements() > usize::MAX {
            Some(BuildFailure::TooManyElements)
        } else {
            None
        }
    }

    /// The stack is one that a grid can be built from: its shape is valid,
    /// it has one layer for each layer of the grid, the sources and only
    /// they have a floorplan, and the elements can be counted in a `usize`.
    pub open spec fn consistent(&self) -> bool {
        &&& self.shape().valid()
        &&& self.layers@.len() == self.shape().layers
        &&& forall|k: int|
            0 <= k < self.layers@.len() ==> (#[trigger] self.is_source(k)
                <==> self.layers@[k].floorplan is Some)
        &&& self.total_elements() <= usize::MAX
    }

    /// The part of the power vector `from` that belongs to layer `k`.
    pub open spec fn power_slice<T>(&self, from: Seq<T>, k: int) -> Seq<T> {
        from.subrange(self.power_offset(k) as int, self.power_offset(k + 1) as int)
    }

    /// The part of the cell vector `cells` that belongs to layer `k`.
    pub open spec fn cell_block<T>(&self, cells: Seq<T>, k: int) -> Seq<T> {
        cells.subrange(self.cell_offset(k), self.cell_offset(k + 1))
    }
}

} // verus!
