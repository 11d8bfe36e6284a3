//! The power grid and the distribution of power onto its cells.

use vstd::prelude::*;
use crate::error::{BuildFailure, Error};
use crate::layout::{
    lemma_cell_block_of_write, lemma_cell_block_within, lemma_cell_blocks_ordered,
    lemma_cell_offset_step, lemma_first_defect_stays, lemma_power_offset_monotonic,
};
use crate::dimensions::Dimensions;
use crate::stack::{Floorplan, LayerProfile, StackDescription};

verus! {

/// `multiply` may return `output` for the coefficients `coefficients` and
/// the power values `input`.
pub open spec fn may_return<M, T, F: Fn(&M, &[T]) -> Vec<T>>(
    multiply: F,
    coefficients: M,
    input: Seq<T>,
    output: Seq<T>,
) -> bool {
    exists|xs: &[T], out: Vec<T>|
        xs@ == input && out@ == output && #[trigger] call_ensures(
            multiply,
            (&coefficients, xs),
            out,
        )
}

/// `multiply` can be called on each source layer of `description` with that
/// layer's part of `from`, and then returns one value for each cell of a
/// layer; and `from` holds a value for each element.
pub open spec fn accepts<M, T, F: Fn(&M, &[T]) -> Vec<T>>(
    description: StackDescription<M>,
    multiply: F,
    from: Seq<T>,
) -> bool {
    &&& description.total_elements() <= from.len()
    &&& forall|k: int, xs: &[T]|
        0 <= k < description.layers@.len() && description.is_source(k) && xs@
            == description.power_slice(from, k) ==> #[trigger] call_requires(
            multiply,
            (&description.coefficients(k), xs),
        )
    &&& forall|k: int, xs: &[T], out: Vec<T>|
        0 <= k < description.layers@.len() && description.is_source(k) && xs@
            == description.power_slice(from, k) && #[trigger] call_ensures(
            multiply,
            (&description.coefficients(k), xs),
            out,
        ) ==> out@.len() == description.shape().cells_per_layer()
}

/// Layer `k` of the cell vector `after` is what the distribution of `from`
/// makes of it: for a source, what `multiply` returned for the layer's
/// coefficients and the layer's part of `from`; for another layer, what the
/// cell vector `before` held.
pub open spec fn layer_distributed<M, T, F: Fn(&M, &[T]) -> Vec<T>>(
    description: StackDescription<M>,
    multiply: F,
    from: Seq<T>,
    before: Seq<T>,
    after: Seq<T>,
    k: int,
) -> bool {
    if description.is_source(k) {
        may_return(
            multiply,
            description.coefficients(k),
            description.power_slice(from, k),
            description.cell_block(after, k),
        )
    } else {
        description.cell_block(after, k) == description.cell_block(before, k)
    }
}

/// The cell vector `after` is what the distribution of `from` makes of the
/// cell vector `before`.
pub open spec fn distributed<M, T, F: Fn(&M, &[T]) -> Vec<T>>(
    description: StackDescription<M>,
    multiply: F,
    from: Seq<T>,
    before: Seq<T>,
    after: Seq<T>,
) -> bool {
    &&& after.len() == before.len()
    &&& forall|k: int|
        0 <= k < description.layers@.len() ==> #[trigger] layer_distributed(
            description,
            multiply,
            from,
            before,
            after,
            k,
        )
}

/// A power grid: a stack description that was found consistent, borrowed for
/// as long as the grid lives.
pub struct PowerGrid<'l, M> {
    description: &'l StackDescription<M>,
    elements: usize,
}

/// Builds the power grid of a stack.
///
/// Fails, with the first defect in the order of [`StackDescription::defect`],
/// where the stack is not consistent; no grid exists then.
pub fn new<'l, M>(description: &'l StackDescription<M>) -> (result: Result<PowerGrid<'l, M>, Error>)
    ensures
        description.defect() matches Some(failure) ==> result is Err && result->Err_0
            == Error::BuildFailure(failure),
        description.defect() is None ==> result is Ok && result->Ok_0@ == *description
            && description.consistent(),
{
    proof {
        use_type_invariant(&description.dimensions);
    }
    let layers = description.layers.len();
    if layers != description.dimensions.layers() {
        return Err(Error::BuildFailure(BuildFailure::LayerCount));
    }
    let mut elements: Option<usize> = Some(0);
    let mut k: usize = 0;
    while k < layers
        invariant
            layers == description.layers@.len(),
            layers == description.shape().layers,
            k <= layers,
            description.layer_defect_before(k as int) is None,
            forall|m: int|
                0 <= m < k ==> (#[trigger] description.is_source(m)
                    <==> description.layers@[m].floorplan is Some),
            match elements {
                Some(n) => n == description.power_offset(k as int),
                None => description.power_offset(k as int) > usize::MAX,
            },
        decreases layers - k,
    {
        let layer = &description.layers[k];
        match (layer.profile.is_source(), &layer.floorplan) {
            (true, None) => {
                proof {
                    lemma_first_defect_stays(*description, k as int + 1, layers as int);
                }
                return Err(Error::BuildFailure(BuildFailure::MissingFloorplan { layer: k }));
            },
            (false, Some(_)) => {
                proof {
                    lemma_first_defect_stays(*description, k as int + 1, layers as int);
                }
                return Err(Error::BuildFailure(BuildFailure::UnexpectedFloorplan { layer: k }));
            },
            (true, Some(floorplan)) => {
                elements = match elements {
                    Some(n) => n.checked_add(floorplan.element_count),
                    None => None,
                };
            },
            (false, None) => {},
        }
        k += 1;
    }
    match elements {
        Some(elements) => Ok(PowerGrid { description, elements }),
        None => Err(Error::BuildFailure(BuildFailure::TooManyElements)),
    }
}

impl<'l, M> View for PowerGrid<'l, M> {
    type V = StackDescription<M>;

    closed spec fn view(&self) -> StackDescription<M> {
        *self.description
    }
}

/// Copies `block` over the entries of `onto` from `start` on.
fn write_block<T: Copy>(onto: &mut [T], start: usize, block: &Vec<T>)
    requires
        start + block@.len() <= old(onto)@.len(),
    ensures
        final(onto)@.len() == old(onto)@.len(),
        forall|c: int|
            0 <= c < old(onto)@.len() ==> final(onto)@[c] == if start <= c < start + block@.len() {
                block@[c - start]
            } else {
                old(onto)@[c]
            },
{
    let n = block.len();
    let size = onto.len();
    let mut r: usize = 0;
    while r < n
        invariant
            n == block@.len(),
            size == onto@.len(),
            r <= n,
            onto@.len() == old(onto)@.len(),
            start + n <= onto@.len(),
            forall|c: int|
                0 <= c < onto@.len() ==> onto@[c] == if start <= c < start + r {
                    block@[c - start]
                } else {
                    old(onto)@[c]
                },
        decreases n - r,
    {
        onto[start + r] = block[r];
        r += 1;
    }
}

impl<'l, M> PowerGrid<'l, M> {
    #[verifier::type_invariant]
    closed spec fn well_formed(self) -> bool {
        self.description.consistent() && self.elements == self.description.total_elements()
    }

    /// The dimensions of the grid.
    pub fn dimensions(&self) -> (dimensions: &'l Dimensions)
        ensures
            *dimensions == self@.dimensions,
            self@.consistent(),
    {
        proof {
            use_type_invariant(self);
        }
        &self.description.dimensions
    }

    /// The number of cells of the stack: the size of the cell vector.
    pub fn cells(&self) -> (n: usize)
        ensures
            n == self@.shape().total_cells(),
            self@.consistent(),
    {
        proof {
            use_type_invariant(self);
        }
        self.description.dimensions.total_cells()
    }

    /// The number of elements of all source layers together: the size of the
    /// power vector.
    pub fn elements(&self) -> (n: usize)
        ensures
            n == self@.total_elements(),
            self@.consistent(),
    {
        proof {
            use_type_invariant(self);
        }
        self.elements
    }

    /// The profile of layer `k`, if the stack has such a layer.
    pub fn layer_profile(&self, k: usize) -> (profile: Option<LayerProfile>)
        ensures
            k < self@.layers@.len() ==> profile == Some(self@.layers@[k as int].profile),
            k >= self@.layers@.len() ==> profile is None,
    {
        if k < self.description.layers.len() {
            Some(self.description.layers[k].profile)
        } else {
            None
        }
    }

    /// The floorplan of layer `k`, if the stack has such a layer and it is a
    /// source.
    pub fn floorplan(&self, k: usize) -> (floorplan: Option<&'l Floorplan<M>>)
        ensures
            k < self@.layers@.len() && self@.is_source(k as int) ==> floorplan is Some
                && self@.layers@[k as int].floorplan == Some(*floorplan->0),
            k >= self@.layers@.len() || !self@.is_source(k as int) ==> floorplan is None,
    {
        proof {
            use_type_invariant(self);
        }
        if k < self.description.layers.len() {
            self.description.layers[k].floorplan.as_ref()
        } else {
            None
        }
    }

    /// Maps the power of the processing elements onto the cells.
    ///
    /// `from` holds one value for each element of the source layers, layer
    /// by layer; `onto` holds one value for each cell of the stack, layer by
    /// layer. `multiply` computes, for the coefficients of one layer and the
    /// power of its elements, the power of its cells.
    ///
    /// Where `onto` does not have the size of the stack, nothing is written
    /// and the call fails. Else the block of each source layer is
    /// overwritten with what `multiply` returns for that layer, and the
    /// blocks of the other layers are left as they are.
    ///
    /// The size of `from` is not checked: the caller sees to it that `from`
    /// holds a value for each element, and that `multiply` returns a value
    /// for each cell of a layer.
    pub fn distribute<T: Copy, F: Fn(&M, &[T]) -> Vec<T>>(
        &self,
        from: &[T],
        onto: &mut [T],
        multiply: F,
    ) -> (result: Result<(), Error>)
        requires
            old(onto)@.len() == self@.shape().total_cells() ==> accepts(self@, multiply, from@),
        ensures
            self@.consistent(),
            old(onto)@.len() != self@.shape().total_cells() ==> result == Err::<(), Error>(
                Error::InvalidBufferSize,
            ) && final(onto)@ == old(onto)@,
            old(onto)@.len() == self@.shape().total_cells() ==> result is Ok && distributed(
                self@,
                multiply,
                from@,
                old(onto)@,
                final(onto)@,
            ),
    {
        proof {
            use_type_invariant(self);
        }
        let description = self.description;
        let layers = description.layers.len();
        let cells_per_layer = description.dimensions.cells_per_layer();
        if onto.len() != description.dimensions.total_cells() {
            return Err(Error::InvalidBufferSize);
        }
        let (mut i, mut j): (usize, usize) = (0, 0);
        let mut k: usize = 0;
        while k < layers
            invariant
                description == self@,
                description.consistent(),
                accepts(*description, multiply, from@),
                layers == description.layers@.len(),
                cells_per_layer == description.shape().cells_per_layer(),
                onto@.len() == old(onto)@.len(),
                onto@.len() == description.shape().total_cells(),
                k <= layers,
                i == description.cell_offset(k as int),
                j == description.power_offset(k as int),
                forall|c: int| i <= c < onto@.len() ==> onto@[c] == old(onto)@[c],
                forall|m: int|
                    0 <= m < k ==> #[trigger] layer_distributed(
                        *description,
                        multiply,
                        from@,
                        old(onto)@,
                        onto@,
                        m,
                    ),
            decreases layers - k,
        {
            let ghost earlier = onto@;
            proof {
                lemma_cell_offset_step(description.shape(), k as int);
                lemma_cell_block_within(description.shape(), k as int);
                lemma_power_offset_monotonic(*description, k as int + 1, layers as int);
            }
            let layer = &description.layers[k];
            match layer.profile {
                LayerProfile::Source | LayerProfile::SourceConnectedToAmbient => {
                    assert(description.is_source(k as int));
                    let floorplan = layer.floorplan.as_ref().unwrap();
                    let elements = floorplan.element_count;
                    assert(floorplan.coefficients == description.coefficients(k as int));
                    let input = &from[j..(j + elements)];
                    assert(input@ == description.power_slice(from@, k as int));
                    let block = multiply(&floorplan.coefficients, input);
                    write_block(onto, i, &block);
                    proof {
                        lemma_cell_block_of_write(
                            description.shape(),
                            earlier,
                            onto@,
                            block@,
                            k as int,
                        );
                    }
                    j += elements;
                },
                LayerProfile::Other => {
                    assert(!description.is_source(k as int));
                    assert(description.cell_block(onto@, k as int) == description.cell_block(
                        old(onto)@,
                        k as int,
                    ));
                },
            }
            proof {
                assert forall|m: int| 0 <= m < k implies #[trigger] layer_distributed(
                    *description,
                    multiply,
                    from@,
                    old(onto)@,
                    onto@,
                    m,
                ) by {
                    lemma_cell_blocks_ordered(description.shape(), m, k as int);
                    lemma_cell_block_within(description.shape(), m);
                    lemma_cell_offset_step(description.shape(), m);
                    assert(layer_distributed(*description, multiply, from@, old(onto)@, earlier, m));
                    assert(description.cell_block(onto@, m) == description.cell_block(earlier, m));
                }
            }
            i += cells_per_layer;
            k += 1;
        }
        Ok(())
    }
}

} // verus!
