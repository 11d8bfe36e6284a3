//! How the two flat vectors are laid out over the layers of a stack, and
//! what follows from it.

use vstd::prelude::*;
use vstd::arithmetic::div_mod::{
    lemma_div_pos_is_pos, lemma_fundamental_div_mod, lemma_mod_bound, lemma_multiply_divide_lt,
};
use crate::dimensions::Shape;
use crate::stack::StackDescription;

verus! {

/// The block of a layer ends where the block of the next layer begins, one
/// layer's worth of cells later.
pub proof fn lemma_cell_offset_step(shape: Shape, k: int)
    ensures
        shape.cell_offset(k + 1) == shape.cell_offset(k) + shape.cells_per_layer(),
{
    assert((k + 1) * shape.cells_per_layer() == k * shape.cells_per_layer()
        + shape.cells_per_layer()) by (nonlinear_arith);
}

/// The blocks come in the order of the layers: the block of an earlier layer
/// ends before the block of a later layer begins.
pub proof fn lemma_cell_blocks_ordered(shape: Shape, a: int, b: int)
    requires
        a < b,
    ensures
        shape.cell_offset(a + 1) <= shape.cell_offset(b),
{
    let n = shape.cells_per_layer() as int;
    assert((a + 1) * n <= b * n) by (nonlinear_arith)
        requires
            a + 1 <= b,
            n >= 0,
    ;
}

/// The block of each layer of the grid lies within the cell vector.
pub proof fn lemma_cell_block_within(shape: Shape, k: int)
    requires
        0 <= k < shape.layers,
    ensures
        0 <= shape.cell_offset(k),
        shape.cell_offset(k + 1) <= shape.total_cells(),
{
    let n = shape.cells_per_layer() as int;
    let l = shape.layers as int;
    assert(0 <= k * n) by (nonlinear_arith)
        requires
            0 <= k,
            n >= 0,
    ;
    assert((k + 1) * n <= l * n) by (nonlinear_arith)
        requires
            k + 1 <= l,
            n >= 0,
    ;
}

/// Every cell of the stack lies in the block of a layer: the layer whose
/// index is the index of the cell divided by the number of cells of a layer.
pub proof fn lemma_cell_in_block(shape: Shape, c: int)
    requires
        shape.valid(),
        0 <= c < shape.total_cells(),
    ensures
        0 <= shape.layer_of(c) < shape.layers,
        shape.cell_offset(shape.layer_of(c)) <= c < shape.cell_offset(shape.layer_of(c) + 1),
{
    let n = shape.cells_per_layer() as int;
    let l = shape.layers as int;
    assert(n > 0) by (nonlinear_arith)
        requires
            shape.rows > 0,
            shape.columns > 0,
            n == shape.rows * shape.columns,
    ;
    let k = c / n;
    lemma_fundamental_div_mod(c, n);
    lemma_mod_bound(c, n);
    lemma_div_pos_is_pos(c, n);
    lemma_multiply_divide_lt(c, n, l);
    assert(k * n == n * k) by (nonlinear_arith);
    lemma_cell_offset_step(shape, k);
    assert(n * l == l * n) by (nonlinear_arith);
}

/// No cell lies in the blocks of two layers.
pub proof fn lemma_cell_in_one_block(shape: Shape, c: int, a: int, b: int)
    requires
        shape.cell_offset(a) <= c < shape.cell_offset(a + 1),
        shape.cell_offset(b) <= c < shape.cell_offset(b + 1),
    ensures
        a == b,
{
    if a < b {
        lemma_cell_blocks_ordered(shape, a, b);
    } else if b < a {
        lemma_cell_blocks_ordered(shape, b, a);
    }
}

/// The power offsets grow with the layers.
pub proof fn lemma_power_offset_monotonic<M>(description: StackDescription<M>, a: int, b: int)
    requires
        a <= b,
    ensures
        description.power_offset(a) <= description.power_offset(b),
    decreases b - a,
{
    if a < b {
        lemma_power_offset_monotonic(description, a, b - 1);
    }
}

/// No layer before `n` has a defect exactly where, among those layers, the
/// sources and only they have a floorplan.
pub proof fn lemma_no_layer_defect<M>(description: StackDescription<M>, n: int)
    requires
        0 <= n <= description.layers@.len(),
    ensures
        description.layer_defect_before(n) is None <==> forall|k: int|
            0 <= k < n ==> (#[trigger] description.is_source(k)
                <==> description.layers@[k].floorplan is Some),
    decreases n,
{
    if n > 0 {
        lemma_no_layer_defect(description, n - 1);
        if description.layer_defect_before(n) is None {
            assert forall|k: int| 0 <= k < n implies (#[trigger] description.is_source(k)
                <==> description.layers@[k].floorplan is Some) by {
                if k == n - 1 {
                    assert(description.layers@[k].defect(k) is None);
                }
            }
        } else if description.layer_defect_before(n - 1) is None {
            assert(description.layers@[n - 1].defect(n - 1) is Some);
            assert(!(description.is_source(n - 1) <==> description.layers@[n - 1].floorplan is Some));
        }
    }
}

/// A stack of a valid shape is consistent exactly where it has no defect.
pub proof fn lemma_consistent_iff_no_defect<M>(description: StackDescription<M>)
    requires
        description.shape().valid(),
    ensures
        description.consistent() <==> description.defect() is None,
{
    if description.layers@.len() == description.shape().layers {
        lemma_no_layer_defect(description, description.layers@.len() as int);
    }
}

/// Once a layer has a defect, the first defect stays what it is however many
/// layers more are looked at.
pub(crate) proof fn lemma_first_defect_stays<M>(description: StackDescription<M>, a: int, b: int)
    requires
        a <= b,
        description.layer_defect_before(a) is Some,
    ensures
        description.layer_defect_before(b) == description.layer_defect_before(a),
    decreases b - a,
{
    if a < b {
        lemma_first_defect_stays(description, a, b - 1);
    }
}

/// After the block of layer `k` was overwritten with `block`, the block of
/// layer `k` is `block`.
pub(crate) proof fn lemma_cell_block_of_write<T>(
    shape: Shape,
    before: Seq<T>,
    after: Seq<T>,
    block: Seq<T>,
    k: int,
)
    requires
        0 <= k < shape.layers,
        before.len() == shape.total_cells(),
        after.len() == before.len(),
        block.len() == shape.cells_per_layer(),
        forall|c: int|
            0 <= c < before.len() ==> after[c] == if shape.cell_offset(k) <= c < shape.cell_offset(
                k,
            ) + block.len() {
                block[c - shape.cell_offset(k)]
            } else {
                before[c]
            },
    ensures
        after.subrange(shape.cell_offset(k), shape.cell_offset(k + 1)) == block,
{
    lemma_cell_offset_step(shape, k);
    lemma_cell_block_within(shape, k);
    assert(after.subrange(shape.cell_offset(k), shape.cell_offset(k + 1)) =~= block);
}

} // verus!
