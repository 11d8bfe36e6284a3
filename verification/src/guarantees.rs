//! What a distribution guarantees, stated over the cell vector before and
//! after it.

use vstd::prelude::*;
use crate::layout::{
    lemma_cell_block_within, lemma_cell_in_block, lemma_cell_offset_step,
    lemma_power_offset_monotonic,
};
use crate::power_grid::{distributed, layer_distributed, may_return};
use crate::stack::StackDescription;

verus! {

/// `multiply` is a function: for the same coefficients and the same power
/// values it returns the same values.
pub open spec fn deterministic<M, T, F: Fn(&M, &[T]) -> Vec<T>>(multiply: F) -> bool {
    forall|m: M, xs: &[T], ys: &[T], p: Vec<T>, q: Vec<T>|
        xs@ == ys@ && #[trigger] call_ensures(multiply, (&m, xs), p) && #[trigger] call_ensures(
            multiply,
            (&m, ys),
            q,
        ) ==> p@ == q@
}

/// `multiply` makes nothing of nothing: where every power value is `zero`,
/// so is every value it returns.
pub open spec fn preserves_zero<M, T, F: Fn(&M, &[T]) -> Vec<T>>(multiply: F, zero: T) -> bool {
    forall|m: M, xs: &[T], out: Vec<T>, c: int|
        #[trigger] call_ensures(multiply, (&m, xs), out) && (forall|i: int|
            0 <= i < xs@.len() ==> xs@[i] == zero) && 0 <= c < out@.len() ==> #[trigger] out@[c]
            == zero
}

/// The two power vectors hold the same values everywhere but in the part of
/// layer `k`.
pub open spec fn same_but_in_layer<M, T>(
    description: StackDescription<M>,
    a: Seq<T>,
    b: Seq<T>,
    k: int,
) -> bool {
    &&& a.len() == b.len()
    &&& forall|i: int|
        0 <= i < a.len() && !(description.power_offset(k) <= i < description.power_offset(k + 1))
            ==> a[i] == b[i]
}

/// A distribution leaves every cell of a layer without sources as it was.
pub proof fn lemma_other_layers_untouched<M, T, F: Fn(&M, &[T]) -> Vec<T>>(
    description: StackDescription<M>,
    multiply: F,
    from: Seq<T>,
    before: Seq<T>,
    after: Seq<T>,
    k: int,
    c: int,
)
    requires
        description.consistent(),
        before.len() == description.shape().total_cells(),
        distributed(description, multiply, from, before, after),
        0 <= k < description.layers@.len(),
        !description.is_source(k),
        description.cell_offset(k) <= c < description.cell_offset(k + 1),
    ensures
        0 <= c < after.len(),
        after[c] == before[c],
{
    lemma_cell_block_within(description.shape(), k);
    assert(layer_distributed(description, multiply, from, before, after, k));
    let offset = description.cell_offset(k);
    assert(description.cell_block(after, k)[c - offset] == after[c]);
    assert(description.cell_block(before, k)[c - offset] == before[c]);
}

/// The part of the power vector that a layer reads does not reach into the
/// part of any other layer: where two power vectors differ in the part of
/// layer `changed` alone, every other layer reads the same values from both.
pub proof fn lemma_power_slices_independent<M, T>(
    description: StackDescription<M>,
    a: Seq<T>,
    b: Seq<T>,
    changed: int,
    k: int,
)
    requires
        0 <= changed < description.layers@.len(),
        0 <= k < description.layers@.len(),
        k != changed,
        description.total_elements() <= a.len(),
        same_but_in_layer(description, a, b, changed),
    ensures
        description.power_slice(a, k) == description.power_slice(b, k),
{
    lemma_power_offset_monotonic(description, k + 1, description.layers@.len() as int);
    if k < changed {
        lemma_power_offset_monotonic(description, k + 1, changed);
    } else {
        lemma_power_offset_monotonic(description, changed + 1, k);
    }
    assert(description.power_slice(a, k) =~= description.power_slice(b, k));
}

/// What a distribution writes to the block of a layer depends on that
/// layer's part of the power vector alone: where two power vectors differ in
/// the part of layer `changed` alone, and `multiply` is a function, the two
/// distributions give every other layer the same block.
pub proof fn lemma_layers_independent<M, T, F: Fn(&M, &[T]) -> Vec<T>>(
    description: StackDescription<M>,
    multiply: F,
    a: Seq<T>,
    b: Seq<T>,
    before: Seq<T>,
    after_a: Seq<T>,
    after_b: Seq<T>,
    changed: int,
    k: int,
)
    requires
        0 <= changed < description.layers@.len(),
        0 <= k < description.layers@.len(),
        k != changed,
        description.total_elements() <= a.len(),
        same_but_in_layer(description, a, b, changed),
        deterministic(multiply),
        distributed(description, multiply, a, before, after_a),
        distributed(description, multiply, b, before, after_b),
    ensures
        description.cell_block(after_a, k) == description.cell_block(after_b, k),
{
    lemma_power_slices_independent(description, a, b, changed, k);
    assert(layer_distributed(description, multiply, a, before, after_a, k));
    assert(layer_distributed(description, multiply, b, before, after_b, k));
}

/// A distribution with a function is a function: where `multiply` is
/// deterministic, the power vector and the cell vector before determine the
/// cell vector after.
pub proof fn lemma_distribution_unique<M, T, F: Fn(&M, &[T]) -> Vec<T>>(
    description: StackDescription<M>,
    multiply: F,
    from: Seq<T>,
    before: Seq<T>,
    first: Seq<T>,
    second: Seq<T>,
)
    requires
        description.consistent(),
        before.len() == description.shape().total_cells(),
        deterministic(multiply),
        distributed(description, multiply, from, before, first),
        distributed(description, multiply, from, before, second),
    ensures
        first == second,
{
    assert forall|c: int| 0 <= c < first.len() implies first[c] == second[c] by {
        let k = description.shape().layer_of(c);
        lemma_cell_in_block(description.shape(), c);
        lemma_cell_block_within(description.shape(), k);
        assert(layer_distributed(description, multiply, from, before, first, k));
        assert(layer_distributed(description, multiply, from, before, second, k));
        let offset = description.cell_offset(k);
        assert(description.cell_block(first, k) == description.cell_block(second, k));
        assert(description.cell_block(first, k)[c - offset] == first[c]);
        assert(description.cell_block(second, k)[c - offset] == second[c]);
    }
    assert(first =~= second);
}

/// Where no element dissipates power, no cell of a source layer receives
/// any: if `multiply` preserves `zero` and every power value is `zero`, every
/// cell of every source layer is `zero` after the distribution.
pub proof fn lemma_zero_power<M, T, F: Fn(&M, &[T]) -> Vec<T>>(
    description: StackDescription<M>,
    multiply: F,
    from: Seq<T>,
    before: Seq<T>,
    after: Seq<T>,
    zero: T,
    k: int,
    c: int,
)
    requires
        description.consistent(),
        before.len() == description.shape().total_cells(),
        description.total_elements() <= from.len(),
        forall|i: int| 0 <= i < from.len() ==> from[i] == zero,
        preserves_zero(multiply, zero),
        distributed(description, multiply, from, before, after),
        0 <= k < description.layers@.len(),
        description.is_source(k),
        description.cell_offset(k) <= c < description.cell_offset(k + 1),
    ensures
        0 <= c < after.len(),
        after[c] == zero,
{
    lemma_cell_block_within(description.shape(), k);
    lemma_cell_offset_step(description.shape(), k);
    lemma_power_offset_monotonic(description, k + 1, description.layers@.len() as int);
    assert(layer_distributed(description, multiply, from, before, after, k));
    let input = description.power_slice(from, k);
    let block = description.cell_block(after, k);
    assert(may_return(multiply, description.coefficients(k), input, block));
    let (xs, out): (&[T], Vec<T>) = choose|xs: &[T], out: Vec<T>|
        xs@ == input && out@ == block && #[trigger] call_ensures(
            multiply,
            (&description.coefficients(k), xs),
            out,
        );
    let offset = description.cell_offset(k);
    assert(out@[c - offset] == zero);
    assert(block[c - offset] == after[c]);
}

/// A single source layer with as many elements as cells, whose coefficients
/// make `multiply` return the power values as they are, receives the power
/// vector itself.
pub proof fn lemma_identity_round_trip<M, T, F: Fn(&M, &[T]) -> Vec<T>>(
    description: StackDescription<M>,
    multiply: F,
    from: Seq<T>,
    before: Seq<T>,
    after: Seq<T>,
)
    requires
        description.consistent(),
        description.layers@.len() == 1,
        description.is_source(0),
        before.len() == description.shape().total_cells(),
        from.len() == description.total_elements(),
        forall|xs: &[T], out: Vec<T>| #[trigger]
            call_ensures(multiply, (&description.coefficients(0), xs), out) ==> out@ == xs@,
        distributed(description, multiply, from, before, after),
    ensures
        after == from,
{
    reveal_with_fuel(StackDescription::power_offset, 2);
    lemma_cell_block_within(description.shape(), 0);
    lemma_cell_offset_step(description.shape(), 0);
    assert(layer_distributed(description, multiply, from, before, after, 0));
    assert(description.shape().total_cells() == description.shape().cells_per_layer())
        by (nonlinear_arith)
        requires
            description.shape().layers == 1,
            description.shape().total_cells() == description.shape().layers
                * description.shape().cells_per_layer(),
    ;
    assert(description.power_slice(from, 0) =~= from);
    assert(description.cell_block(after, 0) =~= after);
}

} // verus!
