//! The shape of the uniform grid.

use vstd::prelude::*;
use crate::error::{BuildFailure, Error};

verus! {

/// The mathematical shape of a grid: what a [`Dimensions`] stands for.
pub struct Shape {
    pub layers: nat,
    pub rows: nat,
    pub columns: nat,
}

impl Shape {
    /// The number of cells of one layer.
    pub open spec fn cells_per_layer(self) -> nat {
        self.rows * self.columns
    }

    /// The number of cells of the whole stack.
    pub open spec fn total_cells(self) -> nat {
        self.layers * self.cells_per_layer()
    }

    /// No dimension is zero.
    pub open spec fn nonempty(self) -> bool {
        self.layers > 0 && self.rows > 0 && self.columns > 0
    }

    /// No dimension is zero, and the cells can be counted in a `usize`.
    pub open spec fn valid(self) -> bool {
        self.nonempty() && self.total_cells() <= usize::MAX
    }

    /// The index of the first cell of layer `k` in a cell vector.
    pub open spec fn cell_offset(self, k: int) -> int {
        k * self.cells_per_layer()
    }

    /// The layer that cell `c` of a cell vector belongs to.
    pub open spec fn layer_of(self, c: int) -> int {
        c / (self.cells_per_layer() as int)
    }
}

/// The number of layers, rows and columns of a grid. A value of this type is
/// always valid in the sense of [`Shape::valid`].
#[derive(Debug, Clone, Copy)]
pub struct Dimensions {
    layers: usize,
    rows: usize,
    columns: usize,
}

impl View for Dimensions {
    type V = Shape;

    closed spec fn view(&self) -> Shape {
        Shape { layers: self.layers as nat, rows: self.rows as nat, columns: self.columns as nat }
    }
}

impl Dimensions {
    /// What holds of every value of this type.
    #[verifier::type_invariant]
    pub open spec fn well_formed(self) -> bool {
        self@.valid()
    }

    /// Dimensions of `layers` layers of `rows` by `columns` cells.
    ///
    /// Fails where one of the three is zero, and where their product does not
    /// fit in a `usize`.
    pub fn new(layers: usize, rows: usize, columns: usize) -> (result: Result<Dimensions, Error>)
        ensures
            Self::defect(layers, rows, columns) matches Some(failure)
                ==> result == Err::<Dimensions, Error>(Error::BuildFailure(failure)),
            Self::defect(layers, rows, columns) is None ==> result is Ok && result->Ok_0@ == (Shape {
                layers: layers as nat,
                rows: rows as nat,
                columns: columns as nat,
            }) && result->Ok_0@.valid(),
    {
        if layers == 0 || rows == 0 || columns == 0 {
            return Err(Error::BuildFailure(BuildFailure::EmptyDimension));
        }
        let per_layer = match rows.checked_mul(columns) {
            Some(n) => n,
            None => {
                proof {
                    lemma_product_grows(layers as int, rows * columns);
                }
                return Err(Error::BuildFailure(BuildFailure::TooManyCells));
            },
        };
        match layers.checked_mul(per_layer) {
            Some(_) => Ok(Dimensions { layers, rows, columns }),
            None => Err(Error::BuildFailure(BuildFailure::TooManyCells)),
        }
    }

    /// What is wrong with the three numbers as dimensions of a grid, if
    /// anything.
    pub open spec fn defect(layers: usize, rows: usize, columns: usize) -> Option<BuildFailure> {
        if layers == 0 || rows == 0 || columns == 0 {
            Some(BuildFailure::EmptyDimension)
        } else if layers * (rows * columns) > usize::MAX {
            Some(BuildFailure::TooManyCells)
        } else {
            None
        }
    }

    /// The number of layers.
    pub fn layers(&self) -> (n: usize)
        ensures
            n == self@.layers,
            n > 0,
    {
        proof {
            use_type_invariant(self);
        }
        self.layers
    }

    /// The number of rows of a layer.
    pub fn rows(&self) -> (n: usize)
        ensures
            n == self@.rows,
            n > 0,
    {
        proof {
            use_type_invariant(self);
        }
        self.rows
    }

    /// The number of columns of a layer.
    pub fn columns(&self) -> (n: usize)
        ensures
            n == self@.columns,
            n > 0,
    {
        proof {
            use_type_invariant(self);
        }
        self.columns
    }

    /// The number of cells of one layer, `rows * columns`.
    pub fn cells_per_layer(&self) -> (n: usize)
        ensures
            n == self@.cells_per_layer(),
            n > 0,
    {
        proof {
            use_type_invariant(self);
            lemma_product_grows(self.layers as int, self.rows * self.columns);
            lemma_product_positive(self.rows as int, self.columns as int);
        }
        self.rows * self.columns
    }

    /// The number of cells of the stack, `layers * rows * columns`.
    pub fn total_cells(&self) -> (n: usize)
        ensures
            n == self@.total_cells(),
            n > 0,
    {
        proof {
            use_type_invariant(self);
            lemma_product_grows(self.layers as int, self.rows * self.columns);
            lemma_product_positive(self.rows as int, self.columns as int);
            lemma_product_positive(self.layers as int, self.rows * self.columns);
        }
        self.layers * (self.rows * self.columns)
    }
}

/// A product with a positive factor is no smaller than the other factor.
proof fn lemma_product_grows(a: int, b: int)
    by (nonlinear_arith)
    requires
        a > 0,
        b >= 0,
    ensures
        a * b >= b,
{
}

/// A product of positive factors is positive.
proof fn lemma_product_positive(a: int, b: int)
    by (nonlinear_arith)
    requires
        a > 0,
        b > 0,
    ensures
        a * b > 0,
{
}

} // verus!
