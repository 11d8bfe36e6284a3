use power_grid::{
    new, BuildFailure, Dimensions, Error, Floorplan, Layer, LayerProfile, StackDescription,
};

/// A sparse matrix in compressed-column form.
#[derive(Debug, Clone)]
struct Matrix {
    rows: usize,
    column_pointers: Vec<usize>,
    row_indices: Vec<usize>,
    values: Vec<f64>,
}

impl Matrix {
    fn from_dense(dense: &[Vec<f64>]) -> Matrix {
        let rows = dense.len();
        let columns = if rows == 0 { 0 } else { dense[0].len() };
        let mut column_pointers = vec![0];
        let mut row_indices = Vec::new();
        let mut values = Vec::new();
        for column in 0..columns {
            for (row, line) in dense.iter().enumerate() {
                if line[column] != 0.0 {
                    row_indices.push(row);
                    values.push(line[column]);
                }
            }
            column_pointers.push(values.len());
        }
        Matrix { rows, column_pointers, row_indices, values }
    }

    fn identity(n: usize) -> Matrix {
        let mut dense = vec![vec![0.0; n]; n];
        for (i, line) in dense.iter_mut().enumerate() {
            line[i] = 1.0;
        }
        Matrix::from_dense(&dense)
    }
}

fn multiply(matrix: &Matrix, elements: &[f64]) -> Vec<f64> {
    let mut cells = vec![0.0; matrix.rows];
    for (column, power) in elements.iter().enumerate() {
        for at in matrix.column_pointers[column]..matrix.column_pointers[column + 1] {
            cells[matrix.row_indices[at]] += matrix.values[at] * power;
        }
    }
    cells
}

fn source(dense: &[Vec<f64>]) -> Layer<Matrix> {
    Layer {
        profile: LayerProfile::Source,
        floorplan: Some(Floorplan {
            element_count: dense[0].len(),
            coefficients: Matrix::from_dense(dense),
        }),
    }
}

fn ambient_source(dense: &[Vec<f64>]) -> Layer<Matrix> {
    Layer { profile: LayerProfile::SourceConnectedToAmbient, ..source(dense) }
}

fn other() -> Layer<Matrix> {
    Layer { profile: LayerProfile::Other, floorplan: None }
}

fn stack(rows: usize, columns: usize, layers: Vec<Layer<Matrix>>) -> StackDescription<Matrix> {
    StackDescription { dimensions: Dimensions::new(layers.len(), rows, columns).unwrap(), layers }
}

fn two_by_four() -> Vec<Vec<f64>> {
    vec![vec![0.5, 0.0], vec![0.5, 0.25], vec![0.0, 0.25], vec![0.0, 0.5]]
}

#[test]
fn end_to_end_example() {
    let description = stack(1, 4, vec![source(&two_by_four()), other()]);
    let grid = new(&description).unwrap();
    let from = [1.0, 2.0];
    let mut onto = [7.0, 7.0, 7.0, 7.0, -1.0, -2.0, -3.0, -4.0];
    assert_eq!(grid.distribute(&from, &mut onto, multiply), Ok(()));
    assert_eq!(onto, [0.5, 1.0, 0.5, 1.0, -1.0, -2.0, -3.0, -4.0]);
}

#[test]
fn source_block_is_overwritten_not_added_to() {
    let description = stack(2, 2, vec![source(&two_by_four())]);
    let grid = new(&description).unwrap();
    let mut onto = [100.0, 200.0, 300.0, 400.0];
    assert_eq!(grid.distribute(&[4.0, 8.0], &mut onto, multiply), Ok(()));
    assert_eq!(onto, [2.0, 4.0, 2.0, 4.0]);
}

#[test]
fn buffer_size_rejection() {
    let description = stack(1, 4, vec![source(&two_by_four()), other()]);
    let grid = new(&description).unwrap();
    assert_eq!(grid.cells(), 8);
    let from = [1.0, 2.0];
    for size in [0usize, 1, 4, 7, 9, 16] {
        let mut onto = vec![3.25; size];
        assert_eq!(grid.distribute(&from, &mut onto, multiply), Err(Error::InvalidBufferSize));
        assert_eq!(onto, vec![3.25; size]);
    }
}

#[test]
fn buffer_size_is_checked_before_the_power_vector_is_read() {
    let description = stack(1, 4, vec![source(&two_by_four()), other()]);
    let grid = new(&description).unwrap();
    let from: [f64; 0] = [];
    let mut onto = [5.0; 7];
    let result = grid.distribute(&from, &mut onto, |_: &Matrix, _: &[f64]| -> Vec<f64> {
        panic!("nothing is multiplied where the buffer is refused")
    });
    assert_eq!(result, Err(Error::InvalidBufferSize));
    assert_eq!(onto, [5.0; 7]);
}

#[test]
fn non_source_layers_are_untouched() {
    let sentinel = -12345.5;
    let description = stack(
        1,
        4,
        vec![other(), source(&two_by_four()), other(), ambient_source(&two_by_four()), other()],
    );
    let grid = new(&description).unwrap();
    let from = [1.0, 2.0, 3.0, 4.0];
    let mut onto = [sentinel; 20];
    assert_eq!(grid.distribute(&from, &mut onto, multiply), Ok(()));
    assert_eq!(onto[0..4], [sentinel; 4]);
    assert_eq!(onto[4..8], [0.5, 1.0, 0.5, 1.0]);
    assert_eq!(onto[8..12], [sentinel; 4]);
    assert_eq!(onto[12..16], [1.5, 2.5, 1.0, 2.0]);
    assert_eq!(onto[16..20], [sentinel; 4]);
}

#[test]
fn disjoint_layer_writes() {
    let upper = vec![vec![1.0, 2.0, 3.0], vec![0.0, 1.0, 0.0]];
    let lower = vec![vec![2.0, 0.0], vec![0.0, 3.0]];
    let description = stack(1, 2, vec![source(&upper), other(), ambient_source(&lower)]);
    let grid = new(&description).unwrap();
    assert_eq!(grid.elements(), 5);

    let mut first = [0.0; 6];
    assert_eq!(grid.distribute(&[1.0, 2.0, 3.0, 10.0, 20.0], &mut first, multiply), Ok(()));
    assert_eq!(first, [14.0, 2.0, 0.0, 0.0, 20.0, 60.0]);

    let mut permuted = [0.0; 6];
    assert_eq!(grid.distribute(&[3.0, 1.0, 2.0, 10.0, 20.0], &mut permuted, multiply), Ok(()));
    assert_eq!(permuted[0..2], [11.0, 1.0]);
    assert_eq!(permuted[2..6], first[2..6]);

    let mut swapped = [0.0; 6];
    assert_eq!(grid.distribute(&[1.0, 2.0, 3.0, 20.0, 10.0], &mut swapped, multiply), Ok(()));
    assert_eq!(swapped[0..4], first[0..4]);
    assert_eq!(swapped[4..6], [40.0, 30.0]);
}

#[test]
fn identity_coefficients_round_trip() {
    let description = StackDescription {
        dimensions: Dimensions::new(1, 2, 3).unwrap(),
        layers: vec![Layer {
            profile: LayerProfile::Source,
            floorplan: Some(Floorplan { element_count: 6, coefficients: Matrix::identity(6) }),
        }],
    };
    let grid = new(&description).unwrap();
    let from = [0.125, -2.0, 3.5, 4.0, 1e-9, 6e12];
    let mut onto = [9.0; 6];
    assert_eq!(grid.distribute(&from, &mut onto, multiply), Ok(()));
    assert_eq!(onto, from);
}

#[test]
fn zero_power_produces_zero_cells() {
    let description = stack(
        1,
        4,
        vec![source(&two_by_four()), other(), ambient_source(&two_by_four())],
    );
    let grid = new(&description).unwrap();
    let from = [0.0; 4];
    let mut onto = [8.0; 12];
    assert_eq!(grid.distribute(&from, &mut onto, multiply), Ok(()));
    assert_eq!(onto[0..4], [0.0; 4]);
    assert_eq!(onto[4..8], [8.0; 4]);
    assert_eq!(onto[8..12], [0.0; 4]);
}

#[test]
fn power_cursor_advances_only_over_source_layers() {
    let description = StackDescription {
        dimensions: Dimensions::new(4, 1, 1).unwrap(),
        layers: vec![
            Layer { profile: LayerProfile::Other, floorplan: None },
            Layer {
                profile: LayerProfile::Source,
                floorplan: Some(Floorplan { element_count: 2, coefficients: 10u64 }),
            },
            Layer { profile: LayerProfile::Other, floorplan: None },
            Layer {
                profile: LayerProfile::SourceConnectedToAmbient,
                floorplan: Some(Floorplan { element_count: 3, coefficients: 100u64 }),
            },
        ],
    };
    let grid = new(&description).unwrap();
    let from = [1u64, 2, 3, 4, 5];
    let mut onto = [0u64; 4];
    let weigh = |scale: &u64, elements: &[u64]| vec![scale * elements.iter().sum::<u64>()];
    assert_eq!(grid.distribute(&from, &mut onto, weigh), Ok(()));
    assert_eq!(onto, [0, 30, 0, 1200]);
}

#[test]
fn each_layer_is_handed_its_own_coefficients_and_elements() {
    let description = StackDescription {
        dimensions: Dimensions::new(3, 1, 2).unwrap(),
        layers: vec![
            Layer {
                profile: LayerProfile::Source,
                floorplan: Some(Floorplan { element_count: 1, coefficients: 'a' }),
            },
            Layer {
                profile: LayerProfile::Source,
                floorplan: Some(Floorplan { element_count: 0, coefficients: 'b' }),
            },
            Layer {
                profile: LayerProfile::Source,
                floorplan: Some(Floorplan { element_count: 2, coefficients: 'c' }),
            },
        ],
    };
    let grid = new(&description).unwrap();
    let from = [7i32, 8, 9];
    let mut onto = [0i32; 6];
    let describe = |name: &char, elements: &[i32]| {
        vec![*name as i32, elements.iter().sum::<i32>() * 10 + elements.len() as i32]
    };
    assert_eq!(grid.distribute(&from, &mut onto, describe), Ok(()));
    assert_eq!(onto, ['a' as i32, 71, 'b' as i32, 0, 'c' as i32, 172]);
}

#[test]
fn surplus_power_values_are_ignored() {
    let description = stack(1, 4, vec![source(&two_by_four())]);
    let grid = new(&description).unwrap();
    let mut onto = [0.0; 4];
    assert_eq!(grid.distribute(&[1.0, 2.0, 50.0, 60.0], &mut onto, multiply), Ok(()));
    assert_eq!(onto, [0.5, 1.0, 0.5, 1.0]);
}

#[test]
fn stack_without_sources_reads_and_writes_nothing() {
    let description = stack(2, 2, vec![other(), other(), other()]);
    let grid = new(&description).unwrap();
    assert_eq!(grid.elements(), 0);
    let from: [f64; 0] = [];
    let mut onto = [1.5; 12];
    assert_eq!(grid.distribute(&from, &mut onto, multiply), Ok(()));
    assert_eq!(onto, [1.5; 12]);
}

#[test]
fn dimensions_count_cells() {
    let dimensions = Dimensions::new(3, 4, 5).unwrap();
    assert_eq!(dimensions.layers(), 3);
    assert_eq!(dimensions.rows(), 4);
    assert_eq!(dimensions.columns(), 5);
    assert_eq!(dimensions.cells_per_layer(), 20);
    assert_eq!(dimensions.total_cells(), 60);
}

#[test]
fn dimensions_reject_zero() {
    let expected = Error::BuildFailure(BuildFailure::EmptyDimension);
    assert_eq!(Dimensions::new(0, 4, 5).unwrap_err(), expected);
    assert_eq!(Dimensions::new(3, 0, 5).unwrap_err(), expected);
    assert_eq!(Dimensions::new(3, 4, 0).unwrap_err(), expected);
    assert_eq!(Dimensions::new(0, usize::MAX, usize::MAX).unwrap_err(), expected);
}

#[test]
fn dimensions_reject_what_cannot_be_counted() {
    let expected = Error::BuildFailure(BuildFailure::TooManyCells);
    assert_eq!(Dimensions::new(1, usize::MAX, 2).unwrap_err(), expected);
    assert_eq!(Dimensions::new(2, usize::MAX, 1).unwrap_err(), expected);
    assert_eq!(Dimensions::new(2, 1, usize::MAX).unwrap_err(), expected);
    assert_eq!(Dimensions::new(1, 1, usize::MAX).unwrap().total_cells(), usize::MAX);
}

#[test]
fn build_rejects_wrong_number_of_layers() {
    let expected = Error::BuildFailure(BuildFailure::LayerCount);
    let mut description = stack(1, 4, vec![source(&two_by_four()), other()]);
    description.layers.pop();
    assert_eq!(new(&description).err(), Some(expected));
    description.layers.push(other());
    description.layers.push(other());
    assert_eq!(new(&description).err(), Some(expected));
    description.layers.clear();
    assert_eq!(new(&description).err(), Some(expected));
}

#[test]
fn build_rejects_source_without_floorplan() {
    let mut description = stack(1, 4, vec![other(), source(&two_by_four()), other()]);
    description.layers[1].floorplan = None;
    assert_eq!(
        new(&description).err(),
        Some(Error::BuildFailure(BuildFailure::MissingFloorplan { layer: 1 }))
    );
    description.layers[1].profile = LayerProfile::SourceConnectedToAmbient;
    assert_eq!(
        new(&description).err(),
        Some(Error::BuildFailure(BuildFailure::MissingFloorplan { layer: 1 }))
    );
}

#[test]
fn build_rejects_floorplan_without_source() {
    let mut description = stack(1, 4, vec![other(), other(), source(&two_by_four())]);
    description.layers[2].profile = LayerProfile::Other;
    assert_eq!(
        new(&description).err(),
        Some(Error::BuildFailure(BuildFailure::UnexpectedFloorplan { layer: 2 }))
    );
}

#[test]
fn build_reports_the_first_defect() {
    let mut description = stack(1, 4, vec![source(&two_by_four()), source(&two_by_four())]);
    description.layers[0].profile = LayerProfile::Other;
    description.layers[1].floorplan = None;
    assert_eq!(
        new(&description).err(),
        Some(Error::BuildFailure(BuildFailure::UnexpectedFloorplan { layer: 0 }))
    );
    description.layers.pop();
    assert_eq!(new(&description).err(), Some(Error::BuildFailure(BuildFailure::LayerCount)));
}

#[test]
fn build_rejects_elements_that_cannot_be_counted() {
    let huge = |element_count: usize| Layer {
        profile: LayerProfile::Source,
        floorplan: Some(Floorplan { element_count, coefficients: () }),
    };
    let description = StackDescription {
        dimensions: Dimensions::new(2, 1, 1).unwrap(),
        layers: vec![huge(usize::MAX), huge(1)],
    };
    assert_eq!(new(&description).err(), Some(Error::BuildFailure(BuildFailure::TooManyElements)));

    let mut description = StackDescription {
        dimensions: Dimensions::new(3, 1, 1).unwrap(),
        layers: vec![huge(usize::MAX), huge(1), huge(0)],
    };
    description.layers[2].floorplan = None;
    assert_eq!(
        new(&description).err(),
        Some(Error::BuildFailure(BuildFailure::MissingFloorplan { layer: 2 }))
    );

    let description = StackDescription {
        dimensions: Dimensions::new(2, 1, 1).unwrap(),
        layers: vec![huge(usize::MAX - 1), huge(1)],
    };
    assert_eq!(new(&description).unwrap().elements(), usize::MAX);
}

#[test]
fn grid_answers_for_its_stack() {
    let description = stack(2, 2, vec![other(), source(&two_by_four()), ambient_source(&two_by_four())]);
    let grid = new(&description).unwrap();
    assert_eq!(grid.dimensions().layers(), 3);
    assert_eq!(grid.dimensions().cells_per_layer(), 4);
    assert_eq!(grid.cells(), 12);
    assert_eq!(grid.elements(), 4);
    assert_eq!(grid.layer_profile(0), Some(LayerProfile::Other));
    assert_eq!(grid.layer_profile(1), Some(LayerProfile::Source));
    assert_eq!(grid.layer_profile(2), Some(LayerProfile::SourceConnectedToAmbient));
    assert_eq!(grid.layer_profile(3), None);
    assert!(grid.floorplan(0).is_none());
    assert_eq!(grid.floorplan(1).unwrap().element_count, 2);
    assert_eq!(grid.floorplan(2).unwrap().coefficients.values, vec![0.5, 0.5, 0.25, 0.25, 0.5]);
    assert!(grid.floorplan(3).is_none());
}

#[test]
fn profiles_tell_sources() {
    assert!(LayerProfile::Source.is_source());
    assert!(LayerProfile::SourceConnectedToAmbient.is_source());
    assert!(!LayerProfile::Other.is_source());
}

#[test]
fn errors_have_messages() {
    assert_eq!(Error::InvalidBufferSize.message(), "the size of the output buffer is invalid");
    assert_eq!(
        Error::BuildFailure(BuildFailure::EmptyDimension).message(),
        "failed to build the power grid: a dimension of the grid is zero"
    );
    assert_eq!(
        Error::BuildFailure(BuildFailure::TooManyCells).message(),
        "failed to build the power grid: the number of cells is too large"
    );
    assert_eq!(
        Error::BuildFailure(BuildFailure::LayerCount).message(),
        "failed to build the power grid: the number of layers is inconsistent"
    );
    assert_eq!(
        Error::BuildFailure(BuildFailure::MissingFloorplan { layer: 4 }).message(),
        "failed to build the power grid: a source layer has no floorplan"
    );
    assert_eq!(
        Error::BuildFailure(BuildFailure::UnexpectedFloorplan { layer: 0 }).message(),
        "failed to build the power grid: a layer without sources has a floorplan"
    );
    assert_eq!(
        Error::BuildFailure(BuildFailure::TooManyElements).message(),
        "failed to build the power grid: the number of elements is too large"
    );
}
