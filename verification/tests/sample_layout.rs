use recursion::sample_layout::{
    index_sample_layout, sampled_index, validate_preprocessed_log_sizes, ComponentPreprocessedUse,
    SampleCoordinate, VmAirProgramError,
};

fn samples() -> Vec<Vec<Vec<u8>>> {
    vec![
        vec![vec![1], vec![2, 3]],
        vec![],
        vec![vec![], vec![4, 5, 6]],
    ]
}

fn at(tree: usize, column: usize, point: usize) -> SampleCoordinate {
    SampleCoordinate { tree, column, point }
}

#[test]
fn sample_layout_is_tree_column_point_major() {
    let (coordinates, indices) = index_sample_layout(&samples());
    assert_eq!(
        coordinates,
        vec![at(0, 0, 0), at(0, 1, 0), at(0, 1, 1), at(2, 1, 0), at(2, 1, 1), at(2, 1, 2)]
    );
    assert_eq!(
        indices,
        vec![vec![vec![0], vec![1, 2]], vec![], vec![vec![], vec![3, 4, 5]]]
    );
}

#[test]
fn sample_layout_indices_invert_coordinates() {
    let (coordinates, indices) = index_sample_layout(&samples());
    for (flat, coordinate) in coordinates.iter().enumerate() {
        assert_eq!(
            sampled_index(&indices, coordinate.tree, coordinate.column, coordinate.point),
            Ok(flat)
        );
    }
}

#[test]
fn empty_samples_give_an_empty_layout() {
    let empty: Vec<Vec<Vec<u8>>> = Vec::new();
    let (coordinates, indices) = index_sample_layout(&empty);
    assert!(coordinates.is_empty());
    assert!(indices.is_empty());
}

#[test]
fn sampled_index_rejects_missing_coordinates() {
    let (_, indices) = index_sample_layout(&samples());
    assert_eq!(
        sampled_index(&indices, 3, 0, 0),
        Err(VmAirProgramError::SampleCoordinateOutOfRange { tree: 3, column: 0, point: 0 })
    );
    assert_eq!(
        sampled_index(&indices, 1, 0, 0),
        Err(VmAirProgramError::SampleCoordinateOutOfRange { tree: 1, column: 0, point: 0 })
    );
    assert_eq!(
        sampled_index(&indices, 0, 1, 2),
        Err(VmAirProgramError::SampleCoordinateOutOfRange { tree: 0, column: 1, point: 2 })
    );
}

#[test]
fn preprocessed_columns_of_the_component_size_are_accepted() {
    let components = vec![
        ComponentPreprocessedUse { log_size: 5, preprocessed_columns: vec![0, 2] },
        ComponentPreprocessedUse { log_size: 4, preprocessed_columns: vec![1] },
    ];
    assert_eq!(validate_preprocessed_log_sizes(&components, &[5, 4, 5]), Ok(()));
}

#[test]
fn preprocessed_column_of_another_size_is_rejected() {
    let components = vec![
        ComponentPreprocessedUse { log_size: 5, preprocessed_columns: vec![0, 1] },
        ComponentPreprocessedUse { log_size: 4, preprocessed_columns: vec![7] },
    ];
    assert_eq!(
        validate_preprocessed_log_sizes(&components, &[5, 4, 5]),
        Err(VmAirProgramError::PreprocessedLogSizeMismatch {
            component: 0,
            column: 1,
            expected: 4,
            actual: 5,
        })
    );
}

#[test]
fn missing_preprocessed_column_is_rejected() {
    let components = vec![
        ComponentPreprocessedUse { log_size: 5, preprocessed_columns: vec![0] },
        ComponentPreprocessedUse { log_size: 4, preprocessed_columns: vec![3] },
    ];
    assert_eq!(
        validate_preprocessed_log_sizes(&components, &[5, 4, 5]),
        Err(VmAirProgramError::PreprocessedColumnOutOfRange { component: 1, column: 3 })
    );
}
