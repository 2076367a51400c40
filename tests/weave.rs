use weavers::{
    Coords, CoordsData, Dimension, DimensionKind, Exponential, Kernel, Matrix, Output, ShapeError,
    Tricubic, Weave,
};

fn output() -> Output {
    Output {
        path: "example/result.parquet".to_string(),
        values: "prediction".to_string(),
    }
}

fn generic(kernel: Kernel<f32>, data: Vec<f32>, pred: Vec<f32>) -> Dimension<f32> {
    let coords = CoordsData::new(Matrix::new(data, 1).unwrap(), Matrix::new(pred, 1).unwrap());
    Dimension::from_parts(DimensionKind::Generic, kernel, Coords::Continuous(coords.unwrap()))
        .unwrap()
}

#[test]
fn weave_with_matching_shapes() {
    let dim0 = generic(Kernel::Exponential(Exponential::new(1.0)), vec![0.0, 1.0], vec![0.0]);
    let dim1 = generic(Kernel::Tricubic(Tricubic::new(1.0, 0.5)), vec![0.0, 1.0], vec![0.0]);
    let weave = Weave::new(vec![dim0, dim1], vec![1.0, 1.0], (2, 1), output()).unwrap();
    assert_eq!(weave.lens(), (2, 1));
    assert_eq!(weave.values(), &[1.0_f32, 1.0]);
    assert_eq!(weave.dimensions().len(), 2);
    assert_eq!(weave.output().values, "prediction");
}

#[test]
fn weave_rejects_values_of_wrong_length() {
    let dim = generic(Kernel::Exponential(Exponential::new(1.0)), vec![0.0, 1.0], vec![0.0]);
    match Weave::new(vec![dim], vec![1.0], (2, 1), output()) {
        Err(e) => assert_eq!(e, ShapeError::ValueCount { expected: 2, found: 1 }),
        Ok(_) => panic!("one value for two rows"),
    }
}

#[test]
fn weave_rejects_first_dimension_with_other_row_counts() {
    let good = generic(Kernel::Exponential(Exponential::new(1.0)), vec![0.0, 1.0], vec![0.0]);
    let short = generic(Kernel::Exponential(Exponential::new(1.0)), vec![0.0], vec![0.0]);
    let wide = generic(Kernel::Exponential(Exponential::new(1.0)), vec![0.0, 1.0], vec![0.0, 3.0]);
    match Weave::new(vec![good, short, wide], vec![1.0, 2.0], (2, 1), output()) {
        Err(e) => assert_eq!(e, ShapeError::RowCount { expected: 2, found: 1 }),
        Ok(_) => panic!("second dimension has one observed row"),
    }
    let good = generic(Kernel::Exponential(Exponential::new(1.0)), vec![0.0, 1.0], vec![0.0]);
    let wide = generic(Kernel::Exponential(Exponential::new(1.0)), vec![0.0, 1.0], vec![0.0, 3.0]);
    match Weave::new(vec![good, wide], vec![1.0, 2.0], (2, 1), output()) {
        Err(e) => assert_eq!(e, ShapeError::RowCount { expected: 1, found: 2 }),
        Ok(_) => panic!("second dimension has two query rows"),
    }
}

#[test]
fn weave_without_dimensions_needs_only_values() {
    let weave: Weave<f32> = Weave::new(vec![], vec![3.0, 4.0], (2, 5), output()).unwrap();
    assert_eq!(weave.lens(), (2, 5));
}
