use weavers::{select_columns, ColumnError, ColumnSchema, PhysicalType};

fn schema() -> Vec<ColumnSchema> {
    vec![
        ColumnSchema { name: "lat".to_string(), physical_type: PhysicalType::Float },
        ColumnSchema { name: "region".to_string(), physical_type: PhysicalType::Int32 },
        ColumnSchema { name: "year".to_string(), physical_type: PhysicalType::Float },
        ColumnSchema { name: "location".to_string(), physical_type: PhysicalType::Int32 },
        ColumnSchema { name: "year".to_string(), physical_type: PhysicalType::Int64 },
    ]
}

#[test]
fn selects_columns_in_requested_order() {
    let wanted = vec!["location".to_string(), "region".to_string()];
    assert_eq!(select_columns(&schema(), &wanted, PhysicalType::Int32), Ok(vec![3, 1]));
}

#[test]
fn selects_first_column_of_a_repeated_name() {
    let wanted = vec!["year".to_string(), "lat".to_string(), "year".to_string()];
    assert_eq!(select_columns(&schema(), &wanted, PhysicalType::Float), Ok(vec![2, 0, 2]));
}

#[test]
fn missing_column_is_reported_before_any_type() {
    let wanted = vec!["lat".to_string(), "depth".to_string(), "height".to_string()];
    assert_eq!(
        select_columns(&schema(), &wanted, PhysicalType::Int32),
        Err(ColumnError::ColumnMissing("depth".to_string()))
    );
}

#[test]
fn first_column_of_other_type_is_reported() {
    let wanted = vec!["region".to_string(), "lat".to_string(), "year".to_string()];
    assert_eq!(
        select_columns(&schema(), &wanted, PhysicalType::Int32),
        Err(ColumnError::TypeMismatch("lat".to_string()))
    );
}

#[test]
fn no_columns_wanted_selects_nothing() {
    assert_eq!(select_columns(&schema(), &[], PhysicalType::Double), Ok(vec![]));
}
