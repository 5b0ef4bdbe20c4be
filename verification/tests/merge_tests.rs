use megrez::schema::DataType;

fn all_types() -> Vec<DataType> {
    vec![
        DataType::Null,
        DataType::Bool,
        DataType::Int,
        DataType::Float,
        DataType::String,
        DataType::Bytes,
        DataType::Timestamp,
        DataType::Date,
        DataType::Struct,
        DataType::List(Box::new(DataType::Int)),
        DataType::Unknown,
    ]
}

#[test]
fn merge_total_and_commutative_all_pairings() {
    let types = all_types();
    for a in &types {
        for b in &types {
            let ab = DataType::merge(a, b);
            let ba = DataType::merge(b, a);
            assert_eq!(ab, ba);
        }
    }
}

#[test]
fn merge_null_is_identity() {
    for x in all_types() {
        assert_eq!(DataType::merge(&DataType::Null, &x), x);
        assert_eq!(DataType::merge(&x, &DataType::Null), x);
    }
}

#[test]
fn merge_unknown_absorbs() {
    for x in all_types() {
        assert_eq!(DataType::merge(&DataType::Unknown, &x), DataType::Unknown);
        assert_eq!(DataType::merge(&x, &DataType::Unknown), DataType::Unknown);
    }
}

#[test]
fn merge_equal_types_keep_type() {
    for x in all_types() {
        assert_eq!(DataType::merge(&x, &x), x);
    }
}

#[test]
fn merge_widens_int_and_float() {
    assert_eq!(
        DataType::merge(&DataType::Int, &DataType::Float),
        DataType::Float
    );
    assert_eq!(
        DataType::merge(&DataType::Float, &DataType::Int),
        DataType::Float
    );
}

#[test]
fn merge_widens_scalar_with_string() {
    assert_eq!(
        DataType::merge(&DataType::Bool, &DataType::String),
        DataType::String
    );
    assert_eq!(
        DataType::merge(&DataType::Bool, &DataType::Int),
        DataType::String
    );
    assert_eq!(
        DataType::merge(&DataType::Float, &DataType::String),
        DataType::String
    );
}

#[test]
fn merge_lists_elementwise() {
    let a = DataType::List(Box::new(DataType::Int));
    let b = DataType::List(Box::new(DataType::Float));
    assert_eq!(
        DataType::merge(&a, &b),
        DataType::List(Box::new(DataType::Float))
    );
}

#[test]
fn merge_conflicts_degrade_to_unknown() {
    assert_eq!(
        DataType::merge(&DataType::Struct, &DataType::Int),
        DataType::Unknown
    );
    assert_eq!(
        DataType::merge(&DataType::Bytes, &DataType::String),
        DataType::Unknown
    );
    assert_eq!(
        DataType::merge(&DataType::List(Box::new(DataType::Int)), &DataType::Int),
        DataType::Unknown
    );
    assert_eq!(
        DataType::merge(&DataType::Timestamp, &DataType::Date),
        DataType::Unknown
    );
}
