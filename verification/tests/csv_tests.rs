use megrez::csv::{infer_from_rows, infer_scalar, infer_schema_reader};
use megrez::schema::DataType;

#[test]
fn infer_scalar_priority_order() {
    assert_eq!(infer_scalar(""), DataType::Null);
    assert_eq!(infer_scalar("   "), DataType::Null);
    assert_eq!(infer_scalar("true"), DataType::Bool);
    assert_eq!(infer_scalar("FALSE"), DataType::Bool);
    assert_eq!(infer_scalar("TrUe"), DataType::Bool);
    assert_eq!(infer_scalar("1"), DataType::Int);
    assert_eq!(infer_scalar(" 42 "), DataType::Int);
    assert_eq!(infer_scalar("+5"), DataType::Int);
    assert_eq!(infer_scalar("-17"), DataType::Int);
    assert_eq!(infer_scalar("2.5"), DataType::Float);
    assert_eq!(infer_scalar("1e5"), DataType::Float);
    assert_eq!(infer_scalar("-2.5E-3"), DataType::Float);
    assert_eq!(infer_scalar(".5"), DataType::Float);
    assert_eq!(infer_scalar("5."), DataType::Float);
    assert_eq!(infer_scalar("inf"), DataType::Float);
    assert_eq!(infer_scalar("Infinity"), DataType::Float);
    assert_eq!(infer_scalar("NaN"), DataType::Float);
    assert_eq!(infer_scalar("abc"), DataType::String);
    assert_eq!(infer_scalar("1.2.3"), DataType::String);
    assert_eq!(infer_scalar("."), DataType::String);
    assert_eq!(infer_scalar("--1"), DataType::String);
    assert_eq!(infer_scalar("1e"), DataType::String);
}

#[test]
fn infer_scalar_int_range_boundaries() {
    assert_eq!(infer_scalar("9223372036854775807"), DataType::Int);
    assert_eq!(infer_scalar("-9223372036854775808"), DataType::Int);
    // One past the signed range parses only as a float.
    assert_eq!(infer_scalar("9223372036854775808"), DataType::Float);
    assert_eq!(infer_scalar("-9223372036854775809"), DataType::Float);
}

#[test]
fn csv_column_int_with_empty_is_nullable() {
    let data = b"a,b\n1,x\n2,y\n,z\n";
    let schema = infer_schema_reader(data).expect("infer schema");
    assert_eq!(schema.fields.len(), 2);
    assert_eq!(schema.fields[0].name, "a");
    assert_eq!(schema.fields[0].dtype, DataType::Int);
    assert!(schema.fields[0].nullable);
    assert_eq!(schema.fields[1].name, "b");
    assert_eq!(schema.fields[1].dtype, DataType::String);
    assert!(!schema.fields[1].nullable);
}

#[test]
fn csv_column_int_widens_to_float() {
    let data = b"a\n1\n2.5\n";
    let schema = infer_schema_reader(data).expect("infer schema");
    assert_eq!(schema.fields[0].dtype, DataType::Float);
    assert!(!schema.fields[0].nullable);
}

#[test]
fn csv_column_bools() {
    let data = b"a\ntrue\nfalse\n";
    let schema = infer_schema_reader(data).expect("infer schema");
    assert_eq!(schema.fields[0].dtype, DataType::Bool);
    assert!(!schema.fields[0].nullable);
}

#[test]
fn csv_header_order_is_kept() {
    let data = b"zeta,alpha,mid\n1,x,true\n";
    let schema = infer_schema_reader(data).expect("infer schema");
    let names: Vec<&str> = schema.fields.iter().map(|f| f.name.as_str()).collect();
    assert_eq!(names, vec!["zeta", "alpha", "mid"]);
}

#[test]
fn csv_empty_input_gives_empty_schema() {
    let schema = infer_schema_reader(b"").expect("infer schema");
    assert_eq!(schema.fields.len(), 0);
}

#[test]
fn csv_short_row_pads_missing_cells_with_null() {
    // A row shorter than the header treats its missing trailing cells as
    // empty: the column keeps its type and becomes nullable.
    let schema = infer_schema_reader(b"a,b\n1,x\n2\n").expect("infer schema");
    assert_eq!(schema.fields[0].name, "a");
    assert_eq!(schema.fields[0].dtype, DataType::Int);
    assert!(!schema.fields[0].nullable);
    assert_eq!(schema.fields[1].name, "b");
    assert_eq!(schema.fields[1].dtype, DataType::String);
    assert!(schema.fields[1].nullable);
}

#[test]
fn csv_invalid_utf8_reports_parse_error() {
    let err = infer_schema_reader(b"a\n\xff\xfe\n").expect_err("non-UTF-8 field must fail");
    assert_eq!(err.operation, "read CSV record");
}

#[test]
fn csv_rows_shorter_than_header_pad_with_null() {
    let rows = vec![
        vec!["a".to_string(), "b".to_string()],
        vec!["1".to_string()],
    ];
    let schema = infer_from_rows(&rows, 1000);
    assert_eq!(schema.fields[0].dtype, DataType::Int);
    assert_eq!(schema.fields[1].dtype, DataType::Null);
    assert!(schema.fields[1].nullable);
}

#[test]
fn csv_sample_limit_bounds_rows() {
    let mut rows = vec![vec!["a".to_string()]];
    rows.push(vec!["1".to_string()]);
    rows.push(vec!["x".to_string()]);
    let schema = infer_from_rows(&rows, 1);
    assert_eq!(schema.fields[0].dtype, DataType::Int);
}
