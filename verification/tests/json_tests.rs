use megrez::json::{infer_from_values, infer_schema_reader, InferState, JsonEntry, JsonValue};
use megrez::render::dtype_to_text;
use megrez::schema::DataType;

#[test]
fn infer_schema_flattens_fields() {
    let data = b"{\"a\":1,\"b\":null,\"c\":{\"d\":\"x\"}}\n{\"a\":2,\"c\":{\"d\":\"y\",\"e\":true}}\n";
    let schema = infer_schema_reader(data).expect("infer schema");

    let mut fields = schema
        .fields
        .iter()
        .map(|f| (f.name.clone(), dtype_to_text(&f.dtype), f.nullable))
        .collect::<Vec<_>>();
    fields.sort();

    let expected = vec![
        ("a".to_string(), "int".to_string(), false),
        ("b".to_string(), "null".to_string(), true),
        ("c.d".to_string(), "string".to_string(), false),
        ("c.e".to_string(), "bool".to_string(), true),
    ];
    assert_eq!(fields, expected);
}

#[test]
fn fields_come_out_sorted_by_path() {
    let data = b"{\"z\":1,\"a\":{\"q\":1,\"b\":2},\"m\":3}";
    let schema = infer_schema_reader(data).expect("infer schema");
    let names: Vec<&str> = schema.fields.iter().map(|f| f.name.as_str()).collect();
    assert_eq!(names, vec!["a.b", "a.q", "m", "z"]);
}

#[test]
fn top_level_array_elements_are_samples() {
    let data = b"[{\"a\":1},{\"a\":null}]";
    let schema = infer_schema_reader(data).expect("infer schema");
    assert_eq!(schema.fields.len(), 1);
    assert_eq!(schema.fields[0].name, "a");
    assert_eq!(schema.fields[0].dtype, DataType::Int);
    assert!(schema.fields[0].nullable);
}

#[test]
fn bare_scalar_becomes_value_field() {
    let schema = infer_schema_reader(b"5").expect("infer schema");
    assert_eq!(schema.fields.len(), 1);
    assert_eq!(schema.fields[0].name, "value");
    assert_eq!(schema.fields[0].dtype, DataType::Int);
    assert!(!schema.fields[0].nullable);
}

#[test]
fn numbers_split_into_int_and_float() {
    let schema = infer_schema_reader(b"{\"i\":1,\"f\":1.5,\"big\":18446744073709551615}")
        .expect("infer schema");
    let by_name = |n: &str| {
        schema
            .fields
            .iter()
            .find(|f| f.name == n)
            .expect("field present")
    };
    assert_eq!(by_name("i").dtype, DataType::Int);
    assert_eq!(by_name("f").dtype, DataType::Float);
    // An integral value beyond i64 is still held as u64, hence Int.
    assert_eq!(by_name("big").dtype, DataType::Int);
}

#[test]
fn array_field_merges_element_types() {
    let schema = infer_schema_reader(b"{\"xs\":[1,2.5]}").expect("infer schema");
    assert_eq!(schema.fields.len(), 1);
    assert_eq!(
        schema.fields[0].dtype,
        DataType::List(Box::new(DataType::Float))
    );
    assert!(!schema.fields[0].nullable);
}

#[test]
fn array_of_objects_exposes_both_views() {
    let schema = infer_schema_reader(b"{\"xs\":[{\"k\":1}]}").expect("infer schema");
    let names: Vec<&str> = schema.fields.iter().map(|f| f.name.as_str()).collect();
    assert_eq!(names, vec!["xs", "xs.k"]);
    assert_eq!(
        schema.fields[0].dtype,
        DataType::List(Box::new(DataType::Struct))
    );
    assert_eq!(schema.fields[1].dtype, DataType::Int);
}

#[test]
fn late_field_is_nullable_even_if_always_present_after() {
    let data = b"{\"a\":1}\n{\"a\":1,\"b\":2}\n{\"a\":1,\"b\":3}\n";
    let schema = infer_schema_reader(data).expect("infer schema");
    let a = schema.fields.iter().find(|f| f.name == "a").unwrap();
    let b = schema.fields.iter().find(|f| f.name == "b").unwrap();
    assert!(!a.nullable);
    assert!(b.nullable);
}

#[test]
fn absent_field_becomes_nullable() {
    let data = b"{\"a\":1,\"b\":2}\n{\"a\":1}\n";
    let schema = infer_schema_reader(data).expect("infer schema");
    let b = schema.fields.iter().find(|f| f.name == "b").unwrap();
    assert!(b.nullable);
}

#[test]
fn depth_cap_truncates_to_unknown() {
    // Ten nested levels: the object reached at depth eight folds to one
    // Unknown field at the eight-segment truncation path, and nothing
    // deeper is emitted.
    let data = b"{\"l1\":{\"l2\":{\"l3\":{\"l4\":{\"l5\":{\"l6\":{\"l7\":{\"l8\":{\"l9\":{\"l10\":1}}}}}}}}}}";
    let schema = infer_schema_reader(data).expect("infer schema");
    assert_eq!(schema.fields.len(), 1);
    assert_eq!(schema.fields[0].name, "l1.l2.l3.l4.l5.l6.l7.l8");
    assert_eq!(schema.fields[0].dtype, DataType::Unknown);
    assert!(schema.fields[0].nullable);
}

#[test]
fn array_sampling_caps_at_first_thousand() {
    let mut doc = String::from("{\"xs\":[");
    for _ in 0..1000 {
        doc.push_str("1,");
    }
    doc.push_str("\"tail\"]}");
    let schema = infer_schema_reader(doc.as_bytes()).expect("infer schema");
    // The string at index 1000 lies beyond the sampled window.
    assert_eq!(
        schema.fields[0].dtype,
        DataType::List(Box::new(DataType::Int))
    );
}

#[test]
fn malformed_json_reports_parse_error() {
    let err = infer_schema_reader(b"{\"a\": nope}").expect_err("must fail");
    assert_eq!(err.operation, "parse JSON value");
}

#[test]
fn infer_from_values_uses_sample_limit() {
    let values = vec![JsonValue::Int, JsonValue::Text];
    let schema = infer_from_values(&values, 1, 8, 1000);
    assert_eq!(schema.fields.len(), 1);
    assert_eq!(schema.fields[0].name, "value");
    assert_eq!(schema.fields[0].dtype, DataType::Int);
}

#[test]
fn infer_state_merges_repeated_observations() {
    let mut state = InferState::new();
    state.update_field("a", DataType::Int, false);
    state.update_field("a", DataType::Float, false);
    state.update_field("b", DataType::Null, true);
    let schema = state.finish();
    assert_eq!(schema.fields.len(), 2);
    assert_eq!(schema.fields[0].name, "a");
    assert_eq!(schema.fields[0].dtype, DataType::Float);
    assert!(!schema.fields[0].nullable);
    assert_eq!(schema.fields[1].name, "b");
    assert!(schema.fields[1].nullable);
}

#[test]
fn process_record_marks_missing_paths() {
    let mut state = InferState::new();
    let first = JsonValue::Object(vec![
        JsonEntry {
            key: "a".to_string(),
            value: JsonValue::Int,
        },
        JsonEntry {
            key: "b".to_string(),
            value: JsonValue::Bool,
        },
    ]);
    let second = JsonValue::Object(vec![JsonEntry {
        key: "a".to_string(),
        value: JsonValue::Int,
    }]);
    state.process_record(&first, 8, 1000);
    state.process_record(&second, 8, 1000);
    let schema = state.finish();
    assert_eq!(schema.fields[0].name, "a");
    assert!(!schema.fields[0].nullable);
    assert_eq!(schema.fields[1].name, "b");
    assert!(schema.fields[1].nullable);
}
