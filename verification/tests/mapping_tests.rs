use megrez::avro::{infer_schema as avro_infer_schema, schema_to_dtype, AvroField, AvroType};
use megrez::parquet::{infer_schema as parquet_infer_schema, map_arrow_type, ColumnField, ColumnType};
use megrez::schema::DataType;

#[test]
fn avro_primitives_map_into_lattice() {
    assert_eq!(schema_to_dtype(&AvroType::Null), (DataType::Null, true));
    assert_eq!(schema_to_dtype(&AvroType::Boolean), (DataType::Bool, false));
    assert_eq!(schema_to_dtype(&AvroType::Int), (DataType::Int, false));
    assert_eq!(schema_to_dtype(&AvroType::Long), (DataType::Int, false));
    assert_eq!(schema_to_dtype(&AvroType::Float), (DataType::Float, false));
    assert_eq!(schema_to_dtype(&AvroType::Double), (DataType::Float, false));
    assert_eq!(schema_to_dtype(&AvroType::Bytes), (DataType::Bytes, false));
    assert_eq!(schema_to_dtype(&AvroType::Fixed), (DataType::Bytes, false));
    assert_eq!(schema_to_dtype(&AvroType::String), (DataType::String, false));
    assert_eq!(schema_to_dtype(&AvroType::Enum), (DataType::String, false));
    assert_eq!(schema_to_dtype(&AvroType::Uuid), (DataType::String, false));
    assert_eq!(schema_to_dtype(&AvroType::Decimal), (DataType::String, false));
    assert_eq!(schema_to_dtype(&AvroType::Duration), (DataType::String, false));
    assert_eq!(schema_to_dtype(&AvroType::Date), (DataType::Date, false));
    assert_eq!(
        schema_to_dtype(&AvroType::TimeMillis),
        (DataType::Timestamp, false)
    );
    assert_eq!(
        schema_to_dtype(&AvroType::TimestampMicros),
        (DataType::Timestamp, false)
    );
    assert_eq!(
        schema_to_dtype(&AvroType::LocalTimestampMillis),
        (DataType::Timestamp, false)
    );
    assert_eq!(schema_to_dtype(&AvroType::Mapping), (DataType::Struct, false));
    assert_eq!(schema_to_dtype(&AvroType::Ref), (DataType::Unknown, false));
}

#[test]
fn avro_array_maps_elementwise() {
    let t = AvroType::Array(Box::new(AvroType::Long));
    assert_eq!(
        schema_to_dtype(&t),
        (DataType::List(Box::new(DataType::Int)), false)
    );
}

#[test]
fn avro_union_nullable_iff_null_branch() {
    let with_null = AvroType::Union(vec![AvroType::Null, AvroType::String]);
    let (dtype, nullable) = schema_to_dtype(&with_null);
    assert!(nullable);
    // The union fold starts from Unknown, which absorbs every merge.
    assert_eq!(dtype, DataType::Unknown);

    let without_null = AvroType::Union(vec![AvroType::String]);
    let (_, nullable) = schema_to_dtype(&without_null);
    assert!(!nullable);
}

#[test]
fn avro_record_maps_fields_in_order() {
    let record = AvroType::Record(vec![
        AvroField {
            name: "id".to_string(),
            schema: AvroType::Long,
        },
        AvroField {
            name: "name".to_string(),
            schema: AvroType::String,
        },
    ]);
    let schema = avro_infer_schema(&record);
    assert_eq!(schema.fields.len(), 2);
    assert_eq!(schema.fields[0].name, "id");
    assert_eq!(schema.fields[0].dtype, DataType::Int);
    assert_eq!(schema.fields[1].name, "name");
    assert_eq!(schema.fields[1].dtype, DataType::String);
}

#[test]
fn avro_non_record_becomes_value_field() {
    let schema = avro_infer_schema(&AvroType::Double);
    assert_eq!(schema.fields.len(), 1);
    assert_eq!(schema.fields[0].name, "value");
    assert_eq!(schema.fields[0].dtype, DataType::Float);
    assert!(!schema.fields[0].nullable);
}

#[test]
fn parquet_types_map_into_lattice() {
    assert_eq!(map_arrow_type(&ColumnType::Boolean), DataType::Bool);
    assert_eq!(map_arrow_type(&ColumnType::Int8), DataType::Int);
    assert_eq!(map_arrow_type(&ColumnType::UInt64), DataType::Int);
    assert_eq!(map_arrow_type(&ColumnType::Float16), DataType::Float);
    assert_eq!(map_arrow_type(&ColumnType::Float64), DataType::Float);
    assert_eq!(map_arrow_type(&ColumnType::Utf8), DataType::String);
    assert_eq!(map_arrow_type(&ColumnType::LargeUtf8), DataType::String);
    assert_eq!(map_arrow_type(&ColumnType::Binary), DataType::Bytes);
    assert_eq!(map_arrow_type(&ColumnType::FixedSizeBinary), DataType::Bytes);
    assert_eq!(map_arrow_type(&ColumnType::Timestamp), DataType::Timestamp);
    assert_eq!(map_arrow_type(&ColumnType::Date32), DataType::Date);
    assert_eq!(map_arrow_type(&ColumnType::Date64), DataType::Date);
    assert_eq!(map_arrow_type(&ColumnType::Struct), DataType::Struct);
    assert_eq!(map_arrow_type(&ColumnType::Other), DataType::Unknown);
    assert_eq!(
        map_arrow_type(&ColumnType::List(Box::new(ColumnType::Utf8))),
        DataType::List(Box::new(DataType::String))
    );
    assert_eq!(
        map_arrow_type(&ColumnType::LargeList(Box::new(ColumnType::Int32))),
        DataType::List(Box::new(DataType::Int))
    );
}

#[test]
fn parquet_schema_keeps_declared_nullability() {
    let columns = vec![
        ColumnField {
            name: "id".to_string(),
            dtype: ColumnType::Int64,
            nullable: false,
        },
        ColumnField {
            name: "note".to_string(),
            dtype: ColumnType::Utf8,
            nullable: true,
        },
    ];
    let schema = parquet_infer_schema(&columns);
    assert_eq!(schema.fields.len(), 2);
    assert_eq!(schema.fields[0].name, "id");
    assert!(!schema.fields[0].nullable);
    assert_eq!(schema.fields[1].name, "note");
    assert!(schema.fields[1].nullable);
    assert_eq!(schema.fields[1].dtype, DataType::String);
}
