use megrez::errors::UnsupportedFormatError;
use megrez::formats::{Format, FormatArg};
use megrez::orc;
use megrez::render::{dtype_to_text, render};
use megrez::schema::{DataType, Field, Schema};

#[test]
fn sort_by_name_orders_fields() {
    let mut schema = Schema {
        fields: vec![
            Field {
                name: "b".to_string(),
                dtype: DataType::Int,
                nullable: false,
            },
            Field {
                name: "a.c".to_string(),
                dtype: DataType::Bool,
                nullable: true,
            },
            Field {
                name: "a".to_string(),
                dtype: DataType::String,
                nullable: false,
            },
        ],
    };
    schema.sort_by_name();
    let names: Vec<&str> = schema.fields.iter().map(|f| f.name.as_str()).collect();
    assert_eq!(names, vec!["a", "a.c", "b"]);
    assert_eq!(schema.fields[0].dtype, DataType::String);
}

#[test]
fn sort_by_name_is_stable_on_equal_names() {
    let mut schema = Schema {
        fields: vec![
            Field {
                name: "k".to_string(),
                dtype: DataType::Int,
                nullable: false,
            },
            Field {
                name: "a".to_string(),
                dtype: DataType::Bool,
                nullable: false,
            },
            Field {
                name: "k".to_string(),
                dtype: DataType::String,
                nullable: true,
            },
        ],
    };
    schema.sort_by_name();
    let names: Vec<&str> = schema.fields.iter().map(|f| f.name.as_str()).collect();
    assert_eq!(names, vec!["a", "k", "k"]);
    // The two equal-named fields keep their original relative order.
    assert_eq!(schema.fields[1].dtype, DataType::Int);
    assert_eq!(schema.fields[2].dtype, DataType::String);
}

#[test]
fn format_names() {
    assert_eq!(Format::Json.as_str(), "JSON");
    assert_eq!(Format::Csv.as_str(), "CSV");
    assert_eq!(Format::Parquet.as_str(), "PARQUET");
    assert_eq!(Format::Avro.as_str(), "AVRO");
    assert_eq!(Format::Orc.as_str(), "ORC");
}

#[test]
fn format_arg_selects_format() {
    assert_eq!(FormatArg::Json.to_format(), Format::Json);
    assert_eq!(FormatArg::Csv.to_format(), Format::Csv);
    assert_eq!(FormatArg::Parquet.to_format(), Format::Parquet);
    assert_eq!(FormatArg::Avro.to_format(), Format::Avro);
    assert_eq!(FormatArg::Orc.to_format(), Format::Orc);
}

#[test]
fn dtype_text_nests_lists() {
    assert_eq!(dtype_to_text(&DataType::Timestamp), "timestamp");
    assert_eq!(
        dtype_to_text(&DataType::List(Box::new(DataType::List(Box::new(
            DataType::Int
        ))))),
        "list<list<int>>"
    );
}

#[test]
fn render_prints_header_and_rows() {
    let schema = Schema {
        fields: vec![
            Field {
                name: "a".to_string(),
                dtype: DataType::Int,
                nullable: false,
            },
            Field {
                name: "b".to_string(),
                dtype: DataType::List(Box::new(DataType::Float)),
                nullable: true,
            },
        ],
    };
    let text = render(&schema, Format::Csv, true, true);
    assert_eq!(
        text,
        "format: CSV\nname\ttype\tnullable\na\tint\tfalse\nb\tlist<float>\ttrue\n"
    );
}

#[test]
fn render_respects_visibility_flags() {
    let schema = Schema {
        fields: vec![Field {
            name: "a".to_string(),
            dtype: DataType::Bool,
            nullable: false,
        }],
    };
    let text = render(&schema, Format::Json, false, false);
    assert_eq!(text, "a\tbool\tfalse\n");
    let text = render(&schema, Format::Json, true, false);
    assert_eq!(text, "format: JSON\na\tbool\tfalse\n");
}

#[test]
fn orc_support_is_absent() {
    let err = orc::infer_schema().expect_err("orc is disabled");
    assert_eq!(
        err.message(),
        "ORC support is disabled; rebuild with --features orc"
    );
    let err = orc::cat(Some(3)).expect_err("orc is disabled");
    assert_eq!(
        err.message(),
        "ORC support is disabled; rebuild with --features orc"
    );
}

#[test]
fn unsupported_format_error_keeps_message() {
    let err = UnsupportedFormatError::new("no such mode".to_string());
    assert_eq!(err.message(), "no such mode");
}
