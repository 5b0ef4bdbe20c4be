//! Parquet schema mapping: the embedded columnar metadata already
//! declares every column, so mapping is a pure structural translation
//! into the canonical lattice, with field nullability taken directly
//! from the declared optionality.

use vstd::prelude::*;

use crate::schema::{DataType, Field, FieldModel, Schema};

verus! {

/// The physical/logical type of one declared column, as the mapping
/// reads it from the columnar metadata.
pub enum ColumnType {
    Boolean,
    Int8,
    Int16,
    Int32,
    Int64,
    UInt8,
    UInt16,
    UInt32,
    UInt64,
    Float16,
    Float32,
    Float64,
    Utf8,
    LargeUtf8,
    Binary,
    LargeBinary,
    FixedSizeBinary,
    Timestamp,
    Date32,
    Date64,
    Struct,
    List(Box<ColumnType>),
    LargeList(Box<ColumnType>),
    Other,
}

/// One declared column: its name, type, and declared optionality.
pub struct ColumnField {
    pub name: String,
    pub dtype: ColumnType,
    pub nullable: bool,
}

/// The lattice type of one declared column type: any integer width is
/// `Int`, any float width `Float`, any string variant `String`, any
/// binary variant `Bytes`, any timestamp unit `Timestamp`, both date
/// widths `Date`, lists map element-wise, and everything else is
/// `Unknown`.
pub open spec fn column_dtype_spec(t: ColumnType) -> DataType
    decreases t,
{
    match t {
        ColumnType::Boolean => DataType::Bool,
        ColumnType::Int8 => DataType::Int,
        ColumnType::Int16 => DataType::Int,
        ColumnType::Int32 => DataType::Int,
        ColumnType::Int64 => DataType::Int,
        ColumnType::UInt8 => DataType::Int,
        ColumnType::UInt16 => DataType::Int,
        ColumnType::UInt32 => DataType::Int,
        ColumnType::UInt64 => DataType::Int,
        ColumnType::Float16 => DataType::Float,
        ColumnType::Float32 => DataType::Float,
        ColumnType::Float64 => DataType::Float,
        ColumnType::Utf8 => DataType::String,
        ColumnType::LargeUtf8 => DataType::String,
        ColumnType::Binary => DataType::Bytes,
        ColumnType::LargeBinary => DataType::Bytes,
        ColumnType::FixedSizeBinary => DataType::Bytes,
        ColumnType::Timestamp => DataType::Timestamp,
        ColumnType::Date32 => DataType::Date,
        ColumnType::Date64 => DataType::Date,
        ColumnType::Struct => DataType::Struct,
        ColumnType::List(inner) => DataType::List(Box::new(column_dtype_spec(*inner))),
        ColumnType::LargeList(inner) => DataType::List(Box::new(column_dtype_spec(*inner))),
        ColumnType::Other => DataType::Unknown,
    }
}

/// Map one declared column type into the lattice.
pub fn map_arrow_type(t: &ColumnType) -> (r: DataType)
    ensures
        r == column_dtype_spec(*t),
    decreases *t,
{
    match t {
        ColumnType::Boolean => DataType::Bool,
        ColumnType::Int8 => DataType::Int,
        ColumnType::Int16 => DataType::Int,
        ColumnType::Int32 => DataType::Int,
        ColumnType::Int64 => DataType::Int,
        ColumnType::UInt8 => DataType::Int,
        ColumnType::UInt16 => DataType::Int,
        ColumnType::UInt32 => DataType::Int,
        ColumnType::UInt64 => DataType::Int,
        ColumnType::Float16 => DataType::Float,
        ColumnType::Float32 => DataType::Float,
        ColumnType::Float64 => DataType::Float,
        ColumnType::Utf8 => DataType::String,
        ColumnType::LargeUtf8 => DataType::String,
        ColumnType::Binary => DataType::Bytes,
        ColumnType::LargeBinary => DataType::Bytes,
        ColumnType::FixedSizeBinary => DataType::Bytes,
        ColumnType::Timestamp => DataType::Timestamp,
        ColumnType::Date32 => DataType::Date,
        ColumnType::Date64 => DataType::Date,
        ColumnType::Struct => DataType::Struct,
        ColumnType::List(inner) => DataType::List(Box::new(map_arrow_type(inner))),
        ColumnType::LargeList(inner) => DataType::List(Box::new(map_arrow_type(inner))),
        ColumnType::Other => DataType::Unknown,
    }
}

/// The unified field of one declared column.
pub open spec fn map_field_spec(f: ColumnField) -> FieldModel {
    (FieldModel { name: f.name@, dtype: column_dtype_spec(f.dtype), nullable: f.nullable })
}

/// Map one declared column to its unified field.
pub fn map_field(field: &ColumnField) -> (r: Field)
    ensures
        r@ == map_field_spec(*field),
{
    Field {
        name: field.name.clone(),
        dtype: map_arrow_type(&field.dtype),
        nullable: field.nullable,
    }
}

/// Translate the declared columns of a Parquet source into the unified
/// schema, in declaration order.
pub fn infer_schema(columns: &Vec<ColumnField>) -> (r: Schema)
    ensures
        r@.len() == columns@.len(),
        forall|i: int| 0 <= i < columns@.len() ==> r@[i] == map_field_spec(#[trigger] columns@[i]),
{
    let n = columns.len();
    let mut fields: Vec<Field> = Vec::new();
    let mut i: usize = 0;
    while i < n
        invariant
            0 <= i <= n,
            n == columns@.len(),
            fields@.len() == i,
            forall|k: int| 0 <= k < i ==> fields@[k]@ == map_field_spec(#[trigger] columns@[k]),
        decreases n - i,
    {
        let f = map_field(&columns[i]);
        fields.push(f);
        i = i + 1;
    }
    Schema { fields }
}

} // verus!
