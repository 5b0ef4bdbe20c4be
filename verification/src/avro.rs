//! Avro schema mapping: a declared writer schema translates structurally
//! into the canonical lattice, with no sampling. A union is nullable
//! exactly when one branch is null; its type is the merge, starting from
//! `Unknown`, of the mapped non-null branches.

use vstd::prelude::*;

use crate::schema::{DataType, Field, FieldModel, Schema, spec_merge};

verus! {

broadcast use {
    vstd::std_specs::vec::axiom_vec_decreases_to_view,
    vstd::seq::axiom_seq_index_decreases,
};

/// One field of an Avro record declaration.
pub struct AvroField {
    pub name: String,
    pub schema: AvroType,
}

/// The shape of a declared Avro schema, as the mapping reads it: every
/// primitive and logical type the Avro specification declares, arrays
/// with their item schema, unions with their branches, records with
/// their fields, and an unresolved named-type reference.
pub enum AvroType {
    Null,
    Boolean,
    Int,
    Long,
    Float,
    Double,
    Bytes,
    String,
    Array(Box<AvroType>),
    Mapping,
    Union(Vec<AvroType>),
    Record(Vec<AvroField>),
    Enum,
    Fixed,
    Decimal,
    BigDecimal,
    Uuid,
    Date,
    TimeMillis,
    TimeMicros,
    TimestampMillis,
    TimestampMicros,
    TimestampNanos,
    LocalTimestampMillis,
    LocalTimestampMicros,
    LocalTimestampNanos,
    Duration,
    Ref,
}

/// The lattice type and nullability of one declared Avro schema.
pub open spec fn avro_dtype_spec(s: AvroType) -> (DataType, bool)
    decreases s, 0int,
{
    match s {
        AvroType::Null => (DataType::Null, true),
        AvroType::Boolean => (DataType::Bool, false),
        AvroType::Int => (DataType::Int, false),
        AvroType::Long => (DataType::Int, false),
        AvroType::Float => (DataType::Float, false),
        AvroType::Double => (DataType::Float, false),
        AvroType::Bytes => (DataType::Bytes, false),
        AvroType::Fixed => (DataType::Bytes, false),
        AvroType::String => (DataType::String, false),
        AvroType::Enum => (DataType::String, false),
        AvroType::Uuid => (DataType::String, false),
        AvroType::Decimal => (DataType::String, false),
        AvroType::BigDecimal => (DataType::String, false),
        AvroType::Date => (DataType::Date, false),
        AvroType::TimeMillis => (DataType::Timestamp, false),
        AvroType::TimeMicros => (DataType::Timestamp, false),
        AvroType::TimestampMillis => (DataType::Timestamp, false),
        AvroType::TimestampMicros => (DataType::Timestamp, false),
        AvroType::TimestampNanos => (DataType::Timestamp, false),
        AvroType::LocalTimestampMillis => (DataType::Timestamp, false),
        AvroType::LocalTimestampMicros => (DataType::Timestamp, false),
        AvroType::LocalTimestampNanos => (DataType::Timestamp, false),
        AvroType::Array(item) => (
            DataType::List(Box::new(avro_dtype_spec(*item).0)),
            false,
        ),
        AvroType::Mapping => (DataType::Struct, false),
        AvroType::Record(_) => (DataType::Struct, false),
        AvroType::Duration => (DataType::String, false),
        AvroType::Union(variants) => union_fold_spec(variants@, variants@.len() as int),
        AvroType::Ref => (DataType::Unknown, false),
    }
}

/// The fold over the first `n` union branches: a null branch sets
/// nullability and is skipped; every other branch's mapped type merges
/// into the running type, which starts at `Unknown`.
pub open spec fn union_fold_spec(variants: Seq<AvroType>, n: int) -> (DataType, bool)
    decreases variants, n,
{
    if n <= 0 || n > variants.len() {
        (DataType::Unknown, false)
    } else {
        let prev = union_fold_spec(variants, n - 1);
        if variants[n - 1] is Null {
            (prev.0, true)
        } else {
            (spec_merge(prev.0, avro_dtype_spec(variants[n - 1]).0), prev.1)
        }
    }
}

/// Map one declared Avro schema to its lattice type and nullability.
#[verifier::loop_isolation(false)]
pub fn schema_to_dtype(schema: &AvroType) -> (r: (DataType, bool))
    ensures
        r == avro_dtype_spec(*schema),
    decreases *schema,
{
    match schema {
        AvroType::Null => (DataType::Null, true),
        AvroType::Boolean => (DataType::Bool, false),
        AvroType::Int => (DataType::Int, false),
        AvroType::Long => (DataType::Int, false),
        AvroType::Float => (DataType::Float, false),
        AvroType::Double => (DataType::Float, false),
        AvroType::Bytes => (DataType::Bytes, false),
        AvroType::Fixed => (DataType::Bytes, false),
        AvroType::String => (DataType::String, false),
        AvroType::Enum => (DataType::String, false),
        AvroType::Uuid => (DataType::String, false),
        AvroType::Decimal => (DataType::String, false),
        AvroType::BigDecimal => (DataType::String, false),
        AvroType::Date => (DataType::Date, false),
        AvroType::TimeMillis => (DataType::Timestamp, false),
        AvroType::TimeMicros => (DataType::Timestamp, false),
        AvroType::TimestampMillis => (DataType::Timestamp, false),
        AvroType::TimestampMicros => (DataType::Timestamp, false),
        AvroType::TimestampNanos => (DataType::Timestamp, false),
        AvroType::LocalTimestampMillis => (DataType::Timestamp, false),
        AvroType::LocalTimestampMicros => (DataType::Timestamp, false),
        AvroType::LocalTimestampNanos => (DataType::Timestamp, false),
        AvroType::Array(item) => {
            let inner = schema_to_dtype(item);
            (DataType::List(Box::new(inner.0)), false)
        },
        AvroType::Mapping => (DataType::Struct, false),
        AvroType::Record(_) => (DataType::Struct, false),
        AvroType::Duration => (DataType::String, false),
        AvroType::Union(variants) => {
            let mut dtype = DataType::Unknown;
            let mut nullable = false;
            let n = variants.len();
            let mut i: usize = 0;
            while i < n
                invariant
                    0 <= i <= n,
                    (dtype, nullable) == union_fold_spec(variants@, i as int),
                decreases n - i,
            {
                match &variants[i] {
                    AvroType::Null => {
                        nullable = true;
                    },
                    other => {
                        let next = schema_to_dtype(other);
                        let merged = DataType::merge(&dtype, &next.0);
                        dtype = merged;
                    },
                }
                i = i + 1;
            }
            (dtype, nullable)
        },
        AvroType::Ref => (DataType::Unknown, false),
    }
}

/// The fields a declared writer schema yields: a record maps each of
/// its fields in order; any other schema becomes one field named
/// `value`.
pub open spec fn avro_schema_spec(s: AvroType) -> Seq<FieldModel> {
    match s {
        AvroType::Record(fields) => Seq::new(
            fields@.len(),
            |i: int|
                (FieldModel {
                    name: fields@[i].name@,
                    dtype: avro_dtype_spec(fields@[i].schema).0,
                    nullable: avro_dtype_spec(fields@[i].schema).1,
                }),
        ),
        _ => seq![
            (FieldModel {
                name: seq!['v', 'a', 'l', 'u', 'e'],
                dtype: avro_dtype_spec(s).0,
                nullable: avro_dtype_spec(s).1,
            }),
        ],
    }
}

/// Translate a declared Avro writer schema into the unified schema: a
/// pure structural mapping, no sampling.
pub fn infer_schema(schema: &AvroType) -> (r: Schema)
    ensures
        r@ == avro_schema_spec(*schema),
{
    match schema {
        AvroType::Record(record_fields) => {
            let n = record_fields.len();
            let mut fields: Vec<Field> = Vec::new();
            let mut i: usize = 0;
            while i < n
                invariant
                    0 <= i <= n,
                    n == record_fields@.len(),
                    fields@.len() == i,
                    forall|k: int|
                        0 <= k < i ==> #[trigger] fields@[k]@ == (FieldModel {
                            name: record_fields@[k].name@,
                            dtype: avro_dtype_spec(record_fields@[k].schema).0,
                            nullable: avro_dtype_spec(record_fields@[k].schema).1,
                        }),
                decreases n - i,
            {
                let mapped = schema_to_dtype(&record_fields[i].schema);
                fields.push(
                    Field {
                        name: record_fields[i].name.clone(),
                        dtype: mapped.0,
                        nullable: mapped.1,
                    },
                );
                i = i + 1;
            }
            let r = Schema { fields };
            proof {
                assert(r@ =~= avro_schema_spec(*schema));
            }
            r
        },
        other => {
            let mapped = schema_to_dtype(other);
            proof {
                reveal_strlit("value");
                assert("value"@ =~= seq!['v', 'a', 'l', 'u', 'e']);
            }
            let mut fields: Vec<Field> = Vec::new();
            fields.push(
                Field { name: String::from_str("value"), dtype: mapped.0, nullable: mapped.1 },
            );
            let r = Schema { fields };
            proof {
                assert(r@ =~= avro_schema_spec(*schema));
            }
            r
        },
    }
}

} // verus!
