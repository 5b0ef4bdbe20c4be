//! Rendering a schema as tab-separated text: an optional format-name
//! line, an optional column-header line, then one line per field.

use vstd::prelude::*;
use vstd::string::StringExecFns;

use crate::formats::{Format, format_name};
use crate::schema::{DataType, FieldModel, Schema};

verus! {

/// The textual name of a lattice type; a list wraps its element type in
/// angle brackets.
pub open spec fn dtype_text(d: DataType) -> Seq<char>
    decreases d,
{
    match d {
        DataType::Null => seq!['n', 'u', 'l', 'l'],
        DataType::Bool => seq!['b', 'o', 'o', 'l'],
        DataType::Int => seq!['i', 'n', 't'],
        DataType::Float => seq!['f', 'l', 'o', 'a', 't'],
        DataType::String => seq!['s', 't', 'r', 'i', 'n', 'g'],
        DataType::Bytes => seq!['b', 'y', 't', 'e', 's'],
        DataType::Timestamp => seq!['t', 'i', 'm', 'e', 's', 't', 'a', 'm', 'p'],
        DataType::Date => seq!['d', 'a', 't', 'e'],
        DataType::Struct => seq!['s', 't', 'r', 'u', 'c', 't'],
        DataType::List(inner) => seq!['l', 'i', 's', 't', '<'] + dtype_text(*inner) + seq!['>'],
        DataType::Unknown => seq!['u', 'n', 'k', 'n', 'o', 'w', 'n'],
    }
}

/// Render one lattice type as text.
pub fn dtype_to_text(d: &DataType) -> (r: String)
    ensures
        r@ == dtype_text(*d),
    decreases *d,
{
    proof {
        reveal_strlit("null");
        reveal_strlit("bool");
        reveal_strlit("int");
        reveal_strlit("float");
        reveal_strlit("string");
        reveal_strlit("bytes");
        reveal_strlit("timestamp");
        reveal_strlit("date");
        reveal_strlit("struct");
        reveal_strlit("list<");
        reveal_strlit(">");
        reveal_strlit("unknown");
        assert("null"@ =~= seq!['n', 'u', 'l', 'l']);
        assert("bool"@ =~= seq!['b', 'o', 'o', 'l']);
        assert("int"@ =~= seq!['i', 'n', 't']);
        assert("float"@ =~= seq!['f', 'l', 'o', 'a', 't']);
        assert("string"@ =~= seq!['s', 't', 'r', 'i', 'n', 'g']);
        assert("bytes"@ =~= seq!['b', 'y', 't', 'e', 's']);
        assert("timestamp"@ =~= seq!['t', 'i', 'm', 'e', 's', 't', 'a', 'm', 'p']);
        assert("date"@ =~= seq!['d', 'a', 't', 'e']);
        assert("struct"@ =~= seq!['s', 't', 'r', 'u', 'c', 't']);
        assert("list<"@ =~= seq!['l', 'i', 's', 't', '<']);
        assert(">"@ =~= seq!['>']);
        assert("unknown"@ =~= seq!['u', 'n', 'k', 'n', 'o', 'w', 'n']);
    }
    match d {
        DataType::Null => String::from_str("null"),
        DataType::Bool => String::from_str("bool"),
        DataType::Int => String::from_str("int"),
        DataType::Float => String::from_str("float"),
        DataType::String => String::from_str("string"),
        DataType::Bytes => String::from_str("bytes"),
        DataType::Timestamp => String::from_str("timestamp"),
        DataType::Date => String::from_str("date"),
        DataType::Struct => String::from_str("struct"),
        DataType::List(inner) => {
            let it = dtype_to_text(inner);
            let mut s = String::from_str("list<");
            s.append(it.as_str());
            s.append(">");
            proof {
                assert(s@ =~= dtype_text(*d));
            }
            s
        },
        DataType::Unknown => String::from_str("unknown"),
    }
}

/// The text of a nullability flag.
pub open spec fn bool_text(b: bool) -> Seq<char> {
    if b {
        seq!['t', 'r', 'u', 'e']
    } else {
        seq!['f', 'a', 'l', 's', 'e']
    }
}

/// One rendered field line: name, type and nullability, tab-separated.
pub open spec fn field_line(f: FieldModel) -> Seq<char> {
    f.name + seq!['\t'] + dtype_text(f.dtype) + seq!['\t'] + bool_text(f.nullable) + seq!['\n']
}

/// The first `n` field lines, concatenated in order.
pub open spec fn field_lines(fields: Seq<FieldModel>, n: int) -> Seq<char>
    decreases n,
{
    if n <= 0 {
        Seq::empty()
    } else {
        field_lines(fields, n - 1) + field_line(fields[n - 1])
    }
}

/// The full rendered text: an optional `format:` line, an optional
/// header row, then every field line in schema order.
pub open spec fn render_spec(
    fields: Seq<FieldModel>,
    format: Format,
    show_format_name: bool,
    show_columns: bool,
) -> Seq<char> {
    (if show_format_name {
        seq!['f', 'o', 'r', 'm', 'a', 't', ':', ' '] + format_name(format) + seq!['\n']
    } else {
        Seq::<char>::empty()
    }) + (if show_columns {
        seq!['n', 'a', 'm', 'e', '\t', 't', 'y', 'p', 'e', '\t', 'n', 'u', 'l', 'l', 'a', 'b', 'l', 'e', '\n']
    } else {
        Seq::<char>::empty()
    }) + field_lines(fields, fields.len() as int)
}

/// Render a schema, with the detected format's name and the column
/// header each shown on request.
#[verifier::loop_isolation(false)]
#[verifier::rlimit(60)]
pub fn render(schema: &Schema, format: Format, show_format_name: bool, show_columns: bool) -> (r:
    String)
    ensures
        r@ == render_spec(schema@, format, show_format_name, show_columns),
{
    proof {
        reveal_strlit("format: ");
        reveal_strlit("\n");
        reveal_strlit("name\ttype\tnullable\n");
        reveal_strlit("\t");
        reveal_strlit("true");
        reveal_strlit("false");
        assert("format: "@ =~= seq!['f', 'o', 'r', 'm', 'a', 't', ':', ' ']);
        assert("\n"@ =~= seq!['\n']);
        assert("name\ttype\tnullable\n"@ =~= seq![
            'n', 'a', 'm', 'e', '\t', 't', 'y', 'p', 'e', '\t', 'n', 'u', 'l', 'l', 'a', 'b', 'l', 'e', '\n',
        ]);
        assert("\t"@ =~= seq!['\t']);
        assert("true"@ =~= seq!['t', 'r', 'u', 'e']);
        assert("false"@ =~= seq!['f', 'a', 'l', 's', 'e']);
    }
    let mut out = String::new();
    if show_format_name {
        out.append("format: ");
        out.append(format.as_str());
        out.append("\n");
    }
    if show_columns {
        out.append("name\ttype\tnullable\n");
    }
    let ghost prefix = out@;
    proof {
        assert(prefix + Seq::<char>::empty() =~= prefix);
        assert(prefix =~= (if show_format_name {
            seq!['f', 'o', 'r', 'm', 'a', 't', ':', ' '] + format_name(format) + seq!['\n']
        } else {
            Seq::<char>::empty()
        }) + (if show_columns {
            seq!['n', 'a', 'm', 'e', '\t', 't', 'y', 'p', 'e', '\t', 'n', 'u', 'l', 'l', 'a', 'b', 'l', 'e', '\n']
        } else {
            Seq::<char>::empty()
        }));
    }
    let n = schema.fields.len();
    let mut i: usize = 0;
    while i < n
        invariant
            0 <= i <= n,
            out@ == prefix + field_lines(schema@, i as int),
        decreases n - i,
    {
        let f = &schema.fields[i];
        out.append(f.name.as_str());
        out.append("\t");
        let dt = dtype_to_text(&f.dtype);
        out.append(dt.as_str());
        out.append("\t");
        if f.nullable {
            out.append("true");
        } else {
            out.append("false");
        }
        out.append("\n");
        proof {
            assert(schema@[i as int] == schema.fields@[i as int]@);
            assert(out@ =~= prefix + field_lines(schema@, i as int + 1));
        }
        i = i + 1;
    }
    proof {
        assert(out@ =~= render_spec(schema@, format, show_format_name, show_columns));
    }
    out
}

} // verus!
