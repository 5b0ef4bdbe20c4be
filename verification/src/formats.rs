//! The closed set of formats the detector can name, and the
//! caller-facing override argument that bypasses detection.

use vstd::prelude::*;

verus! {

/// A structured-data format the detector can select.
#[derive(Debug, Clone, Copy, PartialEq, Eq, Structural)]
pub enum Format {
    Json,
    Csv,
    Parquet,
    Avro,
    Orc,
}

/// The display name of a format.
pub open spec fn format_name(f: Format) -> Seq<char> {
    match f {
        Format::Json => seq!['J', 'S', 'O', 'N'],
        Format::Csv => seq!['C', 'S', 'V'],
        Format::Parquet => seq!['P', 'A', 'R', 'Q', 'U', 'E', 'T'],
        Format::Avro => seq!['A', 'V', 'R', 'O'],
        Format::Orc => seq!['O', 'R', 'C'],
    }
}

impl Format {
    /// The canonical upper-case name of the format.
    pub fn as_str(&self) -> (r: &'static str)
        ensures
            r@ == format_name(*self),
    {
        proof {
            reveal_strlit("JSON");
            reveal_strlit("CSV");
            reveal_strlit("PARQUET");
            reveal_strlit("AVRO");
            reveal_strlit("ORC");
            assert("JSON"@ =~= format_name(Format::Json));
            assert("CSV"@ =~= format_name(Format::Csv));
            assert("PARQUET"@ =~= format_name(Format::Parquet));
            assert("AVRO"@ =~= format_name(Format::Avro));
            assert("ORC"@ =~= format_name(Format::Orc));
        }
        match self {
            Format::Json => "JSON",
            Format::Csv => "CSV",
            Format::Parquet => "PARQUET",
            Format::Avro => "AVRO",
            Format::Orc => "ORC",
        }
    }
}

/// A format named by the caller to bypass detection.
#[derive(Debug, Clone, Copy, PartialEq, Eq, Structural)]
pub enum FormatArg {
    Json,
    Csv,
    Parquet,
    Avro,
    Orc,
}

impl FormatArg {
    /// The format this argument selects.
    pub fn to_format(self) -> (r: Format)
        ensures
            r == (match self {
                FormatArg::Json => Format::Json,
                FormatArg::Csv => Format::Csv,
                FormatArg::Parquet => Format::Parquet,
                FormatArg::Avro => Format::Avro,
                FormatArg::Orc => Format::Orc,
            }),
    {
        match self {
            FormatArg::Json => Format::Json,
            FormatArg::Csv => Format::Csv,
            FormatArg::Parquet => Format::Parquet,
            FormatArg::Avro => Format::Avro,
            FormatArg::Orc => Format::Orc,
        }
    }
}

} // verus!
