//! Format detection: an ordered strategy chain over a byte source. For
//! seekable sources the chain is magic bytes (head, then Parquet footer),
//! file extension, then content sniff; a single-pass stream prefix skips
//! the footer and extension strategies and falls back to a first-byte
//! test.

use vstd::prelude::*;

use crate::errors::UnsupportedFormatError;
use crate::formats::Format;
use crate::text::str_eq_ci;
use crate::util::{first_non_ws, first_non_ws_index, first_non_ws_pos};

verus! {

/// The 4-byte Parquet magic `PAR1` opens the source.
pub open spec fn starts_with_parquet_magic(d: Seq<u8>) -> bool {
    d.len() >= 4 && d[0] == 80 && d[1] == 65 && d[2] == 82 && d[3] == 49
}

/// The 4-byte Avro object-container magic `Obj\x01` opens the source.
pub open spec fn starts_with_avro_magic(d: Seq<u8>) -> bool {
    d.len() >= 4 && d[0] == 79 && d[1] == 98 && d[2] == 106 && d[3] == 1
}

/// The 3-byte ORC magic `ORC` opens the source.
pub open spec fn starts_with_orc_magic(d: Seq<u8>) -> bool {
    d.len() >= 3 && d[0] == 79 && d[1] == 82 && d[2] == 67
}

/// The source is at least 8 bytes long and ends with the Parquet magic.
pub open spec fn has_parquet_footer(d: Seq<u8>) -> bool {
    d.len() >= 8 && d[d.len() - 4] == 80 && d[d.len() - 3] == 65 && d[d.len() - 2] == 82 && d[d.len()
        - 1] == 49
}

/// What the magic-byte strategy selects: a head magic, or for sources of
/// at least 8 bytes the Parquet footer magic.
pub open spec fn magic_format(d: Seq<u8>) -> Option<Format> {
    if starts_with_parquet_magic(d) {
        Some(Format::Parquet)
    } else if starts_with_avro_magic(d) {
        Some(Format::Avro)
    } else if starts_with_orc_magic(d) {
        Some(Format::Orc)
    } else if has_parquet_footer(d) {
        Some(Format::Parquet)
    } else {
        None
    }
}

/// What the extension strategy selects, up to ASCII case.
pub open spec fn ext_format_spec(ext: Seq<char>) -> Option<Format> {
    if str_eq_ci(ext, seq!['j', 's', 'o', 'n']) || str_eq_ci(ext, seq!['j', 's', 'o', 'n', 'l'])
        || str_eq_ci(ext, seq!['n', 'd', 'j', 's', 'o', 'n']) {
        Some(Format::Json)
    } else if str_eq_ci(ext, seq!['c', 's', 'v']) {
        Some(Format::Csv)
    } else if str_eq_ci(ext, seq!['p', 'a', 'r', 'q', 'u', 'e', 't']) {
        Some(Format::Parquet)
    } else if str_eq_ci(ext, seq!['a', 'v', 'r', 'o']) {
        Some(Format::Avro)
    } else if str_eq_ci(ext, seq!['o', 'r', 'c']) {
        Some(Format::Orc)
    } else {
        None
    }
}

/// Map a file extension to its format.
fn ext_format(ext: &str) -> (r: Option<Format>)
    ensures
        r == ext_format_spec(ext@),
{
    proof {
        reveal_strlit("json");
        reveal_strlit("jsonl");
        reveal_strlit("ndjson");
        reveal_strlit("csv");
        reveal_strlit("parquet");
        reveal_strlit("avro");
        reveal_strlit("orc");
        assert("json"@ =~= seq!['j', 's', 'o', 'n']);
        assert("jsonl"@ =~= seq!['j', 's', 'o', 'n', 'l']);
        assert("ndjson"@ =~= seq!['n', 'd', 'j', 's', 'o', 'n']);
        assert("csv"@ =~= seq!['c', 's', 'v']);
        assert("parquet"@ =~= seq!['p', 'a', 'r', 'q', 'u', 'e', 't']);
        assert("avro"@ =~= seq!['a', 'v', 'r', 'o']);
        assert("orc"@ =~= seq!['o', 'r', 'c']);
    }
    if crate::text::eq_ignore_ascii_case(ext, "json") || crate::text::eq_ignore_ascii_case(
        ext,
        "jsonl",
    ) || crate::text::eq_ignore_ascii_case(ext, "ndjson") {
        Some(Format::Json)
    } else if crate::text::eq_ignore_ascii_case(ext, "csv") {
        Some(Format::Csv)
    } else if crate::text::eq_ignore_ascii_case(ext, "parquet") {
        Some(Format::Parquet)
    } else if crate::text::eq_ignore_ascii_case(ext, "avro") {
        Some(Format::Avro)
    } else if crate::text::eq_ignore_ascii_case(ext, "orc") {
        Some(Format::Orc)
    } else {
        None
    }
}

/// Whether the csv crate parses a first delimited record out of `data`
/// and that record has at least one field. The outcome depends on the
/// bytes alone.
pub uninterp spec fn csv_sniff_ok(data: Seq<u8>) -> bool;

/// Relies on csv::Reader::read_record (headers off): whether a first
/// delimited record parses from `data` and is non-empty; a read or parse
/// failure counts as no match.
#[verifier::external_body]
fn csv_sniff(data: &[u8]) -> (r: bool)
    ensures
        r == csv_sniff_ok(data@),
{
    let mut reader = ::csv::ReaderBuilder::new().has_headers(false).from_reader(data);
    let mut record = ::csv::StringRecord::new();
    match reader.read_record(&mut record) {
        Ok(true) => !record.is_empty(),
        _ => false,
    }
}

/// What the content strategy selects: a JSON opener after leading
/// whitespace, else a parseable non-empty delimited record.
pub open spec fn content_format(d: Seq<u8>) -> Option<Format> {
    let i = first_non_ws_index(d);
    if i < d.len() {
        if d[i] == 123 || d[i] == 91 {
            Some(Format::Json)
        } else if csv_sniff_ok(d.skip(i)) {
            Some(Format::Csv)
        } else {
            None
        }
    } else {
        None
    }
}

/// The view of an optional extension.
pub open spec fn ext_view(extension: &Option<String>) -> Option<Seq<char>> {
    match extension {
        Some(e) => Some(e@),
        None => None,
    }
}

/// What the full strategy chain selects for a seekable source: magic
/// bytes, then extension, then content.
pub open spec fn detect_spec(d: Seq<u8>, ext: Option<Seq<char>>) -> Option<Format> {
    if magic_format(d) is Some {
        magic_format(d)
    } else if ext is Some && ext_format_spec(ext->0) is Some {
        ext_format_spec(ext->0)
    } else {
        content_format(d)
    }
}

/// Detect the format of a seekable source from its bytes and its file
/// extension. Exactly one format is returned, or an error naming every
/// strategy attempted, in order.
pub fn detect_format(data: &[u8], extension: &Option<String>) -> (r: Result<
    Format,
    UnsupportedFormatError,
>)
    ensures
        (r is Ok) == (detect_spec(data@, ext_view(extension)) is Some),
        r is Ok ==> Some(r->Ok_0) == detect_spec(data@, ext_view(extension)),
        r is Err ==> (r->Err_0).spec_message()
            == "format detection failed (tried: magic bytes, file extension, content sniff)"@,
{
    let n = data.len();
    if n >= 4 && data[0] == 80 && data[1] == 65 && data[2] == 82 && data[3] == 49 {
        return Ok(Format::Parquet);
    }
    if n >= 4 && data[0] == 79 && data[1] == 98 && data[2] == 106 && data[3] == 1 {
        return Ok(Format::Avro);
    }
    if n >= 3 && data[0] == 79 && data[1] == 82 && data[2] == 67 {
        return Ok(Format::Orc);
    }
    if n >= 8 && data[n - 4] == 80 && data[n - 3] == 65 && data[n - 2] == 82 && data[n - 1] == 49 {
        return Ok(Format::Parquet);
    }
    match extension {
        Some(e) => {
            match ext_format(e.as_str()) {
                Some(f) => {
                    return Ok(f);
                },
                None => {},
            }
        },
        None => {},
    }
    let i = first_non_ws_pos(data);
    proof {
        crate::util::lemma_first_non_ws_index_bounds(data@);
    }
    if i < n {
        let b = data[i];
        if b == 123 || b == 91 {
            return Ok(Format::Json);
        }
        if csv_sniff(&data[i..n]) {
            proof {
                assert(data@.subrange(i as int, n as int) =~= data@.skip(i as int));
            }
            return Ok(Format::Csv);
        }
        proof {
            assert(data@.subrange(i as int, n as int) =~= data@.skip(i as int));
        }
    }
    Err(
        UnsupportedFormatError::new(
            String::from_str(
                "format detection failed (tried: magic bytes, file extension, content sniff)",
            ),
        ),
    )
}

/// What the stream-prefix chain selects: head magics, then the
/// first-byte fallback, with no footer or extension strategy.
pub open spec fn prefix_detect_spec(p: Seq<u8>) -> Option<Format> {
    if starts_with_parquet_magic(p) {
        Some(Format::Parquet)
    } else if starts_with_avro_magic(p) {
        Some(Format::Avro)
    } else if starts_with_orc_magic(p) {
        Some(Format::Orc)
    } else {
        match first_non_ws(p) {
            Some(b) => if b == 123 || b == 91 {
                Some(Format::Json)
            } else {
                Some(Format::Csv)
            },
            None => None,
        }
    }
}

/// Detect the format of a single-pass stream from its captured prefix:
/// head magic checks, then the first non-whitespace byte decides between
/// JSON and CSV; an empty or all-whitespace prefix is a detection
/// failure of its own.
pub fn detect_format_prefix(prefix: &[u8]) -> (r: Result<Format, UnsupportedFormatError>)
    ensures
        (r is Ok) == (prefix_detect_spec(prefix@) is Some),
        r is Ok ==> Some(r->Ok_0) == prefix_detect_spec(prefix@),
        r is Err ==> (r->Err_0).spec_message()
            == "stdin format detection failed (empty or whitespace-only input)"@,
{
    let n = prefix.len();
    if n >= 4 && prefix[0] == 80 && prefix[1] == 65 && prefix[2] == 82 && prefix[3] == 49 {
        return Ok(Format::Parquet);
    }
    if n >= 4 && prefix[0] == 79 && prefix[1] == 98 && prefix[2] == 106 && prefix[3] == 1 {
        return Ok(Format::Avro);
    }
    if n >= 3 && prefix[0] == 79 && prefix[1] == 82 && prefix[2] == 67 {
        return Ok(Format::Orc);
    }
    proof {
        crate::util::lemma_first_non_ws_index_bounds(prefix@);
    }
    let i = first_non_ws_pos(prefix);
    if i < n {
        let b = prefix[i];
        if b == 123 || b == 91 {
            return Ok(Format::Json);
        }
        return Ok(Format::Csv);
    }
    Err(
        UnsupportedFormatError::new(
            String::from_str("stdin format detection failed (empty or whitespace-only input)"),
        ),
    )
}

} // verus!
