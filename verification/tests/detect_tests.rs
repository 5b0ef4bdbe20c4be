use megrez::detect::{detect_format, detect_format_prefix};
use megrez::formats::Format;
use megrez::util::{is_stdin_path, peek_first_non_ws};

#[test]
fn detect_by_magic_parquet() {
    let format = detect_format(b"PAR1xxxx", &None).expect("detect format");
    assert_eq!(format, Format::Parquet);
}

#[test]
fn detect_by_footer_parquet() {
    let format = detect_format(b"xxxxPAR1", &None).expect("detect format");
    assert_eq!(format, Format::Parquet);
}

#[test]
fn detect_by_magic_avro() {
    let format = detect_format(b"Obj\x01xxxx", &None).expect("detect format");
    assert_eq!(format, Format::Avro);
}

#[test]
fn detect_by_extension_csv() {
    let format = detect_format(b"a,b\n1,2\n", &Some("csv".to_string())).expect("detect format");
    assert_eq!(format, Format::Csv);
}

#[test]
fn detect_by_content_json() {
    let format = detect_format(b"{\"a\":1}", &None).expect("detect format");
    assert_eq!(format, Format::Json);
}

#[test]
fn detect_by_magic_orc() {
    let format = detect_format(b"ORCxxxx", &None).expect("detect format");
    assert_eq!(format, Format::Orc);
}

#[test]
fn detect_magic_beats_extension() {
    // A mislabeled Parquet source still classifies by its magic bytes.
    let format = detect_format(b"PAR1xxxx", &Some("csv".to_string())).expect("detect format");
    assert_eq!(format, Format::Parquet);
}

#[test]
fn detect_extension_is_case_insensitive() {
    let format = detect_format(b"xyz", &Some("JSON".to_string())).expect("detect format");
    assert_eq!(format, Format::Json);
    let format = detect_format(b"xyz", &Some("Ndjson".to_string())).expect("detect format");
    assert_eq!(format, Format::Json);
    let format = detect_format(b"xyz", &Some("PARQUET".to_string())).expect("detect format");
    assert_eq!(format, Format::Parquet);
    let format = detect_format(b"xyz", &Some("avro".to_string())).expect("detect format");
    assert_eq!(format, Format::Avro);
    let format = detect_format(b"xyz", &Some("orc".to_string())).expect("detect format");
    assert_eq!(format, Format::Orc);
}

#[test]
fn detect_by_content_json_after_whitespace() {
    let format = detect_format(b"   \n\t[1,2]", &None).expect("detect format");
    assert_eq!(format, Format::Json);
}

#[test]
fn detect_by_content_csv_record() {
    let format = detect_format(b"name,age\nalice,3\n", &None).expect("detect format");
    assert_eq!(format, Format::Csv);
}

#[test]
fn detect_exhaustion_names_strategies() {
    let err = detect_format(b"", &None).expect_err("empty input has no format");
    assert_eq!(
        err.message(),
        "format detection failed (tried: magic bytes, file extension, content sniff)"
    );
}

#[test]
fn prefix_detects_parquet_magic() {
    let format = detect_format_prefix(b"PAR1rest").expect("detect format");
    assert_eq!(format, Format::Parquet);
}

#[test]
fn prefix_detects_avro_and_orc_magic() {
    assert_eq!(
        detect_format_prefix(b"Obj\x01rest").expect("detect format"),
        Format::Avro
    );
    assert_eq!(
        detect_format_prefix(b"ORCrest").expect("detect format"),
        Format::Orc
    );
}

#[test]
fn prefix_first_byte_decides_json_or_csv() {
    assert_eq!(
        detect_format_prefix(b"  {\"a\":1}").expect("detect format"),
        Format::Json
    );
    assert_eq!(
        detect_format_prefix(b"[1,2]").expect("detect format"),
        Format::Json
    );
    assert_eq!(
        detect_format_prefix(b"hello,world").expect("detect format"),
        Format::Csv
    );
}

#[test]
fn prefix_empty_or_whitespace_fails_distinctly() {
    let err = detect_format_prefix(b"").expect_err("empty prefix");
    assert_eq!(
        err.message(),
        "stdin format detection failed (empty or whitespace-only input)"
    );
    let err = detect_format_prefix(b"   \n\t ").expect_err("whitespace prefix");
    assert_eq!(
        err.message(),
        "stdin format detection failed (empty or whitespace-only input)"
    );
}

#[test]
fn stdin_path_is_single_dash() {
    assert!(is_stdin_path("-"));
    assert!(!is_stdin_path("--"));
    assert!(!is_stdin_path("file.csv"));
    assert!(!is_stdin_path(""));
}

#[test]
fn peek_skips_ascii_whitespace() {
    assert_eq!(peek_first_non_ws(b"  \t\r\n x"), Some(b'x'));
    assert_eq!(peek_first_non_ws(b"{"), Some(b'{'));
    assert_eq!(peek_first_non_ws(b"   "), None);
    assert_eq!(peek_first_non_ws(b""), None);
}
