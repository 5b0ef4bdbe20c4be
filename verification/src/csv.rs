//! CSV schema inference: one header row gives the ordered field names,
//! up to `SAMPLE_LIMIT` data rows are sampled, and each column's type is
//! the running `merge` of its cell classifications.

use vstd::prelude::*;
use vstd::pervasive::VecAdditionalExecFns;

use crate::errors::SourceParseError;
use crate::schema::{DataType, Field, FieldModel, Schema, spec_merge};
use crate::text::{
    eq_ignore_ascii_case, is_float_literal, is_int_literal, parses_as_f64, parses_as_i64,
    str_eq_ci, trim, trim_spec,
};

verus! {

/// The most data rows one inference call samples.
pub const SAMPLE_LIMIT: usize = 1000;

/// The classification of one trimmed cell, in priority order: empty is
/// `Null`; `true`/`false` up to case is `Bool`; a 64-bit signed integer
/// literal is `Int`; a float literal is `Float`; anything else is
/// `String`.
pub open spec fn classify_cell(cell: Seq<char>) -> DataType {
    let t = trim_spec(cell);
    if t.len() == 0 {
        DataType::Null
    } else if str_eq_ci(t, seq!['t', 'r', 'u', 'e']) || str_eq_ci(
        t,
        seq!['f', 'a', 'l', 's', 'e'],
    ) {
        DataType::Bool
    } else if is_int_literal(t) {
        DataType::Int
    } else if is_float_literal(t) {
        DataType::Float
    } else {
        DataType::String
    }
}

/// Classify one cell value.
pub fn infer_scalar(value: &str) -> (r: DataType)
    ensures
        r == classify_cell(value@),
{
    let t = trim(value);
    if t.unicode_len() == 0 {
        return DataType::Null;
    }
    proof {
        reveal_strlit("true");
        reveal_strlit("false");
        assert("true"@ =~= seq!['t', 'r', 'u', 'e']);
        assert("false"@ =~= seq!['f', 'a', 'l', 's', 'e']);
    }
    if eq_ignore_ascii_case(t, "true") || eq_ignore_ascii_case(t, "false") {
        return DataType::Bool;
    }
    if parses_as_i64(t) {
        return DataType::Int;
    }
    if parses_as_f64(t) {
        return DataType::Float;
    }
    DataType::String
}

/// The cell of row `i`, column `col`: a row shorter than the header
/// treats missing trailing cells as empty.
pub open spec fn cell_at(rows: Seq<Seq<Seq<char>>>, i: int, col: int) -> Seq<char> {
    if col < rows[i].len() {
        rows[i][col]
    } else {
        Seq::empty()
    }
}

/// The running type of a column after the first `n` sampled rows.
pub open spec fn col_dtype(rows: Seq<Seq<Seq<char>>>, n: int, col: int) -> DataType
    decreases n,
{
    if n <= 0 {
        DataType::Null
    } else {
        spec_merge(col_dtype(rows, n - 1, col), classify_cell(cell_at(rows, n - 1, col)))
    }
}

/// Whether any of the first `n` sampled rows holds a `Null` observation
/// for the column.
pub open spec fn col_nullable(rows: Seq<Seq<Seq<char>>>, n: int, col: int) -> bool {
    exists|i: int| 0 <= i < n && classify_cell(cell_at(rows, i, col)) is Null
}

/// The schema of a parsed table: the first row names the columns in
/// order, and at most `limit` following rows are sampled.
pub open spec fn csv_schema_spec(rows: Seq<Seq<Seq<char>>>, limit: int) -> Seq<FieldModel> {
    if rows.len() == 0 {
        Seq::empty()
    } else {
        let headers = rows[0];
        let data = rows.drop_first();
        let n = if data.len() <= limit {
            data.len() as int
        } else {
            limit
        };
        Seq::new(
            headers.len(),
            |c: int|
                (FieldModel {
                    name: headers[c],
                    dtype: col_dtype(data, n, c),
                    nullable: col_nullable(data, n, c),
                }),
        )
    }
}

/// Infer a schema from already-parsed rows; the first row is the header,
/// and at most `limit` further rows are sampled.
pub fn infer_from_rows(rows: &Vec<Vec<String>>, limit: usize) -> (r: Schema)
    ensures
        r@ == csv_schema_spec(rows.deep_view(), limit as int),
{
    let ghost rsv = rows.deep_view();
    let ghost data = rsv.drop_first();
    if rows.len() == 0 {
        let r = Schema { fields: Vec::new() };
        proof {
            assert(r@ =~= csv_schema_spec(rsv, limit as int));
        }
        return r;
    }
    let ncols = rows[0].len();
    proof {
        assert(rsv[0].len() == rows@[0].deep_view().len());
        assert(rsv[0].len() == ncols);
    }
    let mut dtypes: Vec<DataType> = Vec::new();
    let mut nullable: Vec<bool> = Vec::new();
    let mut c: usize = 0;
    while c < ncols
        invariant
            0 <= c <= ncols,
            dtypes@.len() == c,
            nullable@.len() == c,
            forall|k: int| 0 <= k < c ==> dtypes@[k] == DataType::Null,
            forall|k: int| 0 <= k < c ==> nullable@[k] == false,
        decreases ncols - c,
    {
        dtypes.push(DataType::Null);
        nullable.push(false);
        c = c + 1;
    }
    let mut i: usize = 1;
    while i < rows.len() && i <= limit
        invariant
            1 <= i <= rsv.len(),
            i <= limit + 1,
            rsv == rows.deep_view(),
            rsv.len() == rows@.len(),
            rsv.len() >= 1,
            data == rsv.drop_first(),
            ncols == rsv[0].len(),
            dtypes@.len() == ncols,
            nullable@.len() == ncols,
            forall|k: int| 0 <= k < ncols ==> dtypes@[k] == col_dtype(data, i - 1, k),
            forall|k: int| 0 <= k < ncols ==> nullable@[k] == col_nullable(data, i - 1, k),
        decreases rsv.len() - i,
    {
        let row_len = rows[i].len();
        let mut col: usize = 0;
        while col < ncols
            invariant
                0 <= col <= ncols,
                1 <= i < rsv.len(),
                i <= limit,
                rsv == rows.deep_view(),
                rsv.len() == rows@.len(),
                data == rsv.drop_first(),
                ncols == rsv[0].len(),
                row_len == rsv[i as int].len(),
                dtypes@.len() == ncols,
                nullable@.len() == ncols,
                forall|k: int| col <= k < ncols ==> dtypes@[k] == col_dtype(data, i - 1, k),
                forall|k: int| col <= k < ncols ==> nullable@[k] == col_nullable(data, i - 1, k),
                forall|k: int| 0 <= k < col ==> dtypes@[k] == col_dtype(data, i as int, k),
                forall|k: int| 0 <= k < col ==> nullable@[k] == col_nullable(data, i as int, k),
            decreases ncols - col,
    {
            let value: &str = if col < row_len {
                rows[i][col].as_str()
            } else {
                ""
            };
            proof {
                reveal_strlit("");
                assert(rsv[i as int] == rows@[i as int].deep_view());
                if col < row_len {
                    assert(rsv[i as int][col as int] == rows@[i as int]@[col as int]@);
                }
                assert(data[i - 1] == rsv[i as int]);
                assert(value@ == cell_at(data, i - 1, col as int));
            }
            let inferred = infer_scalar(value);
            let is_null = inferred.same(&DataType::Null);
            if is_null {
                nullable.set(col, true);
            }
            let merged = DataType::merge(&dtypes[col], &inferred);
            dtypes.set(col, merged);
            proof {
                assert(dtypes@[col as int] == col_dtype(data, i as int, col as int));
                if is_null {
                    assert(col_nullable(data, i as int, col as int)) by {
                        assert(classify_cell(cell_at(data, i - 1, col as int)) is Null);
                    }
                } else {
                    assert(nullable@[col as int] == col_nullable(data, i as int, col as int)) by {
                        assert forall|j: int|
                            0 <= j < i as int && classify_cell(
                                cell_at(data, j, col as int),
                            ) is Null implies j < i - 1 by {}
                    }
                }
            }
            col = col + 1;
        }
        i = i + 1;
    }
    let ghost n_sampled = i - 1;
    proof {
        assert(n_sampled == (if data.len() <= limit as int {
            data.len() as int
        } else {
            limit as int
        }));
    }
    let mut fields: Vec<Field> = Vec::new();
    let mut c2: usize = 0;
    while c2 < ncols
        invariant
            0 <= c2 <= ncols,
            rsv == rows.deep_view(),
            rsv.len() == rows@.len(),
            rsv.len() >= 1,
            data == rsv.drop_first(),
            ncols == rsv[0].len(),
            dtypes@.len() == ncols,
            nullable@.len() == ncols,
            forall|k: int| 0 <= k < ncols ==> dtypes@[k] == col_dtype(data, n_sampled, k),
            forall|k: int| 0 <= k < ncols ==> nullable@[k] == col_nullable(data, n_sampled, k),
            fields@.len() == c2,
            forall|k: int|
                0 <= k < c2 ==> #[trigger] fields@[k]@ == (FieldModel {
                    name: rsv[0][k],
                    dtype: col_dtype(data, n_sampled, k),
                    nullable: col_nullable(data, n_sampled, k),
                }),
        decreases ncols - c2,
    {
        let name = rows[0][c2].clone();
        proof {
            assert(rsv[0][c2 as int] == rows@[0]@[c2 as int]@);
        }
        let dtype = dtypes[c2].dup();
        let nul = nullable[c2];
        fields.push(Field { name, dtype, nullable: nul });
        c2 = c2 + 1;
    }
    let r = Schema { fields };
    proof {
        assert(r@ =~= csv_schema_spec(rsv, limit as int));
    }
    r
}

/// What the csv crate parses `data` into with no header handling and
/// flexible record lengths: every record, as the sequence of its string
/// fields, up to the row limit — or nothing, when the bytes do not parse
/// (a non-UTF-8 field, for instance). Parsing a slice is a function of
/// the bytes and the limit alone.
pub uninterp spec fn csv_rows_of(data: Seq<u8>, limit: int) -> Option<Seq<Seq<Seq<char>>>>;

/// Relies on csv::ReaderBuilder and csv::Reader: with `has_headers` off
/// and `flexible` on, `records()` yields each delimited record in order
/// as its string fields, records of unequal length included; `take`
/// keeps at most `limit` of them, and the first record error fails the
/// read.
#[verifier::external_body]
fn read_csv_rows(data: &[u8], limit: usize) -> (r: Result<Vec<Vec<String>>, String>)
    ensures
        (r is Ok) == (csv_rows_of(data@, limit as int) is Some),
        r is Ok ==> Some((r->Ok_0).deep_view()) == csv_rows_of(data@, limit as int),
        r is Ok ==> (r->Ok_0)@.len() <= limit,
{
    let mut reader = ::csv::ReaderBuilder::new().has_headers(false).flexible(true).from_reader(
        data,
    );
    let mut out: Vec<Vec<String>> = Vec::new();
    for record in reader.records().take(limit) {
        match record {
            Ok(rec) => out.push(rec.iter().map(|f| f.to_string()).collect()),
            Err(e) => return Err(e.to_string()),
        }
    }
    Ok(out)
}

/// Infer a CSV schema from raw bytes: parse a header row plus up to
/// `SAMPLE_LIMIT` data rows and fold the columns. Succeeds exactly when
/// the sampled rows parse.
pub fn infer_schema_reader(data: &[u8]) -> (r: Result<Schema, SourceParseError>)
    ensures
        (r is Ok) == (csv_rows_of(data@, SAMPLE_LIMIT as int + 1) is Some),
        r is Ok ==> (r->Ok_0)@ == csv_schema_spec(
            csv_rows_of(data@, SAMPLE_LIMIT as int + 1)->0,
            SAMPLE_LIMIT as int,
        ),
        r is Err ==> (r->Err_0).operation@ == "read CSV record"@,
{
    match read_csv_rows(data, SAMPLE_LIMIT + 1) {
        Ok(rows) => Ok(infer_from_rows(&rows, SAMPLE_LIMIT)),
        Err(detail) => Err(
            SourceParseError { operation: String::from_str("read CSV record"), detail },
        ),
    }
}

} // verus!
