//! The ORC-family format is recognized by the detector but its support
//! is intentionally absent from this build: every operation fails with a
//! distinct unsupported-input error.

use vstd::prelude::*;

use crate::errors::UnsupportedFormatError;
use crate::schema::Schema;

verus! {

/// Schema inference for an ORC source always fails: the format's
/// support is absent.
pub fn infer_schema() -> (r: Result<Schema, UnsupportedFormatError>)
    ensures
        r is Err,
        (r->Err_0).spec_message() == "ORC support is disabled; rebuild with --features orc"@,
{
    Err(
        UnsupportedFormatError::new(
            String::from_str("ORC support is disabled; rebuild with --features orc"),
        ),
    )
}

/// Record iteration over an ORC source always fails: the format's
/// support is absent.
pub fn cat(_limit: Option<usize>) -> (r: Result<(), UnsupportedFormatError>)
    ensures
        r is Err,
        (r->Err_0).spec_message() == "ORC support is disabled; rebuild with --features orc"@,
{
    Err(
        UnsupportedFormatError::new(
            String::from_str("ORC support is disabled; rebuild with --features orc"),
        ),
    )
}

} // verus!
