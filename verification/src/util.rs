//! Byte-level helpers shared by detection: finding the first
//! non-whitespace byte of a buffer, and recognizing the conventional
//! standard-input path.

use vstd::prelude::*;

verus! {

/// An ASCII whitespace byte, as `u8::is_ascii_whitespace` accepts it:
/// space, horizontal tab, newline, form feed, or carriage return.
pub open spec fn is_ascii_ws_byte(b: u8) -> bool {
    b == 32 || b == 9 || b == 10 || b == 12 || b == 13
}

/// The position of the first non-whitespace byte, or the length if every
/// byte is whitespace.
pub open spec fn first_non_ws_index(data: Seq<u8>) -> int
    decreases data.len(),
{
    if data.len() == 0 {
        0
    } else if !is_ascii_ws_byte(data[0]) {
        0
    } else {
        1 + first_non_ws_index(data.drop_first())
    }
}

/// The first non-whitespace byte, if any.
pub open spec fn first_non_ws(data: Seq<u8>) -> Option<u8> {
    let i = first_non_ws_index(data);
    if i < data.len() {
        Some(data[i])
    } else {
        None
    }
}

/// The index is in bounds, everything before it is whitespace, and the
/// byte there, if any, is not.
pub proof fn lemma_first_non_ws_index_bounds(data: Seq<u8>)
    ensures
        0 <= first_non_ws_index(data) <= data.len(),
        forall|j: int| 0 <= j < first_non_ws_index(data) ==> is_ascii_ws_byte(data[j]),
        first_non_ws_index(data) < data.len() ==> !is_ascii_ws_byte(
            data[first_non_ws_index(data)],
        ),
    decreases data.len(),
{
    if data.len() > 0 && is_ascii_ws_byte(data[0]) {
        lemma_first_non_ws_index_bounds(data.drop_first());
        assert forall|j: int| 0 <= j < first_non_ws_index(data) implies is_ascii_ws_byte(
            data[j],
        ) by {
            if j > 0 {
                assert(data.drop_first()[j - 1] == data[j]);
            }
        }
    }
}

/// The position of the first non-whitespace byte of `data`, or its
/// length if there is none.
pub fn first_non_ws_pos(data: &[u8]) -> (r: usize)
    ensures
        r == first_non_ws_index(data@),
{
    let n = data.len();
    proof {
        assert(data@.skip(0) =~= data@);
    }
    let mut i: usize = 0;
    while i < n
        invariant
            0 <= i <= n,
            n == data@.len(),
            first_non_ws_index(data@) == i + first_non_ws_index(data@.skip(i as int)),
        decreases n - i,
    {
        let b = data[i];
        proof {
            assert(data@.skip(i as int)[0] == data@[i as int]);
        }
        if !(b == 32 || b == 9 || b == 10 || b == 12 || b == 13) {
            return i;
        }
        proof {
            assert(data@.skip(i as int).drop_first() =~= data@.skip(i as int + 1));
        }
        i = i + 1;
    }
    proof {
        assert(data@.skip(n as int).len() == 0);
    }
    n
}

/// The first non-whitespace byte of `data`, if any.
pub fn peek_first_non_ws(data: &[u8]) -> (r: Option<u8>)
    ensures
        r == first_non_ws(data@),
{
    proof {
        lemma_first_non_ws_index_bounds(data@);
    }
    let i = first_non_ws_pos(data);
    if i < data.len() {
        Some(data[i])
    } else {
        None
    }
}

/// Whether `path` is the conventional name for standard input.
pub fn is_stdin_path(path: &str) -> (r: bool)
    ensures
        r == (path@ == seq!['-']),
{
    if path.unicode_len() == 1 {
        let c = path.get_char(0);
        proof {
            if c == '-' {
                assert(path@ =~= seq!['-']);
            }
        }
        c == '-'
    } else {
        false
    }
}

} // verus!
