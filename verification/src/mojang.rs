//! Reading the answer to a skin upload.
use vstd::prelude::*;

use crate::text::{chars_of, concat_chars, string_of};

verus! {

/// An HTTP status in the success class, 200 to 299.
pub open spec fn spec_is_success(status: u16) -> bool {
    200 <= status <= 299
}

/// Whether an HTTP status is in the success class.
pub fn is_success_status(status: u16) -> (b: bool)
    ensures
        b == spec_is_success(status),
{
    200 <= status && status <= 299
}

/// The error that a refused skin upload is reported with, given the text of
/// the answer.
pub fn skin_upload_error(body: &str) -> (s: String)
    ensures
        s@ == "skin upload failed: "@ + body@,
{
    let line = concat_chars(&chars_of("skin upload failed: "), &chars_of(body));
    string_of(&line)
}

} // verus!
