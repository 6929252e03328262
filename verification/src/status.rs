//! HTTP status codes.

use crate::text::{begins_with, decimal};
use vstd::prelude::*;

verus! {

/// The numbers that are status codes.
pub open spec fn status_code(code: u16) -> bool {
    100 <= code <= 999
}

/// Whether a status code reports success.
pub open spec fn success(code: u16) -> bool {
    200 <= code < 300
}

/// A status code as it is shown to people: the number and the canonical reason.
pub uninterp spec fn status_line(code: u16) -> Seq<char>;

/// `http::StatusCode::from_u16` and the `Display` of `http::StatusCode`: the number, a space and
/// the canonical reason of the code. The reasons are the crate's own list, of which the contract
/// says nothing but that the code decides. Numbers that are no status codes are left out.
#[verifier::external_body]
pub(crate) fn status_text(code: u16) -> (r: String)
    requires
        status_code(code),
    ensures
        r@ == status_line(code),
        begins_with(r@, decimal(code as nat).push(' ')),
{
    match axum::http::StatusCode::from_u16(code) {
        Ok(status) => status.to_string(),
        Err(error) => error.to_string(),
    }
}

/// The status codes are the numbers of three digits, and those of success begin with a two.
pub proof fn law_status_codes(code: u16)
    ensures
        status_code(code) <==> 1 <= code / 100 <= 9,
        success(code) <==> code / 100 == 2,
{
}

} // verus!
