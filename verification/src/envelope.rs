//! Error normalization and not-found rewriting: every request ends in exactly
//! one well-formed response, and every failure is mapped to a fixed JSON
//! envelope with a known status code.

use vstd::prelude::*;

verus! {

/// An outbound HTTP response: a status code and a textual body.
pub struct Response {
    pub status: u16,
    pub body: String,
}

/// The failures that the pipeline can surface short of a handler response.
pub enum PipelineError {
    /// The handler did not finish before the configured deadline.
    Timeout,
    /// The request or response body stream failed while being buffered.
    BodyRead,
    /// An opaque failure reported by the handler itself.
    Handler,
}

/// The canonical envelope sent for any path or method that does not resolve.
pub open spec fn not_found_body() -> Seq<char> {
    "{\"code\": 0, \"msg\": \"not found\"}"@
}

/// The envelope sent when a handler exceeds its deadline.
pub open spec fn timeout_body() -> Seq<char> {
    "{\"msg\": \"request took too long\"}"@
}

/// The envelope sent for any other internal failure.
pub open spec fn internal_error_body() -> Seq<char> {
    "{\"msg\": \"unhandled internal error\"}"@
}

/// The uniform response for an unroutable request.
pub fn not_found_response() -> (r: Response)
    ensures
        r.status == 404,
        r.body@ == not_found_body(),
{
    Response { status: 404, body: "{\"code\": 0, \"msg\": \"not found\"}".to_owned() }
}

/// The error normalizer: converts any pipeline failure into a structured
/// client-facing response.  A timeout maps to 408; everything else to 500.
pub fn normalize(e: &PipelineError) -> (r: Response)
    ensures
        e is Timeout ==> r.status == 408 && r.body@ == timeout_body(),
        !(e is Timeout) ==> r.status == 500 && r.body@ == internal_error_body(),
{
    match e {
        PipelineError::Timeout => Response {
            status: 408,
            body: "{\"msg\": \"request took too long\"}".to_owned(),
        },
        _ => Response {
            status: 500,
            body: "{\"msg\": \"unhandled internal error\"}".to_owned(),
        },
    }
}

/// The not-found rewriter: a 404 or 405 leaving the router is replaced by the
/// canonical envelope at status 404 (405 is deliberately folded into 404);
/// any other response passes through unchanged.
pub fn rewrite_not_found(resp: Response) -> (r: Response)
    ensures
        (resp.status == 404 || resp.status == 405) ==> r.status == 404 && r.body@
            == not_found_body(),
        !(resp.status == 404 || resp.status == 405) ==> r == resp,
{
    if resp.status == 404 || resp.status == 405 {
        not_found_response()
    } else {
        resp
    }
}

} // verus!
