//! The body interceptor: buffers a request or response body so it can be
//! observed and replayed.  Interception is read-only instrumentation — the
//! bytes that continue through the pipeline are exactly the bytes that came
//! in — and a body that is not valid text is simply not surfaced for
//! logging; that is never an error.

use vstd::prelude::*;
use vstd::utf8::{encode_utf8, valid_utf8};

verus! {

/// A buffered body: the bytes to replay downstream, and their decoded text
/// when they are valid UTF-8.
pub struct Intercepted {
    pub bytes: Vec<u8>,
    pub text: Option<String>,
}

/// Relies on std::str::from_utf8: it returns Ok exactly when the input is
/// valid UTF-8, and the returned string views exactly the input bytes.
#[verifier::external_body]
fn utf8_text(b: &Vec<u8>) -> (r: Option<String>)
    ensures
        match r {
            Some(t) => valid_utf8(b@) && encode_utf8(t@) == b@,
            None => !valid_utf8(b@),
        },
{
    match std::str::from_utf8(b.as_slice()) {
        Ok(s) => Some(s.to_string()),
        Err(_) => None,
    }
}

/// Buffer one body.  The replayed bytes equal the input byte-for-byte; the
/// decoded text is present exactly when the bytes are valid UTF-8, and then
/// encodes back to them.
pub fn intercept(body: Vec<u8>) -> (r: Intercepted)
    ensures
        r.bytes@ == body@,
        match r.text {
            Some(t) => valid_utf8(body@) && encode_utf8(t@) == body@,
            None => !valid_utf8(body@),
        },
{
    let text = utf8_text(&body);
    Intercepted { bytes: body, text }
}

} // verus!
