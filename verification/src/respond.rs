//! The fixed rejection response for a client that arrives when no backend
//! is eligible.

use vstd::prelude::*;

verus! {

/// The body of the rejection response.
pub open spec fn rejection_body() -> Seq<char> {
    "Service Unavailable - No healthy backends\n"@
}

/// The exact payload written to a rejected client before its socket is
/// closed: a complete, fixed 503 response.
pub open spec fn rejection_payload() -> Seq<char> {
    "HTTP/1.1 503 Service Unavailable\r\nContent-Length: 42\r\nContent-Type: text/plain\r\nConnection: close\r\n\r\nService Unavailable - No healthy backends\n"@
}

/// The rejection response, exactly the fixed payload.
pub fn rejection_response() -> (r: &'static str)
    ensures
        r@ == rejection_payload(),
{
    "HTTP/1.1 503 Service Unavailable\r\nContent-Length: 42\r\nContent-Type: text/plain\r\nConnection: close\r\n\r\nService Unavailable - No healthy backends\n"
}

/// The Content-Length header is honest: the payload ends, after the blank
/// line that closes the headers, with a body of exactly the 42 declared
/// characters.
pub proof fn lemma_rejection_declares_body_length()
    ensures
        rejection_body().len() == 42,
        rejection_payload().len() == 143,
        rejection_payload().subrange(101, 143) == rejection_body(),
{
    reveal_strlit("Service Unavailable - No healthy backends\n");
    reveal_strlit(
        "HTTP/1.1 503 Service Unavailable\r\nContent-Length: 42\r\nContent-Type: text/plain\r\nConnection: close\r\n\r\nService Unavailable - No healthy backends\n",
    );
    assert(rejection_payload().subrange(101, 143) =~= rejection_body());
}

} // verus!
