use crate::errors::PipelineError;
use crate::text::{push_str_chars, string_of};
use vstd::prelude::*;

verus! {

/// Whether an HTTP status code lies in the success class.
pub open spec fn is_success_status(status: u16) -> bool {
    200 <= status < 300
}

/// Judges a backend response. A success-class status passes; any other
/// status is fatal and carries the status and the backend's verbatim
/// response body, the operator's only diagnostic surface.
pub fn check_response(status: u16, body: String) -> (r: Result<(), PipelineError>)
    ensures
        r is Ok <==> is_success_status(status),
        r is Err ==> r == Err::<(), PipelineError>(
            PipelineError::BackendRequest { status, body },
        ),
{
    if 200 <= status && status < 300 {
        Ok(())
    } else {
        Err(PipelineError::BackendRequest { status, body })
    }
}

/// The index root endpoint, `{base}/{name}`: the target of the idempotent
/// create-with-settings call.
pub fn index_endpoint(base: &str, name: &str) -> (r: String)
    ensures
        r@ == base@ + "/"@ + name@,
{
    let mut out: Vec<char> = Vec::new();
    push_str_chars(&mut out, base);
    push_str_chars(&mut out, "/");
    push_str_chars(&mut out, name);
    proof {
        assert(out@ =~= base@ + "/"@ + name@);
    }
    string_of(out)
}

/// The bulk-load endpoint, `{base}/{name}/_doc/_bulk`.
pub fn bulk_endpoint(base: &str, name: &str) -> (r: String)
    ensures
        r@ == base@ + "/"@ + name@ + "/_doc/_bulk"@,
{
    let mut out: Vec<char> = Vec::new();
    push_str_chars(&mut out, base);
    push_str_chars(&mut out, "/");
    push_str_chars(&mut out, name);
    push_str_chars(&mut out, "/_doc/_bulk");
    proof {
        assert(out@ =~= base@ + "/"@ + name@ + "/_doc/_bulk"@);
    }
    string_of(out)
}

/// The search endpoint, `{base}/{name}/_search`.
pub fn search_endpoint(base: &str, name: &str) -> (r: String)
    ensures
        r@ == base@ + "/"@ + name@ + "/_search"@,
{
    let mut out: Vec<char> = Vec::new();
    push_str_chars(&mut out, base);
    push_str_chars(&mut out, "/");
    push_str_chars(&mut out, name);
    push_str_chars(&mut out, "/_search");
    proof {
        assert(out@ =~= base@ + "/"@ + name@ + "/_search"@);
    }
    string_of(out)
}

} // verus!
