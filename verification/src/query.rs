use crate::escape::{escape, push_escaped};
use crate::text::{chars_of, push_str_chars, string_of};
use vstd::prelude::*;

verus! {

/// The multi-field-match query document for a free text: the name field
/// weighted an order of magnitude above the description field.
pub open spec fn query_json(text: Seq<char>) -> Seq<char> {
    "{\"query\":{\"multi_match\":{\"query\":\""@ + escape(text)
        + "\",\"fields\":[\"name^10\",\"description\"]}}}"@
}

/// Compiles a free-text query into the backend's multi-field-match form.
pub fn build_query(text: &str) -> (r: String)
    ensures
        r@ == query_json(text@),
{
    let mut out: Vec<char> = Vec::new();
    push_str_chars(&mut out, "{\"query\":{\"multi_match\":{\"query\":\"");
    let text_chars = chars_of(text);
    push_escaped(&mut out, &text_chars);
    push_str_chars(&mut out, "\",\"fields\":[\"name^10\",\"description\"]}}}");
    proof {
        assert(out@ =~= query_json(text@));
    }
    string_of(out)
}

} // verus!
