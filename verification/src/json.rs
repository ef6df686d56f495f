//! JSON text for the listings that hold nothing but strings.

use crate::names::views;
use vstd::prelude::*;

verus! {

/// The JSON text that `serde_json::to_string` gives for a list of strings, or
/// nothing where it reports an error.
pub uninterp spec fn json_array_text(items: Seq<Seq<char>>) -> Option<Seq<char>>;

/// Calls `serde_json::to_string` on a list of strings. The contract names the
/// outcome, which depends on the strings alone, and claims nothing more of it.
#[verifier::external_body]
pub(crate) fn encode_strings(items: &Vec<String>) -> (r: Option<String>)
    ensures
        match r {
            Some(text) => json_array_text(views(items@)) == Some(text@),
            None => json_array_text(views(items@)) is None,
        },
{
    serde_json::to_string(items).ok()
}

} // verus!
