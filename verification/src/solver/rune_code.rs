//! The source text of a rune block: the block's body wrapped in a function whose
//! parameters are the block's parameters, so that it can be compiled and called.

use vstd::prelude::*;
use crate::text::{joined, join_strings, append_str};

verus! {

/// The name of the function that wraps a rune block.
pub open spec fn rune_entry_name() -> Seq<char> {
    "__rune_fn__"@
}

/// `pub fn __rune_fn__(p1, p2, ...) { body }`, with the body kept on the line of the
/// header so that its last expression is the function's value.
pub open spec fn rune_source(body: Seq<char>, params: Seq<Seq<char>>) -> Seq<char> {
    "pub fn "@ + rune_entry_name() + "("@ + joined(params, ", "@) + ") { "@ + body + " }"@
}

/// Wraps the rune block `body` in a function taking `param_names`, in order.
pub fn generate_rune_code(body: &str, param_names: &Vec<String>) -> (code: String)
    ensures
        code@ == rune_source(body@, param_names@.map_values(|p: String| p@)),
{
    proof {
        reveal_strlit("pub fn ");
        reveal_strlit("__rune_fn__");
        reveal_strlit("(");
        reveal_strlit(") { ");
        reveal_strlit(" }");
        reveal_strlit(", ");
    }
    let mut code = String::from_str("pub fn ");
    append_str(&mut code, "__rune_fn__");
    append_str(&mut code, "(");
    let params = join_strings(param_names, ", ");
    append_str(&mut code, params.as_str());
    append_str(&mut code, ") { ");
    append_str(&mut code, body);
    append_str(&mut code, " }");
    assert(code@ =~= rune_source(body@, param_names@.map_values(|p: String| p@)));
    code
}

} // verus!
