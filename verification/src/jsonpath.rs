use vstd::prelude::*;

use crate::json::{from_serde, to_serde, JsonV, JsonValue};

verus! {

/// The error text of `JsonPath::parse` on a query, where the query is not valid JSONPath.
pub uninterp spec fn jsonpath_error(path: Seq<char>) -> Option<Seq<char>>;

/// The values that a valid JSONPath query selects in a document, in order.
pub uninterp spec fn jsonpath_values(path: Seq<char>, document: JsonV) -> Seq<JsonV>;

/// `jsonpath_rfc9535::JsonPath::parse`: whether the query is valid RFC 9535 JSONPath,
/// and if it is not, the text of the error.
#[verifier::external_body]
pub(crate) fn jsonpath_parse_error(path: &str) -> (r: Option<String>)
    ensures
        r is Some <==> jsonpath_error(path@) is Some,
        r is Some ==> r->0@ == jsonpath_error(path@)->0,
{
    jsonpath_rfc9535::JsonPath::parse(path).err().map(|error| error.to_string())
}

/// `jsonpath_rfc9535::query_values`: compiles the query as `JsonPath::parse` does (failing
/// with the same error) and gives the values that it selects in the document, in order.
#[verifier::external_body]
pub(crate) fn jsonpath_query(path: &str, document: &JsonValue) -> (r: Result<Vec<JsonValue>, String>)
    ensures
        match r {
            Ok(vs) => jsonpath_error(path@) is None && vs@.map_values(|v: JsonValue| v@)
                == jsonpath_values(path@, document@),
            Err(m) => jsonpath_error(path@) == Some(m@),
        },
{
    match jsonpath_rfc9535::query_values(path, &to_serde(document)) {
        Ok(values) => Ok(values.into_iter().map(from_serde).collect()),
        Err(error) => Err(error.to_string()),
    }
}

} // verus!
