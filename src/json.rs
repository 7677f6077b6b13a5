use vstd::prelude::*;

verus! {

/// A JSON document as plain values. A number keeps the text that serde_json
/// writes for it; an object keeps its members in the order serde_json
/// yields them.
#[derive(Debug)]
pub enum Json {
    Null,
    Bool(bool),
    Number(String),
    Str(String),
    Array(Vec<Json>),
    Object(Vec<(String, Json)>),
}

/// Where and why the text is not JSON.
#[derive(Debug, Clone)]
pub struct JsonSyntaxError {
    pub line: usize,
    pub column: usize,
    pub message: String,
}

#[verifier::external_type_specification]
#[verifier::external_body]
pub struct ExValue(serde_json::Value);

/// What serde_json reads from a text, as plain values; `None` where the
/// text is not JSON.
pub uninterp spec fn json_of_text(text: Seq<char>) -> Option<Json>;

/// Relies on `serde_json::from_str` into a `serde_json::Value`, converted
/// one for one by `json_of_value`: the document, or the one-based line and
/// column at which the text stopped being JSON.
#[verifier::external_body]
pub(crate) fn read_json(text: &str) -> (r: Result<Json, JsonSyntaxError>)
    ensures
        match json_of_text(text@) {
            Some(j) => r matches Ok(v) && v == j,
            None => r is Err,
        },
{
    match serde_json::from_str::<serde_json::Value>(text) {
        Ok(v) => Ok(json_of_value(&v)),
        Err(e) => Err(JsonSyntaxError { line: e.line(), column: e.column(), message: e.to_string() }),
    }
}

/// Relies on the variants of `serde_json::Value`, taken one for one; a number
/// becomes the text that its `Display` writes. Only `read_json` calls it.
#[verifier::external_body]
fn json_of_value(v: &serde_json::Value) -> (r: Json) {
    match v {
        serde_json::Value::Null => Json::Null,
        serde_json::Value::Bool(b) => Json::Bool(*b),
        serde_json::Value::Number(n) => Json::Number(n.to_string()),
        serde_json::Value::String(s) => Json::Str(s.clone()),
        serde_json::Value::Array(a) => Json::Array(a.iter().map(json_of_value).collect()),
        serde_json::Value::Object(o) => {
            Json::Object(o.iter().map(|(k, x)| (k.clone(), json_of_value(x))).collect())
        },
    }
}

} // verus!
