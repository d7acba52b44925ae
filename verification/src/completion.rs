//! Text completions.

use vstd::prelude::*;

use crate::chat::CompletionUsage;
use crate::json::{value_contents, value_tree, Json, JsonView};
use crate::text::concat3;

verus! {

/// Why a text completion ended.
#[derive(Debug, Clone, Copy, PartialEq, Eq, Structural)]
pub enum CompletionFinishReason {
    Stop,
    Length,
    ContentFilter,
}

/// One completion of a prompt.
#[derive(Debug, Clone, PartialEq, Eq)]
pub struct Choice {
    pub text: String,
    pub index: u32,
    pub finish_reason: Option<CompletionFinishReason>,
}

/// The answer to a request for text completions.
#[derive(Debug, Clone, PartialEq)]
pub struct CreateCompletionResponse {
    pub id: String,
    pub choices: Vec<Choice>,
    pub created: u32,
    pub model: String,
    pub system_fingerprint: Option<String>,
    pub object: String,
    pub usage: Option<CompletionUsage>,
}

/// How `serde::de::Unexpected` displays a value that is not of the type that was expected.
pub uninterp spec fn unexpected_text(tree: JsonView) -> Seq<char>;

/// `serde::de::Unexpected`, displayed: the kind of a value and, of a scalar, the value.
#[verifier::external_body]
fn unexpected(value: &serde_json::Value) -> (text: String)
    ensures
        text@ == unexpected_text(value_tree(*value)),
{
    let found = match value {
        serde_json::Value::Null => serde::de::Unexpected::Unit,
        serde_json::Value::Bool(flag) => serde::de::Unexpected::Bool(*flag),
        serde_json::Value::Number(n) => match (n.as_u64(), n.as_i64()) {
            (Some(number), _) => serde::de::Unexpected::Unsigned(number),
            (_, Some(number)) => serde::de::Unexpected::Signed(number),
            _ => serde::de::Unexpected::Float(n.as_f64().unwrap_or_default()),
        },
        serde_json::Value::String(text) => serde::de::Unexpected::Str(text),
        serde_json::Value::Array(_) => serde::de::Unexpected::Seq,
        serde_json::Value::Object(_) => serde::de::Unexpected::Map,
    };
    format!("{found}")
}

/// Why a value is not a flag for `echo`.
pub open spec fn echo_error(tree: JsonView) -> Seq<char> {
    "invalid type: "@ + unexpected_text(tree)
        + ", expected echo parameter to be a boolean (true or false) or null"@
}

/// The flag `echo` of a request: a boolean or null, and nothing that merely resembles one.
pub fn deserialize_echo_bool(value: &serde_json::Value) -> (echo: Result<Option<bool>, String>)
    ensures
        match (value_tree(*value), echo) {
            (JsonView::Null, Ok(flag)) => flag is None,
            (JsonView::Bool(given), Ok(flag)) => flag == Some(given),
            (JsonView::Null, Err(_)) => false,
            (JsonView::Bool(_), Err(_)) => false,
            (tree, Err(error)) => error@ == echo_error(tree),
            _ => false,
        },
{
    match value_contents(value) {
        Json::Null => Ok(None),
        Json::Bool(flag) => Ok(Some(flag)),
        _ => Err(
            concat3(
                "invalid type: ",
                unexpected(value).as_str(),
                ", expected echo parameter to be a boolean (true or false) or null",
            ),
        ),
    }
}

} // verus!
