//! What the project picker reads from the JSON answer to a workspace
//! request, through `serde_json`.
use vstd::prelude::*;
use crate::text;

verus! {

/// The message `serde_json::from_str::<serde_json::Value>` fails with on
/// `text`, or nothing where the text is valid JSON.
pub uninterp spec fn json_parse_failure(text: Seq<char>) -> Option<Seq<char>>;

/// The string at a JSON pointer in a valid JSON text: `Value::pointer`, then
/// `Value::as_str`, on the value that `serde_json::from_str` gives.
pub uninterp spec fn json_str_at(text: Seq<char>, pointer: Seq<char>) -> Option<Seq<char>>;

/// Parses `text` with `serde_json::from_str::<serde_json::Value>`: where that
/// fails, gives the error's `Display` text; otherwise looks up each pointer
/// with `Value::pointer` and reads it with `Value::as_str`. The contract
/// claims only that each outcome is a fixed function of the text and the
/// pointer, and that the lookups are made on every valid text.
#[verifier::external_body]
pub(crate) fn strings_at(text: &str, pointers: &Vec<String>) -> (r: Result<
    Vec<Option<String>>,
    String,
>)
    ensures
        match r {
            Ok(found) => {
                &&& json_parse_failure(text@) is None
                &&& found.len() == pointers.len()
                &&& forall|i: int|
                    0 <= i < found.len() ==> #[trigger] text::opt_view(found@[i]) == json_str_at(
                        text@,
                        pointers@[i]@,
                    )
            },
            Err(m) => json_parse_failure(text@) == Some(m@),
        },
{
    match serde_json::from_str::<serde_json::Value>(text) {
        Err(error) => Err(error.to_string()),
        Ok(value) => Ok(
            pointers.iter().map(
                |pointer| value.pointer(pointer).and_then(serde_json::Value::as_str).map(str::to_string),
            ).collect(),
        ),
    }
}

} // verus!
