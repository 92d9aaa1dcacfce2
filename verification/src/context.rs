//! Values that an action needs from its invocation context.

use vstd::prelude::*;

verus! {

/// The message given when the action lacks the context value `name`.
pub open spec fn missing_context_message(name: Seq<char>) -> Seq<char> {
    "the action requires a "@ + name + " context"@
}

/// Returns the context value, which must be present and non-empty.
pub fn required_context_value(name: &str, value: Option<String>) -> (result: Result<String, String>)
    ensures
        result is Ok <==> (value is Some && value->0@.len() > 0),
        result matches Ok(v) ==> value == Some(v),
        result matches Err(message) ==> message@ == missing_context_message(name@),
{
    if let Some(v) = value {
        if !v.as_str().is_empty() {
            return Ok(v);
        }
    }
    let mut message = "the action requires a ".to_owned();
    message.append(name);
    message.append(" context");
    Err(message)
}

} // verus!
