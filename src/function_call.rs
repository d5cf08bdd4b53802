//! The retry policy of function calling: the model is asked for a JSON
//! function call; output that is not valid JSON is answered with the parse
//! error and asked for again, up to a fixed number of attempts.
use crate::text::{trim, trim_str};
use vstd::prelude::*;
use vstd::string::*;

verus! {

/// How many times the model is asked before giving up.
pub const MAX_FUNCTION_ATTEMPTS: usize = 10;

/// serde_json's complaint about `text` as one JSON value, or `None` when it
/// is one.
pub uninterp spec fn json_error(text: Seq<char>) -> Option<Seq<char>>;

/// Relies on `serde_json::from_str::<serde_json::Value>`: whether `text` is
/// one JSON value, and if not, the error's message; both depend on the text
/// alone.
#[verifier::external_body]
fn json_parse_error(text: &str) -> (r: Option<String>)
    ensures
        r matches Some(m) ==> json_error(text@) == Some(m@),
        r is None ==> json_error(text@) is None,
{
    serde_json::from_str::<serde_json::Value>(text).err().map(|e| e.to_string())
}

#[derive(Debug, PartialEq, Eq)]
pub enum FunctionCallStep {
    /// The output is the function call.
    Accept(String),
    /// Tell the model this and ask again.
    Retry(String),
    /// No attempts are left.
    GiveUp,
}

pub open spec fn retry_message(error: Seq<char>) -> Seq<char> {
    "Error Parsing JSON: "@ + error
}

/// What attempt `attempt` (counting from 0) leads to, given the trimmed
/// output and serde_json's complaint about it.
pub open spec fn step_spec(attempt: int, call: Seq<char>, error: Option<Seq<char>>, r: FunctionCallStep) -> bool {
    match error {
        None => r matches FunctionCallStep::Accept(c) && c@ == call,
        Some(m) => if attempt + 1 < MAX_FUNCTION_ATTEMPTS {
            r matches FunctionCallStep::Retry(t) && t@ == retry_message(m)
        } else {
            r is GiveUp
        },
    }
}

/// Decides on attempt `attempt` with the trimmed output `call`, given
/// serde_json's complaint about it (`None` when it parsed).
pub fn decide_function_call(attempt: usize, call: &str, parse_error: Option<String>) -> (r: FunctionCallStep)
    ensures
        step_spec(
            attempt as int,
            call@,
            match parse_error {
                Some(m) => Some(m@),
                None => None,
            },
            r,
        ),
{
    match parse_error {
        None => FunctionCallStep::Accept(call.to_owned()),
        Some(error) => {
            if attempt < MAX_FUNCTION_ATTEMPTS - 1 {
                let mut message = String::from_str("Error Parsing JSON: ");
                message.append(error.as_str());
                FunctionCallStep::Retry(message)
            } else {
                FunctionCallStep::GiveUp
            }
        },
    }
}

/// Decides what the model's `output` on attempt `attempt` leads to: the
/// trimmed output when it is JSON, else a retry with the parse error, or
/// giving up after the last attempt.
pub fn next_function_call_step(attempt: usize, output: &str) -> (r: FunctionCallStep)
    ensures
        step_spec(attempt as int, trim(output@), json_error(trim(output@)), r),
{
    let call = trim_str(output);
    let parse_error = json_parse_error(call);
    decide_function_call(attempt, call, parse_error)
}

} // verus!
