//! Small helpers of the command line: parameters and the colours of
//! statuses.

use crate::model::{state_name, OperationState};
use crate::text::{decimal, decimal_string};
use vstd::prelude::*;

verus! {

/// `s` cut in two at the first `c`: what stands before it and what stands
/// after it.
pub open spec fn cut_at_first(s: Seq<char>, c: char) -> Option<(Seq<char>, Seq<char>)>
    decreases s.len(),
{
    if s.len() == 0 {
        None
    } else if s.first() == c {
        Some((Seq::empty(), s.drop_first()))
    } else {
        match cut_at_first(s.drop_first(), c) {
            Some((before, after)) => Some((seq![s.first()] + before, after)),
            None => None,
        }
    }
}

/// `str::split_once` with a character as the delimiter: the text before the
/// first occurrence of the delimiter and the text after it.
#[verifier::external_body]
fn split_once(s: &str, delimiter: char) -> (r: Option<(&str, &str)>)
    ensures
        (match r {
            Some((before, after)) => Some((before@, after@)),
            None => None,
        }) == cut_at_first(s@, delimiter),
{
    s.split_once(delimiter)
}

/// Reads a parameter written as `KEY=VALUE`: the key is what stands before
/// the first `=`, the value what stands after it; the error says which text
/// has no `=`.
pub fn try_parse_key_val(s: &str) -> (r: Result<(String, String), String>)
    ensures
        match r {
            Ok((key, value)) => cut_at_first(s@, '=') == Some((key@, value@)),
            Err(message) => cut_at_first(s@, '=') is None && message@
                == "invalid KEY=VALUE: no `=` found in `"@ + s@ + "`"@,
        },
{
    match split_once(s, '=') {
        Some((key, value)) => Ok((key.to_owned(), value.to_owned())),
        None => {
            let mut message = String::from_str("invalid KEY=VALUE: no `=` found in `");
            message.append(s);
            message.append("`");
            Err(message)
        },
    }
}

/// The number of the terminal colour in which a status is shown.
pub open spec fn colour_of(status: OperationState) -> nat {
    match status {
        OperationState::Planned => 37,
        OperationState::InProgress => 36,
        OperationState::Paused => 35,
        OperationState::Completed => 32,
        OperationState::Aborted => 31,
        OperationState::Canceled => 33,
    }
}

/// The name of a status between the escape sequence that turns its colour
/// on and the one that turns colours off.
pub open spec fn coloured(status: OperationState) -> Seq<char> {
    "\x1b["@ + decimal(colour_of(status)) + "m"@ + state_name(status) + "\x1b[0m"@
}

/// The name of a status in its colour: white for planned, cyan for in
/// progress, magenta for paused, green for completed, red for aborted and
/// yellow for canceled.
pub fn colorize_status(status: OperationState) -> (r: String)
    ensures
        r@ == coloured(status),
{
    let colour: u64 = match status {
        OperationState::Planned => 37,
        OperationState::InProgress => 36,
        OperationState::Paused => 35,
        OperationState::Completed => 32,
        OperationState::Aborted => 31,
        OperationState::Canceled => 33,
    };
    let mut r = String::from_str("\x1b[");
    r.append(decimal_string(colour).as_str());
    r.append("m");
    r.append(status.as_str());
    r.append("\x1b[0m");
    r
}

} // verus!
