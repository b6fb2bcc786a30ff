//! The decision the web-facing handler makes.
//!
//! The HTTP server, the routing and the wall-clock timeout live outside this
//! crate. Verified here is the mapping from the outcome of a dispatcher call
//! to the status code and body the handler answers with: success becomes 200
//! with the aggregated text, a dispatcher failure 500 with its message, and a
//! timed-out call 408.

use crate::dispatcher::DispatcherResult;
use vstd::prelude::*;

verus! {

/// The status and body for one dispatcher call's outcome; `None` stands for a
/// call the caller gave up on when its deadline elapsed.
pub fn response_for_outcome(outcome: Option<DispatcherResult<String>>) -> (r: (u16, String))
    ensures
        outcome matches None ==> r.0 == 408 && r.1@ == "request timed out"@,
        outcome matches Some(Ok(data)) ==> r.0 == 200 && r.1 == data,
        outcome matches Some(Err(e)) ==> r.0 == 500 && r.1@ == e.describe_spec(),
{
    match outcome {
        None => (408, "request timed out".to_owned()),
        Some(Ok(data)) => (200, data),
        Some(Err(e)) => (500, e.describe()),
    }
}

} // verus!
