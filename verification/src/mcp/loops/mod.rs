//! The `loops` toolset: begin / end recurring message loops.
//!
//! A **loop** delivers a fixed message back to the agent every interval, until
//! ended.
pub mod registry;

use vstd::prelude::*;

use super::common::TextReply;
use crate::text::str_eq;

pub use registry::LoopRegistry;

verus! {

/// The wire names of the loop tools.
pub open spec fn loop_tool_name(name: Seq<char>) -> bool {
    name == "begin_loop"@ || name == "end_loop"@
}

/// Whether `name` is one of the loop tools.
pub fn is_loop_tool(name: &str) -> (r: bool)
    ensures
        r == loop_tool_name(name@),
{
    str_eq(name, "begin_loop") || str_eq(name, "end_loop")
}

/// Parameters of `begin_loop`.
pub struct BeginLoopRequest {
    /// Seconds between messages (minimum 1). The first message arrives after
    /// one full interval.
    pub interval_seconds: u64,
    /// The message delivered each interval, verbatim.
    pub message: String,
}

/// Parameters of `end_loop`.
pub struct EndLoopRequest {
    /// Id of the loop to end.
    pub loop_id: String,
}

/// The error text for a zero interval.
pub open spec fn zero_interval_text() -> Seq<char> {
    "interval_seconds must be at least 1"@
}

/// Check a `begin_loop` request before any loop is started: a zero interval
/// is a tool error; every other interval is accepted.
pub fn validate_begin(req: &BeginLoopRequest) -> (r: Result<(), TextReply>)
    ensures
        r is Err <==> req.interval_seconds == 0,
        r matches Err(reply) ==> reply.is_error && reply.text@ == zero_interval_text(),
{
    if req.interval_seconds == 0 {
        Err(TextReply::error("interval_seconds must be at least 1".to_string()))
    } else {
        Ok(())
    }
}

} // verus!
