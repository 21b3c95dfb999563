//! The `tasks` toolset: create / list / wait / cancel background invocations
//! of other tools in the agent's arsenal.
pub mod registry;

use vstd::prelude::*;

use crate::text::str_eq;

pub use registry::TaskRegistry;

verus! {

/// The wire names of the task tools.
pub open spec fn task_tool_name(name: Seq<char>) -> bool {
    name == "create"@ || name == "list"@ || name == "wait"@ || name == "cancel"@
}

/// Whether `name` is one of the task tools.
pub fn is_task_tool(name: &str) -> (r: bool)
    ensures
        r == task_tool_name(name@),
{
    str_eq(name, "create") || str_eq(name, "list") || str_eq(name, "wait") || str_eq(name, "cancel")
}

/// Parameters of `create`.
pub struct TaskCreateRequest {
    /// Name of the tool (in the agent's arsenal) to invoke in the background.
    pub tool: String,
    /// Arguments to pass to that tool.
    pub arguments: serde_json::Value,
}

/// Parameters of `wait`.
pub struct TaskWaitRequest {
    /// Id of the task to wait on.
    pub task_id: String,
}

/// Parameters of `cancel`.
pub struct TaskCancelRequest {
    /// Id of the task to cancel.
    pub task_id: String,
}

} // verus!
