//! The agent-facing MCP server logic: toolset gating and the toolsets.
pub mod arguments;
pub mod common;
pub mod json;
pub mod list_tools;
pub mod registry;
pub mod loops;
pub mod multi_call;
pub mod tasks;

use vstd::prelude::*;

use arguments::Arguments;
use loops::{is_loop_tool, loop_tool_name};
use multi_call::{is_multi_tool, multi_tool_name};
use tasks::{is_task_tool, task_tool_name};

verus! {

/// Whether a session with toolset flags `args` may see the tool `name`.
/// Tools outside a gated toolset are always allowed; a gated tool is allowed
/// only when the session's arguments are known and its flag is on.
pub open spec fn allowed(name: Seq<char>, args: Option<Arguments>) -> bool {
    if task_tool_name(name) {
        args matches Some(a) && a.tasks
    } else if multi_tool_name(name) {
        args matches Some(a) && a.multi
    } else if loop_tool_name(name) {
        args matches Some(a) && a.loops
    } else {
        true
    }
}

/// Whether a tool is allowed for the session, per the toolset flags it
/// carries. A gated tool with its flag off (or with no arguments) is treated
/// as nonexistent.
pub fn tool_allowed(name: &str, args: Option<Arguments>) -> (r: bool)
    ensures
        r == allowed(name@, args),
{
    if is_task_tool(name) {
        match args {
            Some(a) => a.tasks,
            None => false,
        }
    } else if is_multi_tool(name) {
        match args {
            Some(a) => a.multi,
            None => false,
        }
    } else if is_loop_tool(name) {
        match args {
            Some(a) => a.loops,
            None => false,
        }
    } else {
        true
    }
}

/// `list_tools` belongs to no gated toolset: it is visible in every mode,
/// whatever the session's arguments.
pub proof fn lemma_list_tools_always_allowed(args: Option<Arguments>)
    ensures
        allowed("list_tools"@, args),
{
    reveal_strlit("list_tools");
    reveal_strlit("create");
    reveal_strlit("list");
    reveal_strlit("wait");
    reveal_strlit("cancel");
    reveal_strlit("multi_call");
    reveal_strlit("begin_loop");
    reveal_strlit("end_loop");
    assert("list_tools"@.len() != "create"@.len());
    assert("list_tools"@ != "create"@);
    assert("list_tools"@.len() != "list"@.len());
    assert("list_tools"@ != "list"@);
    assert("list_tools"@ != "wait"@);
    assert("list_tools"@ != "cancel"@);
    assert("list_tools"@[0] != "multi_call"@[0]);
    assert("list_tools"@ != "multi_call"@);
    assert("list_tools"@[0] != "begin_loop"@[0]);
    assert("list_tools"@ != "begin_loop"@);
    assert("list_tools"@ != "end_loop"@);
}

/// No tool name belongs to two toolsets.
pub proof fn lemma_toolsets_disjoint(name: Seq<char>)
    ensures
        !(task_tool_name(name) && multi_tool_name(name)),
        !(task_tool_name(name) && loop_tool_name(name)),
        !(multi_tool_name(name) && loop_tool_name(name)),
{
    reveal_strlit("create");
    reveal_strlit("list");
    reveal_strlit("wait");
    reveal_strlit("cancel");
    reveal_strlit("multi_call");
    reveal_strlit("begin_loop");
    reveal_strlit("end_loop");
    assert("multi_call"@[0] != "begin_loop"@[0]);
    assert("create"@.len() != "begin_loop"@.len() && "create"@.len() != "end_loop"@.len());
    assert("list"@.len() != "begin_loop"@.len() && "list"@.len() != "end_loop"@.len());
    assert("wait"@.len() != "begin_loop"@.len() && "wait"@.len() != "end_loop"@.len());
    assert("cancel"@.len() != "begin_loop"@.len() && "cancel"@.len() != "end_loop"@.len());
    assert("multi_call"@.len() != "end_loop"@.len());
}

/// A gated tool is hidden when the session's arguments are absent, and
/// otherwise shown exactly when its own toolset's flag is on; every other
/// tool is always shown.
pub proof fn lemma_gated_tools_follow_flags(name: Seq<char>, args: Option<Arguments>)
    ensures
        (task_tool_name(name) || multi_tool_name(name) || loop_tool_name(name)) && args is None ==> !allowed(name, args),
        !(task_tool_name(name) || multi_tool_name(name) || loop_tool_name(name)) ==> allowed(name, args),
        args matches Some(a) ==> (task_tool_name(name) ==> allowed(name, args) == a.tasks),
        args matches Some(a) ==> (multi_tool_name(name) ==> allowed(name, args) == a.multi),
        args matches Some(a) ==> (loop_tool_name(name) ==> allowed(name, args) == a.loops),
{
    lemma_toolsets_disjoint(name);
}

} // verus!
