use quas_wex_exort::mcp::arguments::Arguments;
use quas_wex_exort::mcp::loops::is_loop_tool;
use quas_wex_exort::mcp::multi_call::is_multi_tool;
use quas_wex_exort::mcp::tasks::is_task_tool;
use quas_wex_exort::mcp::tool_allowed;

fn args(tasks: bool, multi: bool, loops: bool) -> Option<Arguments> {
    Some(Arguments { tasks, multi, loops, python: false, objectiveai: false })
}

#[test]
fn tool_names_belong_to_their_toolsets() {
    for n in ["create", "list", "wait", "cancel"] {
        assert!(is_task_tool(n));
        assert!(!is_multi_tool(n));
        assert!(!is_loop_tool(n));
    }
    assert!(is_multi_tool("multi_call"));
    assert!(is_loop_tool("begin_loop"));
    assert!(is_loop_tool("end_loop"));
    assert!(!is_task_tool("list_tools"));
    assert!(!is_task_tool("Create"));
    assert!(!is_multi_tool("multi_call "));
}

#[test]
fn gated_tools_hidden_without_arguments() {
    assert!(!tool_allowed("create", None));
    assert!(!tool_allowed("multi_call", None));
    assert!(!tool_allowed("begin_loop", None));
    assert!(tool_allowed("list_tools", None));
}

#[test]
fn gated_tools_follow_their_flag() {
    assert!(!tool_allowed("multi_call", args(true, false, true)));
    assert!(tool_allowed("multi_call", args(false, true, false)));
    assert!(!tool_allowed("wait", args(false, true, true)));
    assert!(tool_allowed("wait", args(true, false, false)));
    assert!(!tool_allowed("begin_loop", args(true, true, false)));
    assert!(tool_allowed("end_loop", args(false, false, true)));
}

#[test]
fn list_tools_visible_in_every_mode() {
    for t in [false, true] {
        for m in [false, true] {
            for l in [false, true] {
                assert!(tool_allowed("list_tools", args(t, m, l)));
            }
        }
    }
    assert!(tool_allowed("test_echo", args(false, false, false)));
}
