use quas_wex_exort::config::{load_config, ConfigBuilder, EnvConfigBuilder};
use quas_wex_exort::mcp::list_tools::{list_tools_reply, listing_body, page_names, ListToolsArgs};
use quas_wex_exort::mcp::multi_call::{join_results, Piece};

fn texts(content: &[Piece<&'static str>]) -> Vec<String> {
    content
        .iter()
        .map(|p| match p {
            Piece::Text(s) => s.clone(),
            Piece::Block(b) => format!("<{b}>"),
        })
        .collect()
}

#[test]
fn multi_call_two_successes_in_order() {
    let tools = vec!["test_echo".to_string(), "test_echo".to_string()];
    let r = join_results(&tools, vec![Ok(vec!["alpha"]), Ok(vec!["beta"])]);
    assert!(!r.is_error);
    assert_eq!(
        texts(&r.content),
        vec!["[result 0 (test_echo)]\n", "<alpha>", "\n\n", "[result 1 (test_echo)]\n", "<beta>"]
    );
}

#[test]
fn multi_call_all_failed_is_error() {
    let tools = vec!["test_nope1".to_string(), "test_nope2".to_string()];
    let r = join_results::<&str>(&tools, vec![Err("e1".into()), Err("e2".into())]);
    assert!(r.is_error);
    assert_eq!(
        texts(&r.content),
        vec!["[result 0 (test_nope1)]\n", "e1", "\n\n", "[result 1 (test_nope2)]\n", "e2"]
    );
}

#[test]
fn multi_call_partial_failure_is_success() {
    let tools = vec!["test_echo".to_string(), "test_nonexistent".to_string()];
    let r = join_results(&tools, vec![Ok(vec!["good"]), Err("tool not found".into())]);
    assert!(!r.is_error);
    assert_eq!(texts(&r.content)[4], "tool not found");
}

#[test]
fn multi_call_empty_is_error() {
    let r = join_results::<&str>(&Vec::new(), Vec::new());
    assert!(r.is_error);
    assert_eq!(texts(&r.content), vec!["multi_call requires at least one call"]);
}

#[test]
fn multi_call_many_indices() {
    let tools: Vec<String> = (0..12).map(|i| format!("t{i}")).collect();
    let results: Vec<Result<Vec<&str>, String>> = (0..12).map(|_| Ok(Vec::new())).collect();
    let r = join_results(&tools, results);
    assert!(texts(&r.content).contains(&"[result 11 (t11)]\n".to_string()));
}

fn names() -> Vec<String> {
    ["a", "b", "c", "d", "e"].iter().map(|s| s.to_string()).collect()
}

#[test]
fn pages_slice_and_reconstruct() {
    let all = page_names(&names(), &ListToolsArgs { offset: 0, count: 100 });
    let a = page_names(&names(), &ListToolsArgs { offset: 0, count: 2 });
    let b = page_names(&names(), &ListToolsArgs { offset: 2, count: 100 });
    assert_eq!(a, vec!["a", "b"]);
    assert_eq!([a, b].concat(), all);
    assert!(page_names(&names(), &ListToolsArgs { offset: 9, count: 3 }).is_empty());
}

#[test]
fn list_tools_reply_is_json_array() {
    let r = list_tools_reply(Ok(names()), &ListToolsArgs { offset: 1, count: 2 });
    assert!(!r.is_error);
    assert_eq!(r.text, "[\"b\",\"c\"]");
    let r = list_tools_reply(Err("no arsenal".into()), &ListToolsArgs { offset: 0, count: 1 });
    assert!(r.is_error);
    assert_eq!(r.text, "no arsenal");
    assert_eq!(listing_body(None), "[]");
}

#[test]
fn list_tools_reply_escapes_names() {
    let names = vec![
        "say \"hi\"".to_string(),
        "back\\slash".to_string(),
        "tab\tnl\ncr\rbs\u{8}ff\u{c}".to_string(),
        "\u{1}\u{1f}".to_string(),
        "caf\u{e9}\u{7f}/".to_string(),
    ];
    let r = list_tools_reply(Ok(names), &ListToolsArgs { offset: 0, count: 9 });
    assert!(!r.is_error);
    assert_eq!(
        r.text,
        "[\"say \\\"hi\\\"\",\"back\\\\slash\",\"tab\\tnl\\ncr\\rbs\\bff\\f\",\"\\u0001\\u001f\",\"caf\u{e9}\u{7f}/\"]"
    );
    let r = list_tools_reply(Ok(Vec::new()), &ListToolsArgs { offset: 3, count: 2 });
    assert_eq!(r.text, "[]");
}

fn reading(state_dir: Option<&str>) -> EnvConfigBuilder {
    EnvConfigBuilder {
        state_dir: state_dir.map(String::from),
        bin_dir: Some("/bin".into()),
        postgres_url: None,
        objectiveai_agent_instance_hierarchy: Some("root/a".into()),
        objectiveai_response_id: None,
        objectiveai_response_ids: None,
        objectiveai_agent_id: Some("agent".into()),
        objectiveai_agent_full_id: None,
        objectiveai_agent_remote: None,
    }
}

#[test]
fn config_builds_through_all_stages() {
    let c = load_config(Some(reading(Some("/state")).build()));
    assert_eq!(c.state_dir(), "/state");
    assert_eq!(c.bin_dir.as_deref(), Some("/bin"));
    assert_eq!(c.objectiveai_agent_instance_hierarchy.as_deref(), Some("root/a"));
    assert_eq!(c.objectiveai_agent_id.as_deref(), Some("agent"));
    assert!(c.postgres_url.is_none());
}

#[test]
fn config_builder_default_is_unset() {
    let b = ConfigBuilder::default();
    assert!(b.state_dir.is_none() && b.bin_dir.is_none() && b.objectiveai_agent_remote.is_none());
}
