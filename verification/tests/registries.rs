use quas_wex_exort::mcp::loops::registry::{
    loop_list_reply, loop_message, loop_step, LoopAction, LoopEvent,
};
use quas_wex_exort::mcp::loops::{validate_begin, BeginLoopRequest, LoopRegistry};
use quas_wex_exort::mcp::tasks::registry::{
    completion_nudge, task_list_reply, task_status, wait_reply, Outcome,
};
use quas_wex_exort::mcp::tasks::TaskRegistry;

#[test]
fn task_create_then_list_and_claim() {
    let mut reg: TaskRegistry<u32> = TaskRegistry::new();
    let id = reg.create("root/a".to_string(), 7);
    assert_eq!(id.len(), 11);
    assert_eq!(reg.list("root/a"), vec![id.clone()]);
    assert!(reg.list("root/b").is_empty());
    assert_eq!(reg.get("root/a", &id), Some(&7));
    assert_eq!(reg.claim("root/a", &id).ok(), Some(7));
    assert!(reg.list("root/a").is_empty());
    let again = reg.claim("root/a", &id).err().expect("claimed twice");
    assert!(again.is_error);
    assert_eq!(again.text, "task not found");
}

#[test]
fn task_entries_pair_ids_with_handles() {
    let mut reg: TaskRegistry<u32> = TaskRegistry::new();
    let a = reg.create("root/a".to_string(), 10);
    let b = reg.create("root/a".to_string(), 20);
    reg.create("root/b".to_string(), 30);
    let mut got: Vec<(String, u32)> = reg.entries("root/a").into_iter().map(|(id, h)| (id, *h)).collect();
    got.sort();
    let mut want = vec![(a.clone(), 10), (b, 20)];
    want.sort();
    assert_eq!(got, want);
    assert!(reg.entries("root/c").is_empty());
    reg.claim("root/a", &a).ok();
    assert_eq!(reg.entries("root/a").len(), 1);
}

#[test]
fn task_ids_are_scoped_per_aih() {
    let mut reg: TaskRegistry<u32> = TaskRegistry::new();
    let id = reg.create("root/a".to_string(), 1);
    let (reply, handle) = reg.cancel("root/b", &id);
    assert!(reply.is_error);
    assert_eq!(reply.text, "task not found");
    assert!(handle.is_none());
    let (reply, handle) = reg.cancel("root/a", &id);
    assert!(!reply.is_error);
    assert_eq!(reply.text, "cancelled");
    assert_eq!(handle, Some(1));
}

#[test]
fn task_unknown_ids_not_found() {
    let mut reg: TaskRegistry<u32> = TaskRegistry::new();
    let r = reg.claim("root/a", "doesnotexist").err().unwrap();
    assert!(r.is_error);
    assert_eq!(r.text, "task not found");
    let (r, _) = reg.cancel("root/a", "doesnotexist");
    assert_eq!(r.text, "task not found");
}

#[test]
fn task_status_words() {
    assert_eq!(task_status::<u32>(None), "running");
    assert_eq!(task_status::<u32>(Some(&Outcome::Cancelled)), "cancelled");
    assert_eq!(task_status::<u32>(Some(&Outcome::Failed("x".into()))), "error");
    assert_eq!(task_status(Some(&Outcome::Completed { result: 1u32, is_error: true })), "error");
    assert_eq!(task_status(Some(&Outcome::Completed { result: 1u32, is_error: false })), "completed");
}

#[test]
fn completion_nudge_only_when_unclaimed() {
    let ok = Outcome::Completed { result: 0u32, is_error: false };
    assert_eq!(
        completion_nudge("abc", false, &ok).as_deref(),
        Some("<quas-wex-exort>\nTask 'abc' has completed successfully.\n</quas-wex-exort>")
    );
    let failed: Outcome<u32> = Outcome::Failed("boom".into());
    assert_eq!(
        completion_nudge("abc", false, &failed).as_deref(),
        Some("<quas-wex-exort>\nTask 'abc' has completed with an error.\n</quas-wex-exort>")
    );
    assert_eq!(completion_nudge("abc", true, &ok), None);
    assert_eq!(completion_nudge::<u32>("abc", false, &Outcome::Cancelled), None);
}

#[test]
fn wait_reply_mapping() {
    assert_eq!(wait_reply(Some(Outcome::Completed { result: 5u32, is_error: true })).ok(), Some(5));
    let e = wait_reply::<u32>(Some(Outcome::Failed("bad args".into()))).err().unwrap();
    assert!(e.is_error);
    assert_eq!(e.text, "task failed: bad args");
    let e = wait_reply::<u32>(Some(Outcome::Cancelled)).err().unwrap();
    assert_eq!(e.text, "task was cancelled");
    let e = wait_reply::<u32>(None).err().unwrap();
    assert_eq!(e.text, "task ended unexpectedly");
}

#[test]
fn begin_loop_rejects_zero() {
    let r = validate_begin(&BeginLoopRequest { interval_seconds: 0, message: "hi".into() })
        .err()
        .unwrap();
    assert!(r.is_error);
    assert_eq!(r.text, "interval_seconds must be at least 1");
    assert!(validate_begin(&BeginLoopRequest { interval_seconds: 1, message: "hi".into() }).is_ok());
}

#[test]
fn loop_envelope_is_exact() {
    assert_eq!(
        loop_message("ABC", "tick tock"),
        "<quas-wex-exort loop-id=\"ABC\">\ntick tock\n</quas-wex-exort>"
    );
}

#[test]
fn loop_end_claims_once() {
    let mut reg: LoopRegistry<&str> = LoopRegistry::new();
    let id = reg.begin("root/a".to_string(), 60, 1_000, "worker");
    assert_eq!(reg.ids("root/a"), vec![id.clone()]);
    let (r, h) = reg.end("root/a", &id);
    assert!(!r.is_error);
    assert_eq!(r.text, "ended");
    assert_eq!(h, Some("worker"));
    let (r, h) = reg.end("root/a", &id);
    assert!(r.is_error);
    assert_eq!(r.text, "loop not found");
    assert!(h.is_none());
}

#[test]
fn end_loop_unknown_id_not_found() {
    let mut reg: LoopRegistry<()> = LoopRegistry::new();
    let (r, _) = reg.end("root/a", "doesnotexist");
    assert_eq!(r.text, "loop not found");
}

#[test]
fn loop_list_reports_seconds_until_next_run() {
    let mut reg: LoopRegistry<()> = LoopRegistry::new();
    let id = reg.begin("root/a".to_string(), 60, 1_000, ());
    // Due at 61_000 ms; at 1_500 ms that is 59.5 s away, listed as 59.
    assert_eq!(reg.list("root/a", 1_500), vec![(id.clone(), 59)]);
    assert_eq!(reg.list("root/a", 1_000), vec![(id.clone(), 60)]);
    // Past due: saturates at zero.
    assert_eq!(reg.list("root/a", 90_000), vec![(id.clone(), 0)]);
    assert!(reg.list("root/b", 90_000).is_empty());
    // A new cycle starting at 90_000 is due at 150_000.
    reg.cycle_started("root/a", &id, 90_000);
    assert_eq!(reg.list("root/a", 100_000), vec![(id.clone(), 50)]);
    assert_eq!(reg.clock_ms(), 90_000);
}

#[test]
fn loop_list_reply_is_json_array() {
    let r = loop_list_reply(&vec![("ABC".to_string(), 59)]);
    assert!(!r.is_error);
    let v: serde_json::Value = serde_json::from_str(&r.text).unwrap();
    assert_eq!(v[0]["loop_id"], "ABC");
    assert_eq!(v[0]["seconds_until_next_run"], 59);
    assert_eq!(loop_list_reply(&Vec::new()).text, "[]");
    let r = loop_list_reply(&vec![("A\"1".to_string(), 0), ("B2".to_string(), 1200)]);
    assert_eq!(
        r.text,
        "[{\"loop_id\":\"A\\\"1\",\"seconds_until_next_run\":0},{\"loop_id\":\"B2\",\"seconds_until_next_run\":1200}]"
    );
}

#[test]
fn loop_step_paces_and_delivers() {
    match loop_step("ABC", "tick tock", 2, LoopEvent::CycleStart { now_ms: 500 }) {
        LoopAction::SleepUntil { until_ms } => assert_eq!(until_ms, 2_500),
        _ => panic!("expected a sleep"),
    }
    match loop_step("ABC", "tick tock", 2, LoopEvent::Due) {
        LoopAction::Deliver { text } => assert_eq!(
            text,
            "<quas-wex-exort loop-id=\"ABC\">\ntick tock\n</quas-wex-exort>"
        ),
        _ => panic!("expected a delivery"),
    }
    assert!(matches!(loop_step("ABC", "x", 2, LoopEvent::Ended), LoopAction::Stop));
    match loop_step("A", "x", u64::MAX, LoopEvent::CycleStart { now_ms: u64::MAX }) {
        LoopAction::SleepUntil { until_ms } => {
            assert_eq!(until_ms, u64::MAX as u128 + u64::MAX as u128 * 1000)
        }
        _ => panic!("expected a sleep"),
    }
}

#[test]
fn task_list_reply_pairs_ids_with_status() {
    let done = Outcome::Completed { result: 0u32, is_error: false };
    let failed: Outcome<u32> = Outcome::Failed("x".into());
    let items = vec![
        ("A1".to_string(), None),
        ("B2".to_string(), Some(&done)),
        ("C3".to_string(), Some(&failed)),
    ];
    let r = task_list_reply(&items);
    assert!(!r.is_error);
    let v: serde_json::Value = serde_json::from_str(&r.text).unwrap();
    assert_eq!(v.as_array().unwrap().len(), 3);
    assert_eq!(v[0]["task_id"], "A1");
    assert_eq!(v[0]["status"], "running");
    assert_eq!(v[1]["status"], "completed");
    assert_eq!(v[2]["task_id"], "C3");
    assert_eq!(v[2]["status"], "error");
    assert_eq!(task_list_reply::<u32>(&Vec::new()).text, "[]");
    assert_eq!(
        r.text,
        "[{\"task_id\":\"A1\",\"status\":\"running\"},{\"task_id\":\"B2\",\"status\":\"completed\"},{\"task_id\":\"C3\",\"status\":\"error\"}]"
    );
}

#[test]
fn loop_run_is_paced() {
    // Three cycles of a 2 s loop begun at 1_000 ms; each send takes 150 ms.
    let mut start: u64 = 1_000;
    let mut delivered: Vec<u128> = Vec::new();
    for _ in 0..3 {
        let until = match loop_step("L", "m", 2, LoopEvent::CycleStart { now_ms: start }) {
            LoopAction::SleepUntil { until_ms } => until_ms,
            _ => panic!("expected a sleep"),
        };
        assert!(matches!(loop_step("L", "m", 2, LoopEvent::Due), LoopAction::Deliver { .. }));
        delivered.push(until);
        start = (until + 150) as u64;
    }
    assert_eq!(delivered, vec![3_000, 5_150, 7_300]);
    assert!(delivered[2] - delivered[0] >= 2 * 2_000);
}
