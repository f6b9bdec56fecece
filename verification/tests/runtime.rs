use devdeck::json::Json;
use devdeck::provider::AgentAction;
use devdeck::runtime::{
    change_message, decision_message, message_entry, new_session, session_body, test_run, Drive,
    DriveStep, StartAgentCommand, MAX_TURNS,
};
use devdeck::state::{AgentDef, Checkpoint, SessionStatus};
use devdeck::tools::{Permission, PermissionMatrix, ToolCall, ToolResult};

#[test]
fn a_session_stops_after_the_turn_limit() {
    let mut d = Drive::new();
    let mut n = 0;
    while let Some(t) = d.next_turn() {
        assert_eq!(t, n);
        n += 1;
    }
    assert_eq!(n, MAX_TURNS);
    assert_eq!(d.turns(), MAX_TURNS);
    let (status, summary) = d.outcome();
    assert_eq!(status, SessionStatus::Completed);
    assert_eq!(summary, "Session ended with no summary.");
}

#[test]
fn a_failed_provider_ends_the_session_as_failed() {
    let mut d = Drive::new();
    assert_eq!(d.next_turn(), Some(0));
    d.provider_failed("unknown provider 'x'".into());
    assert_eq!(d.next_turn(), None);
    let (status, summary) = d.outcome();
    assert_eq!(status, SessionStatus::Failed);
    assert_eq!(summary, "unknown provider 'x'");
    assert_eq!(d.release_label(), "released");
}

#[test]
fn done_stops_the_loop_and_files_are_counted_once() {
    let mut d = Drive::new();
    d.next_turn();
    d.touched(&vec!["a.rs".into(), "b.rs".into()]);
    d.touched(&vec!["b.rs".into(), "c.rs".into()]);
    d.done("all good".into());
    assert_eq!(d.next_turn(), None);
    assert_eq!(d.outcome().1, "all good");
    assert_eq!(d.release_label(), "completed");
}

fn agent() -> AgentDef {
    AgentDef {
        id: "dev-a".into(),
        name: "Dev A".into(),
        role: "developer".into(),
        provider: "mock".into(),
        model: "mock-1".into(),
        system: "You write code.".into(),
        permissions: vec![],
        skills: vec![],
    }
}

#[test]
fn an_action_is_either_work_outside_or_the_end() {
    let mut d = Drive::new();
    d.next_turn();
    let call = ToolCall::new("files", "read", Json::Null);
    assert_eq!(d.on_action(&AgentAction::Tool(call)), DriveStep::RunTool);
    assert_eq!(
        d.on_action(&AgentAction::SymbolChanged { symbol: "Order".into() }),
        DriveStep::AnnounceSymbol
    );
    assert_eq!(d.on_action(&AgentAction::UpdateContext { body: "b".into() }), DriveStep::PersistContext);
    assert_eq!(
        d.on_action(&AgentAction::Decision {
            id: "adr-1".into(),
            title: "Server wins".into(),
            body: "".into(),
            impacts: vec![],
            supersedes: None,
        }),
        DriveStep::RecordDecision
    );
    assert_eq!(d.next_turn(), Some(1), "work outside does not end the loop");
    assert_eq!(d.on_action(&AgentAction::Done { summary: "shipped".into() }), DriveStep::Nothing);
    assert_eq!(d.next_turn(), None);
    assert_eq!(d.outcome().1, "shipped");
}

#[test]
fn a_tool_result_is_what_the_next_turn_sees() {
    let mut d = Drive::new();
    let mut call = ToolCall::new("files", "write", Json::Null);
    call.call_id = "c1".into();
    let mut res = ToolResult::ok("files", "write", "wrote a.rs".into());
    res.changed_files = vec!["a.rs".into(), "a.rs".into()];
    let after = d.on_tool_result(&call, &res, "t1");
    assert_eq!(after.entry.kind, "tool");
    assert_eq!(after.entry.text, "files.write");
    assert_eq!(after.entry.at, "t1");
    assert!(after.commit);
    assert!(!after.record_test);

    let bad = ToolResult::failed("tests", "run", "2 failed".into());
    let after = d.on_tool_result(&ToolCall::new("tests", "run", Json::Null), &bad, "t2");
    assert_eq!(after.entry.kind, "tool-error");
    assert!(!after.commit);
    assert!(after.record_test);

    d.on_record_failed("no such feature".into());

    let mut m = PermissionMatrix::new();
    m.set("dev-a", "files", Permission::Full);
    let r = d.request(&agent(), "ctx", "goal", &m, 3);
    assert_eq!(r.observations.len(), 3);
    assert_eq!(r.observations[0].call_id, "c1");
    assert_eq!(r.observations[0].output, "wrote a.rs");
    assert!(r.observations[0].ok);
    assert_eq!(r.observations[1].output, "2 failed");
    assert!(!r.observations[1].ok);
    assert_eq!(r.observations[2].tool, "decision");
    assert_eq!(r.observations[2].action, "record");
    assert_eq!(r.turn, 3);
    assert_eq!(r.agent_id, "dev-a");
    assert!(r.history.is_empty());
    assert!(!r.tools.is_empty());
    assert!(r.tools.iter().all(|t| t.name.starts_with("files_")));

    let mut s = new_session("s1".into(), &agent(), &cmd(), "t0", Checkpoint { commit: None, taken_at: "t0".into() }, 42);
    assert_eq!(s.status, SessionStatus::Planning);
    d.done("done it".into());
    d.end_session(&mut s, "t9");
    assert_eq!(s.status, SessionStatus::Completed);
    assert_eq!(s.ended_at.as_deref(), Some("t9"));
    assert_eq!(s.files_touched, vec!["a.rs".to_string()]);
    assert_eq!(s.summary.as_deref(), Some("done it"));
    assert_eq!(s.context_tokens, 42);
}

fn cmd() -> StartAgentCommand {
    StartAgentCommand {
        project_id: "p".into(),
        feature_id: "f".into(),
        agent_id: "dev-a".into(),
        work_item_id: Some("w1".into()),
        intent: None,
        areas: vec![],
        depends_on: vec![],
    }
}

#[test]
fn the_records_a_session_leaves_say_what_happened() {
    assert!(message_entry("", "t").is_none());
    let e = message_entry("thinking", "t").unwrap();
    assert_eq!((e.kind.as_str(), e.text.as_str()), ("message", "thinking"));
    let res = ToolResult::ok("tests", "run", "ok 3".into());
    let run = test_run("test-1".into(), "p", "f", "qa", &None, "t", &res);
    assert_eq!(run.command, "(none)");
    assert!(run.passed);
    assert_eq!(run.output, "ok 3");
    assert_eq!(run.feature_id.as_deref(), Some("f"));
    assert_eq!(change_message("Dev A", "fix login"), "Dev A: fix login");
    assert_eq!(decision_message("Server wins"), "Decision: Server wins");
    assert_eq!(session_body("s1", "all good"), "# Session s1\n\nall good\n");
}
