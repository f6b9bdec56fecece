use devdeck::json::Json;
use devdeck::provider::{
    AgentAction, AgentRequest, AnthropicConfig, AnthropicProvider, MockProvider, Observation,
    OpenAICompatibleConfig, OpenAICompatibleProvider,
};
use devdeck::tools::{definitions_for, Permission, PermissionMatrix};

fn req(role: &str, agent: &str, turn: u32) -> AgentRequest {
    let mut m = PermissionMatrix::new();
    m.set("dev", "files", Permission::Full);
    AgentRequest {
        agent_id: agent.into(),
        role: role.into(),
        model: "mock-1".into(),
        system: "You are a test agent.".into(),
        context: "## Feature context\n\nOffline sync.".into(),
        goal: "do the thing".into(),
        tools: definitions_for("dev", &m),
        observations: vec![],
        turn,
        history: vec![],
    }
}

fn tool_of(a: &AgentAction) -> Option<(&str, &str, &Json)> {
    match a {
        AgentAction::Tool(c) => Some((c.tool.as_str(), c.action.as_str(), &c.args)),
        _ => None,
    }
}

#[test]
fn the_architect_records_a_decision_then_finishes() {
    let a = MockProvider.run(&req("architect", "architect", 1)).unwrap();
    assert!(
        a.actions.iter().any(|x| matches!(x, AgentAction::Decision { .. })),
        "turn 1 should record a decision"
    );
    let b = MockProvider.run(&req("architect", "architect", 2)).unwrap();
    assert!(b.complete, "the architect must terminate");
}

#[test]
fn developer_a_changes_the_shared_symbol_and_developer_b_does_not() {
    let a = MockProvider.run(&req("developer", "dev-a", 1)).unwrap();
    assert!(
        a.actions.iter().any(|x| matches!(x, AgentAction::SymbolChanged { .. })),
        "developer A owns the interface change"
    );

    let b = MockProvider.run(&req("developer", "dev-b", 1)).unwrap();
    assert!(
        !b.actions.iter().any(|x| matches!(x, AgentAction::SymbolChanged { .. })),
        "developer B must not also claim the interface change"
    );
}

#[test]
fn every_role_terminates_rather_than_looping_forever() {
    for role in ["architect", "developer", "qa", "auditor", "unknown-role"] {
        let mut done = false;
        for turn in 0..8 {
            if MockProvider.run(&req(role, "a", turn)).unwrap().complete {
                done = true;
                break;
            }
        }
        assert!(done, "role '{role}' never completed");
    }
}

#[test]
fn an_unconfigured_real_provider_reports_unhealthy_not_ready() {
    let a = AnthropicProvider::new(AnthropicConfig::default());
    let h = a.health(false);
    assert!(!h.ok && !h.configured, "no key must not look configured");
    assert!(a.body(&req("developer", "x", 0), false, false).is_err());

    let o = OpenAICompatibleProvider::new(OpenAICompatibleConfig {
        name: "OpenRouter".into(),
        base_url: "https://openrouter.ai/api/v1".into(),
        model: "some/model".into(),
        ..Default::default()
    });
    assert!(o.health(false).configured);
    assert!(o.health(false).ok);

    let unset = OpenAICompatibleProvider::new(OpenAICompatibleConfig::default());
    assert!(!unset.health(false).configured, "no base URL or model is not configured");
    assert!(!unset.health(false).ok);
}

#[test]
fn a_first_reply_is_labelled_with_the_model_and_what_it_was_given() {
    let r = req("qa", "qa", 0);
    let out = MockProvider.run(&r).unwrap();
    assert_eq!(
        out.message,
        format!(
            "[mock-1 \u{b7} You are a test agent] Starting the application before testing it. ({} tools, {} chars of context)",
            r.tools.len(),
            r.context.len()
        )
    );
    let later = MockProvider.run(&req("qa", "qa", 1)).unwrap();
    assert_eq!(later.message, "Running the configured test command.");
}

#[test]
fn a_first_turn_with_no_context_is_refused() {
    let mut r = req("developer", "dev-a", 0);
    r.context.clear();
    r.goal = "ship it".into();
    assert_eq!(MockProvider.run(&r).unwrap_err(), "dev-a was started with no context for 'ship it'");
}

#[test]
fn named_without_tools_it_answers_rather_than_runs_a_script() {
    let mut r = req("developer", "dev-a", 1);
    r.tools.clear();
    let out = MockProvider.run(&r).unwrap();
    assert!(out.complete);
    assert!(out.message.starts_with("developer here, on the mock provider"), "{}", out.message);
    assert!(out.message.contains("@dev-a take"));
    assert!(out.actions.iter().all(|a| tool_of(a).is_none()));
}

#[test]
fn the_orchestrator_remembers_delegates_or_says_what_it_cannot_do() {
    let mut r = req("orchestrator", "assistant", 0);
    r.goal = "Please REMEMBER that the demo is on Friday".into();
    let out = MockProvider.run(&r).unwrap();
    let (tool, action, args) = tool_of(&out.actions[0]).unwrap();
    assert_eq!((tool, action), ("memory", "save"));
    assert_eq!(args.get("title").and_then(|t| t.as_str()), Some("Please REMEMBER that the demo is on Friday"));
    assert!(!out.complete);

    r.goal = "start work".into();
    r.context = "Project\nFeatures:\n- offline-sync\n- billing".into();
    let out = MockProvider.run(&r).unwrap();
    let (tool, action, args) = tool_of(&out.actions[0]).unwrap();
    assert_eq!((tool, action), ("delegate", "start"));
    assert_eq!(args.get("feature_id").and_then(|t| t.as_str()), Some("offline-sync"));
    assert_eq!(args.get("agent_id").and_then(|t| t.as_str()), Some("dev-a"));
    assert!(out.message.contains("] I'll put Developer A on offline-sync. ("), "{}", out.message);

    r.context = "Project\nNo features here.".into();
    let out = MockProvider.run(&r).unwrap();
    assert!(out.complete);
    assert!(out.message.contains("There is no feature in this project"));

    r.goal = "What can you do?".into();
    let out = MockProvider.run(&r).unwrap();
    assert!(out.message.contains("I'm running on the mock provider"));
}

#[test]
fn the_orchestrator_reports_results_and_stops() {
    let mut r = req("orchestrator", "assistant", 1);
    r.observations = vec![
        Observation { call_id: String::new(), tool: "delegate".into(), action: "start".into(), args: Json::Null, ok: true, output: "started dev-a\nmore".into() },
        Observation { call_id: String::new(), tool: "memory".into(), action: "save".into(), args: Json::Null, ok: false, output: "disk full".into() },
    ];
    let out = MockProvider.run(&r).unwrap();
    assert_eq!(out.message, "started dev-a memory.save failed: disk full");
    assert!(out.complete);
    r.observations.clear();
    assert_eq!(MockProvider.run(&r).unwrap().message, "Done.");
}

#[test]
fn the_auditor_checks_the_shared_type_for_the_new_field() {
    let mut r = req("auditor", "auditor", 1);
    r.observations = vec![Observation {
        call_id: String::new(),
        tool: "files".into(),
        action: "read".into(),
        args: Json::Null,
        ok: true,
        output: "export type SyncResult = { outcome: string }".into(),
    }];
    let out = MockProvider.run(&r).unwrap();
    assert_eq!(out.message, "Implementation matches the server-authoritative decision.");
    r.observations[0].output = "export type SyncResult = { ok: boolean }".into();
    assert_eq!(
        MockProvider.run(&r).unwrap().message,
        "Implementation does not yet reflect the recorded decision."
    );
}

#[test]
fn qa_reports_the_last_result_it_saw() {
    let mut r = req("qa", "qa", 2);
    r.observations = vec![Observation {
        call_id: String::new(),
        tool: "tests".into(),
        action: "run".into(),
        args: Json::Null,
        ok: false,
        output: "2 failed".into(),
    }];
    let out = MockProvider.run(&r).unwrap();
    match &out.actions[0] {
        AgentAction::Done { summary } => assert_eq!(summary, "Ran the suite. ERROR: 2 failed"),
        other => panic!("{other:?}"),
    }
}

#[test]
fn a_role_with_no_script_finishes_at_once() {
    let out = MockProvider.run(&req("painter", "p", 1)).unwrap();
    assert_eq!(out.message, "No script for role 'painter'.");
    assert!(out.complete);
}
