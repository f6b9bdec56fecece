use devdeck::state::{
    agent_system, answers_offline, configure_provider, not_configured, probe_timeout, ProviderSetup,
    default_agents, migrate_agent_providers, permission_grants, permission_matrix, restore_permissions, set_agent_provider,
    set_permission, ProviderConfig, SessionStatus,
};
use devdeck::tools::Permission;

#[test]
fn statuses_label_themselves_and_say_whether_they_are_running() {
    assert_eq!(SessionStatus::Working.label(), "Working");
    assert_eq!(SessionStatus::Failed.label(), "Failed");
    assert!(SessionStatus::Planning.active());
    assert!(SessionStatus::Blocked.active());
    assert!(!SessionStatus::Completed.active());
    assert!(!SessionStatus::Failed.active());
    assert!(!SessionStatus::Idle.active());
}

#[test]
fn a_provider_is_called_by_its_id_or_else_its_kind() {
    let c = ProviderConfig { kind: "openai-compatible".into(), ..Default::default() };
    assert_eq!(c.instance_id(), "openai-compatible");
    let d = ProviderConfig { id: " nvidia ".into(), kind: "openai-compatible".into(), ..Default::default() };
    assert_eq!(d.instance_id(), "nvidia");
}

#[test]
fn qa_cannot_edit_the_code_it_is_testing() {
    let agents = default_agents("assistant");
    let m = permission_matrix(&agents);
    assert_eq!(m.get("qa", "files"), Permission::Read);
    assert_eq!(m.get("qa", "tests"), Permission::Full);
    assert_eq!(m.get("auditor", "terminal"), Permission::Nothing);
    assert_eq!(m.get("assistant", "terminal"), Permission::Approval);
    assert_eq!(m.get("dev-a", "files"), Permission::Full);
    let ids: Vec<&str> = agents.iter().map(|a| a.id.as_str()).collect();
    assert_eq!(ids, vec!["assistant", "architect", "dev-a", "dev-b", "qa", "auditor"]);
}

#[test]
fn a_permission_change_reaches_the_matrix() {
    let mut agents = default_agents("assistant");
    set_permission(&mut agents, "qa", "files", "full").unwrap();
    assert_eq!(permission_matrix(&agents).get("qa", "files"), Permission::Full);
    assert_eq!(set_permission(&mut agents, "ghost", "files", "full").unwrap_err(), "no agent 'ghost'");
}

fn g(a: &str, t: &str, p: &str) -> (String, String, String) {
    (a.to_string(), t.to_string(), p.to_string())
}

#[test]
fn grants_come_out_flat_and_sorted() {
    let agents = default_agents("assistant");
    let grants = permission_grants(&agents);
    let mut sorted = grants.clone();
    sorted.sort();
    assert_eq!(grants, sorted);
    let total: usize = agents.iter().map(|a| a.permissions.len()).sum();
    assert_eq!(grants.len(), total);
    assert!(grants.contains(&g("qa", "files", "read")));
    assert!(grants.contains(&g("auditor", "terminal", "none")));
}

#[test]
fn saved_grants_are_laid_over_the_defaults_and_unknown_ones_skipped() {
    let mut agents = default_agents("assistant");
    restore_permissions(
        &mut agents,
        &vec![g("qa", "files", "full"), g("ghost", "files", "full"), g("qa", "teleport", "full"), g("qa", "files", "read")],
    );
    let m = permission_matrix(&agents);
    assert_eq!(m.get("qa", "files"), Permission::Read);
    assert_eq!(m.get("ghost", "files"), Permission::Nothing);
    assert!(!permission_grants(&agents).iter().any(|x| x.1 == "teleport"));
    restore_permissions(&mut agents, &vec![g("qa", "files", "full")]);
    assert_eq!(permission_matrix(&agents).get("qa", "files"), Permission::Full);
    let before = permission_grants(&agents).len();
    assert_eq!(before, permission_grants(&default_agents("assistant")).len());
}

#[test]
fn an_agent_is_pointed_only_at_a_configured_provider() {
    let mut agents = default_agents("assistant");
    let configured = vec!["mock".to_string(), "nvidia".to_string()];
    assert_eq!(
        set_agent_provider(&mut agents, &configured, "dev-b", "openrouter", "x").unwrap_err(),
        "'openrouter' is not configured — set it up under Providers first"
    );
    assert_eq!(set_agent_provider(&mut agents, &configured, "nobody", "nvidia", "").unwrap_err(), "no agent 'nobody'");
    let before = agents.iter().find(|a| a.id == "dev-b").unwrap().model.clone();
    let a = set_agent_provider(&mut agents, &configured, "dev-b", "nvidia", "").unwrap();
    assert_eq!(a.provider, "nvidia");
    assert_eq!(a.model, before);
    let a = set_agent_provider(&mut agents, &configured, "dev-b", "nvidia", "llama-3").unwrap();
    assert_eq!(a.model, "llama-3");
    assert_eq!(agents.iter().find(|a| a.id == "dev-b").unwrap().model, "llama-3");
}

#[test]
fn an_old_saved_choice_moves_only_an_agent_still_on_the_mock() {
    let mut agents = default_agents("assistant");
    let configured = vec!["mock".to_string(), "nvidia".to_string()];
    set_agent_provider(&mut agents, &configured, "qa", "nvidia", "m1").unwrap();
    let saved = vec![
        g("dev-b", "nvidia", "m2"),
        g("qa", "nvidia", "m3"),
        g("dev-a", "gone", "m4"),
        g("architect", "mock", ""),
    ];
    assert_eq!(migrate_agent_providers(&mut agents, &configured, &saved), 1);
    let find = |id: &str| agents.iter().find(|a| a.id == id).unwrap();
    assert_eq!(find("dev-b").provider, "nvidia");
    assert_eq!(find("dev-b").model, "m2");
    assert_eq!(find("qa").model, "m1");
    assert_eq!(find("dev-a").provider, "mock");
}

#[test]
fn configuring_a_provider_saves_a_typed_key_and_registers_its_kind() {
    let (key, setup) = configure_provider(ProviderConfig {
        id: " nvidia ".into(),
        kind: "openai-compatible".into(),
        base_url: "https://integrate.api.nvidia.com/v1".into(),
        api_key: Some("sk-1".into()),
        model: "m".into(),
        timeout_secs: Some(60),
        ..Default::default()
    });
    assert_eq!(key, Some(("devdeck:aiw:nvidia".to_string(), "sk-1".to_string())));
    match setup.unwrap() {
        ProviderSetup::OpenAI { id, config } => {
            assert_eq!(id, "nvidia");
            assert_eq!(config.key_target, "devdeck:aiw:nvidia");
            assert_eq!(config.timeout_secs, Some(60));
        }
        other => panic!("{other:?}"),
    }
    let (key, setup) = configure_provider(ProviderConfig {
        kind: "anthropic".into(),
        api_key: Some(String::new()),
        model: "opus".into(),
        ..Default::default()
    });
    assert!(key.is_none());
    assert!(matches!(setup, Ok(ProviderSetup::Anthropic { .. })));
    let (_, no_url) = configure_provider(ProviderConfig { kind: "openai-compatible".into(), ..Default::default() });
    assert_eq!(no_url.unwrap_err(), "an OpenAI-compatible provider needs a base URL");
    let (key, odd) = configure_provider(ProviderConfig { kind: "carrier-pigeon".into(), api_key: Some("k".into()), ..Default::default() });
    assert_eq!(odd.unwrap_err(), "unknown provider kind 'carrier-pigeon'");
    assert_eq!(key, Some(("devdeck:aiw:carrier-pigeon".to_string(), "k".to_string())));
}

#[test]
fn testing_one_model_is_kept_short() {
    assert_eq!(probe_timeout(None), Some(30));
    assert_eq!(probe_timeout(Some(10)), Some(10));
    assert_eq!(probe_timeout(Some(300)), Some(30));
    assert_eq!(not_configured("x"), "'x' is not configured");
    assert_eq!(answers_offline("mock"), "'mock' answers without a network.");
}

#[test]
fn skills_add_sections_to_an_agents_instructions() {
    let library = vec![
        ("review".to_string(), " Old text ".to_string()),
        ("tests".to_string(), "Run them.".to_string()),
        ("review".to_string(), " Read every line. ".to_string()),
    ];
    let skills = vec!["review".to_string(), "missing".to_string(), "tests".to_string()];
    assert_eq!(
        agent_system("  You build things.  ", &skills, &library),
        "You build things.\n\n# review\n\nRead every line.\n\n# tests\n\nRun them."
    );
    assert_eq!(agent_system(" x ", &vec![], &library), "x");
}

#[test]
fn restoring_permissions_keeps_defaults_for_anything_not_saved() {
    let mut w = default_agents("assistant");
    set_permission(&mut w, "dev-a", "terminal", "full").unwrap();
    let saved = permission_grants(&w);
    assert!(saved.contains(&("dev-a".to_string(), "terminal".to_string(), "full".to_string())));

    let mut fresh = default_agents("assistant");
    assert!(
        !matches!(permission_matrix(&fresh).get("dev-a", "terminal"), Permission::Full),
        "the default is the tightened one"
    );
    restore_permissions(&mut fresh, &saved);
    assert!(
        matches!(permission_matrix(&fresh).get("dev-a", "terminal"), Permission::Full),
        "a choice you made must survive a restart, or the matrix is a suggestion"
    );
    assert!(matches!(permission_matrix(&fresh).get("qa", "files"), Permission::Read));
}

#[test]
fn a_saved_grant_for_an_unknown_tool_is_ignored() {
    let mut w = default_agents("assistant");
    restore_permissions(&mut w, &vec![("dev-a".into(), "telepathy".into(), "full".into())]);
    let defs = devdeck::tools::definitions_for("dev-a", &permission_matrix(&w));
    assert!(!defs.iter().any(|d| d.name.starts_with("telepathy")));
}
