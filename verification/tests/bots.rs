use devdeck::bots::{
    answers_to, effective_team, fmt_at, handle_of, next_work_id, parse_at, persona, vet_team,
    wake_check, wake_done, wake_failed, wake_report, Bot, WakeStep,
};
use devdeck::deck::WorkItem;

fn item(id: &str, status: &str) -> WorkItem {
    WorkItem { id: id.into(), title: id.into(), status: status.into(), assignee: None, areas: vec![] }
}

#[test]
fn a_lead_who_is_not_on_the_team_is_refused() {
    let e = vet_team("Site", "dev-a", vec!["qa".into()]).unwrap_err();
    assert!(e.contains("dev-a") && e.contains("team"), "{e}");
}

#[test]
fn a_bot_with_no_lead_may_have_no_team() {
    assert_eq!(vet_team("Site", "", vec![]).unwrap(), Vec::<String>::new());
}

#[test]
fn blank_names_are_dropped_rather_than_counted() {
    let t = vet_team("Site", "qa", vec!["  ".into(), "qa".into(), String::new()]).unwrap();
    assert_eq!(t, vec!["qa".to_string()]);
}

#[test]
fn times_survive_both_ways() {
    assert_eq!(parse_at("07:00"), 420);
    assert_eq!(parse_at("18:30"), 1110);
    assert_eq!(parse_at("nonsense"), 420);
    assert_eq!(fmt_at(420), "07:00");
    assert_eq!(fmt_at(1110), "18:30");
}

#[test]
fn a_time_is_clamped_to_the_clock() {
    assert_eq!(parse_at("25:99"), 23 * 60 + 59);
    assert_eq!(parse_at(" 9 "), 540);
    assert_eq!(parse_at("-3:10"), 10);
    assert_eq!(fmt_at(5), "00:05");
    assert_eq!(fmt_at(-1), "00:-1");
}

#[test]
fn the_lead_message_names_the_bot() {
    let e = vet_team("Site", " dev-a ", vec!["qa".into()]).unwrap_err();
    assert_eq!(
        e,
        "dev-a is not on Site's team, so it cannot be the one it wakes. Add it to the team first."
    );
}

#[test]
fn a_mention_matches_the_short_forms_and_not_a_prefix() {
    let b = Bot { name: "Marketing site bot".into(), node_name: "x-platform".into(), ..Default::default() };
    assert!(answers_to(&b, "x-platform"));
    assert!(answers_to(&b, "X-Platform-bot"));
    assert!(answers_to(&b, "marketing"));
    assert!(answers_to(&b, "marketing-site-bot"));
    assert!(!answers_to(&b, "x"));
    assert!(!answers_to(&b, "  "));
    assert_eq!(handle_of(&b), "x-platform");
    let c = Bot { name: "Dev Tools".into(), ..Default::default() };
    assert_eq!(handle_of(&c), "dev-tools");
}

#[test]
fn a_new_step_gets_the_first_free_number() {
    assert_eq!(next_work_id(&[]), "w1");
    assert_eq!(next_work_id(&[item("w1", "done")]), "w2");
    assert_eq!(next_work_id(&[item("w2", "done"), item("w3", "done")]), "w4");
    assert_eq!(next_work_id(&[item("a", "done"), item("b", "done")]), "w3");
}

#[test]
fn the_team_grows_by_the_agents_pulled_into_the_thread() {
    let b = Bot { team: vec!["dev-a".into()], ..Default::default() };
    let participants = vec!["qa".to_string(), "bot:4".to_string(), "dev-a".to_string(), "stranger".to_string()];
    let agents = vec!["dev-a".to_string(), "qa".to_string(), "bot:4".to_string()];
    assert_eq!(effective_team(&b, &participants, &agents), vec!["dev-a".to_string(), "qa".to_string()]);
}

#[test]
fn a_heartbeat_reports_only_what_needs_a_person() {
    assert_eq!(wake_report(&[item("a", "done")]), None);
    assert_eq!(
        wake_report(&[item("a", "blocked"), item("b", ""), item("c", "unclaimed")]),
        Some("1 blocked, 2 waiting to be picked up".to_string())
    );
    assert_eq!(wake_report(&[item("a", "blocked")]), Some("1 blocked".to_string()));
}

#[test]
fn a_wake_is_refused_for_an_agent_off_the_team_or_without_a_plan() {
    let b = Bot { name: "Site".into(), agent: "dev-a".into(), goal: "Ship".into(), ..Default::default() };
    match wake_check(&b, &vec![]) {
        WakeStep::NotOnTeam(s) => assert_eq!(
            s,
            "Site has no team, so there is nobody it may put work on. Add dev-a to its team on the bot's page."
        ),
        other => panic!("{other:?}"),
    }
    match wake_check(&b, &vec!["qa".into(), "dev-b".into()]) {
        WakeStep::NotOnTeam(s) => assert_eq!(s, "dev-a is not on Site's team (qa, dev-b), so it was not woken."),
        other => panic!("{other:?}"),
    }
    match wake_check(&b, &vec!["dev-a".into()]) {
        WakeStep::NoPlan(s) => assert!(s.contains("has no plan yet")),
        other => panic!("{other:?}"),
    }
    let p = Bot { feature: "launch".into(), ..b };
    match wake_check(&p, &vec!["dev-a".into()]) {
        WakeStep::Run(intent) => assert_eq!(intent, "Ship"),
        other => panic!("{other:?}"),
    }
    let q = Bot { agent: String::new(), ..Default::default() };
    assert!(matches!(wake_check(&q, &vec![]), WakeStep::Quiet));
}

#[test]
fn a_wake_line_says_what_ran_and_what_was_refused() {
    let (ok, line) = wake_done("Site", "QA Agent", 1, 2, 0, "  ", "completed");
    assert!(ok);
    assert_eq!(line, "Site ran QA Agent — 1 turn, 2 files touched. completed");
    let (ok, line) = wake_done("Site", "QA Agent", 3, 1, 2, "done", "completed");
    assert!(!ok);
    assert!(line.starts_with("Site ran QA Agent — 3 turns, 1 file touched. 2 calls refused"), "{line}");
    let (ok, line) = wake_failed("Site", "QA Agent", "boom");
    assert!(!ok);
    assert_eq!(line, "Site could not run QA Agent: boom");
}

#[test]
fn a_bot_with_no_agent_speaks_as_nobody_the_matrix_knows() {
    let b = Bot {
        node_id: 8,
        name: "Fitness bot".into(),
        node_name: "Fitness".into(),
        goal: "Four sessions a week".into(),
        ..Default::default()
    };
    let p = persona(&b, "assistant", "work");
    assert_eq!(p.agent_id, "bot:8", "an id no permission row matches");
    assert_eq!(p.runs_as, "assistant");
    assert!(p.system.contains("Fitness bot"), "{}", p.system);
    assert!(p.system.contains("Four sessions a week"), "{}", p.system);
    assert!(p.system.contains("cannot run tools"), "{}", p.system);
    assert_eq!(p.manages_with, vec!["work".to_string()]);
    assert_eq!(p.plan, None);
}

#[test]
fn a_bot_with_an_agent_is_that_agent_for_permissions_and_voice() {
    let b = Bot {
        node_id: 2,
        name: "x-platform bot".into(),
        node_name: "x-platform".into(),
        goal: "Ship offline sync".into(),
        agent: "dev-a".into(),
        team: vec!["dev-a".into(), "qa".into()],
        feature: " sync ".into(),
        ..Default::default()
    };
    let p = persona(&b, "assistant", "work");
    assert_eq!(p.agent_id, "dev-a");
    assert_eq!(p.runs_as, "dev-a");
    assert!(p.system.contains("dev-a, qa"), "the team is named: {}", p.system);
    assert!(!p.system.contains("cannot run tools"));
    assert_eq!(p.plan, Some("sync".to_string()));
}

#[test]
fn a_bot_answers_to_its_own_handle() {
    for (name, node) in [("Dev Tools", ""), ("Marketing site bot", "X Platform"), ("  Ops  ", " ")] {
        let b = Bot { name: name.into(), node_name: node.into(), ..Default::default() };
        let h = handle_of(&b);
        assert!(answers_to(&b, &h), "{name:?} / {node:?} answers to {h:?}");
    }
}
