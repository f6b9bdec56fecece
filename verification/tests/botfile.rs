use devdeck::botfile::{parse_bot_file, render_bot_file};
use devdeck::bots::Bot;

fn site_bot() -> Bot {
    Bot {
        name: "Site bot".into(),
        goal: "Ship by winter".into(),
        every: "weekly".into(),
        at_min: 18 * 60,
        days: "0,3".into(),
        template: "website".into(),
        feature: "launch-page".into(),
        skills: vec!["copywriting".into(), "seo".into()],
        agent: "dev-a".into(),
        team: vec!["dev-a".into(), "qa".into()],
        wake_intent: "Check the page".into(),
        stop_at: vec!["review".into()],
        body: "One page, one job.\n\nKeep it short.".into(),
        ..Default::default()
    }
}

#[test]
fn a_written_bot_file_reads_back_as_the_same_bot() {
    let made = site_bot();
    let back = parse_bot_file(&render_bot_file(&made));
    assert_eq!(back.name, made.name);
    assert_eq!(back.goal, made.goal);
    assert_eq!(back.every, "weekly");
    assert_eq!(back.at_min, 1080);
    assert_eq!(back.days, "0,3");
    assert_eq!(back.skills, made.skills);
    assert_eq!(back.template, "website");
    assert_eq!(back.feature, made.feature);
    assert_eq!(back.agent, made.agent);
    assert_eq!(back.team, made.team);
    assert_eq!(back.wake_intent, made.wake_intent);
    assert_eq!(back.stop_at, made.stop_at);
    assert!(back.body.contains("One page, one job"));
    assert_eq!(back.body, made.body);
}

#[test]
fn the_file_writes_only_what_there_is_to_say() {
    let b = Bot { name: "Quiet".into(), at_min: 600, days: "1".into(), ..Default::default() };
    assert_eq!(render_bot_file(&b), "---\nname: Quiet\n---\n");
}

#[test]
fn the_file_text_is_frontmatter_then_body() {
    let text = render_bot_file(&site_bot());
    assert_eq!(
        text,
        "---\nname: Site bot\ngoal: Ship by winter\nevery: weekly\nat: \"18:00\"\ndays: 0,3\n\
         template: website\nfeature: launch-page\nskills: [copywriting, seo]\nagent: dev-a\n\
         team: [dev-a, qa]\nwake_intent: Check the page\nstop_at: [review]\n---\n\n\
         One page, one job.\n\nKeep it short.\n"
    );
}

#[test]
fn a_time_without_a_routine_comes_back_as_seven() {
    let b = Bot { name: "Quiet".into(), at_min: 600, ..Default::default() };
    let back = parse_bot_file(&render_bot_file(&b));
    assert_eq!(back.every, "");
    assert_eq!(back.at_min, 420);
}

#[test]
fn days_are_kept_only_for_a_weekly_routine() {
    let b = Bot { name: "Daily".into(), every: "daily".into(), at_min: 540, days: "2".into(), ..Default::default() };
    let back = parse_bot_file(&render_bot_file(&b));
    assert_eq!(back.every, "daily");
    assert_eq!(back.at_min, 540);
    assert_eq!(back.days, "");
}

#[test]
fn a_hand_written_file_is_read_with_forgiveness() {
    let raw = "---\nname: \"Hand bot\"\ngoal:   Keep going  \nskills: a, \"b\", , c\nteam: [x]\nno colon here\nunknown: 5\nat: 9:5\n---\n\n  The body.  \n";
    let b = parse_bot_file(raw);
    assert_eq!(b.name, "Hand bot");
    assert_eq!(b.goal, "Keep going");
    assert_eq!(b.skills, vec!["a".to_string(), "b".to_string(), "c".to_string()]);
    assert_eq!(b.team, vec!["x".to_string()]);
    assert_eq!(b.at_min, 9 * 60 + 5);
    assert_eq!(b.body, "The body.");
}

#[test]
fn a_file_without_frontmatter_is_all_body() {
    let b = parse_bot_file("just some notes\n");
    assert_eq!(b.name, "");
    assert_eq!(b.at_min, 420);
    assert_eq!(b.body, "just some notes");
    let c = parse_bot_file("---\nname: never closed\n");
    assert_eq!(c.name, "");
    assert_eq!(c.body, "---\nname: never closed");
}

#[test]
fn round_trips_through_the_file() {
    let b = Bot {
        name: "TyreX bot".into(),
        goal: "Ship the demo on 12 September".into(),
        every: "weekdays".into(),
        at_min: 7 * 60,
        body: "Cares about the three repos that ship together.".into(),
        ..Default::default()
    };
    let back = parse_bot_file(&render_bot_file(&b));
    assert_eq!(back.name, "TyreX bot");
    assert_eq!(back.goal, "Ship the demo on 12 September");
    assert_eq!(back.every, "weekdays");
    assert_eq!(back.at_min, 420);
    assert!(back.body.contains("three repos"));
}

#[test]
fn the_team_survives_the_file() {
    let b = Bot {
        name: "Site".into(),
        goal: "Ship it".into(),
        agent: "dev-a".into(),
        team: vec!["dev-a".into(), "qa".into()],
        ..Default::default()
    };
    let back = parse_bot_file(&render_bot_file(&b));
    assert_eq!(back.team, vec!["dev-a".to_string(), "qa".to_string()]);
    assert_eq!(back.agent, "dev-a");
}

#[test]
fn no_routine_writes_no_time() {
    let raw = render_bot_file(&Bot { name: "Quiet".into(), goal: "Just be there".into(), ..Default::default() });
    assert!(!raw.contains("every:"));
    assert!(!raw.contains("at:"));
    assert_eq!(parse_bot_file(&raw).every, "");
}
