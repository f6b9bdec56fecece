use devdeck::botcatalog::ToolOffer;
use devdeck::botmind::{
    add_belief, answer_question, answer_suggestion, beliefs, correct_belief, drop_belief,
    drop_stale, filter_answered, interview, pin_belief, record_tool, reset_interview, settle_read,
    stale, Belief, MindMeta, Signals, Suggestion, SuggestionAnswer, ToolDecision,
};
use devdeck::deck::WorkItem;

fn item(title: &str, status: &str) -> WorkItem {
    WorkItem {
        id: title.into(),
        title: title.into(),
        status: status.into(),
        assignee: None,
        areas: vec![],
    }
}

fn sig<'a>(work: &'a [WorkItem], decided: &'a [ToolDecision]) -> Signals<'a> {
    Signals {
        goal: "Ship the site".into(),
        every: "weekdays".into(),
        last_woke: None,
        work,
        answered: 6,
        skipped: 0,
        offers: &[],
        decided,
        now_ms: 0,
    }
}

#[test]
fn a_finished_interview_is_not_nagged_about() {
    let s = devdeck::botmind::derive(&sig(&[item("a", "done")], &[]));
    assert!(!s.iter().any(|x| x.id == "interview"));
}

#[test]
fn a_half_finished_interview_says_how_much_is_left() {
    let work = [item("a", "done")];
    let mut g = sig(&work, &[]);
    g.answered = 2;
    let s = devdeck::botmind::derive(&g);
    let found = s.iter().find(|x| x.id == "interview").expect("asked");
    assert!(found.title.contains('4'), "{}", found.title);
}

#[test]
fn skipping_counts_as_settled() {
    let work = [item("a", "done")];
    let mut g = sig(&work, &[]);
    g.answered = 3;
    g.skipped = 3;
    assert!(!devdeck::botmind::derive(&g).iter().any(|x| x.id == "interview"));
}

#[test]
fn blocked_work_names_itself() {
    let work = [item("Sign the installer", "blocked"), item("b", "done")];
    let s = devdeck::botmind::derive(&sig(&work, &[]));
    let found = s.iter().find(|x| x.id == "blocked").expect("raised");
    assert!(found.evidence.contains("Sign the installer"));
}

#[test]
fn no_steps_at_all_asks_for_a_plan() {
    assert!(devdeck::botmind::derive(&sig(&[], &[])).iter().any(|x| x.id == "plan"));
}

#[test]
fn a_bot_with_no_routine_is_told_so() {
    let work = [item("a", "done")];
    let mut g = sig(&work, &[]);
    g.every = String::new();
    assert!(devdeck::botmind::derive(&g).iter().any(|x| x.id == "heartbeat"));
}

#[test]
fn it_asks_for_the_cheapest_rung_first() {
    let offers = vec![
        ToolOffer {
            id: "sw".into(),
            name: "Lighthouse".into(),
            kind: "software".into(),
            what: String::new(),
            wants: "an install".into(),
            because: "because".into(),
        },
        ToolOffer {
            id: "sk".into(),
            name: "SEO review".into(),
            kind: "skill".into(),
            what: String::new(),
            wants: String::new(),
            because: "because".into(),
        },
    ];
    let work = [item("a", "done")];
    let mut g = sig(&work, &[]);
    g.offers = &offers;
    let s = devdeck::botmind::derive(&g);
    let tool = s.iter().find(|x| x.kind == "tool").expect("offered");
    assert_eq!(tool.tool_id, "sk");
}

#[test]
fn a_decided_tool_is_not_offered_again() {
    let offers = vec![ToolOffer {
        id: "sk".into(),
        name: "SEO review".into(),
        kind: "skill".into(),
        what: String::new(),
        wants: String::new(),
        because: "because".into(),
    }];
    let decided = vec![ToolDecision {
        id: "sk".into(),
        response: "declined".into(),
        at: String::new(),
    }];
    let work = [item("a", "done")];
    let mut g = sig(&work, &decided);
    g.offers = &offers;
    assert!(!devdeck::botmind::derive(&g).iter().any(|x| x.kind == "tool"));
}

#[test]
fn wrong_is_forever_and_not_now_is_a_week() {
    let all = || {
        vec![
            Suggestion {
                id: "a".into(),
                title: String::new(),
                evidence: String::new(),
                kind: "work".into(),
                tool_id: String::new(),
            },
            Suggestion {
                id: "b".into(),
                title: String::new(),
                evidence: String::new(),
                kind: "work".into(),
                tool_id: String::new(),
            },
        ]
    };
    let answers = vec![
        SuggestionAnswer {
            id: "a".into(),
            response: "wrong".into(),
            why: "we do not do that here".into(),
            at: String::new(),
            until: 0,
        },
        SuggestionAnswer {
            id: "b".into(),
            response: "snoozed".into(),
            why: String::new(),
            at: String::new(),
            until: 1_000,
        },
    ];

    let now = filter_answered(all(), &answers, 500);
    assert!(now.is_empty(), "both are put away for now");

    let later = filter_answered(all(), &answers, 2_000);
    assert_eq!(later.len(), 1);
    assert_eq!(later[0].id, "b", "the snooze came back; the refusal did not");
}

fn now_ms() -> i64 {
    chrono::Utc::now().timestamp_millis()
}

#[test]
fn ageing_never_touches_what_you_said() {
    let old = "2020-01-01T00:00:00+00:00";
    let now = now_ms();

    let mine = Belief { source: "you".into(), created_at: old.into(), ..Default::default() };
    let corrected = Belief { source: "corrected".into(), created_at: old.into(), ..Default::default() };
    let watched = Belief { source: "watched".into(), created_at: old.into(), ..Default::default() };
    let pinned = Belief {
        source: "watched".into(),
        created_at: old.into(),
        pinned: true,
        ..Default::default()
    };

    assert!(!stale(&mine, now));
    assert!(!stale(&corrected, now));
    assert!(stale(&watched, now));
    assert!(!stale(&pinned, now));
}

#[test]
fn a_belief_it_leans_on_is_kept_longer() {
    let now = now_ms();
    let two_months_ago = chrono::Utc::now() - chrono::Duration::days(50);
    let mut b = Belief {
        source: "watched".into(),
        created_at: two_months_ago.to_rfc3339(),
        uses: 0,
        ..Default::default()
    };
    assert!(stale(&b, now), "unused for 50 days");
    b.uses = 5;
    assert!(!stale(&b, now), "leant on five times, keep it");
}

#[test]
fn an_unreadable_date_is_never_stale_and_last_use_wins() {
    let b = Belief { source: "watched".into(), created_at: "yesterday-ish".into(), ..Default::default() };
    assert!(!stale(&b, now_ms()));
    let c = Belief {
        source: "watched".into(),
        created_at: "2020-01-01T00:00:00+00:00".into(),
        last_used: chrono::Utc::now().to_rfc3339(),
        ..Default::default()
    };
    assert!(!stale(&c, now_ms()), "used just now, so not stale");
}

#[test]
fn answering_steps_through_the_interview() {
    let m = MindMeta::default();
    let v = interview(&m);
    assert_eq!(v.step, 0);
    assert!(!v.done);
    assert_eq!(v.script.len(), 6);
    assert_eq!(v.script[0], "What is this space for?");

    let m = answer_question(Ok(m), 0, "  Shipping the site ", false, "t0").unwrap();
    assert_eq!(m.answers.len(), 1);
    assert_eq!(m.answers[0].answer, "Shipping the site");
    assert_eq!(m.answers[0].question, "What is this space for?");
    assert_eq!(m.beliefs.len(), 1);
    assert_eq!(m.beliefs[0].id, "a0");
    assert_eq!(m.beliefs[0].source, "you");
    assert_eq!(interview(&m).step, 1);

    let m = answer_question(Ok(m), 2, "", true, "t1").unwrap();
    assert_eq!(m.answers.len(), 2);
    assert!(m.answers[1].skipped);
    assert_eq!(m.beliefs.len(), 1, "a skip takes nothing");
    assert_eq!(interview(&m).step, 1, "the first open question is still 1");
}

#[test]
fn an_answer_is_checked_before_anything_is_read() {
    let e = answer_question(Err("unreadable".into()), 9, "x", false, "t").unwrap_err();
    assert_eq!(e, "There is no such question.");
    let e = answer_question(Err("unreadable".into()), 1, "   ", false, "t").unwrap_err();
    assert_eq!(e, "Say something, or skip it.");
    let e = answer_question(Err("unreadable".into()), 1, "fine", false, "t").unwrap_err();
    assert_eq!(e, "unreadable");
}

#[test]
fn changing_an_answer_replaces_the_belief_rather_than_adding_one() {
    let m = answer_question(Ok(MindMeta::default()), 1, "Launch", false, "t0").unwrap();
    let m = answer_question(Ok(m), 1, "Launch and grow", false, "t1").unwrap();
    assert_eq!(m.answers.len(), 1);
    assert_eq!(m.beliefs.len(), 1);
    assert_eq!(m.beliefs[0].text, "Launch and grow");
}

#[test]
fn every_question_answered_finishes_the_interview() {
    let mut m = MindMeta::default();
    for step in (0..6).rev() {
        m = answer_question(Ok(m), step, "yes", false, "t").unwrap();
    }
    let steps: Vec<usize> = m.answers.iter().map(|a| a.step).collect();
    assert_eq!(steps, vec![0, 1, 2, 3, 4, 5], "kept in step order");
    assert!(m.interview_done);
    let v = interview(&m);
    assert!(v.done);
    assert_eq!(v.step, 6);
}

#[test]
fn asking_again_forgets_only_what_the_interview_took() {
    let m = answer_question(Ok(MindMeta::default()), 0, "Shipping", false, "t").unwrap();
    let mut m = add_belief(Ok(m), "Prefers mornings", "t").unwrap();
    assert_eq!(m.beliefs.len(), 2);
    reset_interview(&mut m);
    assert!(m.answers.is_empty());
    assert!(!m.interview_done);
    assert_eq!(m.beliefs.len(), 1);
    assert_eq!(m.beliefs[0].text, "Prefers mornings");
}

#[test]
fn a_new_belief_gets_the_first_free_id() {
    let m = add_belief(Ok(MindMeta::default()), " One ", "t").unwrap();
    assert_eq!(m.beliefs[0].id, "b1");
    assert_eq!(m.beliefs[0].text, "One");
    let mut m = add_belief(Ok(m), "Two", "t").unwrap();
    assert_eq!(m.beliefs[1].id, "b2");
    m.beliefs[0].id = "b3".into();
    let m = add_belief(Ok(m), "Three", "t").unwrap();
    assert_eq!(m.beliefs[2].id, "b4", "b3 is taken, so it moves on");
    assert_eq!(add_belief(Ok(MindMeta::default()), "   ", "t").unwrap_err(), "Nothing to remember.");
}

#[test]
fn correcting_a_belief_keeps_what_it_used_to_say() {
    let m = add_belief(Ok(MindMeta::default()), "Demo is on the 10th", "t").unwrap();
    let m = correct_belief(Ok(m), "b1", "Demo is on the 12th").unwrap();
    assert_eq!(m.beliefs[0].text, "Demo is on the 12th");
    assert_eq!(m.beliefs[0].was, "Demo is on the 10th");
    assert_eq!(m.beliefs[0].source, "corrected");
    let m = correct_belief(Ok(m), "b1", "Demo is on the 14th").unwrap();
    assert_eq!(m.beliefs[0].was, "Demo is on the 10th", "the first text is kept");
    assert_eq!(
        correct_belief(Ok(m), "b9", "x").unwrap_err(),
        "It does not believe that any more."
    );
    assert_eq!(
        correct_belief(Ok(MindMeta::default()), "b1", " ").unwrap_err(),
        "Say what it should be instead."
    );
}

#[test]
fn pinning_dropping_and_ageing_beliefs() {
    let mut m = MindMeta::default();
    m.beliefs.push(Belief {
        id: "w1".into(),
        source: "watched".into(),
        created_at: "2020-01-01T00:00:00+00:00".into(),
        ..Default::default()
    });
    m.beliefs.push(Belief {
        id: "w2".into(),
        source: "watched".into(),
        created_at: "2020-01-01T00:00:00+00:00".into(),
        ..Default::default()
    });
    m.beliefs.push(Belief { id: "y1".into(), source: "you".into(), ..Default::default() });
    pin_belief(&mut m, "w2", true);
    assert!(m.beliefs[1].pinned);
    let listed = beliefs(&m, now_ms());
    let ids: Vec<&str> = listed.iter().map(|b| b.belief.id.as_str()).collect();
    assert_eq!(ids, vec!["y1", "w1", "w2"], "what you said first, then by id");
    assert!(listed[1].stale && !listed[2].stale);
    let gone = drop_stale(&mut m, now_ms());
    assert_eq!(gone, 1);
    assert_eq!(m.beliefs.len(), 2);
    drop_belief(&mut m, "y1");
    assert_eq!(m.beliefs.len(), 1);
    assert_eq!(m.beliefs[0].id, "w2");
}

#[test]
fn a_tool_is_either_added_or_declined() {
    let m = record_tool(Ok(MindMeta::default()), "sk", "added", "t0").unwrap();
    let m = record_tool(Ok(m), "sk", "declined", "t1").unwrap();
    assert_eq!(m.tools.len(), 1);
    assert_eq!(m.tools[0].response, "declined");
    assert_eq!(
        record_tool(Ok(m), "sk", "maybe", "t2").unwrap_err(),
        "A tool is either added or declined."
    );
}

#[test]
fn not_now_comes_back_and_wrong_never_does() {
    let m = answer_suggestion(Ok(MindMeta::default()), "plan", "snoozed", "", 1_000, "t").unwrap();
    assert_eq!(m.suggestions[0].until, 1_000 + 7 * 86_400_000);
    let m = answer_suggestion(Ok(m), "blocked", "wrong", "  we wait on legal ", 1_000, "t").unwrap();
    assert_eq!(m.suggestions.len(), 2);
    assert_eq!(m.suggestions[1].until, 0);
    assert_eq!(m.beliefs.len(), 1);
    assert_eq!(m.beliefs[0].id, "w-blocked");
    assert_eq!(m.beliefs[0].text, "we wait on legal");
    assert_eq!(m.beliefs[0].source, "corrected");
    assert_eq!(
        answer_suggestion(Ok(m), "x", "later", "", 0, "t").unwrap_err(),
        "A suggestion is done, put off, or wrong."
    );
}

#[test]
fn a_mind_that_will_not_parse_says_so_rather_than_looking_empty() {
    let e = settle_read("/p/bots/9/mind.md", 9, Err("bad line".into())).unwrap_err();
    assert!(e.contains("could not be read"), "{e}");
    assert!(e.contains("nothing will be written over it"), "{e}");
    let (m, body) = settle_read("/p", 9, Ok(None)).unwrap();
    assert_eq!(m.node_id, 9);
    assert!(m.beliefs.is_empty());
    assert_eq!(body, "");
    let (m, body) =
        settle_read("/p", 7, Ok(Some((MindMeta { node_id: 3, ..Default::default() }, "notes\n".into()))))
            .unwrap();
    assert_eq!(m.node_id, 7);
    assert_eq!(body, "notes\n");
}
