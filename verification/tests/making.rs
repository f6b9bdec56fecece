use devdeck::botmind::ToolDecision;
use devdeck::making::{
    check_name_and_goal, check_save, keep_skills, offers_for, standards_body, tool_decide, tool_views, ToolStep,
};

fn v(x: &[&str]) -> Vec<String> {
    x.iter().map(|s| s.to_string()).collect()
}

#[test]
fn a_bot_needs_a_name_then_a_goal() {
    assert_eq!(check_name_and_goal("  ", ""), Err("Give the bot a name.".to_string()));
    assert_eq!(
        check_name_and_goal("Site bot", " "),
        Err("A bot needs a goal. Without one it has nothing to judge a suggestion against.".to_string())
    );
    assert_eq!(check_name_and_goal(" Site bot ", "Ship"), Ok("Site bot".to_string()));
}

#[test]
fn saving_checks_the_lead_against_the_tidied_team() {
    assert_eq!(
        check_save(" Site bot ", "Ship", "dev-b", v(&["dev-a", " "])),
        Err("dev-b is not on Site bot's team, so it cannot be the one it wakes. Add it to the team first.".to_string())
    );
    assert_eq!(
        check_save("Site bot", "Ship", " dev-a ", v(&[" dev-a ", "", "qa"])),
        Ok(("Site bot".to_string(), v(&["dev-a", "qa"])))
    );
    assert_eq!(check_save("", "Ship", "x", vec![]), Err("Give the bot a name.".to_string()));
}

#[test]
fn blank_skills_are_dropped_and_the_rest_kept_as_given() {
    assert_eq!(keep_skills(&v(&["seo", "  ", " a11y "])), v(&["seo", " a11y "]));
}

#[test]
fn standards_become_the_body_of_a_new_bot() {
    assert_eq!(standards_body(&vec![]), "");
    assert_eq!(
        standards_body(&v(&["One page, one job.", "No redirect chains."])),
        "## What it holds the work to\n\n- One page, one job.\n- No redirect chains.\n"
    );
}

#[test]
fn a_tool_is_added_or_declined_and_never_installed() {
    assert_eq!(tool_decide("skill-seo", "maybe").unwrap_err(), "A tool is either added or declined.");
    assert_eq!(tool_decide("no-such", "added").unwrap_err(), "No such tool.");
    assert_eq!(tool_decide("skill-seo", "declined").unwrap().1, ToolStep::Declined);
    assert_eq!(tool_decide("skill-seo", "added").unwrap().1, ToolStep::Learn("SEO review".into()));
    assert_eq!(
        tool_decide("agent-page-checker", "added").unwrap().1,
        ToolStep::Note("Noted. Page checker is not wired to the agent runtime yet — you would add it under Assistant.".into())
    );
    assert_eq!(
        tool_decide("sw-lighthouse", "added").unwrap().1,
        ToolStep::Note("Noted. Install Lighthouse yourself from Machine. DevDeck never installs anything on your behalf.".into())
    );
    assert_eq!(
        tool_decide("host-analytics", "added").unwrap().1,
        ToolStep::Note("Noted. Self-hosted analytics would run as a service in this space; set it up on the project when you want it.".into())
    );
}

#[test]
fn a_bot_made_by_hand_is_offered_the_whole_catalog() {
    let website = offers_for("website");
    assert_eq!(website.len(), 5);
    assert_eq!(website[0].id, "skill-seo");
    let by_hand = offers_for("");
    assert!(by_hand.len() > website.len());
    assert!(by_hand.iter().any(|o| o.id == "skill-sources"));
    let blank = offers_for("blank");
    assert_eq!(blank.len(), by_hand.len());
}

#[test]
fn each_tool_shows_what_was_said_to_it() {
    let offers = offers_for("website");
    let decided = vec![
        ToolDecision { id: "sw-lighthouse".into(), response: "declined".into(), at: "t1".into() },
        ToolDecision { id: "skill-seo".into(), response: "added".into(), at: "t2".into() },
        ToolDecision { id: "skill-seo".into(), response: "declined".into(), at: "t3".into() },
    ];
    let views = tool_views(&offers, &decided);
    assert_eq!(views.len(), offers.len());
    assert_eq!(views[0].offer.id, "skill-seo");
    assert_eq!(views[0].decided, "added");
    assert_eq!(views[1].decided, "");
    assert_eq!(views[3].offer.id, "sw-lighthouse");
    assert_eq!(views[3].decided, "declined");
}
