use devdeck::botcatalog::{all, get, tool_by_id};

#[test]
fn every_template_is_reachable_by_id() {
    for t in all() {
        assert!(get(&t.id).is_some(), "{} is not findable", t.id);
    }
}

#[test]
fn tool_ids_are_unique_across_the_catalog() {
    let mut seen = std::collections::HashSet::new();
    for t in all() {
        for tool in t.tools {
            assert!(seen.insert(tool.id.clone()), "duplicate tool id {}", tool.id);
        }
    }
}

#[test]
fn every_tool_sits_on_a_known_rung() {
    for t in all() {
        for tool in t.tools {
            assert!(
                ["skill", "agent", "software", "self-hosted"].contains(&tool.kind.as_str()),
                "{} has unknown kind {}",
                tool.id,
                tool.kind
            );
            if tool.kind != "skill" {
                assert!(!tool.wants.trim().is_empty(), "{} hides its cost", tool.id);
            }
        }
    }
}

#[test]
fn the_blank_one_proposes_nothing() {
    let b = get("blank").unwrap();
    assert!(b.steps.is_empty() && b.tools.is_empty() && b.skills.is_empty());
}

#[test]
fn the_catalog_lists_its_starters_in_order() {
    let ids: Vec<String> = all().into_iter().map(|t| t.id).collect();
    assert_eq!(ids, vec!["website", "release", "topic", "blank"]);
    let w = get("website").unwrap();
    assert_eq!(w.at_min, 480);
    assert_eq!(w.steps.len(), 10);
    assert_eq!(w.skills, vec!["seo", "accessibility", "web-performance"]);
}

#[test]
fn an_unknown_starter_is_not_found() {
    assert!(get("nope").is_none());
    assert!(get("").is_none());
}

#[test]
fn a_tool_is_found_in_whichever_starter_offers_it() {
    let t = tool_by_id("agent-release-checker").expect("found");
    assert_eq!(t.name, "Release checker");
    assert_eq!(t.wants, "read your repo");
    let lh = tool_by_id("sw-lighthouse").unwrap();
    assert_eq!(lh.kind, "software");
    assert!(tool_by_id("no-such-tool").is_none());
}
