use devdeck::business_clear::{
    blocked_reason, cleared_line, confirm_clear, may_clear, not_cleared_line, outside_vault_line, personal,
    suggested, suggested_first, ClearProject, ClearSpace,
};

fn project(name: &str, repo: &str) -> ClearProject {
    ClearProject { node_id: 1, name: name.into(), repo: repo.into() }
}

#[test]
fn code_inside_the_folder_blocks_the_clear() {
    let ps = vec![project("api", "D:\\code\\api"), project("web", "C:\\Vault\\Acme\\web")];
    assert_eq!(
        blocked_reason(&ps, "c:/vault/acme/", false),
        "The code for web is inside this folder, at C:\\Vault\\Acme\\web. Clearing it would delete the code, so it is left alone."
    );
    assert_eq!(blocked_reason(&ps[..1].iter().map(|p| project(&p.name, &p.repo)).collect(), "c:/vault/acme", false), "");
    assert_eq!(
        blocked_reason(&vec![], "c:/vault/acme", true),
        "This business was set up through the business steps, and is not cleared from here."
    );
}

#[test]
fn personal_spaces_are_never_cleared_and_businesses_are_offered_first() {
    assert!(personal(Some("personal")));
    assert!(!personal(None));
    assert!(suggested(Some("BUSINESS")));
    assert!(!suggested(Some("Work")));
    assert_eq!(may_clear("Home", Some("Personal"), false).unwrap_err(), "Home is Personal and is never cleared from here.");
    assert_eq!(
        may_clear("Acme", Some("Business"), true).unwrap_err(),
        "Acme was set up as a business and is not cleared from here."
    );
    assert!(may_clear("Old", None, false).is_ok());
    let spaces = vec![
        ClearSpace { name: "a".into(), suggested: false, ..Default::default() },
        ClearSpace { name: "b".into(), suggested: true, ..Default::default() },
        ClearSpace { name: "c".into(), suggested: false, ..Default::default() },
        ClearSpace { name: "d".into(), suggested: true, ..Default::default() },
    ];
    let names: Vec<String> = suggested_first(spaces).into_iter().map(|s| s.name).collect();
    assert_eq!(names, vec!["b", "d", "a", "c"]);
}

#[test]
fn a_clear_needs_the_word_and_reports_each_space() {
    assert_eq!(confirm_clear("yes").unwrap_err(), "Nothing was cleared: the clear was not confirmed.");
    assert!(confirm_clear("clear").is_ok());
    assert_eq!(cleared_line("Old", 1, 2, 0), "Old: cleared. 1 folder, 2 projects, 0 managers.");
    assert_eq!(not_cleared_line("Old", "Because."), "Old: not cleared. Because.");
    assert_eq!(outside_vault_line("Old"), "Old: not cleared, its folder is outside the vault.");
}
