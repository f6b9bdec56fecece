use devdeck::manager::{from_manager, home_of, Manager};

fn names() -> Vec<(i64, String)> {
    vec![(3, "Website".to_string()), (4, "Docs".to_string())]
}

#[test]
fn a_manager_with_a_home_is_seen_there_with_its_first_feature() {
    let m = Manager { handle: "site".into(), name: "Site bot".into(), home: 3, at_min: 480, ..Default::default() };
    let portfolio = vec![(4, "docs-refresh".to_string()), (3, "launch".to_string())];
    assert_eq!(home_of(&m, &portfolio), 3);
    let b = from_manager(&m, &portfolio, &names(), "/vault/Website".into());
    assert_eq!(b.node_id, 3);
    assert_eq!(b.node_name, "Website");
    assert_eq!(b.feature, "docs-refresh");
    assert_eq!(b.portfolio.len(), 2);
    assert_eq!(b.portfolio[0].node_name, "Docs");
    assert_eq!(b.portfolio[1].feature, "launch");
    assert_eq!(b.dir, "/vault/Website");
    assert_eq!(b.at_min, 480);
    assert!(b.schedule_id.is_none());
}

#[test]
fn a_manager_with_no_home_or_name_still_reads_as_a_bot() {
    let m = Manager { handle: "ops".into(), name: "  ".into(), ..Default::default() };
    let none: Vec<(i64, String)> = vec![];
    assert_eq!(home_of(&m, &none), 0);
    let b = from_manager(&m, &none, &names(), String::new());
    assert_eq!(b.name, "ops");
    assert_eq!(b.node_id, 0);
    assert_eq!(b.node_name, "");
    assert_eq!(b.feature, "");
    let owned = vec![(4, "x".to_string())];
    assert_eq!(home_of(&m, &owned), 4);
    assert_eq!(from_manager(&m, &owned, &names(), String::new()).node_name, "Docs");
}
