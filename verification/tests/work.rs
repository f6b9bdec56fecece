use devdeck::deck::WorkItem;
use devdeck::work::{check_step, remove_step, save_step, work_rows};

fn item(id: &str, title: &str, status: &str) -> WorkItem {
    WorkItem { id: id.into(), title: title.into(), status: status.into(), assignee: None, areas: vec![] }
}

#[test]
fn a_step_needs_a_title_and_a_known_status() {
    assert_eq!(check_step("  ", "done"), Err("A step needs a title.".to_string()));
    assert_eq!(check_step("Ship", "finished"), Err("finished is not a status a step can be in.".to_string()));
    assert_eq!(check_step(" Ship ", "in-progress"), Ok("Ship".to_string()));
}

#[test]
fn saving_a_step_changes_the_one_with_its_id_or_adds_one() {
    let mut items = vec![item("w1", "Brief", "done"), item("w2", "Build", "unclaimed")];
    save_step(&mut items, "w2", "Build the pages".into(), "claimed".into(), Some("dev-a".into()));
    assert_eq!(items.len(), 2);
    assert_eq!(items[1].title, "Build the pages");
    assert_eq!(items[1].status, "claimed");
    assert_eq!(items[1].assignee.as_deref(), Some("dev-a"));
    save_step(&mut items, "", "Launch".into(), "unclaimed".into(), Some("   ".into()));
    assert_eq!(items.len(), 3);
    assert_eq!(items[2].id, "w3");
    assert!(items[2].assignee.is_none());
    save_step(&mut items, "x9", "Later".into(), "blocked".into(), None);
    assert_eq!(items[3].id, "x9");
}

#[test]
fn removing_a_step_keeps_the_others_in_order() {
    let mut items = vec![item("w1", "a", ""), item("w2", "b", ""), item("w3", "c", "")];
    remove_step(&mut items, "w2");
    let ids: Vec<&str> = items.iter().map(|i| i.id.as_str()).collect();
    assert_eq!(ids, vec!["w1", "w3"]);
    remove_step(&mut items, "nope");
    assert_eq!(items.len(), 2);
}

#[test]
fn a_step_with_no_status_is_listed_unclaimed() {
    let items = vec![item("w1", "a", ""), item("w2", "b", "done")];
    let rows = work_rows(&items, "launch");
    assert_eq!(rows.len(), 2);
    assert_eq!(rows[0].status, "unclaimed");
    assert_eq!(rows[1].status, "done");
    assert_eq!(rows[1].feature, "launch");
}
