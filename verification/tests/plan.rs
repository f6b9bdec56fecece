use devdeck::deck::WorkItem;
use devdeck::plan::{add_steps, plan_steps};

fn item(id: &str, title: &str, status: &str) -> WorkItem {
    WorkItem { id: id.into(), title: title.into(), status: status.into(), assignee: None, areas: vec![] }
}

fn steps(v: &[&str]) -> Vec<String> {
    v.iter().map(|s| s.to_string()).collect()
}

#[test]
fn a_plan_needs_at_least_one_step() {
    assert_eq!(plan_steps(&steps(&["", "   "])), Err("A plan needs at least one step.".to_string()));
    assert_eq!(plan_steps(&steps(&[" Build it ", "", "Ship it"])), Ok(steps(&["Build it", "Ship it"])));
}

#[test]
fn steps_are_added_unclaimed_with_the_next_free_ids() {
    let mut items = vec![item("w2", "Write the brief", "done")];
    let added = add_steps(&mut items, &steps(&["Build the pages", "Launch"]));
    assert_eq!(added, 2);
    assert_eq!(items.len(), 3);
    assert_eq!(items[0].id, "w2");
    assert_eq!(items[0].status, "done");
    assert_eq!(items[1].id, "w3");
    assert_eq!(items[1].title, "Build the pages");
    assert_eq!(items[1].status, "unclaimed");
    assert!(items[1].assignee.is_none());
    assert_eq!(items[2].id, "w4");
}

#[test]
fn applying_the_same_plan_twice_adds_nothing() {
    let mut items = Vec::new();
    let plan = steps(&["Agree the goal", "Build", "build"]);
    assert_eq!(add_steps(&mut items, &plan), 2);
    assert_eq!(add_steps(&mut items, &plan), 0);
    assert_eq!(add_steps(&mut items, &steps(&["AGREE THE GOAL", "Launch"])), 1);
    let titles: Vec<&str> = items.iter().map(|i| i.title.as_str()).collect();
    assert_eq!(titles, vec!["Agree the goal", "Build", "Launch"]);
    let ids: Vec<&str> = items.iter().map(|i| i.id.as_str()).collect();
    assert_eq!(ids, vec!["w1", "w2", "w3"]);
}
