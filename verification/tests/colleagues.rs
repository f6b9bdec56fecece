use devdeck::bots::{persona, Bot};
use devdeck::colleagues::{add_room, colleagues_of, descendants, hand_on};

fn sorted(mut v: Vec<i64>) -> Vec<i64> {
    v.sort();
    v
}

#[test]
fn everything_under_a_node_however_deep() {
    let nodes = vec![(1, None), (2, Some(1)), (3, Some(2)), (4, Some(3)), (5, None), (6, Some(5)), (7, Some(1))];
    assert_eq!(sorted(descendants(&nodes, 1)), vec![2, 3, 4, 7]);
    assert_eq!(sorted(descendants(&nodes, 3)), vec![4]);
    assert_eq!(descendants(&nodes, 4), Vec::<i64>::new());
    assert_eq!(descendants(&nodes, 5), vec![6]);
}

#[test]
fn the_room_widens_the_colleagues_but_never_with_itself() {
    let mut under = vec![2];
    let people = vec![
        "dev-a".to_string(),
        "bot:9".to_string(),
        "bot:1".to_string(),
        "bot:2".to_string(),
        "bot:x".to_string(),
        "bot:9".to_string(),
    ];
    add_room(&mut under, &people, 1);
    assert_eq!(under, vec![2, 9]);
}

fn bot(node_id: i64, name: &str, node_name: &str, feature: &str) -> Bot {
    Bot { node_id, name: name.into(), node_name: node_name.into(), feature: feature.into(), ..Default::default() }
}

#[test]
fn colleagues_are_the_bots_on_those_nodes() {
    let bots = vec![bot(1, "Top", "Acme", ""), bot(2, "Site bot", "Website", " launch "), bot(3, "Ops", "", "")];
    let c = colleagues_of(&bots, &vec![3, 2]);
    assert_eq!(c.len(), 2);
    assert_eq!(c[0].handle, "website");
    assert_eq!(c[0].project_id, "2");
    assert_eq!(c[0].plan.as_deref(), Some("launch"));
    assert_eq!(c[1].handle, "ops");
    assert!(c[1].plan.is_none());
}

#[test]
fn the_voice_is_told_who_it_may_pass_work_to() {
    let b = bot(1, "Top", "Acme", "");
    let mut p = persona(&b, "assistant", "work");
    let before = p.system.clone();
    hand_on(&mut p, vec![]);
    assert_eq!(p.system, before);
    let bots = vec![bot(2, "Site bot", "Website", "")];
    hand_on(&mut p, colleagues_of(&bots, &vec![2]));
    assert_eq!(p.hand_on_to.len(), 1);
    assert!(p.system.ends_with(
        "The managers you may pass an item to, when it belongs to them rather than to you: @website (Site bot). Write @handle take \"title\" and it goes onto their plan and is announced in their thread — it does not start anyone, because they decide who does it."
    ));
}
