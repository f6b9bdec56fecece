use devdeck::business::{BusinessMeta, Director, FolderRef, Suggestion};
use devdeck::business_ops::{commit_targets, find_folder, new_business, save_meta, summarize};

fn item(id: &str, field: &str, text: &str, kind: &str, state: &str, node_id: i64) -> Suggestion {
    Suggestion {
        id: id.into(),
        field: field.into(),
        text: text.into(),
        kind: kind.into(),
        state: state.into(),
        node_id,
        ..Default::default()
    }
}

#[test]
fn a_business_is_summed_up_by_what_it_agreed() {
    let meta = BusinessMeta {
        website: "acme.test".into(),
        step: "sells".into(),
        directors: vec![Director { name: "You".into(), email: String::new(), you: true }],
        items: vec![
            item("a", "product", "Tracker", "quote", "agreed", 0),
            item("b", "product", "Old thing", "guess", "open", 0),
            item("c", "product", "Mine", "you", "", 0),
            item("d", "service", "Surveys", "you", "declined", 0),
            item("e", "service", "Installs", "suggestion", "agreed", 0),
        ],
        ..Default::default()
    };
    let s = summarize(7, "Acme".into(), Some(&meta), 2);
    assert!(s.set_up);
    assert_eq!(s.products, 2);
    assert_eq!(s.services, 1);
    assert_eq!(s.directors, 1);
    assert_eq!(s.mailboxes, 2);
    assert_eq!(s.step, "sells");
    let bare = summarize(8, "New".into(), None, 0);
    assert!(!bare.set_up);
    assert_eq!(bare.products, 0);
    assert_eq!(bare.name, "New");
}

#[test]
fn a_new_business_starts_with_you_and_its_site() {
    let m = new_business("Acme", "  acme.test ");
    assert_eq!(m.name, "Acme");
    assert_eq!(m.website, "acme.test");
    assert_eq!(m.directors.len(), 1);
    assert!(m.directors[0].you);
    assert_eq!(m.directors[0].name, "You");
    assert_eq!(m.step, "business");
    assert!(m.items.is_empty());
}

#[test]
fn saving_keeps_the_folders_name_and_tidies_the_rest() {
    let meta = BusinessMeta {
        name: "Renamed".into(),
        website: " acme.test ".into(),
        directors: vec![
            Director { name: "  ".into(), email: String::new(), you: true },
            Director { name: " ".into(), email: "x@y".into(), you: false },
            Director { name: "Ann".into(), email: String::new(), you: false },
        ],
        items: vec![
            item("", "product", " Tracker ", "you", "", 0),
            item("k", "what", "  ", "guess", "open", 0),
            item("", "serves", "Mines", "guess", "", 0),
        ],
        ..Default::default()
    };
    let fresh = vec!["n1".to_string(), "n2".to_string(), "n3".to_string()];
    let m = save_meta("Acme", meta, &fresh);
    assert_eq!(m.name, "Acme");
    assert_eq!(m.website, "acme.test");
    assert_eq!(m.directors.len(), 2);
    assert!(m.directors[0].you);
    assert_eq!(m.directors[1].name, "Ann");
    assert_eq!(m.items.len(), 2);
    assert_eq!(m.items[0].id, "n1");
    assert_eq!(m.items[0].text, "Tracker");
    assert_eq!(m.items[0].state, "agreed");
    assert_eq!(m.items[1].id, "n3");
    assert_eq!(m.items[1].state, "open");
}

#[test]
fn only_agreed_products_and_services_without_a_folder_get_one() {
    let items = vec![
        item("a", "product", "Tracker app", "quote", "agreed", 0),
        item("b", "product", "Made already", "quote", "agreed", 12),
        item("c", "service", "Site surveys", "you", "", 0),
        item("d", "service", "Declined", "you", "declined", 0),
        item("e", "what", "Tags mines", "quote", "agreed", 0),
        item("f", "product", "...", "quote", "agreed", 0),
    ];
    let t = commit_targets(&items);
    assert_eq!(t.len(), 2);
    assert_eq!(t[0].index, 0);
    assert_eq!(t[0].folder, "Products");
    assert_eq!(t[0].label, "Product");
    assert_eq!(t[0].name, "Tracker app");
    assert_eq!(t[1].index, 2);
    assert_eq!(t[1].folder, "Services");
    assert_eq!(t[1].label, "Service");
}

#[test]
fn a_folder_is_found_whatever_its_case() {
    let folders = vec![
        FolderRef { node_id: 3, name: "Products".into() },
        FolderRef { node_id: 4, name: "Services".into() },
    ];
    assert_eq!(find_folder(&folders, "products"), Some(3));
    assert_eq!(find_folder(&folders, "SERVICES"), Some(4));
    assert_eq!(find_folder(&folders, "Marketing"), None);
}
