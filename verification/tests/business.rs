use devdeck::business::{about_note, folder_name, merge_lines, normalise_site, BusinessMeta, Director, Suggestion};
use devdeck::business_clear::{in_list, repo_inside};
use devdeck::business_code::{link_key, repo_key, Repo};
use devdeck::site::SiteLine;

fn line(field: &str, text: &str, kind: &str) -> SiteLine {
    SiteLine { field: field.into(), text: text.into(), kind: kind.into(), source: "the site".into() }
}

#[test]
fn names_and_addresses_are_made_usable() {
    assert_eq!(normalise_site("innotrack.co.za/"), "https://innotrack.co.za");
    assert_eq!(normalise_site("http://x.co"), "http://x.co");
    assert_eq!(normalise_site("  "), "");
    assert_eq!(folder_name("Tagging / installation: on site"), "Tagging - installation- on site");
    assert_eq!(folder_name(".hidden"), "hidden");
}

#[test]
fn a_new_read_keeps_what_you_decided_and_replaces_what_you_did_not() {
    let mut items = vec![
        Suggestion { id: "a".into(), field: "what".into(), text: "Tags mines".into(), kind: "quote".into(), state: "agreed".into(), ..Default::default() },
        Suggestion { id: "b".into(), field: "serves".into(), text: "Old guess".into(), kind: "guess".into(), state: "open".into(), ..Default::default() },
        Suggestion { id: "c".into(), field: "service".into(), text: "Site surveys".into(), kind: "you".into(), state: "agreed".into(), ..Default::default() },
        Suggestion { id: "d".into(), field: "product".into(), text: "Not ours".into(), kind: "guess".into(), state: "declined".into(), ..Default::default() },
    ];
    let ids: Vec<String> = vec!["sug-1".into(), "sug-2".into(), "sug-3".into()];
    merge_lines(
        &mut items,
        &[line("what", "tags mines", "quote"), line("serves", "Mines", "suggestion"), line("product", "Not ours", "guess")],
        &ids,
    );
    let texts: Vec<&str> = items.iter().map(|i| i.text.as_str()).collect();
    assert_eq!(texts, vec!["Tags mines", "Site surveys", "Not ours", "Mines"]);
    assert!(!texts.contains(&"Old guess"), "an open suggestion from before is replaced");
    assert_eq!(items[2].state, "declined", "a no stays a no, and is not offered again");
    assert_eq!(items[3].id, "sug-2");
    assert_eq!(items[3].state, "open");
}

#[test]
fn only_what_was_agreed_reaches_the_managers() {
    let meta = BusinessMeta {
        name: "Innotrack".into(),
        website: "innotrack.co.za".into(),
        directors: vec![Director { name: "You".into(), email: String::new(), you: true }],
        items: vec![
            Suggestion { field: "what".into(), text: "RFID Enabled Solutions".into(), kind: "quote".into(), state: "agreed".into(), ..Default::default() },
            Suggestion { field: "serves".into(), text: "Mines".into(), kind: "guess".into(), state: "open".into(), ..Default::default() },
            Suggestion { field: "service".into(), text: "Site surveys".into(), kind: "you".into(), state: "agreed".into(), ..Default::default() },
        ],
        ..Default::default()
    };
    let note = about_note(&meta);
    assert!(note.contains("What it does: RFID Enabled Solutions"));
    assert!(note.contains("Services: Site surveys"));
    assert!(!note.contains("Mines"), "an open guess is not something the business agreed");
    assert!(about_note(&BusinessMeta::default()).is_empty());
    assert_eq!(
        note,
        "---\nid: about-the-business\nsource: business setup\n---\n\n# Innotrack\n\nWebsite: innotrack.co.za\nDirectors: You\nWhat it does: RFID Enabled Solutions\nServices: Site surveys\n"
    );
}

#[test]
fn a_repository_inside_the_folder_is_seen_whatever_the_slashes() {
    assert!(repo_inside(r"C:\Users\me\DevDeck\Innotrack", "c:/users/me/devdeck/innotrack/x-platform"));
    assert!(repo_inside("C:/v/Innotrack", r"C:\v\Innotrack"));
    assert!(!repo_inside(r"C:\v\Innotrack", r"C:\code\trackx\x-platform"));
    assert!(!repo_inside(r"C:\v\Inno", r"C:\v\Innotrack\x"), "a prefix of a name is not a parent");
    assert!(!repo_inside("", r"C:\code"));
}

#[test]
fn ids_become_an_sql_list() {
    assert_eq!(in_list(&[1, 22, -3]), "1,22,-3");
    assert_eq!(in_list(&[]), "");
}

#[test]
fn every_address_github_hands_out_names_the_same_repository() {
    assert_eq!(repo_key("https://github.com/innotrack/rfid-gateway.git"), "innotrack/rfid-gateway");
    assert_eq!(repo_key("git@github.com:Innotrack/rfid-gateway.git"), "innotrack/rfid-gateway");
    assert_eq!(repo_key("https://github.com/innotrack/rfid-gateway/"), "innotrack/rfid-gateway");
}

#[test]
fn a_repository_with_no_address_cannot_be_linked() {
    let r = Repo { name: "gw".into(), html_url: "https://github.com/a/gw".into(), ..Default::default() };
    assert_eq!(link_key(&r).unwrap(), "a/gw");
    let none = Repo { name: "gw".into(), ..Default::default() };
    assert_eq!(link_key(&none).unwrap_err(), "That repository has no address to link.");
    let nameless = Repo { clone_url: "https://github.com/a/gw.git".into(), ..Default::default() };
    assert!(link_key(&nameless).is_err());
}
