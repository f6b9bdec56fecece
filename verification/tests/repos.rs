use devdeck::business_code::{
    link_plan, linked_note, LinkStep,
    example_repos, github_list, github_refusal, login_of, repo_of, repos_page, signed_out, wants_next_page,
};
use devdeck::json::Json;

fn to_json(v: &serde_json::Value) -> Json {
    match v {
        serde_json::Value::Null => Json::Null,
        serde_json::Value::Bool(b) => Json::Bool(*b),
        serde_json::Value::Number(n) => Json::Num(n.to_string()),
        serde_json::Value::String(s) => Json::Str(s.clone()),
        serde_json::Value::Array(a) => Json::Arr(a.iter().map(to_json).collect()),
        serde_json::Value::Object(m) => Json::Obj(m.iter().map(|(k, v)| (k.clone(), to_json(v))).collect()),
    }
}

fn j(text: &str) -> Json {
    to_json(&serde_json::from_str::<serde_json::Value>(text).unwrap())
}

#[test]
fn githubs_refusals_say_what_to_do() {
    assert_eq!(github_refusal(401), "GitHub rejected the stored token. Paste a new one.");
    assert_eq!(
        github_refusal(403),
        "GitHub refused (403). An organisation may need SSO authorising for this token."
    );
    assert_eq!(github_refusal(502), "GitHub answered 502");
}

#[test]
fn a_listed_repository_takes_what_github_says_and_nothing_else() {
    let r = repo_of(&j(r#"{ "full_name": "acme/site", "name": "site", "owner": { "login": "acme" },
        "description": null, "private": true, "updated_at": "2026-01-02T00:00:00Z", "language": "Rust",
        "clone_url": "https://github.com/acme/site.git", "html_url": "https://github.com/acme/site" }"#));
    assert_eq!(r.full_name, "acme/site");
    assert_eq!(r.owner, "acme");
    assert_eq!(r.description, "");
    assert!(r.private);
    assert_eq!(r.language, "Rust");
    let bare = repo_of(&j(r#"{ "name": "x", "private": "yes" }"#));
    assert!(!bare.private);
    assert_eq!(bare.owner, "");
}

#[test]
fn a_page_is_a_list_or_nothing() {
    assert!(repos_page(&j(r#"{ "message": "Bad credentials" }"#)).is_none());
    let page = repos_page(&j(r#"[ { "name": "a" }, { "name": "b" } ]"#)).unwrap();
    assert_eq!(page.len(), 2);
    assert_eq!(page[1].name, "b");
    assert!(wants_next_page(1, 100));
    assert!(!wants_next_page(1, 99));
    assert!(!wants_next_page(5, 100));
}

#[test]
fn the_listing_says_who_is_signed_in_or_how_to_sign_in() {
    assert_eq!(login_of(&j(r#"{ "login": "octo" }"#)), "octo");
    assert_eq!(login_of(&j(r#"{}"#)), "");
    let l = github_list("octo".into(), vec![]);
    assert_eq!(l.source, "github");
    assert!(l.signed_in);
    let out = signed_out();
    assert!(!out.signed_in);
    assert_eq!(out.note, "Paste a GitHub token to list your repositories.");
}

#[test]
fn example_repositories_say_they_are_examples() {
    let ex = example_repos();
    assert_eq!(ex.len(), 6);
    assert!(ex.iter().all(|e| e.repo.description.ends_with(" An example repository.")));
    assert_eq!(ex[0].repo.clone_url, "https://github.com/innotrack/asset-tracker-api.git");
    assert_eq!(ex[0].repo.html_url, "https://github.com/innotrack/asset-tracker-api");
    assert_eq!(ex[3].days, 170);
    assert!(!ex[4].repo.private);
    assert_eq!(ex[5].repo.language, "Shell");
}

#[test]
fn linking_uses_a_clone_already_there_or_clones_into_a_chosen_folder() {
    assert_eq!(link_plan("", "site", None, false, "C:/code").unwrap_err(), "That repository has no address to link.");
    assert_eq!(link_plan("github.com/a/site", " ", None, false, "C:/code").unwrap_err(), "That repository has no address to link.");
    assert_eq!(
        link_plan("github.com/a/site", "site", Some("D:/old/site".into()), true, "").unwrap(),
        LinkStep::UseKnown("D:/old/site".into())
    );
    assert_eq!(link_plan("github.com/a/site", "site", None, true, "").unwrap(), LinkStep::UseTarget);
    assert_eq!(link_plan("github.com/a/site", "site", None, false, "  ").unwrap_err(), "Choose a folder to clone into.");
    assert_eq!(link_plan("github.com/a/site", "site", None, false, "C:/code").unwrap(), LinkStep::Clone);
    assert_eq!(linked_note(true, 1, 2), "used where it already was · 1 command, 2 services");
    assert_eq!(linked_note(false, 0, 1), "cloned · 0 commands, 1 service");
}
