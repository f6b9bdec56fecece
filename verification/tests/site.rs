use devdeck::site::{
    all_text, contains_words, decode_entities, html_to_text, is_thin, mock_reply, parse_site_lines,
    render_context, same_site_links, site_line_candidates, strip_tags, SiteLine, SiteLink, SiteText,
};

/// What the JSON library makes of one candidate line: a `SiteLine` whose
/// missing members are empty, or nothing when a member is not a string or
/// the line is not an object.
fn read_line(text: &str) -> Option<SiteLine> {
    let v: serde_json::Value = serde_json::from_str(text).ok()?;
    let o = v.as_object()?;
    let member = |k: &str| -> Option<String> {
        match o.get(k) {
            None => Some(String::new()),
            Some(serde_json::Value::String(s)) => Some(s.clone()),
            Some(_) => None,
        }
    };
    Some(SiteLine { field: member("field")?, text: member("text")?, kind: member("kind")?, source: member("source")? })
}

fn lines_of(reply: &str, site: &str) -> Vec<SiteLine> {
    let read: Vec<Option<SiteLine>> = site_line_candidates(reply).iter().map(|c| read_line(c)).collect();
    parse_site_lines(&read, site)
}

#[test]
fn a_page_with_almost_no_text_is_thin() {
    let t = SiteText { text: "x".repeat(399), ..Default::default() };
    assert!(is_thin(&t));
    let u = SiteText { text: "é".repeat(400), ..Default::default() };
    assert!(!is_thin(&u), "characters are counted, not bytes");
}

#[test]
fn a_page_becomes_the_words_a_person_reads() {
    let html = r##"<html><head><title>INNOTRACK | RFID Enabled Solutions for Mining &amp; Asset Management</title>
        <meta name="description" content="Tracking &amp; tagging">
        <script>var x = "<h1>not this</h1>";</script><style>.a{}</style></head>
        <body><nav><a href="/about">About us</a><a href="#top">Top</a><a href="mailto:a@b.co">Mail</a>
        <a href="https://other.example/x">Elsewhere</a><a href="/brochure.pdf">PDF</a></nav>
        <h1>Know where it is</h1><p>We fit tags&nbsp;on equipment.</p></body></html>"##;
    let t = html_to_text(html, "https://innotrack.co.za/");
    assert_eq!(t.title, "INNOTRACK | RFID Enabled Solutions for Mining & Asset Management");
    assert_eq!(t.description, "Tracking & tagging");
    assert_eq!(t.headings, vec!["Know where it is"]);
    assert!(t.text.contains("We fit tags on equipment."));
    assert!(!t.text.contains("not this"), "script content is not text");
    assert_eq!(same_site_links(&t, 5), vec!["https://innotrack.co.za/about"]);
    assert!(is_thin(&t));
}

#[test]
fn links_are_gathered_once_and_gathering_stops_at_the_limit() {
    let link = |h: &str| SiteLink { href: h.into(), text: String::new() };
    let t = SiteText {
        url: "https://www.example.com/home".into(),
        links: vec![
            link("https://example.com/a#top"),
            link("https://example.com/a"),
            link("https://www.example.com/b"),
            link("https://example.com/home"),
            link("https://example.com/c.PDF"),
            link("ftp://example.com/d"),
            link("https://example.com/e"),
        ],
        ..Default::default()
    };
    assert_eq!(
        same_site_links(&t, 5),
        vec!["https://example.com/a", "https://www.example.com/b", "https://example.com/e"]
    );
    assert_eq!(same_site_links(&t, 2), vec!["https://example.com/a", "https://www.example.com/b"]);
    let unparsable = SiteText { url: "not a url".into(), ..t };
    assert!(same_site_links(&unparsable, 5).is_empty());
}

#[test]
fn a_quote_that_is_not_on_the_site_stops_calling_itself_a_quote() {
    let site = "INNOTRACK | RFID Enabled Solutions for Mining & Asset Management";
    let reply = r#"{"field":"what","text":"RFID Enabled Solutions for Mining & Asset Management","kind":"quote","source":"title"}
{"field":"product","text":"TrackMaster Pro","kind":"quote","source":"made up"}
{"field":"serves","text":"Mines","kind":"certain","source":"?"}
{"field":"colour","text":"blue","kind":"quote"}
{"field":"industry","text":"Mining","kind":"suggestion","source":"title"}
{"field":"industry","text":"mining","kind":"suggestion","source":"title"}"#;
    let out = lines_of(reply, site);
    assert_eq!(out.len(), 4, "an unknown field and a repeat are dropped: {out:?}");
    assert_eq!(out[0].kind, "quote", "the site's own words stay a quote");
    assert_eq!(out[1].kind, "suggestion", "a product name the site never uses is not a quote");
    assert_eq!(out[2].kind, "guess", "a kind nobody knows is the careful one");
}

#[test]
fn reply_lines_are_framed_and_tidied_before_they_count() {
    let reply = "Here you go:\n  {\"field\":\" Industry \",\"text\":\" \\\"Retail\\\" \",\"kind\":\"SUGGESTION\"},,\r\n{not json}\n{\"field\":\"what\",\"text\":\"   \"}";
    let cands = site_line_candidates(reply);
    assert_eq!(cands.len(), 3);
    assert!(cands[0].starts_with('{') && cands[0].ends_with('}'));
    let out = lines_of(reply, "");
    assert_eq!(out.len(), 1, "an unreadable line and an empty text are dropped: {out:?}");
    assert_eq!(out[0].field, "industry");
    assert_eq!(out[0].text, "Retail");
    assert_eq!(out[0].kind, "suggestion");
}

#[test]
fn the_mock_quotes_only_what_is_on_the_page_and_says_when_it_guesses() {
    let pages = vec![SiteText {
        url: "https://innotrack.co.za/".into(),
        title: "INNOTRACK | RFID Enabled Solutions for Mining & Asset Management".into(),
        ..Default::default()
    }];
    let ctx = render_context("Innotrack", "innotrack.co.za", &pages);
    let lines = lines_of(&mock_reply(&ctx), &all_text(&pages));
    let what = lines.iter().find(|l| l.field == "what").unwrap();
    assert_eq!(what.text, "RFID Enabled Solutions for Mining & Asset Management");
    assert_eq!(what.kind, "quote");
    assert!(lines.iter().any(|l| l.field == "industry" && l.text == "Mining"));
    for l in lines.iter().filter(|l| l.kind == "guess") {
        assert!(l.text.contains("mock provider"), "a mock guess says so: {}", l.text);
    }
}

#[test]
fn the_mock_prefers_the_description_and_names_at_most_two_products() {
    let ctx = "Title: X | Y\nDescription:  Retail and logistics software, with RFID \nmore";
    let reply = mock_reply(ctx);
    let first: serde_json::Value = serde_json::from_str(reply.lines().next().unwrap()).unwrap();
    assert_eq!(first["text"], "Retail and logistics software, with RFID");
    assert_eq!(first["source"], "the page description");
    let products = reply.lines().filter(|l| l.contains("\"product\"")).count();
    assert_eq!(products, 2);
    assert!(reply.contains("Businesses in logistics, retail, software, rfid (guessed by the mock provider)"));
    assert_eq!(mock_reply("nothing here"), "");
}

#[test]
fn entities_and_tags_give_way_to_text() {
    assert_eq!(decode_entities("a &amp; b &lt;c&gt; &#39;d&#x27; &bogus;"), "a & b <c> 'd' &bogus;");
    assert_eq!(strip_tags("<p>one <b>two</b></p>"), "one two");
    assert!(contains_words("We fit tags, on equipment!", "fit TAGS on"));
    assert!(!contains_words("We fit tags on equipment", "fit tag"));
    assert!(!contains_words("anything", "  "));
}

#[test]
fn the_mock_writes_each_line_as_json_with_quotes_escaped() {
    let reply = mock_reply("Title: X\nDescription: Say \"hi\" to \\ us\nmore");
    let first = reply.lines().next().unwrap();
    assert_eq!(
        first,
        "{\"field\":\"what\",\"kind\":\"quote\",\"source\":\"the page description\",\"text\":\"Say \\\"hi\\\" to \\\\ us\"}"
    );
}
