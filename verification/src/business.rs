//! A business: its record, what it agreed it is, and the note the managers
//! read about it.
use vstd::prelude::*;
use crate::text::{
    chars_of, copy_str, eq_ci, eq_ci_str, from_chars, is_blank, join, join_strings, push_str,
    starts_with, starts_with_str, str_eq, str_views, trim, trim_str,
};
use crate::site::{SiteLine, SiteLineV, lines_view};

verus! {

pub const LABEL: &'static str = "Business";
pub const FILE: &'static str = "business.md";

/// Someone who runs the business.
#[derive(Debug, Default)]
pub struct Director {
    pub name: String,
    pub email: String,
    /// The owner of this copy of DevDeck.
    pub you: bool,
}

/// One thing the business might be, sell or be about, and where it came from.
#[derive(Debug, Default)]
pub struct Suggestion {
    pub id: String,
    /// what | serves | industry | where | product | service
    pub field: String,
    pub text: String,
    /// quote | suggestion | guess | you
    pub kind: String,
    pub source: String,
    /// open | agreed | declined
    pub state: String,
    /// An agreed product or service's own folder, once made.
    pub node_id: i64,
}

#[derive(Debug, Default)]
pub struct BusinessMeta {
    pub name: String,
    pub website: String,
    pub directors: Vec<Director>,
    pub items: Vec<Suggestion>,
    /// plain | browser | empty until the site has been read.
    pub site_how: String,
    pub site_read_at: String,
    pub site_chars: i64,
    pub site_pages: Vec<String>,
    /// business | sells | code | mail | learn | team | done
    pub step: String,
    /// The team step has been finished.
    pub made: bool,
}

#[derive(Debug, Default)]
pub struct FolderRef {
    pub node_id: i64,
    pub name: String,
}

/// What the screen needs about the site read, without the whole text.
#[derive(Debug, Default)]
pub struct SiteSummary {
    pub how: String,
    pub chars: i64,
    pub pages: Vec<String>,
    pub title: String,
    pub excerpt: String,
    /// Almost nothing came back: a site drawn by script.
    pub thin: bool,
}

#[derive(Debug, Default)]
pub struct BusinessView {
    pub node_id: i64,
    pub meta: BusinessMeta,
    pub folders: Vec<FolderRef>,
    pub site: SiteSummary,
}

#[derive(Debug, Default)]
pub struct BusinessSummary {
    pub node_id: i64,
    pub name: String,
    pub website: String,
    pub set_up: bool,
    pub step: String,
    pub made: bool,
    pub products: usize,
    pub services: usize,
    pub mailboxes: i64,
    pub directors: usize,
}

pub ghost struct SuggestionV {
    pub id: Seq<char>,
    pub field: Seq<char>,
    pub text: Seq<char>,
    pub kind: Seq<char>,
    pub source: Seq<char>,
    pub state: Seq<char>,
    pub node_id: int,
}

impl View for Suggestion {
    type V = SuggestionV;

    open spec fn view(&self) -> SuggestionV {
        SuggestionV {
            id: self.id@,
            field: self.field@,
            text: self.text@,
            kind: self.kind@,
            source: self.source@,
            state: self.state@,
            node_id: self.node_id as int,
        }
    }
}

pub open spec fn items_view(v: Seq<Suggestion>) -> Seq<SuggestionV> {
    v.map_values(|s: Suggestion| s@)
}

// ---------------------------------------------------------------------------
// Addresses and names
// ---------------------------------------------------------------------------

/// The text without any run of `c` at its end.
pub open spec fn strip_end(s: Seq<char>, c: char) -> Seq<char>
    decreases s.len(),
{
    if s.len() > 0 && s.last() == c {
        strip_end(s.drop_last(), c)
    } else {
        s
    }
}

/// The text without any run of `c` at its start.
pub open spec fn strip_start(s: Seq<char>, c: char) -> Seq<char>
    decreases s.len(),
{
    if s.len() > 0 && s[0] == c {
        strip_start(s.drop_first(), c)
    } else {
        s
    }
}

/// A website as a fetchable address: a bare host means https.
pub open spec fn normalise_site_spec(s: Seq<char>) -> Seq<char> {
    let t = strip_end(trim(s), '/');
    if t.len() == 0 {
        seq![]
    } else if starts_with(t, "http://"@) || starts_with(t, "https://"@) {
        t
    } else {
        "https://"@ + t
    }
}

fn strip_end_exec(v: &Vec<char>, c: char) -> (r: Vec<char>)
    ensures
        r@ == strip_end(v@, c),
{
    let mut k = v.len();
    assert(v@.take(k as int) =~= v@);
    while k > 0 && v[k - 1] == c
        invariant
            k <= v.len(),
            strip_end(v@, c) == strip_end(v@.take(k as int), c),
        decreases k,
    {
        assert(v@.take(k as int).drop_last() =~= v@.take(k - 1));
        k = k - 1;
    }
    proof {
        if k > 0 {
            assert(v@.take(k as int).last() == v@[k - 1]);
        }
    }
    crate::text::sub_vec(v, 0, k)
}

fn strip_start_exec(v: &Vec<char>, c: char) -> (r: Vec<char>)
    ensures
        r@ == strip_start(v@, c),
{
    let mut k: usize = 0;
    assert(v@.skip(0) =~= v@);
    while k < v.len() && v[k] == c
        invariant
            k <= v.len(),
            strip_start(v@, c) == strip_start(v@.skip(k as int), c),
        decreases v.len() - k,
    {
        assert(v@.skip(k as int).drop_first() =~= v@.skip(k + 1));
        k = k + 1;
    }
    proof {
        if k < v.len() {
            assert(v@.skip(k as int)[0] == v@[k as int]);
        }
    }
    let r = crate::text::sub_vec(v, k, v.len());
    assert(r@ =~= v@.skip(k as int));
    r
}

/// A website as a fetchable address: `innotrack.co.za` means https.
pub fn normalise_site(s: &str) -> (r: String)
    ensures
        r@ == normalise_site_spec(s@),
{
    let t0 = trim_str(s);
    let v = chars_of(t0.as_str());
    let tv = strip_end_exec(&v, '/');
    let t = from_chars(&tv);
    if tv.len() == 0 {
        return String::new();
    }
    if starts_with_str(t.as_str(), "http://") || starts_with_str(t.as_str(), "https://") {
        t
    } else {
        let mut r = copy_str("https://");
        push_str(&mut r, t.as_str());
        r
    }
}

/// A character Windows refuses in a folder name.
pub open spec fn refused_in_names(c: char) -> bool {
    c == '\\' || c == '/' || c == ':' || c == '*' || c == '?' || c == '"' || c == '<' || c == '>'
        || c == '|'
}

pub open spec fn dash_refused(s: Seq<char>) -> Seq<char> {
    s.map_values(|c: char| if refused_in_names(c) {
        '-'
    } else {
        c
    })
}

/// A name the vault will accept as a folder: refused characters become
/// dashes, leading dots go, and the ends are trimmed.
pub open spec fn folder_name_spec(s: Seq<char>) -> Seq<char> {
    trim(strip_start(dash_refused(trim(s)), '.'))
}

pub fn folder_name(s: &str) -> (r: String)
    ensures
        r@ == folder_name_spec(s@),
{
    let t = trim_str(s);
    let v = chars_of(t.as_str());
    let mut out: Vec<char> = Vec::new();
    let mut i: usize = 0;
    while i < v.len()
        invariant
            i <= v.len(),
            v@ == trim(s@),
            out@ == dash_refused(v@.take(i as int)),
        decreases v.len() - i,
    {
        let c = v[i];
        let d = if c == '\\' || c == '/' || c == ':' || c == '*' || c == '?' || c == '"' || c == '<'
            || c == '>' || c == '|' {
            '-'
        } else {
            c
        };
        out.push(d);
        i = i + 1;
        assert(out@ =~= dash_refused(v@.take(i as int)));
    }
    assert(v@.take(v.len() as int) =~= v@);
    let w = strip_start_exec(&out, '.');
    let ws = from_chars(&w);
    trim_str(ws.as_str())
}

// ---------------------------------------------------------------------------
// Folding a site read in
// ---------------------------------------------------------------------------

/// What a fresh read keeps: everything you decided or typed. Only open
/// suggestions from an earlier read go.
pub open spec fn decided(s: SuggestionV) -> bool {
    s.state != "open"@ || s.kind == "you"@
}

pub open spec fn keep_decided(items: Seq<SuggestionV>) -> Seq<SuggestionV>
    decreases items.len(),
{
    if items.len() == 0 {
        seq![]
    } else if decided(items.last()) {
        keep_decided(items.drop_last()).push(items.last())
    } else {
        keep_decided(items.drop_last())
    }
}

/// Some item already says this line: same field, same text ignoring ASCII
/// case.
pub open spec fn already_said(items: Seq<SuggestionV>, l: SiteLineV) -> bool {
    exists|i: int| 0 <= i < items.len() && #[trigger] items[i].field == l.field && eq_ci(items[i].text, l.text)
}

pub open spec fn opened(id: Seq<char>, l: SiteLineV) -> SuggestionV {
    SuggestionV {
        id,
        field: l.field,
        text: l.text,
        kind: l.kind,
        source: l.source,
        state: "open"@,
        node_id: 0,
    }
}

/// The lines added one by one, each as an open suggestion under its id,
/// unless something already says it.
pub open spec fn merged(items: Seq<SuggestionV>, lines: Seq<SiteLineV>, ids: Seq<Seq<char>>) -> Seq<SuggestionV>
    decreases lines.len(),
{
    if lines.len() == 0 {
        items
    } else {
        let m = merged(items, lines.drop_last(), ids);
        if already_said(m, lines.last()) {
            m
        } else {
            m.push(opened(ids[lines.len() - 1], lines.last()))
        }
    }
}

fn copy_suggestion(s: &Suggestion) -> (r: Suggestion)
    ensures
        r@ == s@,
{
    Suggestion {
        id: copy_str(s.id.as_str()),
        field: copy_str(s.field.as_str()),
        text: copy_str(s.text.as_str()),
        kind: copy_str(s.kind.as_str()),
        source: copy_str(s.source.as_str()),
        state: copy_str(s.state.as_str()),
        node_id: s.node_id,
    }
}

fn already_said_exec(items: &Vec<Suggestion>, l: &SiteLine) -> (r: bool)
    ensures
        r == already_said(items_view(items@), l@),
{
    let ghost s = items_view(items@);
    let mut i: usize = 0;
    while i < items.len()
        invariant
            i <= items.len(),
            s == items_view(items@),
            forall|j: int| 0 <= j < i ==> !(#[trigger] s[j].field == l@.field && eq_ci(s[j].text, l@.text)),
        decreases items.len() - i,
    {
        assert(s[i as int] == items@[i as int]@);
        if str_eq(items[i].field.as_str(), l.field.as_str()) && eq_ci_str(
            items[i].text.as_str(),
            l.text.as_str(),
        ) {
            assert(s[i as int].field == l@.field && eq_ci(s[i as int].text, l@.text));
            return true;
        }
        i = i + 1;
    }
    false
}

/// Fold a fresh site read into what is already there. What you agreed,
/// declined or typed stays exactly as it is; suggestions still open from an
/// earlier read are replaced by the new ones; a new line that repeats
/// something already there is not added twice. The `k`-th line, when added,
/// gets `ids[k]`.
pub fn merge_lines(items: &mut Vec<Suggestion>, lines: &[SiteLine], ids: &[String])
    requires
        ids.len() >= lines.len(),
    ensures
        items_view(final(items)@) == merged(
            keep_decided(items_view(old(items)@)),
            lines_view(lines@),
            str_views(ids@),
        ),
{
    let ghost s = items_view(items@);
    let mut kept: Vec<Suggestion> = Vec::new();
    let mut i: usize = 0;
    while i < items.len()
        invariant
            i <= items.len(),
            s == items_view(items@),
            items_view(kept@) == keep_decided(s.take(i as int)),
        decreases items.len() - i,
    {
        assert(s.take(i + 1).drop_last() =~= s.take(i as int));
        assert(s.take(i + 1).last() == items@[i as int]@);
        if !str_eq(items[i].state.as_str(), "open") || str_eq(items[i].kind.as_str(), "you") {
            let c = copy_suggestion(&items[i]);
            let ghost before = kept@;
            kept.push(c);
            assert(items_view(kept@) =~= items_view(before).push(c@));
        }
        i = i + 1;
    }
    assert(s.take(items.len() as int) =~= s);
    let ghost base = items_view(kept@);
    let ghost lv = lines_view(lines@);
    let ghost iv = str_views(ids@);
    let mut k: usize = 0;
    while k < lines.len()
        invariant
            k <= lines.len(),
            ids.len() >= lines.len(),
            lv == lines_view(lines@),
            iv == str_views(ids@),
            items_view(kept@) == merged(base, lv.take(k as int), iv),
        decreases lines.len() - k,
    {
        assert(lv.take(k + 1).drop_last() =~= lv.take(k as int));
        assert(lv.take(k + 1).last() == lines@[k as int]@);
        if !already_said_exec(&kept, &lines[k]) {
            let l = &lines[k];
            let n = Suggestion {
                id: copy_str(ids[k].as_str()),
                field: copy_str(l.field.as_str()),
                text: copy_str(l.text.as_str()),
                kind: copy_str(l.kind.as_str()),
                source: copy_str(l.source.as_str()),
                state: copy_str("open"),
                node_id: 0,
            };
            assert(n@ == opened(iv[k as int], l@));
            let ghost before = kept@;
            kept.push(n);
            assert(items_view(kept@) =~= items_view(before).push(n@));
        }
        k = k + 1;
    }
    assert(lv.take(lines.len() as int) =~= lv);
    *items = kept;
}


// ---------------------------------------------------------------------------
// What the managers read
// ---------------------------------------------------------------------------

/// An item counts as agreed: you said yes, or you typed it and did not take
/// it back.
pub open spec fn counts_as_agreed(s: SuggestionV) -> bool {
    s.state == "agreed"@ || (s.kind == "you"@ && s.state != "declined"@)
}

/// The texts agreed for one field, in order.
pub open spec fn agreed_for(items: Seq<SuggestionV>, field: Seq<char>) -> Seq<Seq<char>>
    decreases items.len(),
{
    if items.len() == 0 {
        seq![]
    } else if items.last().field == field && counts_as_agreed(items.last()) {
        agreed_for(items.drop_last(), field).push(items.last().text)
    } else {
        agreed_for(items.drop_last(), field)
    }
}

pub open spec fn note_line(label: Seq<char>, texts: Seq<Seq<char>>) -> Seq<char> {
    if texts.len() > 0 {
        label + ": "@ + join(texts, "; "@) + "\n"@
    } else {
        seq![]
    }
}

pub open spec fn note_lines(items: Seq<SuggestionV>) -> Seq<char> {
    note_line("What it does"@, agreed_for(items, "what"@)) + note_line(
        "Who it serves"@,
        agreed_for(items, "serves"@),
    ) + note_line("Industry"@, agreed_for(items, "industry"@)) + note_line(
        "Where"@,
        agreed_for(items, "where"@),
    ) + note_line("Products"@, agreed_for(items, "product"@)) + note_line(
        "Services"@,
        agreed_for(items, "service"@),
    )
}

/// The directors' names, trimmed, blank ones left out.
pub open spec fn director_names(ds: Seq<Director>) -> Seq<Seq<char>>
    decreases ds.len(),
{
    if ds.len() == 0 {
        seq![]
    } else if trim(ds.last().name@).len() == 0 {
        director_names(ds.drop_last())
    } else {
        director_names(ds.drop_last()).push(trim(ds.last().name@))
    }
}

/// The note about the business, or nothing when nothing has been agreed.
pub open spec fn about_note_spec(
    name: Seq<char>,
    website: Seq<char>,
    directors: Seq<Director>,
    items: Seq<SuggestionV>,
) -> Seq<char> {
    let s = note_lines(items);
    let names = director_names(directors);
    if s.len() == 0 {
        seq![]
    } else {
        "---\nid: about-the-business\nsource: business setup\n---\n\n# "@ + trim(name) + "\n\n"@ + (if trim(
            website,
        ).len() > 0 {
            "Website: "@ + trim(website) + "\n"@
        } else {
            seq![]
        }) + (if names.len() > 0 {
            "Directors: "@ + join(names, ", "@) + "\n"@
        } else {
            seq![]
        }) + s
    }
}

fn agreed_texts(items: &Vec<Suggestion>, field: &str) -> (r: Vec<String>)
    ensures
        str_views(r@) == agreed_for(items_view(items@), field@),
{
    let ghost s = items_view(items@);
    let mut r: Vec<String> = Vec::new();
    let mut i: usize = 0;
    while i < items.len()
        invariant
            i <= items.len(),
            s == items_view(items@),
            str_views(r@) == agreed_for(s.take(i as int), field@),
        decreases items.len() - i,
    {
        assert(s.take(i + 1).drop_last() =~= s.take(i as int));
        assert(s.take(i + 1).last() == items@[i as int]@);
        let it = &items[i];
        if str_eq(it.field.as_str(), field) && (str_eq(it.state.as_str(), "agreed") || (str_eq(
            it.kind.as_str(),
            "you",
        ) && !str_eq(it.state.as_str(), "declined"))) {
            let t = copy_str(it.text.as_str());
            let ghost before = r@;
            r.push(t);
            assert(str_views(r@) =~= str_views(before).push(t@));
        }
        i = i + 1;
    }
    assert(s.take(items.len() as int) =~= s);
    r
}

fn push_note_line(s: &mut String, label: &str, items: &Vec<Suggestion>, field: &str)
    ensures
        final(s)@ == old(s)@ + note_line(label@, agreed_for(items_view(items@), field@)),
{
    let texts = agreed_texts(items, field);
    if texts.len() > 0 {
        push_str(s, label);
        push_str(s, ": ");
        push_str(s, join_strings(&texts, "; ").as_str());
        push_str(s, "\n");
    } else {
        assert(s@ =~= s@ + seq![]);
    }
}

/// What the managers read about the business: only what was agreed.
pub fn about_note(meta: &BusinessMeta) -> (r: String)
    ensures
        r@ == about_note_spec(meta.name@, meta.website@, meta.directors@, items_view(meta.items@)),
{
    let mut s = String::new();
    push_note_line(&mut s, "What it does", &meta.items, "what");
    push_note_line(&mut s, "Who it serves", &meta.items, "serves");
    push_note_line(&mut s, "Industry", &meta.items, "industry");
    push_note_line(&mut s, "Where", &meta.items, "where");
    push_note_line(&mut s, "Products", &meta.items, "product");
    push_note_line(&mut s, "Services", &meta.items, "service");
    assert(s@ =~= note_lines(items_view(meta.items@)));
    if chars_of(s.as_str()).len() == 0 {
        return String::new();
    }
    let mut out = copy_str("---\nid: about-the-business\nsource: business setup\n---\n\n# ");
    push_str(&mut out, trim_str(meta.name.as_str()).as_str());
    push_str(&mut out, "\n\n");
    let ghost head = out@;
    if !is_blank(meta.website.as_str()) {
        push_str(&mut out, "Website: ");
        push_str(&mut out, trim_str(meta.website.as_str()).as_str());
        push_str(&mut out, "\n");
    }
    let ghost with_site = out@;
    let mut names: Vec<String> = Vec::new();
    let mut i: usize = 0;
    while i < meta.directors.len()
        invariant
            i <= meta.directors.len(),
            str_views(names@) == director_names(meta.directors@.take(i as int)),
        decreases meta.directors.len() - i,
    {
        assert(meta.directors@.take(i + 1).drop_last() =~= meta.directors@.take(i as int));
        assert(meta.directors@.take(i + 1).last() == meta.directors@[i as int]);
        if !is_blank(meta.directors[i].name.as_str()) {
            let t = trim_str(meta.directors[i].name.as_str());
            let ghost before = names@;
            names.push(t);
            assert(str_views(names@) =~= str_views(before).push(t@));
        }
        i = i + 1;
    }
    assert(meta.directors@.take(meta.directors.len() as int) =~= meta.directors@);
    if names.len() > 0 {
        push_str(&mut out, "Directors: ");
        push_str(&mut out, join_strings(&names, ", ").as_str());
        push_str(&mut out, "\n");
    }
    let ghost with_names = out@;
    push_str(&mut out, s.as_str());
    proof {
        let w = if trim(meta.website@).len() > 0 {
            "Website: "@ + trim(meta.website@) + "\n"@
        } else {
            seq![]
        };
        let d = if str_views(names@).len() > 0 {
            "Directors: "@ + join(str_views(names@), ", "@) + "\n"@
        } else {
            seq![]
        };
        assert(with_site =~= head + w);
        assert(with_names =~= head + w + d);
    }
    out
}

// ---------------------------------------------------------------------------
// What holds of a fresh read
// ---------------------------------------------------------------------------

proof fn lemma_merged_extends(items: Seq<SuggestionV>, lines: Seq<SiteLineV>, ids: Seq<Seq<char>>, k: int)
    requires
        0 <= k < items.len(),
    ensures
        k < merged(items, lines, ids).len(),
        merged(items, lines, ids)[k] == items[k],
    decreases lines.len(),
{
    if lines.len() > 0 {
        lemma_merged_extends(items, lines.drop_last(), ids, k);
    }
}

proof fn lemma_keep_decided_keeps(items: Seq<SuggestionV>, k: int)
    requires
        0 <= k < items.len(),
        decided(items[k]),
    ensures
        keep_decided(items).contains(items[k]),
    decreases items.len(),
{
    if k == items.len() - 1 {
        assert(keep_decided(items).last() == items[k]);
    } else {
        lemma_keep_decided_keeps(items.drop_last(), k);
        let r = keep_decided(items.drop_last());
        let j = choose|j: int| 0 <= j < r.len() && r[j] == items[k];
        if decided(items.last()) {
            assert(keep_decided(items)[j] == items[k]);
        }
    }
}

/// A new read keeps what you decided: every item you agreed, declined or
/// typed is still there, exactly as it was, after a fresh read is folded in.
pub proof fn law_a_new_read_keeps_what_you_decided(
    items: Seq<SuggestionV>,
    lines: Seq<SiteLineV>,
    ids: Seq<Seq<char>>,
    k: int,
)
    requires
        0 <= k < items.len(),
        decided(items[k]),
    ensures
        merged(keep_decided(items), lines, ids).contains(items[k]),
{
    lemma_keep_decided_keeps(items, k);
    let kept = keep_decided(items);
    let j = choose|j: int| 0 <= j < kept.len() && kept[j] == items[k];
    lemma_merged_extends(kept, lines, ids, j);
    assert(merged(kept, lines, ids)[j] == items[k]);
}

proof fn lemma_keep_decided_all(items: Seq<SuggestionV>)
    ensures
        forall|j: int| 0 <= j < keep_decided(items).len() ==> decided(#[trigger] keep_decided(items)[j]),
    decreases items.len(),
{
    if items.len() > 0 {
        lemma_keep_decided_all(items.drop_last());
        let r = keep_decided(items.drop_last());
        assert forall|j: int| 0 <= j < keep_decided(items).len() implies decided(
            #[trigger] keep_decided(items)[j],
        ) by {
            if j < r.len() {
                assert(keep_decided(items)[j] == r[j]);
            }
        }
    }
}

/// A new read replaces what you did not decide: an open suggestion from an
/// earlier read is not among what a fresh read keeps.
pub proof fn law_a_new_read_replaces_what_you_did_not(items: Seq<SuggestionV>, j: int)
    requires
        0 <= j < keep_decided(items).len(),
    ensures
        decided(keep_decided(items)[j]),
{
    lemma_keep_decided_all(items);
}

} // verus!
