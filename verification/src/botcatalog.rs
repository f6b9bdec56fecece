//! Starter bots: expertise you can drop onto a space.
//!
//! A template is a curated bundle: the steps that become work items, the
//! standards written into the bot's body, the skills it starts with, and the
//! tools it may propose. Everything a bot can ask for is listed here, where it
//! can be read, and a bot never looks outside this list.
use vstd::prelude::*;
use crate::text::{copy_str, str_views, trim, is_ws, trim_start, trim_end};

verus! {

/// One thing a bot could use, and what it costs you to say yes.
///
/// The rungs are ordered on purpose: a skill is words, an agent is words plus
/// permissions, software is a real install, self-hosted is something that
/// keeps running. Every rung above the first says out loud what it wants.
#[derive(Debug)]
pub struct ToolOffer {
    pub id: String,
    pub name: String,
    /// skill | agent | software | self-hosted
    pub kind: String,
    pub what: String,
    /// What saying yes costs. Empty for a skill, which costs nothing.
    pub wants: String,
    /// Why this bot is asking, in its own words.
    pub because: String,
}

#[derive(Debug)]
pub struct Template {
    pub id: String,
    pub name: String,
    pub what: String,
    /// The goal, phrased as a prompt rather than filled in.
    pub goal_hint: String,
    pub every: String,
    pub at_min: i64,
    /// Becomes one work item each, in order.
    pub steps: Vec<String>,
    /// Standards it holds the work to, written into the bot's body.
    pub standards: Vec<String>,
    pub skills: Vec<String>,
    pub tools: Vec<ToolOffer>,
}

pub ghost struct ToolOfferV {
    pub id: Seq<char>,
    pub name: Seq<char>,
    pub kind: Seq<char>,
    pub what: Seq<char>,
    pub wants: Seq<char>,
    pub because: Seq<char>,
}

pub ghost struct TemplateV {
    pub id: Seq<char>,
    pub name: Seq<char>,
    pub what: Seq<char>,
    pub goal_hint: Seq<char>,
    pub every: Seq<char>,
    pub at_min: int,
    pub steps: Seq<Seq<char>>,
    pub standards: Seq<Seq<char>>,
    pub skills: Seq<Seq<char>>,
    pub tools: Seq<ToolOfferV>,
}

impl View for ToolOffer {
    type V = ToolOfferV;

    open spec fn view(&self) -> ToolOfferV {
        ToolOfferV {
            id: self.id@,
            name: self.name@,
            kind: self.kind@,
            what: self.what@,
            wants: self.wants@,
            because: self.because@,
        }
    }
}

pub open spec fn offers_view(v: Seq<ToolOffer>) -> Seq<ToolOfferV> {
    v.map_values(|o: ToolOffer| o@)
}

impl View for Template {
    type V = TemplateV;

    open spec fn view(&self) -> TemplateV {
        TemplateV {
            id: self.id@,
            name: self.name@,
            what: self.what@,
            goal_hint: self.goal_hint@,
            every: self.every@,
            at_min: self.at_min as int,
            steps: str_views(self.steps@),
            standards: str_views(self.standards@),
            skills: str_views(self.skills@),
            tools: offers_view(self.tools@),
        }
    }
}

pub open spec fn templates_view(v: Seq<Template>) -> Seq<TemplateV> {
    v.map_values(|t: Template| t@)
}

pub open spec fn tool_v(
    id: Seq<char>,
    name: Seq<char>,
    kind: Seq<char>,
    what: Seq<char>,
    wants: Seq<char>,
    because: Seq<char>,
) -> ToolOfferV {
    ToolOfferV { id, name, kind, what, wants, because }
}

/// An owned copy of a string.
pub fn s(v: &str) -> (r: String)
    ensures
        r@ == v@,
{
    copy_str(v)
}

/// Owned copies of the strings, in order.
pub fn list(v: &[&str]) -> (r: Vec<String>)
    ensures
        str_views(r@) == v@.map_values(|x: &str| x@),
{
    let mut r: Vec<String> = Vec::new();
    let mut i: usize = 0;
    while i < v.len()
        invariant
            i <= v.len(),
            str_views(r@) == v@.subrange(0, i as int).map_values(|x: &str| x@),
        decreases v.len() - i,
    {
        let ghost before = r@;
        let x = copy_str(v[i]);
        r.push(x);
        i = i + 1;
        assert(str_views(r@) =~= str_views(before).push(x@));
        assert(v@.subrange(0, i as int).map_values(|x: &str| x@) =~= v@.subrange(0, i - 1).map_values(
            |x: &str| x@,
        ).push(v@[i - 1]@));
    }
    assert(v@.subrange(0, v.len() as int) =~= v@);
    r
}

pub fn tool(id: &str, name: &str, kind: &str, what: &str, wants: &str, because: &str) -> (r: ToolOffer)
    ensures
        r@ == tool_v(id@, name@, kind@, what@, wants@, because@),
{
    ToolOffer { id: s(id), name: s(name), kind: s(kind), what: s(what), wants: s(wants), because: s(because) }
}

pub(crate) fn copy_offer(o: &ToolOffer) -> (r: ToolOffer)
    ensures
        r@ == o@,
{
    tool(o.id.as_str(), o.name.as_str(), o.kind.as_str(), o.what.as_str(), o.wants.as_str(), o.because.as_str())
}

pub open spec fn website_template_v() -> TemplateV {
    TemplateV {
        id: "website"@,
        name: "Website bot"@,
        what: "Runs a site from brief to launch. It does not build the site — it holds the steps, the standards and the checks, and hands the work to agents."@,
        goal_hint: "Ship the site by …"@,
        every: "weekdays"@,
        at_min: 480,
        steps: seq!["Agree what the site is for and who it is for"@, "Settle the pages and what each one has to do"@, "Design pass — type, colour, spacing, states"@, "Build the pages"@, "Titles, descriptions and headings that match what each page is about"@, "Structured data and a sitemap that is actually submitted"@, "Every image has alt text, every control reaches keyboard"@, "Measure the load on a real connection, not a fast one"@, "Check links, forms and redirects before it goes live"@, "Launch, then check it again from outside"@],
        standards: seq!["One page, one job. If a page has two, it is two pages."@, "Every page has a title and description written for a person, not a crawler."@, "Nothing ships that a keyboard cannot reach."@, "Largest contentful paint under 2.5s on a mid-range phone."@, "No redirect chains. One hop or none."@],
        skills: seq!["seo"@, "accessibility"@, "web-performance"@],
        tools: seq![tool_v("skill-seo"@, "SEO review"@, "skill"@, "A procedure it follows when reading a page: titles, headings, descriptions, structured data, internal links."@, ""@, "You asked it to catch SEO problems before launch, and it needs to know what it is looking for."@), tool_v("skill-a11y"@, "Accessibility review"@, "skill"@, "The checks it runs against markup: alt text, labels, focus order, contrast."@, ""@, "Nothing ships that a keyboard cannot reach — that standard needs a procedure behind it."@), tool_v("agent-page-checker"@, "Page checker"@, "agent"@, "Becomes a sub-agent of this bot, with its own state in the list. Reads pages and reports what breaks the standards."@, "read your repo · open a browser"@, "It can hold a checklist but it cannot look at a page."@), tool_v("sw-lighthouse"@, "Lighthouse"@, "software"@, "Real measurements from a real browser, through the package manager you already use."@, "an install on this machine"@, "\"Under 2.5s\" is not a thing you can judge by reading the source."@), tool_v("host-analytics"@, "Self-hosted analytics"@, "self-hosted"@, "Runs as a service in this space, so what visitors do stays on your machine."@, "a port · disk · keeps running"@, "You will want to know whether the launch worked, and the usual answer to that sends your visitors somewhere else."@)],
    }
}

pub open spec fn release_template_v() -> TemplateV {
    TemplateV {
        id: "release"@,
        name: "Release bot"@,
        what: "Holds the shape of a release so the same thing is not remembered differently each time."@,
        goal_hint: "Ship … without a hotfix"@,
        every: "weekdays"@,
        at_min: 420,
        steps: seq!["Version bumped everywhere it is written down"@, "Changelog says what changed, for a person"@, "Build is clean from a cold checkout"@, "Artifacts signed"@, "Install it somewhere that is not your machine"@, "Publish"@, "Check the update feed actually serves the new version"@],
        standards: seq!["A version that appears in more than one file is checked in all of them."@, "Nothing ships that has not been installed from the artifact, not the build tree."@, "A failed check is never reported as a pass."@],
        skills: seq!["release-notes"@],
        tools: seq![tool_v("skill-release-notes"@, "Release notes"@, "skill"@, "How to turn a diff into notes someone would read."@, ""@, "\"Changelog says what changed, for a person\" is a standard nobody meets by pasting commit subjects."@), tool_v("agent-release-checker"@, "Release checker"@, "agent"@, "Reads the files that carry a version and says which disagree."@, "read your repo"@, "Version drift is the one thing on this list a machine is better at than you."@)],
    }
}

pub open spec fn topic_template_v() -> TemplateV {
    TemplateV {
        id: "topic"@,
        name: "Topic bot"@,
        what: "For a space that is a subject rather than a codebase — a decision to make, a thing to learn, something to keep an eye on."@,
        goal_hint: "Decide … by …"@,
        every: "weekly"@,
        at_min: 1080,
        steps: seq!["Write the question in one sentence"@, "List what would change your mind"@, "Gather what is already known"@, "Find the gaps and fill them"@, "Write the answer and what it rests on"@],
        standards: seq!["The question stays in one sentence. If it needs two, it is two questions."@, "Every claim carries where it came from."@, "A decision records what would reverse it."@],
        skills: seq![],
        tools: seq![tool_v("skill-sources"@, "Source discipline"@, "skill"@, "How it records where a claim came from, and what makes a source worth keeping."@, ""@, "\"Every claim carries where it came from\" needs a habit, not an intention."@)],
    }
}

pub open spec fn blank_template_v() -> TemplateV {
    TemplateV {
        id: "blank"@,
        name: "Start empty"@,
        what: "A goal and a heartbeat. You add the rest."@,
        goal_hint: ""@,
        every: "weekdays"@,
        at_min: 420,
        steps: seq![],
        standards: seq![],
        skills: seq![],
        tools: seq![],
    }
}

/// The starters, in the order the catalog shows them.
pub open spec fn catalog_v() -> Seq<TemplateV> {
    seq![website_template_v(), release_template_v(), topic_template_v(), blank_template_v()]
}

fn website_template() -> (r: Template)
    ensures
        r@ == website_template_v(),
{
    let steps = list(&["Agree what the site is for and who it is for", "Settle the pages and what each one has to do", "Design pass — type, colour, spacing, states", "Build the pages", "Titles, descriptions and headings that match what each page is about", "Structured data and a sitemap that is actually submitted", "Every image has alt text, every control reaches keyboard", "Measure the load on a real connection, not a fast one", "Check links, forms and redirects before it goes live", "Launch, then check it again from outside"]);
    assert(str_views(steps@) =~= seq!["Agree what the site is for and who it is for"@, "Settle the pages and what each one has to do"@, "Design pass — type, colour, spacing, states"@, "Build the pages"@, "Titles, descriptions and headings that match what each page is about"@, "Structured data and a sitemap that is actually submitted"@, "Every image has alt text, every control reaches keyboard"@, "Measure the load on a real connection, not a fast one"@, "Check links, forms and redirects before it goes live"@, "Launch, then check it again from outside"@]);
    let standards = list(&["One page, one job. If a page has two, it is two pages.", "Every page has a title and description written for a person, not a crawler.", "Nothing ships that a keyboard cannot reach.", "Largest contentful paint under 2.5s on a mid-range phone.", "No redirect chains. One hop or none."]);
    assert(str_views(standards@) =~= seq!["One page, one job. If a page has two, it is two pages."@, "Every page has a title and description written for a person, not a crawler."@, "Nothing ships that a keyboard cannot reach."@, "Largest contentful paint under 2.5s on a mid-range phone."@, "No redirect chains. One hop or none."@]);
    let skills = list(&["seo", "accessibility", "web-performance"]);
    assert(str_views(skills@) =~= seq!["seo"@, "accessibility"@, "web-performance"@]);
    let mut tools: Vec<ToolOffer> = Vec::new();
    tools.push(tool("skill-seo", "SEO review", "skill", "A procedure it follows when reading a page: titles, headings, descriptions, structured data, internal links.", "", "You asked it to catch SEO problems before launch, and it needs to know what it is looking for."));
    tools.push(tool("skill-a11y", "Accessibility review", "skill", "The checks it runs against markup: alt text, labels, focus order, contrast.", "", "Nothing ships that a keyboard cannot reach — that standard needs a procedure behind it."));
    tools.push(tool("agent-page-checker", "Page checker", "agent", "Becomes a sub-agent of this bot, with its own state in the list. Reads pages and reports what breaks the standards.", "read your repo · open a browser", "It can hold a checklist but it cannot look at a page."));
    tools.push(tool("sw-lighthouse", "Lighthouse", "software", "Real measurements from a real browser, through the package manager you already use.", "an install on this machine", "\"Under 2.5s\" is not a thing you can judge by reading the source."));
    tools.push(tool("host-analytics", "Self-hosted analytics", "self-hosted", "Runs as a service in this space, so what visitors do stays on your machine.", "a port · disk · keeps running", "You will want to know whether the launch worked, and the usual answer to that sends your visitors somewhere else."));
    assert(offers_view(tools@) =~= website_template_v().tools);
    let r = Template {
        id: s("website"),
        name: s("Website bot"),
        what: s("Runs a site from brief to launch. It does not build the site — it holds the steps, the standards and the checks, and hands the work to agents."),
        goal_hint: s("Ship the site by …"),
        every: s("weekdays"),
        at_min: 480,
        steps,
        standards,
        skills,
        tools,
    };
    assert(r@ =~= website_template_v());
    r
}

fn release_template() -> (r: Template)
    ensures
        r@ == release_template_v(),
{
    let steps = list(&["Version bumped everywhere it is written down", "Changelog says what changed, for a person", "Build is clean from a cold checkout", "Artifacts signed", "Install it somewhere that is not your machine", "Publish", "Check the update feed actually serves the new version"]);
    assert(str_views(steps@) =~= seq!["Version bumped everywhere it is written down"@, "Changelog says what changed, for a person"@, "Build is clean from a cold checkout"@, "Artifacts signed"@, "Install it somewhere that is not your machine"@, "Publish"@, "Check the update feed actually serves the new version"@]);
    let standards = list(&["A version that appears in more than one file is checked in all of them.", "Nothing ships that has not been installed from the artifact, not the build tree.", "A failed check is never reported as a pass."]);
    assert(str_views(standards@) =~= seq!["A version that appears in more than one file is checked in all of them."@, "Nothing ships that has not been installed from the artifact, not the build tree."@, "A failed check is never reported as a pass."@]);
    let skills = list(&["release-notes"]);
    assert(str_views(skills@) =~= seq!["release-notes"@]);
    let mut tools: Vec<ToolOffer> = Vec::new();
    tools.push(tool("skill-release-notes", "Release notes", "skill", "How to turn a diff into notes someone would read.", "", "\"Changelog says what changed, for a person\" is a standard nobody meets by pasting commit subjects."));
    tools.push(tool("agent-release-checker", "Release checker", "agent", "Reads the files that carry a version and says which disagree.", "read your repo", "Version drift is the one thing on this list a machine is better at than you."));
    assert(offers_view(tools@) =~= release_template_v().tools);
    let r = Template {
        id: s("release"),
        name: s("Release bot"),
        what: s("Holds the shape of a release so the same thing is not remembered differently each time."),
        goal_hint: s("Ship … without a hotfix"),
        every: s("weekdays"),
        at_min: 420,
        steps,
        standards,
        skills,
        tools,
    };
    assert(r@ =~= release_template_v());
    r
}

fn topic_template() -> (r: Template)
    ensures
        r@ == topic_template_v(),
{
    let steps = list(&["Write the question in one sentence", "List what would change your mind", "Gather what is already known", "Find the gaps and fill them", "Write the answer and what it rests on"]);
    assert(str_views(steps@) =~= seq!["Write the question in one sentence"@, "List what would change your mind"@, "Gather what is already known"@, "Find the gaps and fill them"@, "Write the answer and what it rests on"@]);
    let standards = list(&["The question stays in one sentence. If it needs two, it is two questions.", "Every claim carries where it came from.", "A decision records what would reverse it."]);
    assert(str_views(standards@) =~= seq!["The question stays in one sentence. If it needs two, it is two questions."@, "Every claim carries where it came from."@, "A decision records what would reverse it."@]);
    let skills: Vec<String> = Vec::new();
    assert(str_views(skills@) =~= seq![]);
    let mut tools: Vec<ToolOffer> = Vec::new();
    tools.push(tool("skill-sources", "Source discipline", "skill", "How it records where a claim came from, and what makes a source worth keeping.", "", "\"Every claim carries where it came from\" needs a habit, not an intention."));
    assert(offers_view(tools@) =~= topic_template_v().tools);
    let r = Template {
        id: s("topic"),
        name: s("Topic bot"),
        what: s("For a space that is a subject rather than a codebase — a decision to make, a thing to learn, something to keep an eye on."),
        goal_hint: s("Decide … by …"),
        every: s("weekly"),
        at_min: 1080,
        steps,
        standards,
        skills,
        tools,
    };
    assert(r@ =~= topic_template_v());
    r
}

fn blank_template() -> (r: Template)
    ensures
        r@ == blank_template_v(),
{
    let steps: Vec<String> = Vec::new();
    assert(str_views(steps@) =~= seq![]);
    let standards: Vec<String> = Vec::new();
    assert(str_views(standards@) =~= seq![]);
    let skills: Vec<String> = Vec::new();
    assert(str_views(skills@) =~= seq![]);
    let tools: Vec<ToolOffer> = Vec::new();
    assert(offers_view(tools@) =~= blank_template_v().tools);
    let r = Template {
        id: s("blank"),
        name: s("Start empty"),
        what: s("A goal and a heartbeat. You add the rest."),
        goal_hint: s(""),
        every: s("weekdays"),
        at_min: 420,
        steps,
        standards,
        skills,
        tools,
    };
    assert(r@ =~= blank_template_v());
    r
}

/// Every starter bot, in the order the catalog shows them.
pub fn all() -> (r: Vec<Template>)
    ensures
        templates_view(r@) == catalog_v(),
{
    let mut r: Vec<Template> = Vec::new();
    r.push(website_template());
    r.push(release_template());
    r.push(topic_template());
    r.push(blank_template());
    assert(templates_view(r@) =~= catalog_v());
    r
}

/// The first template in `ts` with this id.
pub open spec fn template_with_id(ts: Seq<TemplateV>, id: Seq<char>) -> Option<TemplateV>
    decreases ts.len(),
{
    if ts.len() == 0 {
        None
    } else if ts[0].id == id {
        Some(ts[0])
    } else {
        template_with_id(ts.drop_first(), id)
    }
}

/// Every tool the templates offer, template by template, in order.
pub open spec fn offers_of(ts: Seq<TemplateV>) -> Seq<ToolOfferV>
    decreases ts.len(),
{
    if ts.len() == 0 {
        seq![]
    } else {
        offers_of(ts.drop_last()) + ts.last().tools
    }
}

/// The first offer in `os` with this id.
pub open spec fn offer_with_id(os: Seq<ToolOfferV>, id: Seq<char>) -> Option<ToolOfferV>
    decreases os.len(),
{
    if os.len() == 0 {
        None
    } else if os[0].id == id {
        Some(os[0])
    } else {
        offer_with_id(os.drop_first(), id)
    }
}

/// The starter with this id, if the catalog has one.
pub fn get(id: &str) -> (r: Option<Template>)
    ensures
        match r {
            Some(t) => template_with_id(catalog_v(), id@) == Some(t@),
            None => template_with_id(catalog_v(), id@) is None,
        },
{
    let mut ts = all();
    let mut i: usize = 0;
    assert(templates_view(ts@).subrange(0, ts.len() as int) =~= templates_view(ts@));
    while i < ts.len()
        invariant
            i <= ts.len(),
            templates_view(ts@) == catalog_v(),
            template_with_id(catalog_v(), id@) == template_with_id(
                templates_view(ts@).subrange(i as int, ts.len() as int),
                id@,
            ),
        decreases ts.len() - i,
    {
        let ghost rest = templates_view(ts@).subrange(i as int, ts.len() as int);
        assert(rest[0] == ts@[i as int]@);
        if crate::text::str_eq(ts[i].id.as_str(), id) {
            let t = ts.remove(i);
            return Some(t);
        }
        assert(rest.drop_first() =~= templates_view(ts@).subrange(i + 1, ts.len() as int));
        i = i + 1;
    }
    None
}

proof fn lemma_offers_of_step(ts: Seq<TemplateV>, i: int)
    requires
        0 <= i < ts.len(),
    ensures
        offers_of(ts.subrange(0, i + 1)) == offers_of(ts.subrange(0, i)) + ts[i].tools,
{
    assert(ts.subrange(0, i + 1).drop_last() =~= ts.subrange(0, i));
}

/// Every tool any template offers, template by template.
pub fn all_offers() -> (r: Vec<ToolOffer>)
    ensures
        offers_view(r@) == offers_of(catalog_v()),
{
    let ts = all();
    let mut offers: Vec<ToolOffer> = Vec::new();
    let mut i: usize = 0;
    while i < ts.len()
        invariant
            i <= ts.len(),
            templates_view(ts@) == catalog_v(),
            offers_view(offers@) == offers_of(templates_view(ts@).subrange(0, i as int)),
        decreases ts.len() - i,
    {
        let ghost start = offers_view(offers@);
        let mut j: usize = 0;
        while j < ts[i].tools.len()
            invariant
                i < ts.len(),
                j <= ts[i as int].tools.len(),
                offers_view(offers@) == start + offers_view(ts[i as int].tools@).subrange(0, j as int),
            decreases ts[i as int].tools.len() - j,
        {
            let ghost before = offers_view(offers@);
            let o = copy_offer(&ts[i].tools[j]);
            offers.push(o);
            j = j + 1;
            assert(offers_view(offers@) =~= before.push(o@));
            assert(offers_view(ts[i as int].tools@).subrange(0, j as int) =~= offers_view(
                ts[i as int].tools@,
            ).subrange(0, j - 1).push(o@));
        }
        proof {
            assert(offers_view(ts[i as int].tools@).subrange(0, j as int) =~= offers_view(
                ts[i as int].tools@,
            ));
            assert(templates_view(ts@)[i as int] == ts@[i as int]@);
            lemma_offers_of_step(templates_view(ts@), i as int);
        }
        i = i + 1;
    }
    assert(templates_view(ts@).subrange(0, ts.len() as int) =~= templates_view(ts@));
    offers
}

/// The tool with this id, from any template, so a bot built by hand can
/// still be told what exists.
pub fn tool_by_id(id: &str) -> (r: Option<ToolOffer>)
    ensures
        match r {
            Some(o) => offer_with_id(offers_of(catalog_v()), id@) == Some(o@),
            None => offer_with_id(offers_of(catalog_v()), id@) is None,
        },
{
    let mut offers = all_offers();
    let mut k: usize = 0;
    assert(offers_view(offers@).subrange(0, offers.len() as int) =~= offers_view(offers@));
    while k < offers.len()
        invariant
            k <= offers.len(),
            offers_view(offers@) == offers_of(catalog_v()),
            offer_with_id(offers_of(catalog_v()), id@) == offer_with_id(
                offers_view(offers@).subrange(k as int, offers.len() as int),
                id@,
            ),
        decreases offers.len() - k,
    {
        let ghost rest = offers_view(offers@).subrange(k as int, offers.len() as int);
        assert(rest[0] == offers@[k as int]@);
        if crate::text::str_eq(offers[k].id.as_str(), id) {
            let o = offers.remove(k);
            return Some(o);
        }
        assert(rest.drop_first() =~= offers_view(offers@).subrange(k + 1, offers.len() as int));
        k = k + 1;
    }
    None
}

pub open spec fn ids_unique(ts: Seq<TemplateV>) -> bool {
    forall|i: int, j: int| 0 <= i < j < ts.len() ==> ts[i].id != ts[j].id
}

proof fn lemma_unique_ids_found(ts: Seq<TemplateV>, i: int)
    requires
        ids_unique(ts),
        0 <= i < ts.len(),
    ensures
        template_with_id(ts, ts[i].id) == Some(ts[i]),
    decreases ts.len(),
{
    if i > 0 {
        assert(ts[0].id != ts[i].id);
        let rest = ts.drop_first();
        assert(rest[i - 1] == ts[i]);
        assert(ids_unique(rest)) by {
            assert forall|a: int, b: int| 0 <= a < b < rest.len() implies rest[a].id != rest[b].id by {
                assert(rest[a] == ts[a + 1] && rest[b] == ts[b + 1]);
            }
        }
        lemma_unique_ids_found(rest, i - 1);
    }
}

proof fn lemma_catalog_ids_unique()
    ensures
        ids_unique(catalog_v()),
{
    {
        reveal_strlit("website");
        reveal_strlit("release");
        reveal_strlit("topic");
        reveal_strlit("blank");
        assert("website"@[0] != "release"@[0]);
        assert("website"@.len() != "topic"@.len());
        assert("website"@.len() != "blank"@.len());
        assert("release"@.len() != "topic"@.len());
        assert("release"@.len() != "blank"@.len());
        assert("topic"@[0] != "blank"@[0]);
    }
}

/// Every template in the catalog is the one `get` finds under its own id.
pub proof fn law_every_template_reachable_by_id(i: int)
    requires
        0 <= i < catalog_v().len(),
    ensures
        template_with_id(catalog_v(), catalog_v()[i].id) == Some(catalog_v()[i]),
{
    lemma_catalog_ids_unique();
    lemma_unique_ids_found(catalog_v(), i);
}

proof fn lemma_catalog_offers()
    ensures
        offers_of(catalog_v()) == website_template_v().tools + release_template_v().tools
            + topic_template_v().tools + blank_template_v().tools,
{
    let c = catalog_v();
    let c3 = c.drop_last();
    let c2 = c3.drop_last();
    let c1 = c2.drop_last();
    assert(c1.drop_last() =~= Seq::<TemplateV>::empty());
    assert(offers_of(c1.drop_last()) =~= Seq::<ToolOfferV>::empty());
    assert(c1.last() == website_template_v());
    assert(offers_of(c1) =~= website_template_v().tools);
    assert(c2.last() == release_template_v());
    assert(offers_of(c2) == offers_of(c1) + release_template_v().tools);
    assert(c3.last() == topic_template_v());
    assert(offers_of(c3) == offers_of(c2) + topic_template_v().tools);
    assert(c.last() == blank_template_v());
    assert(offers_of(c) == offers_of(c3) + blank_template_v().tools);
}

/// Tool ids are how a decision is recorded, so no two tools anywhere in the
/// catalog share one.
pub proof fn law_tool_ids_unique_across_the_catalog(i: int, j: int)
    requires
        0 <= i < j < offers_of(catalog_v()).len(),
    ensures
        offers_of(catalog_v())[i].id != offers_of(catalog_v())[j].id,
{
    lemma_catalog_offers();
    let os = offers_of(catalog_v());
    let ids = seq!["skill-seo"@, "skill-a11y"@, "agent-page-checker"@, "sw-lighthouse"@, "host-analytics"@, "skill-release-notes"@, "agent-release-checker"@, "skill-sources"@];
    assert(os.map_values(|o: ToolOfferV| o.id) =~= ids);
    assert(os[i].id == ids[i] && os[j].id == ids[j]);
    {
        reveal_strlit("skill-seo");
        reveal_strlit("skill-a11y");
        reveal_strlit("agent-page-checker");
        reveal_strlit("sw-lighthouse");
        reveal_strlit("host-analytics");
        reveal_strlit("skill-release-notes");
        reveal_strlit("agent-release-checker");
        reveal_strlit("skill-sources");
        assert("skill-seo"@.len() != "skill-a11y"@.len());
        assert("skill-seo"@.len() != "agent-page-checker"@.len());
        assert("skill-seo"@.len() != "sw-lighthouse"@.len());
        assert("skill-seo"@.len() != "host-analytics"@.len());
        assert("skill-seo"@.len() != "skill-release-notes"@.len());
        assert("skill-seo"@.len() != "agent-release-checker"@.len());
        assert("skill-seo"@.len() != "skill-sources"@.len());
        assert("skill-a11y"@.len() != "agent-page-checker"@.len());
        assert("skill-a11y"@.len() != "sw-lighthouse"@.len());
        assert("skill-a11y"@.len() != "host-analytics"@.len());
        assert("skill-a11y"@.len() != "skill-release-notes"@.len());
        assert("skill-a11y"@.len() != "agent-release-checker"@.len());
        assert("skill-a11y"@.len() != "skill-sources"@.len());
        assert("agent-page-checker"@.len() != "sw-lighthouse"@.len());
        assert("agent-page-checker"@.len() != "host-analytics"@.len());
        assert("agent-page-checker"@.len() != "skill-release-notes"@.len());
        assert("agent-page-checker"@.len() != "agent-release-checker"@.len());
        assert("agent-page-checker"@.len() != "skill-sources"@.len());
        assert("sw-lighthouse"@.len() != "host-analytics"@.len());
        assert("sw-lighthouse"@.len() != "skill-release-notes"@.len());
        assert("sw-lighthouse"@.len() != "agent-release-checker"@.len());
        assert("sw-lighthouse"@[1] != "skill-sources"@[1]);
        assert("host-analytics"@.len() != "skill-release-notes"@.len());
        assert("host-analytics"@.len() != "agent-release-checker"@.len());
        assert("host-analytics"@.len() != "skill-sources"@.len());
        assert("skill-release-notes"@.len() != "agent-release-checker"@.len());
        assert("skill-release-notes"@.len() != "skill-sources"@.len());
        assert("agent-release-checker"@.len() != "skill-sources"@.len());
    }
}

proof fn lemma_trim_keeps(v: Seq<char>)
    requires
        v.len() > 0,
        !is_ws(v[0]),
        !is_ws(v.last()),
    ensures
        trim(v) == v,
{
    assert(trim_start(v) == v);
    assert(trim_end(v) == v);
}

/// Every tool sits on a known rung, and anything above the first rung says
/// what it wants.
pub proof fn law_every_tool_sits_on_a_known_rung(i: int)
    requires
        0 <= i < offers_of(catalog_v()).len(),
    ensures
        ({
            let o = offers_of(catalog_v())[i];
            &&& (o.kind == "skill"@ || o.kind == "agent"@ || o.kind == "software"@ || o.kind
                == "self-hosted"@)
            &&& (o.kind != "skill"@ ==> trim(o.wants).len() > 0)
        }),
{
    lemma_catalog_offers();
    let os = offers_of(catalog_v());
    {
        reveal_strlit("agent");
        reveal_strlit("software");
        reveal_strlit("self-hosted");
        reveal_strlit("skill");
        reveal_strlit("skill");
        assert(os[0] == tool_v("skill-seo"@, "SEO review"@, "skill"@, "A procedure it follows when reading a page: titles, headings, descriptions, structured data, internal links."@, ""@, "You asked it to catch SEO problems before launch, and it needs to know what it is looking for."@));
        assert(os[1] == tool_v("skill-a11y"@, "Accessibility review"@, "skill"@, "The checks it runs against markup: alt text, labels, focus order, contrast."@, ""@, "Nothing ships that a keyboard cannot reach — that standard needs a procedure behind it."@));
        assert(os[2] == tool_v("agent-page-checker"@, "Page checker"@, "agent"@, "Becomes a sub-agent of this bot, with its own state in the list. Reads pages and reports what breaks the standards."@, "read your repo · open a browser"@, "It can hold a checklist but it cannot look at a page."@));
        reveal_strlit("read your repo · open a browser");
        assert("agent"@[0] != "skill"@[0]);
        lemma_trim_keeps("read your repo · open a browser"@);
        assert(os[3] == tool_v("sw-lighthouse"@, "Lighthouse"@, "software"@, "Real measurements from a real browser, through the package manager you already use."@, "an install on this machine"@, "\"Under 2.5s\" is not a thing you can judge by reading the source."@));
        reveal_strlit("an install on this machine");
        assert("software"@[1] != "skill"@[1]);
        lemma_trim_keeps("an install on this machine"@);
        assert(os[4] == tool_v("host-analytics"@, "Self-hosted analytics"@, "self-hosted"@, "Runs as a service in this space, so what visitors do stays on your machine."@, "a port · disk · keeps running"@, "You will want to know whether the launch worked, and the usual answer to that sends your visitors somewhere else."@));
        reveal_strlit("a port · disk · keeps running");
        assert("self-hosted"@[1] != "skill"@[1]);
        lemma_trim_keeps("a port · disk · keeps running"@);
        assert(os[5] == tool_v("skill-release-notes"@, "Release notes"@, "skill"@, "How to turn a diff into notes someone would read."@, ""@, "\"Changelog says what changed, for a person\" is a standard nobody meets by pasting commit subjects."@));
        assert(os[6] == tool_v("agent-release-checker"@, "Release checker"@, "agent"@, "Reads the files that carry a version and says which disagree."@, "read your repo"@, "Version drift is the one thing on this list a machine is better at than you."@));
        reveal_strlit("read your repo");
        assert("agent"@[0] != "skill"@[0]);
        lemma_trim_keeps("read your repo"@);
        assert(os[7] == tool_v("skill-sources"@, "Source discipline"@, "skill"@, "How it records where a claim came from, and what makes a source worth keeping."@, ""@, "\"Every claim carries where it came from\" needs a habit, not an intention."@));
    }
}

/// The blank starter proposes nothing: no steps, no tools, no skills.
pub proof fn law_the_blank_one_proposes_nothing()
    ensures
        template_with_id(catalog_v(), "blank"@) is Some,
        ({
            let b = template_with_id(catalog_v(), "blank"@)->0;
            b.steps.len() == 0 && b.tools.len() == 0 && b.skills.len() == 0
        }),
{
    law_every_template_reachable_by_id(3);
}

} // verus!
