//! What making, saving and equipping a bot decides before anything is
//! written: a bot needs a name and a goal, its standards go in its body, and
//! a tool offered to it is taken, declined, or only noted.
use vstd::prelude::*;
use crate::text::{copy_str, push_str, str_eq, str_views, trim, trim_str, is_blank};
use crate::bots::{vet_team, tidy_names};
use crate::botcatalog::{
    ToolOffer, ToolOfferV, tool_by_id, offer_with_id, offers_of, catalog_v, all_offers, get, template_with_id,
    copy_offer, offers_view,
};
use crate::botmind::{ToolDecision, ToolDecisionV, decisions_view};

verus! {

/// The name, trimmed, when there is a name and a goal; the first missing
/// one refused.
pub open spec fn name_goal_spec(name: Seq<char>, goal: Seq<char>) -> Result<Seq<char>, Seq<char>> {
    if trim(name).len() == 0 {
        Err("Give the bot a name."@)
    } else if trim(goal).len() == 0 {
        Err("A bot needs a goal. Without one it has nothing to judge a suggestion against."@)
    } else {
        Ok(trim(name))
    }
}

/// A bot needs a name, and a goal: without one it has nothing to judge a
/// suggestion against.
pub fn check_name_and_goal(name: &str, goal: &str) -> (r: Result<String, String>)
    ensures
        match (r, name_goal_spec(name@, goal@)) {
            (Ok(n), Ok(nv)) => n@ == nv,
            (Err(e), Err(ev)) => e@ == ev,
            _ => false,
        },
{
    if is_blank(name) {
        return Err(copy_str("Give the bot a name."));
    }
    if is_blank(goal) {
        return Err(copy_str("A bot needs a goal. Without one it has nothing to judge a suggestion against."));
    }
    Ok(trim_str(name))
}

/// What saving a bot's form checks: its name and goal, then its team, whose
/// lead has to be on it. The trimmed name and the tidied team come back.
pub fn check_save(name: &str, goal: &str, agent: &str, team: Vec<String>) -> (r: Result<(String, Vec<String>), String>)
    ensures
        match name_goal_spec(name@, goal@) {
            Err(ev) => r matches Err(e) && e@ == ev,
            Ok(n) => {
                let t = tidy_names(str_views(team@));
                if trim(agent@).len() > 0 && !t.contains(trim(agent@)) {
                    r matches Err(e) && e@ == trim(agent@) + " is not on "@ + n
                        + "'s team, so it cannot be the one it wakes. Add it to the team first."@
                } else {
                    r matches Ok((m, v)) && m@ == n && str_views(v@) == t
                }
            },
        },
{
    let n = check_name_and_goal(name, goal)?;
    let t = vet_team(n.as_str(), agent, team)?;
    Ok((n, t))
}

/// The skills a saved bot keeps: those that are not blank, as given.
pub open spec fn kept_skills(s: Seq<Seq<char>>) -> Seq<Seq<char>>
    decreases s.len(),
{
    if s.len() == 0 {
        seq![]
    } else if trim(s.last()).len() == 0 {
        kept_skills(s.drop_last())
    } else {
        kept_skills(s.drop_last()).push(s.last())
    }
}

pub fn keep_skills(skills: &Vec<String>) -> (r: Vec<String>)
    ensures
        str_views(r@) == kept_skills(str_views(skills@)),
{
    let ghost s = str_views(skills@);
    let mut r: Vec<String> = Vec::new();
    let mut i: usize = 0;
    while i < skills.len()
        invariant
            i <= skills.len(),
            s == str_views(skills@),
            str_views(r@) == kept_skills(s.take(i as int)),
        decreases skills.len() - i,
    {
        assert(s.take(i + 1).drop_last() =~= s.take(i as int));
        assert(s.take(i + 1).last() == skills@[i as int]@);
        if !is_blank(skills[i].as_str()) {
            let ghost before = r@;
            r.push(copy_str(skills[i].as_str()));
            assert(str_views(r@) =~= str_views(before).push(skills@[i as int]@));
        }
        i = i + 1;
    }
    assert(s.take(skills.len() as int) =~= s);
    r
}

/// A bullet per line, in order.
pub open spec fn bullets(ls: Seq<Seq<char>>) -> Seq<char>
    decreases ls.len(),
{
    if ls.len() == 0 {
        seq![]
    } else {
        bullets(ls.drop_last()) + "- "@ + ls.last() + "\n"@
    }
}

/// The standards a starter holds the work to, as the body of a new bot:
/// they go where you can argue with them. Nothing when there are none.
pub open spec fn standards_spec(ls: Seq<Seq<char>>) -> Seq<char> {
    if ls.len() == 0 {
        seq![]
    } else {
        "## What it holds the work to\n\n"@ + bullets(ls)
    }
}

pub fn standards_body(standards: &Vec<String>) -> (r: String)
    ensures
        r@ == standards_spec(str_views(standards@)),
{
    let ghost s = str_views(standards@);
    if standards.len() == 0 {
        return String::new();
    }
    let mut r = copy_str("## What it holds the work to\n\n");
    let mut i: usize = 0;
    while i < standards.len()
        invariant
            i <= standards.len(),
            s == str_views(standards@),
            r@ == "## What it holds the work to\n\n"@ + bullets(s.take(i as int)),
        decreases standards.len() - i,
    {
        assert(s.take(i + 1).drop_last() =~= s.take(i as int));
        assert(s.take(i + 1).last() == standards@[i as int]@);
        push_str(&mut r, "- ");
        push_str(&mut r, standards[i].as_str());
        push_str(&mut r, "\n");
        i = i + 1;
    }
    assert(s.take(standards.len() as int) =~= s);
    r
}

/// What answering a tool offer comes to.
#[derive(Debug, PartialEq, Eq)]
pub enum ToolStep {
    /// Declined: recorded, nothing more.
    Declined,
    /// A skill, which is words: the bot learns it, by this name.
    Learn(String),
    /// Noted, and this is what to tell the person.
    Note(String),
}

pub ghost enum ToolStepV {
    Declined,
    Learn(Seq<char>),
    Note(Seq<char>),
}

impl View for ToolStep {
    type V = ToolStepV;

    open spec fn view(&self) -> ToolStepV {
        match self {
            ToolStep::Declined => ToolStepV::Declined,
            ToolStep::Learn(n) => ToolStepV::Learn(n@),
            ToolStep::Note(m) => ToolStepV::Note(m@),
        }
    }
}

/// What an answer to an offer of a tool of this kind and name comes to.
/// Nothing is ever installed, started or granted: a skill is learned, and
/// everything else is only noted, with where to set it up yourself.
pub open spec fn tool_step_spec(kind: Seq<char>, name: Seq<char>, response: Seq<char>) -> ToolStepV {
    if response == "declined"@ {
        ToolStepV::Declined
    } else if kind == "skill"@ {
        ToolStepV::Learn(name)
    } else if kind == "agent"@ {
        ToolStepV::Note(
            "Noted. "@ + name + " is not wired to the agent runtime yet — you would add it under Assistant."@,
        )
    } else if kind == "software"@ {
        ToolStepV::Note(
            "Noted. Install "@ + name + " yourself from Machine. DevDeck never installs anything on your behalf."@,
        )
    } else {
        ToolStepV::Note(
            "Noted. "@ + name
                + " would run as a service in this space; set it up on the project when you want it."@,
        )
    }
}

/// Answer an offer of the tool with this id: `added` or `declined`, and the
/// tool has to be one the catalog offers.
pub fn tool_decide(tool_id: &str, response: &str) -> (r: Result<(ToolOffer, ToolStep), String>)
    ensures
        !(response@ == "added"@ || response@ == "declined"@) ==> (r matches Err(e) && e@
            == "A tool is either added or declined."@),
        (response@ == "added"@ || response@ == "declined"@) ==> match offer_with_id(
            offers_of(catalog_v()),
            tool_id@,
        ) {
            None => r matches Err(e) && e@ == "No such tool."@,
            Some(o) => r matches Ok((t, s)) && t@ == o && s@ == tool_step_spec(o.kind, o.name, response@),
        },
{
    if !str_eq(response, "added") && !str_eq(response, "declined") {
        return Err(copy_str("A tool is either added or declined."));
    }
    let offer = match tool_by_id(tool_id) {
        Some(o) => o,
        None => return Err(copy_str("No such tool.")),
    };
    let step = if str_eq(response, "declined") {
        ToolStep::Declined
    } else if str_eq(offer.kind.as_str(), "skill") {
        ToolStep::Learn(copy_str(offer.name.as_str()))
    } else if str_eq(offer.kind.as_str(), "agent") {
        let mut m = copy_str("Noted. ");
        push_str(&mut m, offer.name.as_str());
        push_str(&mut m, " is not wired to the agent runtime yet — you would add it under Assistant.");
        ToolStep::Note(m)
    } else if str_eq(offer.kind.as_str(), "software") {
        let mut m = copy_str("Noted. Install ");
        push_str(&mut m, offer.name.as_str());
        push_str(&mut m, " yourself from Machine. DevDeck never installs anything on your behalf.");
        ToolStep::Note(m)
    } else {
        let mut m = copy_str("Noted. ");
        push_str(&mut m, offer.name.as_str());
        push_str(&mut m, " would run as a service in this space; set it up on the project when you want it.");
        ToolStep::Note(m)
    };
    Ok((offer, step))
}

/// A tool as a bot's page shows it: the offer, and what you said to it.
#[derive(Debug)]
pub struct ToolView {
    pub offer: ToolOffer,
    /// added | declined | empty when you have not said.
    pub decided: String,
}

pub ghost struct ToolViewV {
    pub offer: ToolOfferV,
    pub decided: Seq<char>,
}

impl View for ToolView {
    type V = ToolViewV;

    open spec fn view(&self) -> ToolViewV {
        ToolViewV { offer: self.offer@, decided: self.decided@ }
    }
}

pub open spec fn tool_views_view(v: Seq<ToolView>) -> Seq<ToolViewV> {
    v.map_values(|t: ToolView| t@)
}

/// What a bot made from this starter is offered: the starter's tools, or,
/// for a bot made by hand or from a starter with none, the whole catalog.
pub open spec fn offers_for_spec(template_id: Seq<char>) -> Seq<ToolOfferV> {
    match template_with_id(catalog_v(), template_id) {
        Some(t) => if t.tools.len() > 0 {
            t.tools
        } else {
            offers_of(catalog_v())
        },
        None => offers_of(catalog_v()),
    }
}

pub fn offers_for(template_id: &str) -> (r: Vec<ToolOffer>)
    ensures
        offers_view(r@) == offers_for_spec(template_id@),
{
    match get(template_id) {
        Some(t) => {
            if t.tools.len() > 0 {
                t.tools
            } else {
                all_offers()
            }
        },
        None => all_offers(),
    }
}

/// What was said to the tool with this id: the first answer for it, or
/// nothing.
pub open spec fn decision_for(decided: Seq<ToolDecisionV>, id: Seq<char>) -> Seq<char>
    decreases decided.len(),
{
    if decided.len() == 0 {
        seq![]
    } else if decided[0].id == id {
        decided[0].response
    } else {
        decision_for(decided.drop_first(), id)
    }
}

fn decision_exec(decided: &Vec<ToolDecision>, id: &str) -> (r: String)
    ensures
        r@ == decision_for(decisions_view(decided@), id@),
{
    let ghost d = decisions_view(decided@);
    let mut k: usize = 0;
    assert(d.subrange(0, d.len() as int) =~= d);
    while k < decided.len()
        invariant
            k <= decided.len(),
            d == decisions_view(decided@),
            decision_for(d, id@) == decision_for(d.subrange(k as int, d.len() as int), id@),
        decreases decided.len() - k,
    {
        let ghost rest = d.subrange(k as int, d.len() as int);
        assert(rest[0] == decided@[k as int]@);
        if str_eq(decided[k].id.as_str(), id) {
            return copy_str(decided[k].response.as_str());
        }
        assert(rest.drop_first() =~= d.subrange(k + 1, d.len() as int));
        k = k + 1;
    }
    String::new()
}

/// Each offer, in order, with what was said to it.
pub fn tool_views(offers: &Vec<ToolOffer>, decided: &Vec<ToolDecision>) -> (r: Vec<ToolView>)
    ensures
        r@.len() == offers@.len(),
        forall|i: int|
            0 <= i < offers@.len() ==> (#[trigger] r@[i])@ == (ToolViewV {
                offer: offers@[i]@,
                decided: decision_for(decisions_view(decided@), offers@[i].id@),
            }),
{
    let mut r: Vec<ToolView> = Vec::new();
    let mut i: usize = 0;
    while i < offers.len()
        invariant
            i <= offers.len(),
            r@.len() == i,
            forall|j: int|
                0 <= j < i ==> (#[trigger] r@[j])@ == (ToolViewV {
                    offer: offers@[j]@,
                    decided: decision_for(decisions_view(decided@), offers@[j].id@),
                }),
        decreases offers.len() - i,
    {
        let d = decision_exec(decided, offers[i].id.as_str());
        r.push(ToolView { offer: copy_offer(&offers[i]), decided: d });
        i = i + 1;
    }
    r
}

} // verus!
