//! A manager as it is kept, and the bot it is seen as.
//!
//! `feature` and `node_id` used to be what a bot was; they are derived now.
//! A manager with one owned feature looks as it always did, and one with
//! none is simply a manager with nothing on its plate.
use vstd::prelude::*;
use crate::text::{copy_str, copy_strings, str_views, trim, is_blank};
use crate::bots::{Bot, Owned};

verus! {

/// A manager's record.
#[derive(Debug, Default)]
pub struct Manager {
    pub handle: String,
    pub name: String,
    /// The starter's name it was made from, if any.
    pub role: String,
    pub goal: String,
    pub every: String,
    pub at_min: i64,
    pub days: String,
    pub body: String,
    pub skills: Vec<String>,
    pub template: String,
    pub agent: String,
    pub team: Vec<String>,
    pub wake_intent: String,
    pub stop_at: Vec<String>,
    /// What it was called before, if it was renamed.
    pub was: String,
    /// The node its memory is filed under; 0 for none yet.
    pub home: i64,
}

/// The name of the node with this id, or nothing.
pub open spec fn name_of(names: Seq<(i64, Seq<char>)>, id: i64) -> Seq<char>
    decreases names.len(),
{
    if names.len() == 0 {
        seq![]
    } else if names[0].0 == id {
        names[0].1
    } else {
        name_of(names.drop_first(), id)
    }
}

pub open spec fn names_view(v: Seq<(i64, String)>) -> Seq<(i64, Seq<char>)> {
    v.map_values(|p: (i64, String)| (p.0, p.1@))
}

fn name_exec(names: &Vec<(i64, String)>, id: i64) -> (r: String)
    ensures
        r@ == name_of(names_view(names@), id),
{
    let ghost nv = names_view(names@);
    let mut i: usize = 0;
    assert(nv.subrange(0, nv.len() as int) =~= nv);
    while i < names.len()
        invariant
            i <= names.len(),
            nv == names_view(names@),
            name_of(nv, id) == name_of(nv.subrange(i as int, nv.len() as int), id),
        decreases names.len() - i,
    {
        let ghost rest = nv.subrange(i as int, nv.len() as int);
        assert(rest[0] == (names@[i as int].0, names@[i as int].1@));
        if names[i].0 == id {
            return copy_str(names[i].1.as_str());
        }
        assert(rest.drop_first() =~= nv.subrange(i + 1, nv.len() as int));
        i = i + 1;
    }
    String::new()
}

/// Where a manager's memory is: its home, or else where its first owned
/// thing is, or nowhere.
pub open spec fn home_spec(home: i64, portfolio: Seq<(i64, Seq<char>)>) -> i64 {
    if home != 0 {
        home
    } else if portfolio.len() > 0 {
        portfolio[0].0
    } else {
        0
    }
}

pub fn home_of(m: &Manager, portfolio: &Vec<(i64, String)>) -> (r: i64)
    ensures
        r == home_spec(m.home, names_view(portfolio@)),
{
    if m.home != 0 {
        m.home
    } else if portfolio.len() > 0 {
        portfolio[0].0
    } else {
        0
    }
}

/// The bot a manager is seen as: owning `portfolio` (node and feature, in
/// order), with `names` naming the nodes and `dir` the folder of its home.
/// Its first owned feature is its feature; with no name it goes by its
/// handle; no heartbeat is known yet.
pub fn from_manager(m: &Manager, portfolio: &Vec<(i64, String)>, names: &Vec<(i64, String)>, dir: String) -> (b: Bot)
    ensures
        b.handle@ == m.handle@,
        b.node_id == home_spec(m.home, names_view(portfolio@)),
        b.node_name@ == name_of(names_view(names@), home_spec(m.home, names_view(portfolio@))),
        b.dir == dir,
        b.name@ == (if trim(m.name@).len() == 0 {
            m.handle@
        } else {
            m.name@
        }),
        b.goal@ == m.goal@,
        b.every@ == m.every@,
        b.at_min == m.at_min,
        b.days@ == m.days@,
        b.body@ == m.body@,
        str_views(b.skills@) == str_views(m.skills@),
        b.template@ == m.template@,
        b.feature@ == (if portfolio@.len() > 0 {
            portfolio@[0].1@
        } else {
            seq![]
        }),
        b.portfolio@.len() == portfolio@.len(),
        forall|i: int|
            0 <= i < portfolio@.len() ==> {
                &&& (#[trigger] b.portfolio@[i]).node_id == portfolio@[i].0
                &&& b.portfolio@[i].node_name@ == name_of(names_view(names@), portfolio@[i].0)
                &&& b.portfolio@[i].feature@ == portfolio@[i].1@
            },
        b.agent@ == m.agent@,
        str_views(b.team@) == str_views(m.team@),
        b.wake_intent@ == m.wake_intent@,
        str_views(b.stop_at@) == str_views(m.stop_at@),
        b.schedule_id is None,
        b.last_woke is None,
{
    let node_id = home_of(m, portfolio);
    let mut owned: Vec<Owned> = Vec::new();
    let mut i: usize = 0;
    while i < portfolio.len()
        invariant
            i <= portfolio.len(),
            owned@.len() == i,
            forall|j: int|
                0 <= j < i ==> {
                    &&& (#[trigger] owned@[j]).node_id == portfolio@[j].0
                    &&& owned@[j].node_name@ == name_of(names_view(names@), portfolio@[j].0)
                    &&& owned@[j].feature@ == portfolio@[j].1@
                },
        decreases portfolio.len() - i,
    {
        owned.push(
            Owned {
                node_id: portfolio[i].0,
                node_name: name_exec(names, portfolio[i].0),
                feature: copy_str(portfolio[i].1.as_str()),
            },
        );
        i = i + 1;
    }
    Bot {
        handle: copy_str(m.handle.as_str()),
        node_id,
        node_name: name_exec(names, node_id),
        dir,
        name: if is_blank(m.name.as_str()) {
            copy_str(m.handle.as_str())
        } else {
            copy_str(m.name.as_str())
        },
        goal: copy_str(m.goal.as_str()),
        every: copy_str(m.every.as_str()),
        at_min: m.at_min,
        days: copy_str(m.days.as_str()),
        body: copy_str(m.body.as_str()),
        skills: copy_strings(&m.skills),
        template: copy_str(m.template.as_str()),
        feature: if portfolio.len() > 0 {
            copy_str(portfolio[0].1.as_str())
        } else {
            String::new()
        },
        portfolio: owned,
        agent: copy_str(m.agent.as_str()),
        team: copy_strings(&m.team),
        wake_intent: copy_str(m.wake_intent.as_str()),
        stop_at: copy_strings(&m.stop_at),
        schedule_id: None,
        last_woke: None,
    }
}

} // verus!
