//! The workspace's state: session statuses, provider settings, and the agents
//! with the permissions each one starts with.
use vstd::prelude::*;
use crate::text::{copy_str, str_eq, str_views, trim, trim_str, is_blank};
use crate::tools::{Permission, PermissionMatrix, parse_permission};
use vstd::multiset::Multiset;

verus! {

#[derive(Clone, Copy, Debug, PartialEq, Eq, Structural)]
pub enum SessionStatus {
    Planning,
    Working,
    Waiting,
    Reviewing,
    Blocked,
    Completed,
    Failed,
    Idle,
}

pub open spec fn status_label(s: SessionStatus) -> Seq<char> {
    match s {
        SessionStatus::Planning => "Planning"@,
        SessionStatus::Working => "Working"@,
        SessionStatus::Waiting => "Waiting"@,
        SessionStatus::Reviewing => "Reviewing"@,
        SessionStatus::Blocked => "Blocked"@,
        SessionStatus::Completed => "Completed"@,
        SessionStatus::Failed => "Failed"@,
        SessionStatus::Idle => "Idle"@,
    }
}

impl SessionStatus {
    pub fn label(self) -> (r: &'static str)
        ensures
            r@ == status_label(self),
    {
        match self {
            SessionStatus::Planning => "Planning",
            SessionStatus::Working => "Working",
            SessionStatus::Waiting => "Waiting",
            SessionStatus::Reviewing => "Reviewing",
            SessionStatus::Blocked => "Blocked",
            SessionStatus::Completed => "Completed",
            SessionStatus::Failed => "Failed",
            SessionStatus::Idle => "Idle",
        }
    }

    /// Still going: anything but completed, failed or idle.
    pub fn active(self) -> (r: bool)
        ensures
            r == !(self == SessionStatus::Completed || self == SessionStatus::Failed || self
                == SessionStatus::Idle),
    {
        !matches!(self, SessionStatus::Completed | SessionStatus::Failed | SessionStatus::Idle)
    }
}

#[derive(Debug)]
pub struct TranscriptEntry {
    pub at: String,
    pub kind: String,
    pub text: String,
}

/// Where a session started from: the commit it believed in, when there was
/// one, and when that was taken. What "stale" is measured against.
#[derive(Debug)]
pub struct Checkpoint {
    pub commit: Option<String>,
    pub taken_at: String,
}

/// One agent run.
#[derive(Debug)]
pub struct Session {
    pub id: String,
    pub agent_id: String,
    pub agent_name: String,
    pub role: String,
    pub project_id: String,
    pub feature_id: String,
    pub work_item_id: Option<String>,
    pub status: SessionStatus,
    pub started_at: String,
    pub ended_at: Option<String>,
    pub checkpoint: Option<Checkpoint>,
    /// Set when the context moved past this session's checkpoint.
    pub stale: bool,
    pub turns: u32,
    pub context_tokens: usize,
    pub files_touched: Vec<String>,
    pub transcript: Vec<TranscriptEntry>,
    pub summary: Option<String>,
}

/// One model call, as it happened: who was speaking, whose provider
/// answered, what the prompt was after assembly, and how long it took.
#[derive(Debug)]
pub struct CallRecord {
    pub at: i64,
    /// Who spoke: an agent id, or `bot:<node>` for a bot with no agent.
    pub speaker: String,
    pub speaker_name: String,
    /// agent | bot | assistant
    pub kind: String,
    /// The agent whose provider and model did the talking.
    pub runs_as: String,
    pub provider: String,
    pub model: String,
    pub project_id: String,
    pub project_name: String,
    pub feature: String,
    pub conversation: String,
    pub session: String,
    pub turn: u32,
    pub ms: i64,
    pub ok: bool,
    pub error: String,
    pub prompt: String,
    pub reply: String,
    pub tools: usize,
}

/// Coordination, not a lock: two agents can claim overlapping ground, and
/// everyone can see it.
#[derive(Debug)]
pub struct WorkClaim {
    pub id: String,
    pub agent_id: String,
    pub session_id: String,
    pub project_id: String,
    pub feature_id: String,
    pub work_item_id: Option<String>,
    pub intent: String,
    pub areas: Vec<String>,
    pub depends_on: Vec<String>,
    /// active | released | completed
    pub status: String,
    pub started_at: String,
}

/// Where a provider is pointed, as the Settings screen sends it.
#[derive(Debug, Default)]
pub struct ProviderConfig {
    /// What this endpoint is called; empty means its kind.
    pub id: String,
    /// "anthropic" | "openai-compatible": the wire shape it speaks.
    pub kind: String,
    pub name: String,
    pub base_url: String,
    /// Supplied once when configuring and never written out.
    pub api_key: Option<String>,
    pub model: String,
    pub headers: Vec<(String, String)>,
    pub timeout_secs: Option<u64>,
}

impl ProviderConfig {
    /// The name this endpoint answers to: its id, or its kind when it has
    /// none.
    pub fn instance_id(&self) -> (r: String)
        ensures
            r@ == (if trim(self.id@).len() == 0 {
                self.kind@
            } else {
                trim(self.id@)
            }),
    {
        if is_blank(self.id.as_str()) {
            copy_str(self.kind.as_str())
        } else {
            trim_str(self.id.as_str())
        }
    }
}

#[derive(Debug)]
pub struct TestRun {
    pub id: String,
    pub project_id: String,
    pub feature_id: Option<String>,
    pub agent_id: String,
    pub command: String,
    pub started_at: String,
    pub ended_at: Option<String>,
    pub passed: bool,
    pub output: String,
}

#[derive(Debug)]
pub struct ProjectSummary {
    pub id: String,
    pub name: String,
    pub root: String,
    pub features: usize,
    pub active_agents: usize,
    pub open_conflicts: usize,
    pub branch: Option<String>,
    pub commit: Option<String>,
    pub has_deck: bool,
}

/// What the assistant asks for when it is told to set something up to watch
/// a space.
#[derive(Debug)]
pub struct BotDraft {
    pub project_id: String,
    pub name: String,
    pub goal: String,
    /// daily | weekdays | weekly
    pub every: String,
    pub at_min: i64,
}

/// What a sentence asking for a routine turns into.
#[derive(Debug)]
pub struct RoutineDraft {
    pub project_id: String,
    pub what: String,
    /// daily | weekdays | weekly | hourly | event
    pub every: String,
    pub at_min: i64,
    /// For `event`: the bus event that fires it.
    pub on: String,
}

/// How long an "always" from a prompt lasts, in days, and how many times it
/// may be used.
pub const GRANT_DAYS: i64 = 7;
pub const GRANT_USES: u32 = 20;

/// An agent definition: who it is, and what it may do with each tool.
#[derive(Debug)]
pub struct AgentDef {
    pub id: String,
    pub name: String,
    /// orchestrator | architect | developer | qa, or any role a user names
    pub role: String,
    pub provider: String,
    pub model: String,
    pub system: String,
    /// Tool id and permission, one pair per tool.
    pub permissions: Vec<(String, String)>,
    pub skills: Vec<String>,
}

pub ghost struct AgentDefV {
    pub id: Seq<char>,
    pub name: Seq<char>,
    pub role: Seq<char>,
    pub provider: Seq<char>,
    pub model: Seq<char>,
    pub system: Seq<char>,
    pub permissions: Seq<(Seq<char>, Seq<char>)>,
    pub skills: Seq<Seq<char>>,
}

pub open spec fn pairs_view(v: Seq<(String, String)>) -> Seq<(Seq<char>, Seq<char>)> {
    v.map_values(|p: (String, String)| (p.0@, p.1@))
}

impl View for AgentDef {
    type V = AgentDefV;

    open spec fn view(&self) -> AgentDefV {
        AgentDefV {
            id: self.id@,
            name: self.name@,
            role: self.role@,
            provider: self.provider@,
            model: self.model@,
            system: self.system@,
            permissions: pairs_view(self.permissions@),
            skills: str_views(self.skills@),
        }
    }
}

pub open spec fn agents_view(v: Seq<AgentDef>) -> Seq<AgentDefV> {
    v.map_values(|a: AgentDef| a@)
}

/// Owned copies of the pairs, in order.
pub fn perms(pairs: &[(&str, &str)]) -> (r: Vec<(String, String)>)
    ensures
        pairs_view(r@) == pairs@.map_values(|p: (&str, &str)| (p.0@, p.1@)),
{
    let mut r: Vec<(String, String)> = Vec::new();
    let mut i: usize = 0;
    while i < pairs.len()
        invariant
            i <= pairs.len(),
            pairs_view(r@) == pairs@.subrange(0, i as int).map_values(|p: (&str, &str)| (p.0@, p.1@)),
        decreases pairs.len() - i,
    {
        let (k, v) = pairs[i];
        let e = (copy_str(k), copy_str(v));
        let ghost before = r@;
        r.push(e);
        i = i + 1;
        assert(pairs_view(r@) =~= pairs_view(before).push((e.0@, e.1@)));
        assert(pairs@.subrange(0, i as int).map_values(|p: (&str, &str)| (p.0@, p.1@))
            =~= pairs@.subrange(0, i - 1).map_values(|p: (&str, &str)| (p.0@, p.1@)).push(
            (pairs@[i - 1].0@, pairs@[i - 1].1@),
        ));
    }
    assert(pairs@.subrange(0, pairs.len() as int) =~= pairs@);
    r
}

/// The built-in roles, in order: the assistant first, then who it talks to.
pub open spec fn default_agents_v(assistant_id: Seq<char>) -> Seq<AgentDefV> {
    seq![
        AgentDefV {
            id: assistant_id,
            name: "Assistant"@,
            role: "orchestrator"@,
            provider: "mock"@,
            model: "mock-1"@,
            system: "You are the developer's assistant. You coordinate the team,                      answer questions about the work, and keep track of what matters."@,
            permissions: seq![("delegate"@, "full"@), ("memory"@, "full"@), ("knowledge"@, "full"@), ("files"@, "read"@), ("git"@, "read"@), ("terminal"@, "approval"@), ("tests"@, "approval"@), ("process"@, "approval"@)],
            skills: seq![],
        },
        AgentDefV {
            id: "architect"@,
            name: "Architect"@,
            role: "architect"@,
            provider: "mock"@,
            model: "mock-1"@,
            system: "You set direction and record decisions. You do not write application code."@,
            permissions: seq![("files"@, "read"@), ("git"@, "read"@), ("knowledge"@, "full"@), ("terminal"@, "none"@), ("process"@, "none"@), ("tests"@, "none"@)],
            skills: seq![],
        },
        AgentDefV {
            id: "dev-a"@,
            name: "Developer A"@,
            role: "developer"@,
            provider: "mock"@,
            model: "mock-1"@,
            system: "You implement work items and keep the shared interfaces coherent."@,
            permissions: seq![("files"@, "full"@), ("git"@, "full"@), ("terminal"@, "approval"@), ("process"@, "approval"@), ("tests"@, "full"@), ("knowledge"@, "full"@)],
            skills: seq![],
        },
        AgentDefV {
            id: "dev-b"@,
            name: "Developer B"@,
            role: "developer"@,
            provider: "mock"@,
            model: "mock-1"@,
            system: "You implement UI work items."@,
            permissions: seq![("files"@, "full"@), ("git"@, "full"@), ("terminal"@, "approval"@), ("process"@, "approval"@), ("tests"@, "full"@), ("knowledge"@, "full"@)],
            skills: seq![],
        },
        AgentDefV {
            id: "qa"@,
            name: "QA Agent"@,
            role: "qa"@,
            provider: "mock"@,
            model: "mock-1"@,
            system: "You verify behaviour. You run the app and the tests; you do not fix code."@,
            permissions: seq![("files"@, "read"@), ("git"@, "read"@), ("terminal"@, "approval"@), ("process"@, "approval"@), ("tests"@, "full"@), ("knowledge"@, "full"@)],
            skills: seq![],
        },
        AgentDefV {
            id: "auditor"@,
            name: "Auditor"@,
            role: "auditor"@,
            provider: "mock"@,
            model: "mock-1"@,
            system: "You check the implementation against the requirements and decisions."@,
            permissions: seq![("files"@, "read"@), ("git"@, "read"@), ("knowledge"@, "full"@), ("terminal"@, "none"@), ("process"@, "none"@), ("tests"@, "none"@)],
            skills: seq![],
        },
    ]
}

fn default_agent_0(assistant_id: &str) -> (r: AgentDef)
    ensures
        r@ == default_agents_v(assistant_id@)[0],
{
    let permissions = perms(&[("delegate", "full"), ("memory", "full"), ("knowledge", "full"), ("files", "read"), ("git", "read"), ("terminal", "approval"), ("tests", "approval"), ("process", "approval")]);
    assert(pairs_view(permissions@) =~= seq![("delegate"@, "full"@), ("memory"@, "full"@), ("knowledge"@, "full"@), ("files"@, "read"@), ("git"@, "read"@), ("terminal"@, "approval"@), ("tests"@, "approval"@), ("process"@, "approval"@)]);
    let r = AgentDef {
        id: copy_str(assistant_id),
        name: copy_str("Assistant"),
        role: copy_str("orchestrator"),
        provider: copy_str("mock"),
        model: copy_str("mock-1"),
        system: copy_str("You are the developer's assistant. You coordinate the team,                      answer questions about the work, and keep track of what matters."),
        permissions,
        skills: Vec::new(),
    };
    assert(str_views(r.skills@) =~= seq![]);
    assert(r@ =~= default_agents_v(assistant_id@)[0]);
    r
}

fn default_agent_1(assistant_id: &str) -> (r: AgentDef)
    ensures
        r@ == default_agents_v(assistant_id@)[1],
{
    let permissions = perms(&[("files", "read"), ("git", "read"), ("knowledge", "full"), ("terminal", "none"), ("process", "none"), ("tests", "none")]);
    assert(pairs_view(permissions@) =~= seq![("files"@, "read"@), ("git"@, "read"@), ("knowledge"@, "full"@), ("terminal"@, "none"@), ("process"@, "none"@), ("tests"@, "none"@)]);
    let r = AgentDef {
        id: copy_str("architect"),
        name: copy_str("Architect"),
        role: copy_str("architect"),
        provider: copy_str("mock"),
        model: copy_str("mock-1"),
        system: copy_str("You set direction and record decisions. You do not write application code."),
        permissions,
        skills: Vec::new(),
    };
    assert(str_views(r.skills@) =~= seq![]);
    assert(r@ =~= default_agents_v(assistant_id@)[1]);
    r
}

fn default_agent_2(assistant_id: &str) -> (r: AgentDef)
    ensures
        r@ == default_agents_v(assistant_id@)[2],
{
    let permissions = perms(&[("files", "full"), ("git", "full"), ("terminal", "approval"), ("process", "approval"), ("tests", "full"), ("knowledge", "full")]);
    assert(pairs_view(permissions@) =~= seq![("files"@, "full"@), ("git"@, "full"@), ("terminal"@, "approval"@), ("process"@, "approval"@), ("tests"@, "full"@), ("knowledge"@, "full"@)]);
    let r = AgentDef {
        id: copy_str("dev-a"),
        name: copy_str("Developer A"),
        role: copy_str("developer"),
        provider: copy_str("mock"),
        model: copy_str("mock-1"),
        system: copy_str("You implement work items and keep the shared interfaces coherent."),
        permissions,
        skills: Vec::new(),
    };
    assert(str_views(r.skills@) =~= seq![]);
    assert(r@ =~= default_agents_v(assistant_id@)[2]);
    r
}

fn default_agent_3(assistant_id: &str) -> (r: AgentDef)
    ensures
        r@ == default_agents_v(assistant_id@)[3],
{
    let permissions = perms(&[("files", "full"), ("git", "full"), ("terminal", "approval"), ("process", "approval"), ("tests", "full"), ("knowledge", "full")]);
    assert(pairs_view(permissions@) =~= seq![("files"@, "full"@), ("git"@, "full"@), ("terminal"@, "approval"@), ("process"@, "approval"@), ("tests"@, "full"@), ("knowledge"@, "full"@)]);
    let r = AgentDef {
        id: copy_str("dev-b"),
        name: copy_str("Developer B"),
        role: copy_str("developer"),
        provider: copy_str("mock"),
        model: copy_str("mock-1"),
        system: copy_str("You implement UI work items."),
        permissions,
        skills: Vec::new(),
    };
    assert(str_views(r.skills@) =~= seq![]);
    assert(r@ =~= default_agents_v(assistant_id@)[3]);
    r
}

fn default_agent_4(assistant_id: &str) -> (r: AgentDef)
    ensures
        r@ == default_agents_v(assistant_id@)[4],
{
    let permissions = perms(&[("files", "read"), ("git", "read"), ("terminal", "approval"), ("process", "approval"), ("tests", "full"), ("knowledge", "full")]);
    assert(pairs_view(permissions@) =~= seq![("files"@, "read"@), ("git"@, "read"@), ("terminal"@, "approval"@), ("process"@, "approval"@), ("tests"@, "full"@), ("knowledge"@, "full"@)]);
    let r = AgentDef {
        id: copy_str("qa"),
        name: copy_str("QA Agent"),
        role: copy_str("qa"),
        provider: copy_str("mock"),
        model: copy_str("mock-1"),
        system: copy_str("You verify behaviour. You run the app and the tests; you do not fix code."),
        permissions,
        skills: Vec::new(),
    };
    assert(str_views(r.skills@) =~= seq![]);
    assert(r@ =~= default_agents_v(assistant_id@)[4]);
    r
}

fn default_agent_5(assistant_id: &str) -> (r: AgentDef)
    ensures
        r@ == default_agents_v(assistant_id@)[5],
{
    let permissions = perms(&[("files", "read"), ("git", "read"), ("knowledge", "full"), ("terminal", "none"), ("process", "none"), ("tests", "none")]);
    assert(pairs_view(permissions@) =~= seq![("files"@, "read"@), ("git"@, "read"@), ("knowledge"@, "full"@), ("terminal"@, "none"@), ("process"@, "none"@), ("tests"@, "none"@)]);
    let r = AgentDef {
        id: copy_str("auditor"),
        name: copy_str("Auditor"),
        role: copy_str("auditor"),
        provider: copy_str("mock"),
        model: copy_str("mock-1"),
        system: copy_str("You check the implementation against the requirements and decisions."),
        permissions,
        skills: Vec::new(),
    };
    assert(str_views(r.skills@) =~= seq![]);
    assert(r@ =~= default_agents_v(assistant_id@)[5]);
    r
}

/// The built-in roles, with permissions chosen to be different from one
/// another: QA cannot write code, the auditor and the architect cannot touch
/// a terminal, and the assistant has to ask before it changes your machine.
/// The assistant's id is `assistant_id`.
pub fn default_agents(assistant_id: &str) -> (r: Vec<AgentDef>)
    ensures
        agents_view(r@) == default_agents_v(assistant_id@),
{
    let mut r: Vec<AgentDef> = Vec::new();
    r.push(default_agent_0(assistant_id));
    r.push(default_agent_1(assistant_id));
    r.push(default_agent_2(assistant_id));
    r.push(default_agent_3(assistant_id));
    r.push(default_agent_4(assistant_id));
    r.push(default_agent_5(assistant_id));
    assert(agents_view(r@) =~= default_agents_v(assistant_id@));
    r
}

/// The matrix an agent's permission pairs add to `m`: each pair sets its
/// tool, a later pair for the same tool winning.
pub open spec fn with_grants(
    m: Map<(Seq<char>, Seq<char>), Permission>,
    agent: Seq<char>,
    ps: Seq<(Seq<char>, Seq<char>)>,
) -> Map<(Seq<char>, Seq<char>), Permission>
    decreases ps.len(),
{
    if ps.len() == 0 {
        m
    } else {
        with_grants(m, agent, ps.drop_last()).insert((agent, ps.last().0), parse_permission(ps.last().1))
    }
}

/// The permission matrix the agents' definitions spell, agent by agent.
pub open spec fn matrix_spec(agents: Seq<AgentDefV>) -> Map<(Seq<char>, Seq<char>), Permission>
    decreases agents.len(),
{
    if agents.len() == 0 {
        Map::empty()
    } else {
        with_grants(matrix_spec(agents.drop_last()), agents.last().id, agents.last().permissions)
    }
}

/// The matrix the tool services consult, built from the agents.
pub fn permission_matrix(agents: &Vec<AgentDef>) -> (m: PermissionMatrix)
    ensures
        m@ == matrix_spec(agents_view(agents@)),
{
    let ghost av = agents_view(agents@);
    let mut m = PermissionMatrix::new();
    let mut i: usize = 0;
    while i < agents.len()
        invariant
            i <= agents.len(),
            av == agents_view(agents@),
            m@ == matrix_spec(av.take(i as int)),
        decreases agents.len() - i,
    {
        assert(av.take(i + 1).drop_last() =~= av.take(i as int));
        assert(av.take(i + 1).last() == agents@[i as int]@);
        let a = &agents[i];
        let ghost base = m@;
        let ghost ps = pairs_view(a.permissions@);
        let mut j: usize = 0;
        while j < a.permissions.len()
            invariant
                j <= a.permissions.len(),
                ps == pairs_view(a.permissions@),
                m@ == with_grants(base, a.id@, ps.take(j as int)),
            decreases a.permissions.len() - j,
        {
            assert(ps.take(j + 1).drop_last() =~= ps.take(j as int));
            assert(ps.take(j + 1).last() == (a.permissions@[j as int].0@, a.permissions@[j as int].1@));
            let p = Permission::parse(a.permissions[j].1.as_str());
            m.set(a.id.as_str(), a.permissions[j].0.as_str(), p);
            j = j + 1;
        }
        assert(ps.take(a.permissions.len() as int) =~= ps);
        i = i + 1;
    }
    assert(av.take(agents.len() as int) =~= av);
    m
}


/// The pairs without any for this tool.
pub open spec fn without_tool(ps: Seq<(Seq<char>, Seq<char>)>, tool: Seq<char>) -> Seq<(Seq<char>, Seq<char>)>
    decreases ps.len(),
{
    if ps.len() == 0 {
        seq![]
    } else if ps.last().0 == tool {
        without_tool(ps.drop_last(), tool)
    } else {
        without_tool(ps.drop_last(), tool).push(ps.last())
    }
}

/// An agent with one tool's permission replaced.
pub open spec fn regranted(a: AgentDefV, tool: Seq<char>, perm: Seq<char>) -> AgentDefV {
    AgentDefV { permissions: without_tool(a.permissions, tool).push((tool, perm)), ..a }
}

pub open spec fn is_first_agent(av: Seq<AgentDefV>, id: Seq<char>, k: int) -> bool {
    &&& 0 <= k < av.len()
    &&& av[k].id == id
    &&& forall|j: int| 0 <= j < k ==> #[trigger] av[j].id != id
}

pub open spec fn has_agent(av: Seq<AgentDefV>, id: Seq<char>) -> bool {
    exists|k: int| 0 <= k < av.len() && #[trigger] av[k].id == id
}

fn find_agent(agents: &Vec<AgentDef>, id: &str) -> (r: Option<usize>)
    ensures
        match r {
            Some(k) => is_first_agent(agents_view(agents@), id@, k as int),
            None => !has_agent(agents_view(agents@), id@),
        },
{
    let ghost av = agents_view(agents@);
    let mut i: usize = 0;
    while i < agents.len()
        invariant
            i <= agents.len(),
            av == agents_view(agents@),
            forall|j: int| 0 <= j < i ==> #[trigger] av[j].id != id@,
        decreases agents.len() - i,
    {
        assert(av[i as int] == agents@[i as int]@);
        if str_eq(agents[i].id.as_str(), id) {
            return Some(i);
        }
        i = i + 1;
    }
    None
}

fn regrant(a: &AgentDef, tool: &str, perm: &str) -> (r: AgentDef)
    ensures
        r@ == regranted(a@, tool@, perm@),
{
    let ghost ps = pairs_view(a.permissions@);
    let mut kept: Vec<(String, String)> = Vec::new();
    let mut i: usize = 0;
    while i < a.permissions.len()
        invariant
            i <= a.permissions.len(),
            ps == pairs_view(a.permissions@),
            pairs_view(kept@) == without_tool(ps.take(i as int), tool@),
        decreases a.permissions.len() - i,
    {
        assert(ps.take(i + 1).drop_last() =~= ps.take(i as int));
        assert(ps.take(i + 1).last() == (a.permissions@[i as int].0@, a.permissions@[i as int].1@));
        if !str_eq(a.permissions[i].0.as_str(), tool) {
            let e = (copy_str(a.permissions[i].0.as_str()), copy_str(a.permissions[i].1.as_str()));
            let ghost before = kept@;
            kept.push(e);
            assert(pairs_view(kept@) =~= pairs_view(before).push((e.0@, e.1@)));
        }
        i = i + 1;
    }
    assert(ps.take(a.permissions.len() as int) =~= ps);
    let e = (copy_str(tool), copy_str(perm));
    let ghost before = kept@;
    kept.push(e);
    assert(pairs_view(kept@) =~= pairs_view(before).push((e.0@, e.1@)));
    let r = AgentDef {
        id: copy_str(a.id.as_str()),
        name: copy_str(a.name.as_str()),
        role: copy_str(a.role.as_str()),
        provider: copy_str(a.provider.as_str()),
        model: copy_str(a.model.as_str()),
        system: copy_str(a.system.as_str()),
        permissions: kept,
        skills: crate::text::copy_strings(&a.skills),
    };
    assert(r@ =~= regranted(a@, tool@, perm@));
    r
}

/// Set one agent's permission for one tool.
pub fn set_permission(agents: &mut Vec<AgentDef>, agent_id: &str, tool: &str, perm: &str) -> (r: Result<
    (),
    String,
>)
    ensures
        !has_agent(agents_view(old(agents)@), agent_id@) ==> (r matches Err(e) && e@ == "no agent '"@
            + agent_id@ + "'"@ && final(agents)@ == old(agents)@),
        has_agent(agents_view(old(agents)@), agent_id@) ==> (r is Ok && exists|k: int|
            is_first_agent(agents_view(old(agents)@), agent_id@, k) && #[trigger] agents_view(
                final(agents)@,
            ) == agents_view(old(agents)@).update(
                k,
                regranted(agents_view(old(agents)@)[k], tool@, perm@),
            )),
{
    let ghost av = agents_view(agents@);
    match find_agent(agents, agent_id) {
        None => {
            let mut e = copy_str("no agent '");
            crate::text::push_str(&mut e, agent_id);
            crate::text::push_str(&mut e, "'");
            Err(e)
        },
        Some(k) => {
            let a = regrant(&agents[k], tool, perm);
            agents.set(k, a);
            assert(agents_view(agents@) =~= av.update(k as int, regranted(av[k as int], tool@, perm@)));
            Ok(())
        },
    }
}

/// A saved grant: agent, tool, permission.
pub open spec fn triples_view(v: Seq<(String, String, String)>) -> Seq<(Seq<char>, Seq<char>, Seq<char>)> {
    v.map_values(|t: (String, String, String)| (t.0@, t.1@, t.2@))
}

/// A tool the registry has.
pub open spec fn known_tool(tool: Seq<char>) -> bool {
    exists|i: int| 0 <= i < crate::tools::registry_v().len() && #[trigger] crate::tools::registry_v()[i].id == tool
}

/// Where the first agent with this id stands.
pub open spec fn first_agent(av: Seq<AgentDefV>, id: Seq<char>) -> int {
    choose|k: int| is_first_agent(av, id, k)
}

/// The agents with the saved grants laid over them in order: a grant for a
/// tool the registry no longer has, or for an agent that is not there, is
/// skipped rather than resurrected.
pub open spec fn restored(av: Seq<AgentDefV>, saved: Seq<(Seq<char>, Seq<char>, Seq<char>)>) -> Seq<AgentDefV>
    decreases saved.len(),
{
    if saved.len() == 0 {
        av
    } else {
        let b = restored(av, saved.drop_last());
        let g = saved.last();
        if known_tool(g.1) && has_agent(b, g.0) {
            let k = first_agent(b, g.0);
            b.update(k, regranted(b[k], g.1, g.2))
        } else {
            b
        }
    }
}

proof fn lemma_first_agent_is(av: Seq<AgentDefV>, id: Seq<char>, k: int)
    requires
        is_first_agent(av, id, k),
    ensures
        first_agent(av, id) == k,
{
    let c = first_agent(av, id);
    assert(is_first_agent(av, id, c));
    if c < k {
        assert(av[c].id != id);
    } else if c > k {
        assert(av[k].id != id);
    }
}

fn is_known_tool(tools: &Vec<crate::tools::ToolInfo>, tool: &str) -> (r: bool)
    requires
        crate::tools::tools_view(tools@) == crate::tools::registry_v(),
    ensures
        r == known_tool(tool@),
{
    let ghost rv = crate::tools::registry_v();
    let mut i: usize = 0;
    while i < tools.len()
        invariant
            i <= tools.len(),
            crate::tools::tools_view(tools@) == rv,
            rv == crate::tools::registry_v(),
            forall|j: int| 0 <= j < i ==> #[trigger] rv[j].id != tool@,
        decreases tools.len() - i,
    {
        assert(rv[i as int] == tools@[i as int]@);
        if str_eq(tools[i].id.as_str(), tool) {
            assert(rv[i as int].id == tool@);
            return true;
        }
        i = i + 1;
    }
    false
}

/// Re-apply saved grants over the agents, in order. Overlaid rather than
/// replacing, so an agent or tool added since arrives with its default.
pub fn restore_permissions(agents: &mut Vec<AgentDef>, saved: &Vec<(String, String, String)>)
    ensures
        agents_view(final(agents)@) == restored(agents_view(old(agents)@), triples_view(saved@)),
{
    let ghost start = agents_view(agents@);
    let ghost sv = triples_view(saved@);
    let tools = crate::tools::registry();
    let mut i: usize = 0;
    while i < saved.len()
        invariant
            i <= saved.len(),
            sv == triples_view(saved@),
            crate::tools::tools_view(tools@) == crate::tools::registry_v(),
            agents_view(agents@) == restored(start, sv.take(i as int)),
        decreases saved.len() - i,
    {
        let ghost b = agents_view(agents@);
        proof {
            assert(sv.take(i + 1).drop_last() =~= sv.take(i as int));
            assert(sv.take(i + 1).last() == sv[i as int]);
        }
        let (id, tool, perm) = (&saved[i].0, &saved[i].1, &saved[i].2);
        if is_known_tool(&tools, tool.as_str()) {
            match find_agent(agents, id.as_str()) {
                Some(k) => {
                    let a = regrant(&agents[k], tool.as_str(), perm.as_str());
                    agents.set(k, a);
                    proof {
                        lemma_first_agent_is(b, id@, k as int);
                        assert(agents_view(agents@) =~= b.update(k as int, regranted(b[k as int], tool@, perm@)));
                    }
                },
                None => {},
            }
        }
        i = i + 1;
    }
    assert(sv.take(saved.len() as int) =~= sv);
}

/// Grants in the order tuples of strings sort in: by agent, then tool,
/// then permission.
pub open spec fn grant_lt(a: (Seq<char>, Seq<char>, Seq<char>), b: (Seq<char>, Seq<char>, Seq<char>)) -> bool {
    ||| crate::order::str_lt(a.0, b.0)
    ||| (a.0 == b.0 && crate::order::str_lt(a.1, b.1))
    ||| (a.0 == b.0 && a.1 == b.1 && crate::order::str_lt(a.2, b.2))
}

pub open spec fn grants_sorted(s: Seq<(Seq<char>, Seq<char>, Seq<char>)>) -> bool {
    forall|i: int, j: int| 0 <= i < j < s.len() ==> !grant_lt(#[trigger] s[j], #[trigger] s[i])
}

/// The pairs that count: a later pair for the same tool wins.
pub open spec fn effective(ps: Seq<(Seq<char>, Seq<char>)>) -> Seq<(Seq<char>, Seq<char>)>
    decreases ps.len(),
{
    if ps.len() == 0 {
        seq![]
    } else if exists|j: int| 0 < j < ps.len() && #[trigger] ps[j].0 == ps[0].0 {
        effective(ps.drop_first())
    } else {
        seq![ps[0]] + effective(ps.drop_first())
    }
}

/// An agent's grants, as (agent, tool, permission).
pub open spec fn agent_grants(a: AgentDefV) -> Seq<(Seq<char>, Seq<char>, Seq<char>)> {
    effective(a.permissions).map_values(|p: (Seq<char>, Seq<char>)| (a.id, p.0, p.1))
}

/// Every agent's grants, agent by agent.
pub open spec fn all_grants(av: Seq<AgentDefV>) -> Seq<(Seq<char>, Seq<char>, Seq<char>)>
    decreases av.len(),
{
    if av.len() == 0 {
        seq![]
    } else {
        all_grants(av.drop_last()) + agent_grants(av.last())
    }
}

proof fn lemma_grant_lt_irrefl(a: (Seq<char>, Seq<char>, Seq<char>))
    ensures
        !grant_lt(a, a),
{
    crate::order::lemma_str_lt_irrefl(a.0);
    crate::order::lemma_str_lt_irrefl(a.1);
    crate::order::lemma_str_lt_irrefl(a.2);
}

proof fn lemma_grant_lt_trans(
    a: (Seq<char>, Seq<char>, Seq<char>),
    b: (Seq<char>, Seq<char>, Seq<char>),
    c: (Seq<char>, Seq<char>, Seq<char>),
)
    requires
        grant_lt(a, b),
        grant_lt(b, c),
    ensures
        grant_lt(a, c),
{
    if crate::order::str_lt(a.0, b.0) && crate::order::str_lt(b.0, c.0) {
        crate::order::lemma_str_lt_trans(a.0, b.0, c.0);
    }
    if a.0 == b.0 && b.0 == c.0 {
        if crate::order::str_lt(a.1, b.1) && crate::order::str_lt(b.1, c.1) {
            crate::order::lemma_str_lt_trans(a.1, b.1, c.1);
        }
        if a.1 == b.1 && b.1 == c.1 && crate::order::str_lt(a.2, b.2) && crate::order::str_lt(b.2, c.2) {
            crate::order::lemma_str_lt_trans(a.2, b.2, c.2);
        }
    }
}

fn grant_lt_exec(a: &(String, String, String), b: &(String, String, String)) -> (r: bool)
    ensures
        r == grant_lt((a.0@, a.1@, a.2@), (b.0@, b.1@, b.2@)),
{
    let a0 = crate::text::chars_of(a.0.as_str());
    let b0 = crate::text::chars_of(b.0.as_str());
    if crate::order::str_lt_exec(&a0, &b0) {
        return true;
    }
    if !str_eq(a.0.as_str(), b.0.as_str()) {
        return false;
    }
    let a1 = crate::text::chars_of(a.1.as_str());
    let b1 = crate::text::chars_of(b.1.as_str());
    if crate::order::str_lt_exec(&a1, &b1) {
        return true;
    }
    if !str_eq(a.1.as_str(), b.1.as_str()) {
        return false;
    }
    let a2 = crate::text::chars_of(a.2.as_str());
    let b2 = crate::text::chars_of(b.2.as_str());
    crate::order::str_lt_exec(&a2, &b2)
}

/// Put a grant into a sorted list, after any equal to it.
fn insert_grant(v: &mut Vec<(String, String, String)>, x: (String, String, String))
    requires
        grants_sorted(triples_view(old(v)@)),
    ensures
        grants_sorted(triples_view(final(v)@)),
        triples_view(final(v)@).to_multiset() == triples_view(old(v)@).to_multiset().insert((x.0@, x.1@, x.2@)),
{
    let ghost w = triples_view(v@);
    let ghost xv = (x.0@, x.1@, x.2@);
    let mut i: usize = 0;
    while i < v.len()
        invariant
            i <= v.len(),
            triples_view(v@) == w,
            xv == (x.0@, x.1@, x.2@),
            forall|j: int| 0 <= j < i ==> !grant_lt(xv, #[trigger] w[j]),
        ensures
            i <= v.len(),
            triples_view(v@) == w,
            forall|j: int| 0 <= j < i ==> !grant_lt(xv, #[trigger] w[j]),
            i < v.len() ==> grant_lt(xv, w[i as int]),
        decreases v.len() - i,
    {
        assert(w[i as int] == (v@[i as int].0@, v@[i as int].1@, v@[i as int].2@));
        if grant_lt_exec(&x, &v[i]) {
            break;
        }
        i = i + 1;
    }
    v.insert(i, x);
    proof {
        let nv = triples_view(v@);
        assert(nv =~= w.insert(i as int, xv));
        vstd::seq_lib::to_multiset_insert(w, i as int, xv);
        assert forall|p: int, q: int| 0 <= p < q < nv.len() implies !grant_lt(#[trigger] nv[q], #[trigger] nv[p]) by {
            if q < i {
                assert(nv[p] == w[p] && nv[q] == w[q]);
            } else if q == i {
                assert(nv[p] == w[p] && nv[q] == xv);
            } else if p < i {
                assert(nv[p] == w[p] && nv[q] == w[q - 1]);
            } else if p == i {
                assert(nv[p] == xv && nv[q] == w[q - 1]);
                assert(grant_lt(xv, w[i as int]));
                if grant_lt(w[q - 1], xv) {
                    lemma_grant_lt_trans(w[q - 1], xv, w[i as int]);
                    if q - 1 == i {
                        lemma_grant_lt_irrefl(w[i as int]);
                    }
                }
            } else {
                assert(nv[p] == w[p - 1] && nv[q] == w[q - 1]);
            }
        }
    }
}

/// One agent's grants, from its pairs that no later pair overrides.
fn agent_grants_exec(a: &AgentDef) -> (r: Vec<(String, String, String)>)
    ensures
        triples_view(r@) == agent_grants(a@),
{
    let ghost ps = pairs_view(a.permissions@);
    let mut r: Vec<(String, String, String)> = Vec::new();
    let mut i: usize = 0;
    let n = a.permissions.len();
    assert(ps.skip(0) =~= ps);
    while i < n
        invariant
            n == a.permissions.len(),
            i <= n,
            ps == pairs_view(a.permissions@),
            ps == a@.permissions,
            triples_view(r@) + effective(ps.skip(i as int)).map_values(
                |p: (Seq<char>, Seq<char>)| (a@.id, p.0, p.1),
            ) == agent_grants(a@),
        decreases n - i,
    {
        let ghost rest = ps.skip(i as int);
        assert(rest.drop_first() =~= ps.skip(i + 1));
        assert(rest[0] == (a.permissions@[i as int].0@, a.permissions@[i as int].1@));
        let mut later = false;
        let mut k: usize = i + 1;
        while k < n
            invariant
                n == a.permissions.len(),
                i < k <= n,
                ps == pairs_view(a.permissions@),
                rest == ps.skip(i as int),
                later == exists|m: int| 0 < m < k - i && #[trigger] rest[m].0 == rest[0].0,
            decreases n - k,
        {
            assert(rest[k - i] == ps[k as int]);
            assert(ps[k as int] == (a.permissions@[k as int].0@, a.permissions@[k as int].1@));
            let ghost was = later;
            let same = str_eq(a.permissions[k].0.as_str(), a.permissions[i].0.as_str());
            if same {
                later = true;
            }
            proof {
                if same {
                    assert(rest[k - i].0 == rest[0].0);
                }
                if !later {
                    assert forall|m: int| 0 < m < k + 1 - i implies #[trigger] rest[m].0 != rest[0].0 by {
                        if m < k - i {
                        } else {
                            assert(m == k - i);
                        }
                    }
                }
            }
            k = k + 1;
        }
        let ghost tail = effective(rest.drop_first()).map_values(|p: (Seq<char>, Seq<char>)| (a@.id, p.0, p.1));
        if !later {
            let g = (copy_str(a.id.as_str()), copy_str(a.permissions[i].0.as_str()), copy_str(a.permissions[i].1.as_str()));
            let ghost before = r@;
            r.push(g);
            proof {
                assert(triples_view(r@) =~= triples_view(before).push((a@.id, rest[0].0, rest[0].1)));
                assert((seq![rest[0]] + effective(rest.drop_first())).map_values(
                    |p: (Seq<char>, Seq<char>)| (a@.id, p.0, p.1),
                ) =~= seq![(a@.id, rest[0].0, rest[0].1)] + tail);
            }
        }
        i = i + 1;
    }
    assert(ps.skip(n as int) =~= Seq::<(Seq<char>, Seq<char>)>::empty());
    assert(effective(Seq::<(Seq<char>, Seq<char>)>::empty()).map_values(
        |p: (Seq<char>, Seq<char>)| (a@.id, p.0, p.1),
    ) =~= Seq::<(Seq<char>, Seq<char>, Seq<char>)>::empty());
    assert(triples_view(r@) + Seq::<(Seq<char>, Seq<char>, Seq<char>)>::empty() =~= triples_view(r@));
    r
}

/// Every grant, flattened and sorted, for saving.
pub fn permission_grants(agents: &Vec<AgentDef>) -> (r: Vec<(String, String, String)>)
    ensures
        grants_sorted(triples_view(r@)),
        triples_view(r@).to_multiset() == all_grants(agents_view(agents@)).to_multiset(),
{
    let ghost av = agents_view(agents@);
    let mut r: Vec<(String, String, String)> = Vec::new();
    let mut i: usize = 0;
    proof {
        assert(av.take(0) =~= Seq::<AgentDefV>::empty());
        assert(all_grants(av.take(0)) =~= Seq::<(Seq<char>, Seq<char>, Seq<char>)>::empty());
        assert(triples_view(r@) =~= Seq::<(Seq<char>, Seq<char>, Seq<char>)>::empty());
        assert(triples_view(r@) == all_grants(av.take(0)));
    }
    while i < agents.len()
        invariant
            i <= agents.len(),
            av == agents_view(agents@),
            grants_sorted(triples_view(r@)),
            triples_view(r@).to_multiset() == all_grants(av.take(i as int)).to_multiset(),
        decreases agents.len() - i,
    {
        let gs = agent_grants_exec(&agents[i]);
        let ghost g = triples_view(gs@);
        let ghost base = triples_view(r@).to_multiset();
        let mut j: usize = 0;
        proof {
            assert(g.take(0) =~= Seq::<(Seq<char>, Seq<char>, Seq<char>)>::empty());
            vstd::seq_lib::to_multiset_len(g.take(0));
            vstd::multiset::lemma_multiset_empty_len(g.take(0).to_multiset());
            assert(g.take(0).to_multiset() =~= Multiset::<(Seq<char>, Seq<char>, Seq<char>)>::empty());
            assert(base.add(g.take(0).to_multiset()) =~= base);
        }
        while j < gs.len()
            invariant
                j <= gs.len(),
                g == triples_view(gs@),
                grants_sorted(triples_view(r@)),
                triples_view(r@).to_multiset() == base.add(g.take(j as int).to_multiset()),
            decreases gs.len() - j,
        {
            let x = (copy_str(gs[j].0.as_str()), copy_str(gs[j].1.as_str()), copy_str(gs[j].2.as_str()));
            insert_grant(&mut r, x);
            proof {
                assert(g.take(j + 1) =~= g.take(j as int).push(g[j as int]));
                vstd::seq_lib::to_multiset_build(g.take(j as int), g[j as int]);
                assert(base.add(g.take(j as int).to_multiset()).insert(g[j as int]) =~= base.add(
                    g.take(j as int).to_multiset().insert(g[j as int]),
                ));
            }
            j = j + 1;
        }
        proof {
            assert(g.take(gs.len() as int) =~= g);
            assert(av.take(i + 1).drop_last() =~= av.take(i as int));
            assert(av.take(i + 1).last() == agents@[i as int]@);
            vstd::seq_lib::lemma_multiset_commutative(all_grants(av.take(i as int)), g);
        }
        i = i + 1;
    }
    assert(av.take(agents.len() as int) =~= av);
    r
}

/// An agent pointed at another provider, and at another model when one is
/// named.
pub open spec fn repointed(a: AgentDefV, provider: Seq<char>, model: Seq<char>) -> AgentDefV {
    AgentDefV {
        provider,
        model: if model.len() == 0 {
            a.model
        } else {
            model
        },
        ..a
    }
}

fn copy_agent(a: &AgentDef) -> (r: AgentDef)
    ensures
        r@ == a@,
{
    let ghost ps = pairs_view(a.permissions@);
    let mut perms: Vec<(String, String)> = Vec::new();
    let mut i: usize = 0;
    while i < a.permissions.len()
        invariant
            i <= a.permissions.len(),
            ps == pairs_view(a.permissions@),
            pairs_view(perms@) == ps.take(i as int),
        decreases a.permissions.len() - i,
    {
        let e = (copy_str(a.permissions[i].0.as_str()), copy_str(a.permissions[i].1.as_str()));
        let ghost before = perms@;
        perms.push(e);
        assert(pairs_view(perms@) =~= pairs_view(before).push((e.0@, e.1@)));
        assert(ps.take(i + 1) =~= ps.take(i as int).push(ps[i as int]));
        i = i + 1;
    }
    assert(ps.take(a.permissions.len() as int) =~= ps);
    let r = AgentDef {
        id: copy_str(a.id.as_str()),
        name: copy_str(a.name.as_str()),
        role: copy_str(a.role.as_str()),
        provider: copy_str(a.provider.as_str()),
        model: copy_str(a.model.as_str()),
        system: copy_str(a.system.as_str()),
        permissions: perms,
        skills: crate::text::copy_strings(&a.skills),
    };
    assert(r@ =~= a@);
    r
}

/// Point one agent at a different provider and model. Refused for a
/// provider that is not among the configured ones, where it would fail at
/// the least useful moment, mid-run; and for an agent that is not there.
/// The agent as it now is comes back.
pub fn set_agent_provider(
    agents: &mut Vec<AgentDef>,
    configured: &Vec<String>,
    agent_id: &str,
    provider: &str,
    model: &str,
) -> (r: Result<AgentDef, String>)
    ensures
        !str_views(configured@).contains(provider@) ==> (r matches Err(e) && e@ == "'"@ + provider@
            + "' is not configured — set it up under Providers first"@ && final(agents)@ == old(agents)@),
        str_views(configured@).contains(provider@) && !has_agent(agents_view(old(agents)@), agent_id@) ==> (
        r matches Err(e) && e@ == "no agent '"@ + agent_id@ + "'"@ && final(agents)@ == old(agents)@),
        str_views(configured@).contains(provider@) && has_agent(agents_view(old(agents)@), agent_id@) ==> ({
            let av = agents_view(old(agents)@);
            let k = first_agent(av, agent_id@);
            &&& agents_view(final(agents)@) == av.update(k, repointed(av[k], provider@, model@))
            &&& r matches Ok(a) && a@ == repointed(av[k], provider@, model@)
        }),
{
    if !crate::text::is_taken(configured, provider) {
        let mut e = copy_str("'");
        crate::text::push_str(&mut e, provider);
        crate::text::push_str(&mut e, "' is not configured — set it up under Providers first");
        return Err(e);
    }
    let ghost av = agents_view(agents@);
    match find_agent(agents, agent_id) {
        None => {
            let mut e = copy_str("no agent '");
            crate::text::push_str(&mut e, agent_id);
            crate::text::push_str(&mut e, "'");
            Err(e)
        },
        Some(k) => {
            let mut a = copy_agent(&agents[k]);
            a.provider = copy_str(provider);
            if !model.is_empty() {
                a.model = copy_str(model);
            }
            let out = copy_agent(&a);
            proof {
                lemma_first_agent_is(av, agent_id@, k as int);
                assert(a@ =~= repointed(av[k as int], provider@, model@));
            }
            agents.set(k, a);
            assert(agents_view(agents@) =~= av.update(k as int, repointed(av[k as int], provider@, model@)));
            Ok(out)
        },
    }
}

/// The agents after carrying old saved choices of provider into them, once:
/// only an agent still on the mock moves, only off it, and only to a
/// configured provider; the count is how many moved.
pub open spec fn migrated(
    av: Seq<AgentDefV>,
    configured: Seq<Seq<char>>,
    saved: Seq<(Seq<char>, Seq<char>, Seq<char>)>,
) -> (Seq<AgentDefV>, nat)
    decreases saved.len(),
{
    if saved.len() == 0 {
        (av, 0)
    } else {
        let (b, n) = migrated(av, configured, saved.drop_last());
        let g = saved.last();
        let on_mock = has_agent(b, g.0) && b[first_agent(b, g.0)].provider == "mock"@;
        if !on_mock || g.1 == "mock"@ || !configured.contains(g.1) {
            (b, n)
        } else {
            let k = first_agent(b, g.0);
            (b.update(k, repointed(b[k], g.1, g.2)), n + 1)
        }
    }
}

/// Carry saved choices of provider into the agents still on the mock, and
/// say how many moved.
pub fn migrate_agent_providers(
    agents: &mut Vec<AgentDef>,
    configured: &Vec<String>,
    saved: &Vec<(String, String, String)>,
) -> (moved: usize)
    ensures
        (agents_view(final(agents)@), moved as nat) == migrated(
            agents_view(old(agents)@),
            str_views(configured@),
            triples_view(saved@),
        ),
{
    let ghost start = agents_view(agents@);
    let ghost sv = triples_view(saved@);
    let ghost cv = str_views(configured@);
    let mut moved: usize = 0;
    let mut i: usize = 0;
    while i < saved.len()
        invariant
            i <= saved.len(),
            sv == triples_view(saved@),
            cv == str_views(configured@),
            (agents_view(agents@), moved as nat) == migrated(start, cv, sv.take(i as int)),
            moved <= i,
        decreases saved.len() - i,
    {
        let ghost b = agents_view(agents@);
        proof {
            assert(sv.take(i + 1).drop_last() =~= sv.take(i as int));
            assert(sv.take(i + 1).last() == sv[i as int]);
        }
        let id = saved[i].0.as_str();
        let provider = saved[i].1.as_str();
        let model = saved[i].2.as_str();
        let on_mock = match find_agent(agents, id) {
            Some(k) => {
                proof {
                    lemma_first_agent_is(b, id@, k as int);
                }
                str_eq(agents[k].provider.as_str(), crate::provider::MockProvider::ID)
            },
            None => false,
        };
        if on_mock && !str_eq(provider, crate::provider::MockProvider::ID) {
            match set_agent_provider(agents, configured, id, provider, model) {
                Ok(_) => {
                    moved = moved + 1;
                },
                Err(_) => {},
            }
        }
        i = i + 1;
    }
    assert(sv.take(saved.len() as int) =~= sv);
    moved
}

/// An endpoint to register, under its id.
#[derive(Debug)]
pub enum ProviderSetup {
    Anthropic { id: String, config: crate::provider::AnthropicConfig },
    OpenAI { id: String, config: crate::provider::OpenAICompatibleConfig },
}

/// The name a provider answers to, as the spec sees it.
pub open spec fn instance_spec(c: ProviderConfig) -> Seq<char> {
    if trim(c.id@).len() == 0 {
        c.kind@
    } else {
        trim(c.id@)
    }
}

/// What configuring a provider comes to: the key to save under its
/// credential target first, when one was typed (an empty one leaves the saved
/// key alone); then the endpoint to register, or why there is none.
pub fn configure_provider(cfg: ProviderConfig) -> (r: (Option<(String, String)>, Result<ProviderSetup, String>))
    ensures
        ({
            let id = instance_spec(cfg);
            let target = "devdeck:aiw:"@ + id;
            &&& match cfg.api_key {
                Some(k) => if k@.len() > 0 {
                    r.0 matches Some((t, kk)) && t@ == target && kk@ == k@
                } else {
                    r.0 is None
                },
                None => r.0 is None,
            }
            &&& if cfg.kind@ == "anthropic"@ {
                r.1 matches Ok(ProviderSetup::Anthropic { id: i, config: c }) && i@ == id && c.key_target@
                    == target && c.model@ == cfg.model@
            } else if cfg.kind@ == "openai-compatible"@ {
                if trim(cfg.base_url@).len() == 0 {
                    r.1 matches Err(e) && e@ == "an OpenAI-compatible provider needs a base URL"@
                } else {
                    r.1 matches Ok(ProviderSetup::OpenAI { id: i, config: c }) && i@ == id && c.key_target@
                        == target && c.model@ == cfg.model@ && c.name@ == cfg.name@ && c.base_url@
                        == cfg.base_url@ && pairs_view(c.headers@) == pairs_view(cfg.headers@)
                        && c.timeout_secs == cfg.timeout_secs
                }
            } else {
                r.1 matches Err(e) && e@ == "unknown provider kind '"@ + cfg.kind@ + "'"@
            }
        }),
{
    let id = cfg.instance_id();
    let target = crate::provider::key_target(id.as_str());
    let key = match &cfg.api_key {
        Some(k) => if k.as_str().is_empty() {
            None
        } else {
            Some((copy_str(target.as_str()), copy_str(k.as_str())))
        },
        None => None,
    };
    if str_eq(cfg.kind.as_str(), "anthropic") {
        return (
            key,
            Ok(ProviderSetup::Anthropic {
                id,
                config: crate::provider::AnthropicConfig { key_target: target, model: cfg.model },
            }),
        );
    }
    if str_eq(cfg.kind.as_str(), "openai-compatible") {
        if is_blank(cfg.base_url.as_str()) {
            return (key, Err(copy_str("an OpenAI-compatible provider needs a base URL")));
        }
        return (
            key,
            Ok(ProviderSetup::OpenAI {
                id,
                config: crate::provider::OpenAICompatibleConfig {
                    name: cfg.name,
                    base_url: cfg.base_url,
                    key_target: target,
                    model: cfg.model,
                    headers: cfg.headers,
                    timeout_secs: cfg.timeout_secs,
                },
            }),
        );
    }
    let mut e = copy_str("unknown provider kind '");
    crate::text::push_str(&mut e, cfg.kind.as_str());
    crate::text::push_str(&mut e, "'");
    (key, Err(e))
}

/// How long testing one model may take: its own limit, two minutes when it
/// has none, and never more than half a minute.
pub fn probe_timeout(t: Option<u64>) -> (r: Option<u64>)
    ensures
        r == Some(
            (if (match t {
                Some(x) => x,
                None => 120u64,
            }) < 30 {
                match t {
                    Some(x) => x,
                    None => 120u64,
                }
            } else {
                30u64
            }),
        ),
{
    let x = match t {
        Some(x) => x,
        None => 120,
    };
    Some(if x < 30 { x } else { 30 })
}

/// `'<id>' is not configured`.
pub fn not_configured(id: &str) -> (r: String)
    ensures
        r@ == "'"@ + id@ + "' is not configured"@,
{
    let mut r = copy_str("'");
    crate::text::push_str(&mut r, id);
    crate::text::push_str(&mut r, "' is not configured");
    r
}

/// What testing a model of a provider with nothing to call says.
pub fn answers_offline(id: &str) -> (r: String)
    ensures
        r@ == "'"@ + id@ + "' answers without a network."@,
{
    let mut r = copy_str("'");
    crate::text::push_str(&mut r, id);
    crate::text::push_str(&mut r, "' answers without a network.");
    r
}

/// The body of the skill with this name: the last one so named, as a map
/// built from the list would hold it.
pub open spec fn skill_body(library: Seq<(Seq<char>, Seq<char>)>, name: Seq<char>) -> Option<Seq<char>>
    decreases library.len(),
{
    if library.len() == 0 {
        None
    } else if library.last().0 == name {
        Some(library.last().1)
    } else {
        skill_body(library.drop_last(), name)
    }
}

/// An agent's instructions: its own, trimmed, then each skill it names that
/// the library has, as a section of its own.
pub open spec fn with_skills(
    system: Seq<char>,
    skills: Seq<Seq<char>>,
    library: Seq<(Seq<char>, Seq<char>)>,
) -> Seq<char>
    decreases skills.len(),
{
    if skills.len() == 0 {
        system
    } else {
        let before = with_skills(system, skills.drop_last(), library);
        match skill_body(library, skills.last()) {
            Some(b) => before + "\n\n# "@ + skills.last() + "\n\n"@ + trim(b),
            None => before,
        }
    }
}

fn skill_exec(library: &Vec<(String, String)>, name: &str) -> (r: Option<String>)
    ensures
        match skill_body(pairs_view(library@), name@) {
            Some(b) => r matches Some(x) && x@ == b,
            None => r is None,
        },
{
    let ghost lv = pairs_view(library@);
    let mut k: usize = library.len();
    assert(lv.take(k as int) =~= lv);
    while k > 0
        invariant
            k <= library.len(),
            lv == pairs_view(library@),
            skill_body(lv, name@) == skill_body(lv.take(k as int), name@),
        decreases k,
    {
        let ghost t = lv.take(k as int);
        assert(t.last() == (library@[k - 1].0@, library@[k - 1].1@));
        if str_eq(library[k - 1].0.as_str(), name) {
            return Some(copy_str(library[k - 1].1.as_str()));
        }
        assert(t.drop_last() =~= lv.take(k - 1));
        k = k - 1;
    }
    None
}

/// The instructions an agent runs with, from its file's body and the skills
/// it names.
pub fn agent_system(body: &str, skills: &Vec<String>, library: &Vec<(String, String)>) -> (r: String)
    ensures
        r@ == with_skills(trim(body@), str_views(skills@), pairs_view(library@)),
{
    let ghost sv = str_views(skills@);
    let mut r = trim_str(body);
    let mut i: usize = 0;
    while i < skills.len()
        invariant
            i <= skills.len(),
            sv == str_views(skills@),
            r@ == with_skills(trim(body@), sv.take(i as int), pairs_view(library@)),
        decreases skills.len() - i,
    {
        proof {
            assert(sv.take(i + 1).drop_last() =~= sv.take(i as int));
            assert(sv.take(i + 1).last() == skills@[i as int]@);
        }
        match skill_exec(library, skills[i].as_str()) {
            Some(b) => {
                crate::text::push_str(&mut r, "\n\n# ");
                crate::text::push_str(&mut r, skills[i].as_str());
                crate::text::push_str(&mut r, "\n\n");
                crate::text::push_str(&mut r, trim_str(b.as_str()).as_str());
            },
            None => {},
        }
        i = i + 1;
    }
    assert(sv.take(skills.len() as int) =~= sv);
    r
}

/// No two agents share an id.
pub open spec fn ids_unique(av: Seq<AgentDefV>) -> bool {
    forall|i: int, j: int| 0 <= i < j < av.len() ==> av[i].id != av[j].id
}

/// A matrix with the saved grants laid over it in order: each one for a tool
/// the registry has and an agent that is there sets that cell; the rest
/// change nothing.
pub open spec fn laid_over(
    m: Map<(Seq<char>, Seq<char>), Permission>,
    av: Seq<AgentDefV>,
    saved: Seq<(Seq<char>, Seq<char>, Seq<char>)>,
) -> Map<(Seq<char>, Seq<char>), Permission>
    decreases saved.len(),
{
    if saved.len() == 0 {
        m
    } else {
        let before = laid_over(m, av, saved.drop_last());
        let g = saved.last();
        if known_tool(g.1) && has_agent(av, g.0) {
            before.insert((g.0, g.1), parse_permission(g.2))
        } else {
            before
        }
    }
}

proof fn lemma_with_grants_regrant(
    m: Map<(Seq<char>, Seq<char>), Permission>,
    a: Seq<char>,
    ps: Seq<(Seq<char>, Seq<char>)>,
    t: Seq<char>,
    v: Permission,
)
    ensures
        with_grants(m, a, without_tool(ps, t)).insert((a, t), v) == with_grants(m, a, ps).insert((a, t), v),
    decreases ps.len(),
{
    if ps.len() > 0 {
        let d = ps.drop_last();
        let e = ps.last();
        lemma_with_grants_regrant(m, a, d, t, v);
        if e.0 == t {
            assert(with_grants(m, a, ps).insert((a, t), v) =~= with_grants(m, a, d).insert((a, t), v));
        } else {
            let w = with_grants(m, a, without_tool(d, t));
            assert(without_tool(ps, t) == without_tool(d, t).push(e));
            assert(without_tool(d, t).push(e).drop_last() =~= without_tool(d, t));
            assert(with_grants(m, a, without_tool(ps, t)) == w.insert((a, e.0), parse_permission(e.1)));
            assert(w.insert((a, e.0), parse_permission(e.1)).insert((a, t), v) =~= w.insert((a, t), v).insert(
                (a, e.0),
                parse_permission(e.1),
            ));
            assert(with_grants(m, a, d).insert((a, t), v).insert((a, e.0), parse_permission(e.1)) =~= with_grants(
                m,
                a,
                d,
            ).insert((a, e.0), parse_permission(e.1)).insert((a, t), v));
        }
    } else {
        assert(without_tool(ps, t) =~= ps);
    }
}

proof fn lemma_with_grants_other(
    m: Map<(Seq<char>, Seq<char>), Permission>,
    key: (Seq<char>, Seq<char>),
    v: Permission,
    b: Seq<char>,
    ps: Seq<(Seq<char>, Seq<char>)>,
)
    requires
        key.0 != b,
    ensures
        with_grants(m.insert(key, v), b, ps) == with_grants(m, b, ps).insert(key, v),
    decreases ps.len(),
{
    if ps.len() > 0 {
        lemma_with_grants_other(m, key, v, b, ps.drop_last());
        let e = ps.last();
        assert(with_grants(m, b, ps.drop_last()).insert(key, v).insert((b, e.0), parse_permission(e.1))
            =~= with_grants(m, b, ps.drop_last()).insert((b, e.0), parse_permission(e.1)).insert(key, v));
    }
}

proof fn lemma_matrix_regrant(av: Seq<AgentDefV>, k: int, t: Seq<char>, p: Seq<char>)
    requires
        ids_unique(av),
        0 <= k < av.len(),
    ensures
        matrix_spec(av.update(k, regranted(av[k], t, p))) == matrix_spec(av).insert(
            (av[k].id, t),
            parse_permission(p),
        ),
    decreases av.len(),
{
    let u = av.update(k, regranted(av[k], t, p));
    let d = av.drop_last();
    if k == av.len() - 1 {
        assert(u.drop_last() =~= d);
        lemma_with_grants_regrant(matrix_spec(d), av[k].id, av[k].permissions, t, parse_permission(p));
        assert(regranted(av[k], t, p).permissions.drop_last() =~= without_tool(av[k].permissions, t));
    } else {
        assert(ids_unique(d));
        lemma_matrix_regrant(d, k, t, p);
        assert(u.drop_last() =~= d.update(k, regranted(d[k], t, p)));
        assert(u.last() == av.last());
        assert(av[k].id != av.last().id);
        lemma_with_grants_other(
            matrix_spec(d),
            (av[k].id, t),
            parse_permission(p),
            av.last().id,
            av.last().permissions,
        );
    }
}

proof fn lemma_restored_ids(av: Seq<AgentDefV>, saved: Seq<(Seq<char>, Seq<char>, Seq<char>)>)
    ensures
        restored(av, saved).len() == av.len(),
        forall|j: int| 0 <= j < av.len() ==> #[trigger] restored(av, saved)[j].id == av[j].id,
    decreases saved.len(),
{
    if saved.len() > 0 {
        lemma_restored_ids(av, saved.drop_last());
        let b = restored(av, saved.drop_last());
        let g = saved.last();
        if known_tool(g.1) && has_agent(b, g.0) {
            let w = choose|w: int| 0 <= w < b.len() && #[trigger] b[w].id == g.0;
            lemma_some_first(b, g.0, w);
            assert forall|j: int| 0 <= j < av.len() implies #[trigger] restored(av, saved)[j].id == av[j].id by {
                assert(b[j].id == av[j].id);
            }
        }
    }
}

proof fn lemma_some_first(av: Seq<AgentDefV>, id: Seq<char>, w: int)
    requires
        0 <= w < av.len(),
        av[w].id == id,
    ensures
        exists|q: int| is_first_agent(av, id, q),
    decreases w,
{
    if exists|j: int| 0 <= j < w && #[trigger] av[j].id == id {
        let j = choose|j: int| 0 <= j < w && #[trigger] av[j].id == id;
        lemma_some_first(av, id, j);
    } else {
        assert(is_first_agent(av, id, w));
    }
}

/// Restoring saved grants sets exactly the saved cells of the matrix, each
/// to the last permission saved for it, for grants of a tool the registry
/// has and an agent that is there; every other cell keeps what it had.
pub proof fn law_restoring_sets_only_the_saved_cells(
    av: Seq<AgentDefV>,
    saved: Seq<(Seq<char>, Seq<char>, Seq<char>)>,
)
    requires
        ids_unique(av),
    ensures
        matrix_spec(restored(av, saved)) == laid_over(matrix_spec(av), av, saved),
    decreases saved.len(),
{
    if saved.len() > 0 {
        let d = saved.drop_last();
        law_restoring_sets_only_the_saved_cells(av, d);
        lemma_restored_ids(av, d);
        let b = restored(av, d);
        let g = saved.last();
        assert(ids_unique(b)) by {
            assert forall|i: int, j: int| 0 <= i < j < b.len() implies b[i].id != b[j].id by {
                assert(b[i].id == av[i].id && b[j].id == av[j].id);
            }
        }
        assert(has_agent(b, g.0) == has_agent(av, g.0)) by {
            if has_agent(b, g.0) {
                let w = choose|w: int| 0 <= w < b.len() && #[trigger] b[w].id == g.0;
                assert(av[w].id == g.0);
            }
            if has_agent(av, g.0) {
                let w = choose|w: int| 0 <= w < av.len() && #[trigger] av[w].id == g.0;
                assert(b[w].id == g.0);
            }
        }
        if known_tool(g.1) && has_agent(b, g.0) {
            let w = choose|w: int| 0 <= w < b.len() && #[trigger] b[w].id == g.0;
            lemma_some_first(b, g.0, w);
            let k = first_agent(b, g.0);
            lemma_matrix_regrant(b, k, g.1, g.2);
        }
    }
}

} // verus!
