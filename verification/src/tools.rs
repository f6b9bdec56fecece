//! Tools: the only way an agent reaches the machine.
//!
//! The permission levels, the per-agent matrix, the registry of tools and
//! their actions, what an agent is offered, how a model's call is read back,
//! and the rule that decides whether a call runs.
use vstd::prelude::*;
use crate::text::{
    chars_of, from_chars, lower, lower_str, str_eq, push_str, starts_with, sub_vec, occurs_at_exec,
    copy_str,
};
use crate::order::{strictly_sorted, views, insert_sorted};
use crate::json::{Json, JsonV, keys_v, is_obj, object_keys};

verus! {

/// What an agent is allowed to do with a tool.
#[derive(Clone, Copy, Debug, PartialEq, Eq, Structural)]
pub enum Permission {
    /// Everything the tool offers.
    Full,
    /// Read-side operations only.
    Read,
    /// Allowed, but a human must say yes first.
    Approval,
    Nothing,
}

impl Default for Permission {
    fn default() -> (r: Self)
        ensures
            r == Permission::Nothing,
    {
        Permission::Nothing
    }
}

pub open spec fn parse_permission(s: Seq<char>) -> Permission {
    let l = lower(s);
    if l == "full"@ {
        Permission::Full
    } else if l == "read"@ || l == "readonly"@ || l == "read-only"@ {
        Permission::Read
    } else if l == "approval"@ {
        Permission::Approval
    } else {
        Permission::Nothing
    }
}

pub open spec fn permission_label(p: Permission) -> Seq<char> {
    match p {
        Permission::Full => "Full"@,
        Permission::Read => "Read"@,
        Permission::Approval => "Approval"@,
        Permission::Nothing => "None"@,
    }
}

impl Permission {
    /// Read a permission as written in an agent's file. Anything unrecognised
    /// is `None`: a typo must never grant more.
    pub fn parse(s: &str) -> (r: Self)
        ensures
            r == parse_permission(s@),
    {
        let l = lower_str(s);
        let l = l.as_str();
        if str_eq(l, "full") {
            Permission::Full
        } else if str_eq(l, "read") || str_eq(l, "readonly") || str_eq(l, "read-only") {
            Permission::Read
        } else if str_eq(l, "approval") {
            Permission::Approval
        } else {
            Permission::Nothing
        }
    }

    pub fn label(self) -> (r: &'static str)
        ensures
            r@ == permission_label(self),
    {
        match self {
            Permission::Full => "Full",
            Permission::Read => "Read",
            Permission::Approval => "Approval",
            Permission::Nothing => "None",
        }
    }
}

/// A permission read back from its label is the same permission.
pub proof fn law_permission_label_round_trip(p: Permission)
    ensures
        parse_permission(permission_label(p)) == p,
{
    reveal_strlit("Full");
    reveal_strlit("Read");
    reveal_strlit("Approval");
    reveal_strlit("None");
    reveal_strlit("full");
    reveal_strlit("read");
    reveal_strlit("readonly");
    reveal_strlit("read-only");
    reveal_strlit("approval");
    match p {
        Permission::Full => {
            assert(lower("Full"@) =~= "full"@);
        },
        Permission::Read => {
            assert(lower("Read"@) =~= "read"@);
            assert("read"@ != "full"@) by {
                assert("read"@[0] != "full"@[0]);
            }
        },
        Permission::Approval => {
            assert(lower("Approval"@) =~= "approval"@);
            assert("approval"@ != "full"@) by {
                assert("approval"@[0] != "full"@[0]);
            }
            assert("approval"@ != "read"@) by {
                assert("approval"@[0] != "read"@[0]);
            }
            assert("approval"@ != "readonly"@) by {
                assert("approval"@[0] != "readonly"@[0]);
            }
            assert("approval"@ != "read-only"@) by {
                assert("approval"@[0] != "read-only"@[0]);
            }
        },
        Permission::Nothing => {
            let l = lower("None"@);
            assert(l[0] == 'n');
            assert(l != "full"@) by {
                assert(l[0] != "full"@[0]);
            }
            assert(l != "read"@) by {
                assert(l[0] != "read"@[0]);
            }
            assert(l != "approval"@) by {
                assert(l[0] != "approval"@[0]);
            }
            assert(l != "readonly"@) by {
                assert(l[0] != "readonly"@[0]);
            }
            assert(l != "read-only"@) by {
                assert(l[0] != "read-only"@[0]);
            }
        },
    }
}

/// Whether a given call is a read or a write, so `Read` permission can allow
/// the former and refuse the latter.
#[derive(Clone, Copy, Debug, PartialEq, Eq, Structural)]
pub enum Access {
    Read,
    Write,
}

#[derive(Debug)]
/// One (agent, tool, permission) row of the matrix.
pub struct Grant {
    pub agent: String,
    pub tool: String,
    pub permission: Permission,
}

pub open spec fn key_of(g: Grant) -> (Seq<char>, Seq<char>) {
    (g.agent@, g.tool@)
}

/// The matrix a list of rows describes, a later row for the same pair
/// winning.
pub open spec fn rows_map(s: Seq<Grant>) -> Map<(Seq<char>, Seq<char>), Permission>
    decreases s.len(),
{
    if s.len() == 0 {
        Map::empty()
    } else {
        rows_map(s.drop_last()).insert(key_of(s.last()), s.last().permission)
    }
}

pub open spec fn unique_keys(s: Seq<Grant>) -> bool {
    forall|i: int, j: int| 0 <= i < j < s.len() ==> key_of(s[i]) != key_of(s[j])
}

proof fn lemma_rows_map_dom(s: Seq<Grant>, k: (Seq<char>, Seq<char>))
    ensures
        rows_map(s).dom().contains(k) <==> exists|i: int| 0 <= i < s.len() && key_of(s[i]) == k,
    decreases s.len(),
{
    if s.len() > 0 {
        lemma_rows_map_dom(s.drop_last(), k);
        if rows_map(s).dom().contains(k) && key_of(s.last()) != k {
            let i = choose|i: int| 0 <= i < s.len() - 1 && key_of(s.drop_last()[i]) == k;
            assert(key_of(s[i]) == k);
        }
        if exists|i: int| 0 <= i < s.len() && key_of(s[i]) == k {
            let i = choose|i: int| 0 <= i < s.len() && key_of(s[i]) == k;
            if i < s.len() - 1 {
                assert(key_of(s.drop_last()[i]) == k);
            }
        }
    }
}

proof fn lemma_rows_map_at(s: Seq<Grant>, i: int)
    requires
        unique_keys(s),
        0 <= i < s.len(),
    ensures
        rows_map(s).dom().contains(key_of(s[i])),
        rows_map(s)[key_of(s[i])] == s[i].permission,
    decreases s.len(),
{
    if i < s.len() - 1 {
        let t = s.drop_last();
        assert(key_of(t[i]) == key_of(s[i]));
        lemma_rows_map_at(t, i);
        assert(key_of(s.last()) != key_of(s[i]));
    }
}

proof fn lemma_rows_map_update(s: Seq<Grant>, i: int, g: Grant)
    requires
        unique_keys(s),
        0 <= i < s.len(),
        key_of(g) == key_of(s[i]),
    ensures
        rows_map(s.update(i, g)) == rows_map(s).insert(key_of(g), g.permission),
        unique_keys(s.update(i, g)),
    decreases s.len(),
{
    let u = s.update(i, g);
    if i == s.len() - 1 {
        assert(u.drop_last() =~= s.drop_last());
        assert(rows_map(u) =~= rows_map(s).insert(key_of(g), g.permission));
    } else {
        let t = s.drop_last();
        assert(u.drop_last() =~= t.update(i, g));
        lemma_rows_map_update(t, i, g);
        assert(key_of(s.last()) != key_of(g));
        assert(rows_map(u) =~= rows_map(s).insert(key_of(g), g.permission));
    }
}

#[derive(Debug)]
/// Per-agent, per-tool permissions: the matrix the Tool Permissions screen
/// renders and the thing a tool service actually consults.
pub struct PermissionMatrix {
    rows: Vec<Grant>,
}

impl View for PermissionMatrix {
    type V = Map<(Seq<char>, Seq<char>), Permission>;

    closed spec fn view(&self) -> Self::V {
        rows_map(self.rows@)
    }
}

/// What the matrix says for an agent and a tool: unknown is `None`.
pub open spec fn lookup(m: Map<(Seq<char>, Seq<char>), Permission>, agent: Seq<char>, tool: Seq<
    char,
>) -> Permission {
    if m.dom().contains((agent, tool)) {
        m[(agent, tool)]
    } else {
        Permission::Nothing
    }
}

/// The agents a matrix has any row for.
pub open spec fn agents_of(m: Map<(Seq<char>, Seq<char>), Permission>) -> Set<Seq<char>> {
    Set::new(|a: Seq<char>| exists|t: Seq<char>| m.dom().contains((a, t)))
}

impl PermissionMatrix {
    #[verifier::type_invariant]
    closed spec fn inv(self) -> bool {
        unique_keys(self.rows@)
    }

    pub closed spec fn rows_view(self) -> Seq<Grant> {
        self.rows@
    }

    pub fn new() -> (m: Self)
        ensures
            m@ == Map::<(Seq<char>, Seq<char>), Permission>::empty(),
    {
        PermissionMatrix { rows: Vec::new() }
    }

    pub fn set(&mut self, agent: &str, tool: &str, p: Permission)
        ensures
            final(self)@ == old(self)@.insert((agent@, tool@), p),
    {
        proof {
            use_type_invariant(&*self);
        }
        let a = chars_of(agent);
        let t = chars_of(tool);
        let ghost orig = self.rows@;
        let mut i: usize = 0;
        while i < self.rows.len()
            invariant
                i <= self.rows@.len(),
                a@ == agent@,
                t@ == tool@,
                self.rows@ == orig,
                orig == old(self).rows@,
                unique_keys(orig),
                forall|j: int| 0 <= j < i ==> key_of(self.rows@[j]) != (agent@, tool@),
            decreases self.rows.len() - i,
        {
            let ra = chars_of(self.rows[i].agent.as_str());
            let rt = chars_of(self.rows[i].tool.as_str());
            if crate::text::seq_eq(&ra, &a) && crate::text::seq_eq(&rt, &t) {
                let g = Grant { agent: copy_str(agent), tool: copy_str(tool), permission: p };
                proof {
                    lemma_rows_map_update(self.rows@, i as int, g);
                }
                let mut rows: Vec<Grant> = Vec::new();
                std::mem::swap(&mut rows, &mut self.rows);
                rows.set(i, g);
                self.rows = rows;
                return ;
            }
            i = i + 1;
        }
        let g = Grant { agent: copy_str(agent), tool: copy_str(tool), permission: p };
        let mut rows: Vec<Grant> = Vec::new();
                std::mem::swap(&mut rows, &mut self.rows);
        let ghost before = rows@;
        rows.push(g);
        proof {
            assert(rows@.drop_last() =~= before);
            assert(before == orig);
            assert forall|x: int, y: int| 0 <= x < y < rows@.len() implies key_of(rows@[x])
                != key_of(rows@[y]) by {
                if y == rows@.len() - 1 {
                    assert(key_of(rows@[x]) == key_of(orig[x]));
                } else {
                    assert(rows@[x] == orig[x] && rows@[y] == orig[y]);
                }
            }
        }
        self.rows = rows;
    }

    /// Unknown agent or unlisted tool is `None`, not `Full`: defaulting open
    /// would mean a typo in an agent id silently grants everything.
    pub fn get(&self, agent: &str, tool: &str) -> (r: Permission)
        ensures
            r == lookup(self@, agent@, tool@),
    {
        proof {
            use_type_invariant(self);
        }
        let a = chars_of(agent);
        let t = chars_of(tool);
        let mut i: usize = 0;
        while i < self.rows.len()
            invariant
                i <= self.rows@.len(),
                a@ == agent@,
                t@ == tool@,
                unique_keys(self.rows@),
                forall|j: int| 0 <= j < i ==> key_of(self.rows@[j]) != (agent@, tool@),
            decreases self.rows.len() - i,
        {
            let ra = chars_of(self.rows[i].agent.as_str());
            let rt = chars_of(self.rows[i].tool.as_str());
            if crate::text::seq_eq(&ra, &a) && crate::text::seq_eq(&rt, &t) {
                proof {
                    lemma_rows_map_at(self.rows@, i as int);
                }
                return self.rows[i].permission;
            }
            i = i + 1;
        }
        proof {
            lemma_rows_map_dom(self.rows@, (agent@, tool@));
        }
        Permission::Nothing
    }

    /// The agents this matrix knows about, sorted, each once.
    pub fn agents(&self) -> (r: Vec<String>)
        ensures
            strictly_sorted(views(r@)),
            views(r@).to_set() == agents_of(self@),
    {
        proof {
            use_type_invariant(self);
        }
        let mut out: Vec<String> = Vec::new();
        let mut i: usize = 0;
        while i < self.rows.len()
            invariant
                i <= self.rows@.len(),
                strictly_sorted(views(out@)),
                views(out@).to_set() == Set::new(
                    |a: Seq<char>| exists|j: int| 0 <= j < i && self.rows@[j].agent@ == a,
                ),
            decreases self.rows.len() - i,
        {
            let ghost before = views(out@).to_set();
            insert_sorted(&mut out, self.rows[i].agent.clone());
            i = i + 1;
            proof {
                assert(views(out@).to_set() =~= Set::new(
                    |a: Seq<char>| exists|j: int| 0 <= j < i && self.rows@[j].agent@ == a,
                )) by {
                    assert forall|a: Seq<char>| #[trigger]
                        views(out@).to_set().contains(a) implies exists|j: int|
                        0 <= j < i && self.rows@[j].agent@ == a by {
                        if a == self.rows@[i - 1].agent@ {
                        } else {
                            assert(before.contains(a));
                        }
                    }
                    assert forall|a: Seq<char>|
                        (exists|j: int| 0 <= j < i && self.rows@[j].agent@ == a) implies #[trigger]
                        views(out@).to_set().contains(a) by {
                        let j = choose|j: int| 0 <= j < i && self.rows@[j].agent@ == a;
                        if j < i - 1 {
                            assert(before.contains(a));
                        }
                    }
                }
            }
        }
        proof {
            assert(views(out@).to_set() =~= agents_of(self@)) by {
                assert forall|a: Seq<char>| #[trigger]
                    views(out@).to_set().contains(a) implies agents_of(self@).contains(a) by {
                    let j = choose|j: int| 0 <= j < self.rows@.len() && self.rows@[j].agent@ == a;
                    lemma_rows_map_dom(self.rows@, key_of(self.rows@[j]));
                    assert(self@.dom().contains((a, self.rows@[j].tool@)));
                }
                assert forall|a: Seq<char>|
                    agents_of(self@).contains(a) implies #[trigger] views(out@).to_set().contains(
                    a,
                ) by {
                    let t = choose|t: Seq<char>| self@.dom().contains((a, t));
                    lemma_rows_map_dom(self.rows@, (a, t));
                    let j = choose|j: int|
                        0 <= j < self.rows@.len() && key_of(self.rows@[j]) == (a, t);
                    assert(self.rows@[j].agent@ == a);
                }
            }
        }
        out
    }

    /// Everything one agent has, tool by tool.
    pub fn for_agent(&self, agent: &str) -> (r: Vec<(String, Permission)>)
        ensures
            forall|i: int|
                0 <= i < r@.len() ==> lookup(self@, agent@, #[trigger] r@[i].0@) == r@[i].1
                    && self@.dom().contains((agent@, r@[i].0@)),
            forall|t: Seq<char>|
                self@.dom().contains((agent@, t)) ==> exists|i: int|
                    0 <= i < r@.len() && #[trigger] r@[i].0@ == t,
            forall|i: int, j: int| 0 <= i < j < r@.len() ==> #[trigger] r@[i].0@ != #[trigger] r@[j].0@,
    {
        proof {
            use_type_invariant(self);
        }
        let a = chars_of(agent);
        let mut out: Vec<(String, Permission)> = Vec::new();
        let mut i: usize = 0;
        while i < self.rows.len()
            invariant
                i <= self.rows@.len(),
                a@ == agent@,
                unique_keys(self.rows@),
                forall|k: int|
                    0 <= k < out@.len() ==> exists|j: int|
                        0 <= j < i && self.rows@[j].agent@ == agent@ && self.rows@[j].tool@ == (
                        #[trigger] out@[k]).0@ && self.rows@[j].permission == out@[k].1,
                forall|j: int|
                    0 <= j < i && self.rows@[j].agent@ == agent@ ==> exists|k: int|
                        0 <= k < out@.len() && #[trigger] out@[k].0@ == self.rows@[j].tool@,
                forall|k1: int, k2: int|
                    0 <= k1 < k2 < out@.len() ==> #[trigger] out@[k1].0@ != #[trigger] out@[k2].0@,
            decreases self.rows.len() - i,
        {
            let ra = chars_of(self.rows[i].agent.as_str());
            if crate::text::seq_eq(&ra, &a) {
                let ghost before = out@;
                proof {
                    assert forall|k: int| 0 <= k < before.len() implies #[trigger] before[k].0@
                        != self.rows@[i as int].tool@ by {
                        let j = choose|j: int|
                            0 <= j < i && self.rows@[j].agent@ == agent@ && self.rows@[j].tool@ == (
                            #[trigger] out@[k]).0@ && self.rows@[j].permission == out@[k].1;
                        assert(key_of(self.rows@[j]) != key_of(self.rows@[i as int]));
                    }
                }
                out.push((self.rows[i].tool.clone(), self.rows[i].permission));
                proof {
                    assert forall|k: int| 0 <= k < out@.len() implies exists|j: int|
                        0 <= j < i + 1 && self.rows@[j].agent@ == agent@ && self.rows@[j].tool@
                            == (#[trigger] out@[k]).0@ && self.rows@[j].permission == out@[k].1 by {
                        if k < before.len() {
                            assert(before[k] == out@[k]);
                        } else {
                            assert(self.rows@[i as int].tool@ == out@[k].0@);
                        }
                    }
                    assert forall|j: int|
                        0 <= j < i + 1 && self.rows@[j].agent@ == agent@ implies exists|k: int|
                        0 <= k < out@.len() && #[trigger] out@[k].0@ == self.rows@[j].tool@ by {
                        if j < i {
                            let k = choose|k: int|
                                0 <= k < before.len() && #[trigger] before[k].0@
                                    == self.rows@[j].tool@;
                            assert(out@[k] == before[k]);
                        } else {
                            assert(out@[before.len() as int].0@ == self.rows@[j].tool@);
                        }
                    }
                    assert forall|k1: int, k2: int| 0 <= k1 < k2 < out@.len() implies #[trigger] out@[k1].0@
                        != #[trigger] out@[k2].0@ by {
                        assert(out@[k1] == before[k1]);
                        if k2 < before.len() {
                            assert(out@[k2] == before[k2]);
                        }
                    }
                }
            }
            i = i + 1;
        }
        proof {
            assert forall|k: int| 0 <= k < out@.len() implies lookup(
                self@,
                agent@,
                #[trigger] out@[k].0@,
            ) == out@[k].1 && self@.dom().contains((agent@, out@[k].0@)) by {
                let j = choose|j: int|
                    0 <= j < self.rows@.len() && self.rows@[j].agent@ == agent@
                        && self.rows@[j].tool@ == out@[k].0@ && self.rows@[j].permission
                        == out@[k].1;
                lemma_rows_map_at(self.rows@, j);
            }
            assert forall|t: Seq<char>| self@.dom().contains((agent@, t)) implies exists|k: int|
                0 <= k < out@.len() && #[trigger] out@[k].0@ == t by {
                lemma_rows_map_dom(self.rows@, (agent@, t));
                let j = choose|j: int|
                    0 <= j < self.rows@.len() && key_of(self.rows@[j]) == (agent@, t);
            }
        }
        out
    }
}

impl Default for PermissionMatrix {
    fn default() -> (m: Self)
        ensures
            m@ == Map::<(Seq<char>, Seq<char>), Permission>::empty(),
    {
        PermissionMatrix::new()
    }
}

/// What `set` records, `get` gives back, for that agent and tool only; every
/// other pair keeps what it had.
pub proof fn law_matrix_get_after_set(
    m: Map<(Seq<char>, Seq<char>), Permission>,
    agent: Seq<char>,
    tool: Seq<char>,
    p: Permission,
    other_agent: Seq<char>,
    other_tool: Seq<char>,
)
    ensures
        lookup(m.insert((agent, tool), p), agent, tool) == p,
        (other_agent, other_tool) != (agent, tool) ==> lookup(
            m.insert((agent, tool), p),
            other_agent,
            other_tool,
        ) == lookup(m, other_agent, other_tool),
{
}

/// An agent the matrix has never heard of gets nothing, whatever the tool.
pub proof fn law_unknown_agent_gets_nothing(
    m: Map<(Seq<char>, Seq<char>), Permission>,
    agent: Seq<char>,
    tool: Seq<char>,
)
    requires
        !agents_of(m).contains(agent),
    ensures
        lookup(m, agent, tool) == Permission::Nothing,
{
    if m.dom().contains((agent, tool)) {
        assert(agents_of(m).contains(agent));
    }
}

pub const TOOL_FILES: &'static str = "files";

pub const TOOL_GIT: &'static str = "git";

pub const TOOL_TERMINAL: &'static str = "terminal";

pub const TOOL_PROCESS: &'static str = "process";

pub const TOOL_TESTS: &'static str = "tests";

pub const TOOL_KNOWLEDGE: &'static str = "knowledge";

/// Orchestrator-only: hand a piece of work to a specialist agent.
pub const TOOL_DELEGATE: &'static str = "delegate";

/// Orchestrator-only: what the assistant remembers about you, across projects.
pub const TOOL_MEMORY: &'static str = "memory";

/// Tools the assistant executes itself rather than handing to a project's
/// tool service.
pub fn is_assistant_tool(tool: &str) -> (r: bool)
    ensures
        r == (tool@ == "delegate"@ || tool@ == "memory"@),
{
    str_eq(tool, TOOL_DELEGATE) || str_eq(tool, TOOL_MEMORY)
}

pub open spec fn wire(tool: Seq<char>, action: Seq<char>) -> Seq<char> {
    tool + seq!['_'] + action
}

/// The wire name for a tool action: `files` + `read` -> `files_read`.
pub fn wire_name(tool: &str, action: &str) -> (r: String)
    ensures
        r@ == wire(tool@, action@),
{
    let mut s = copy_str(tool);
    crate::text::push_char(&mut s, '_');
    push_str(&mut s, action);
    s
}

/// How a permission settles a call that needs a given access, before any
/// person or standing grant is consulted.
#[derive(Clone, Copy, Debug, PartialEq, Eq, Structural)]
pub enum Gate {
    Allow,
    /// `Read` permission, and the call writes.
    ReadOnly,
    /// `Approval`: a standing grant, or a person, decides.
    Ask,
    Deny,
}

pub open spec fn gate_spec(p: Permission, needed: Access) -> Gate {
    match p {
        Permission::Full => Gate::Allow,
        Permission::Read => if needed == Access::Read {
            Gate::Allow
        } else {
            Gate::ReadOnly
        },
        Permission::Approval => Gate::Ask,
        Permission::Nothing => Gate::Deny,
    }
}

pub fn gate(p: Permission, needed: Access) -> (r: Gate)
    ensures
        r == gate_spec(p, needed),
{
    match p {
        Permission::Full => Gate::Allow,
        Permission::Read => if needed == Access::Read {
            Gate::Allow
        } else {
            Gate::ReadOnly
        },
        Permission::Approval => Gate::Ask,
        Permission::Nothing => Gate::Deny,
    }
}

/// Where a call stands once its permission has been read.
#[derive(Debug, PartialEq, Eq)]
pub enum CallStep {
    /// It runs.
    Run,
    /// It is refused, and this is why.
    Refuse(String),
    /// A standing grant may answer before anyone is asked: claim one.
    Claim,
    /// Nobody has said yet: ask the person.
    AskPerson,
}

pub ghost enum CallStepV {
    Run,
    Refuse(Seq<char>),
    Claim,
    AskPerson,
}

impl View for CallStep {
    type V = CallStepV;

    open spec fn view(&self) -> CallStepV {
        match self {
            CallStep::Run => CallStepV::Run,
            CallStep::Refuse(m) => CallStepV::Refuse(m@),
            CallStep::Claim => CallStepV::Claim,
            CallStep::AskPerson => CallStepV::AskPerson,
        }
    }
}

/// What `agent` calling `action` on `tool`, needing `needed`, comes to with
/// permission `p`: only `Approval` consults anything further.
pub open spec fn call_step_spec(
    p: Permission,
    needed: Access,
    tool: Seq<char>,
    action: Seq<char>,
    agent: Seq<char>,
) -> CallStepV {
    match gate_spec(p, needed) {
        Gate::Allow => CallStepV::Run,
        Gate::ReadOnly => CallStepV::Refuse(
            "'"@ + tool + "' is read-only for "@ + agent + "; '"@ + action + "' writes"@,
        ),
        Gate::Ask => CallStepV::Claim,
        Gate::Deny => CallStepV::Refuse("'"@ + tool + "' is denied for "@ + agent),
    }
}

pub fn call_step(p: Permission, needed: Access, tool: &str, action: &str, agent: &str) -> (r: CallStep)
    ensures
        r@ == call_step_spec(p, needed, tool@, action@, agent@),
{
    match gate(p, needed) {
        Gate::Allow => CallStep::Run,
        Gate::ReadOnly => {
            let mut m = copy_str("'");
            push_str(&mut m, tool);
            push_str(&mut m, "' is read-only for ");
            push_str(&mut m, agent);
            push_str(&mut m, "; '");
            push_str(&mut m, action);
            push_str(&mut m, "' writes");
            CallStep::Refuse(m)
        },
        Gate::Ask => CallStep::Claim,
        Gate::Deny => {
            let mut m = copy_str("'");
            push_str(&mut m, tool);
            push_str(&mut m, "' is denied for ");
            push_str(&mut m, agent);
            CallStep::Refuse(m)
        },
    }
}

/// After a standing grant was looked for: one was claimed, and the call
/// runs; or nobody is there, for a call a clock started, and it is refused
/// at once rather than after the whole wait; or the person is asked.
pub open spec fn after_claim_spec(claimed: bool, unattended: bool, tool: Seq<char>) -> CallStepV {
    if claimed {
        CallStepV::Run
    } else if unattended {
        CallStepV::Refuse(
            "'"@ + tool
                + "' needed approval and this was started by a clock, so there was                              nobody to ask. Give it a standing grant if it should be allowed to                              do this unattended."@,
        )
    } else {
        CallStepV::AskPerson
    }
}

pub fn after_claim(claimed: bool, unattended: bool, tool: &str) -> (r: CallStep)
    ensures
        r@ == after_claim_spec(claimed, unattended, tool@),
{
    if claimed {
        CallStep::Run
    } else if unattended {
        let mut m = copy_str("'");
        push_str(&mut m, tool);
        push_str(
            &mut m,
            "' needed approval and this was started by a clock, so there was                              nobody to ask. Give it a standing grant if it should be allowed to                              do this unattended.",
        );
        CallStep::Refuse(m)
    } else {
        CallStep::AskPerson
    }
}

/// A write runs without anyone or anything else deciding only under `Full`;
/// every other permission refuses it or has it asked about.
pub proof fn law_a_write_runs_unasked_only_with_full(p: Permission, tool: Seq<char>, action: Seq<char>, agent: Seq<char>)
    ensures
        (call_step_spec(p, Access::Write, tool, action, agent) == CallStepV::Run) <==> p == Permission::Full,
        p == Permission::Nothing ==> call_step_spec(p, Access::Read, tool, action, agent) is Refuse,
{
}

/// What each permission does to a call, whatever it needs: `Full` runs it;
/// `Read` runs a read and refuses a write, saying so; `Approval` never
/// decides alone, so every call, a read too, goes to a standing grant or a
/// person; `Nothing` refuses it. A call runs unasked exactly when the
/// permission covers the access it needs.
pub proof fn law_each_permission_decides_as_it_says(
    p: Permission,
    needed: Access,
    tool: Seq<char>,
    action: Seq<char>,
    agent: Seq<char>,
)
    ensures
        call_step_spec(Permission::Full, needed, tool, action, agent) == CallStepV::Run,
        call_step_spec(Permission::Read, Access::Read, tool, action, agent) == CallStepV::Run,
        call_step_spec(Permission::Read, Access::Write, tool, action, agent) == CallStepV::Refuse(
            "'"@ + tool + "' is read-only for "@ + agent + "; '"@ + action + "' writes"@,
        ),
        call_step_spec(Permission::Approval, needed, tool, action, agent) == CallStepV::Claim,
        gate_spec(Permission::Approval, needed) == Gate::Ask,
        call_step_spec(Permission::Nothing, needed, tool, action, agent) == CallStepV::Refuse(
            "'"@ + tool + "' is denied for "@ + agent,
        ),
        (call_step_spec(p, needed, tool, action, agent) == CallStepV::Run) <==> (p == Permission::Full || (p
            == Permission::Read && needed == Access::Read)),
        (call_step_spec(p, needed, tool, action, agent) == CallStepV::Claim) <==> p == Permission::Approval,
{
}

/// A call a clock started never waits for a person: with no grant it is
/// refused at once.
pub proof fn law_nobody_is_asked_when_nobody_is_there(claimed: bool, tool: Seq<char>)
    ensures
        after_claim_spec(claimed, true, tool) != CallStepV::AskPerson,
        !claimed ==> after_claim_spec(claimed, true, tool) is Refuse,
{
}

/// A separator in a path: `/`, or `\` as Windows also reads it.
pub open spec fn is_sep(c: char) -> bool {
    c == '/' || c == '\\'
}

fn is_sep_char(c: char) -> (r: bool)
    ensures
        r == is_sep(c),
{
    c == '/' || c == '\\'
}

/// A `..` part at `i`: two dots, with a separator or an end on each side.
pub open spec fn parent_part_at(s: Seq<char>, i: int) -> bool {
    &&& 0 <= i
    &&& i + 2 <= s.len()
    &&& s[i] == '.'
    &&& s[i + 1] == '.'
    &&& (i == 0 || is_sep(s[i - 1]))
    &&& (i + 2 == s.len() || is_sep(s[i + 2]))
}

/// A path that does not start inside the project: one that starts with a
/// separator (the root of a drive, or `\\` for a share), or with a drive
/// letter and `:`.
pub open spec fn rooted(rel: Seq<char>) -> bool {
    ||| rel.len() > 0 && is_sep(rel[0])
    ||| rel.len() >= 2 && rel[1] == ':' && (('a' <= rel[0] && rel[0] <= 'z') || ('A' <= rel[0]
        && rel[0] <= 'Z'))
}

/// Whether a path given to a tool stays inside the project, with `/` and
/// `\` both read as separators: one that does not start inside the project
/// is refused, and so is one with a `..` part, which could climb out.
pub open spec fn project_path_spec(rel: Seq<char>) -> Result<(), Seq<char>> {
    if rooted(rel) {
        Err("path must be project-relative: "@ + rel)
    } else if exists|i: int| parent_part_at(rel, i) {
        Err("path escapes the project: "@ + rel)
    } else {
        Ok(())
    }
}

/// Check a path a tool was given before anything is read or written there.
pub fn project_path(rel: &str) -> (r: Result<(), String>)
    ensures
        match (r, project_path_spec(rel@)) {
            (Ok(()), Ok(())) => true,
            (Err(e), Err(ev)) => e@ == ev,
            _ => false,
        },
{
    let v = chars_of(rel);
    let drive = v.len() >= 2 && v[1] == ':' && (('a' <= v[0] && v[0] <= 'z') || ('A' <= v[0] && v[0]
        <= 'Z'));
    if (v.len() > 0 && is_sep_char(v[0])) || drive {
        let mut e = copy_str("path must be project-relative: ");
        push_str(&mut e, rel);
        return Err(e);
    }
    let mut i: usize = 0;
    while i < v.len()
        invariant
            v@ == rel@,
            i <= v.len(),
            !rooted(rel@),
            forall|j: int| 0 <= j < i ==> !parent_part_at(rel@, j),
        decreases v.len() - i,
    {
        if i + 1 < v.len() && v[i] == '.' && v[i + 1] == '.' && (i == 0 || is_sep_char(v[i - 1])) && (i
            + 2 == v.len() || is_sep_char(v[i + 2])) {
            assert(parent_part_at(rel@, i as int));
            let mut e = copy_str("path escapes the project: ");
            push_str(&mut e, rel);
            return Err(e);
        }
        i = i + 1;
    }
    assert forall|j: int| !parent_part_at(rel@, j) by {
        if 0 <= j < i {
        }
    }
    Ok(())
}

#[derive(Debug)]
/// One argument in an action's schema.
pub struct Param {
    pub name: String,
    /// string | integer | array (of strings)
    pub kind: String,
    /// Empty when the schema gives none.
    pub description: String,
    pub minimum: Option<u64>,
    pub maximum: Option<u64>,
}

#[derive(Debug)]
/// An action's argument schema: an object with these properties, of which
/// `required` must be present, and no others.
pub struct Params {
    pub props: Vec<Param>,
    pub required: Vec<String>,
}

#[derive(Debug)]
/// One callable action on a tool, with the schema a model needs to call it.
pub struct ToolAction {
    pub name: String,
    pub description: String,
    /// Whether this action reads or writes.
    pub access: Access,
    pub params: Params,
}

#[derive(Debug)]
pub struct ToolInfo {
    pub id: String,
    pub name: String,
    pub description: String,
    pub actions: Vec<ToolAction>,
}

pub ghost struct ParamV {
    pub name: Seq<char>,
    pub kind: Seq<char>,
    pub description: Seq<char>,
    pub minimum: Option<u64>,
    pub maximum: Option<u64>,
}

pub ghost struct ParamsV {
    pub props: Seq<ParamV>,
    pub required: Seq<Seq<char>>,
}

pub ghost struct ActionV {
    pub name: Seq<char>,
    pub description: Seq<char>,
    pub access: Access,
    pub params: ParamsV,
}

pub ghost struct ToolInfoV {
    pub id: Seq<char>,
    pub name: Seq<char>,
    pub description: Seq<char>,
    pub actions: Seq<ActionV>,
}

impl View for Param {
    type V = ParamV;

    open spec fn view(&self) -> ParamV {
        ParamV {
            name: self.name@,
            kind: self.kind@,
            description: self.description@,
            minimum: self.minimum,
            maximum: self.maximum,
        }
    }
}

impl View for Params {
    type V = ParamsV;

    open spec fn view(&self) -> ParamsV {
        ParamsV {
            props: self.props@.map_values(|p: Param| p@),
            required: views(self.required@),
        }
    }
}

impl View for ToolAction {
    type V = ActionV;

    open spec fn view(&self) -> ActionV {
        ActionV {
            name: self.name@,
            description: self.description@,
            access: self.access,
            params: self.params@,
        }
    }
}

impl View for ToolInfo {
    type V = ToolInfoV;

    open spec fn view(&self) -> ToolInfoV {
        ToolInfoV {
            id: self.id@,
            name: self.name@,
            description: self.description@,
            actions: self.actions@.map_values(|a: ToolAction| a@),
        }
    }
}

pub open spec fn tools_view(v: Seq<ToolInfo>) -> Seq<ToolInfoV> {
    v.map_values(|t: ToolInfo| t@)
}

pub open spec fn param_v(
    name: Seq<char>,
    kind: Seq<char>,
    description: Seq<char>,
    minimum: Option<u64>,
    maximum: Option<u64>,
) -> ParamV {
    ParamV { name, kind, description, minimum, maximum }
}

pub open spec fn params_v(props: Seq<ParamV>, required: Seq<Seq<char>>) -> ParamsV {
    ParamsV { props, required }
}

pub open spec fn action_v(
    name: Seq<char>,
    description: Seq<char>,
    access: Access,
    params: ParamsV,
) -> ActionV {
    ActionV { name, description, access, params }
}

pub open spec fn tool_v(
    id: Seq<char>,
    name: Seq<char>,
    description: Seq<char>,
    actions: Seq<ActionV>,
) -> ToolInfoV {
    ToolInfoV { id, name, description, actions }
}

fn param(
    name: &str,
    kind: &str,
    description: &str,
    minimum: Option<u64>,
    maximum: Option<u64>,
) -> (r: Param)
    ensures
        r@ == param_v(name@, kind@, description@, minimum, maximum),
{
    Param {
        name: name.to_owned(),
        kind: kind.to_owned(),
        description: description.to_owned(),
        minimum,
        maximum,
    }
}

fn action(name: &str, description: &str, access: Access, params: Params) -> (r: ToolAction)
    ensures
        r@ == action_v(name@, description@, access, params@),
{
    ToolAction { name: name.to_owned(), description: description.to_owned(), access, params }
}

pub open spec fn files_tool_v() -> ToolInfoV {
    tool_v("files"@, "Files"@, "Read and write files inside the project"@, seq![
        action_v("read"@, "Read a file's contents."@, Access::Read, params_v(seq![param_v("path"@, "string"@, "Project-relative path. Absolute paths and .. are refused."@, None, None)], seq!["path"@])),
        action_v("list"@, "List a directory."@, Access::Read, params_v(seq![param_v("path"@, "string"@, "Project-relative path. Absolute paths and .. are refused."@, None, None)], seq!["path"@])),
        action_v("write"@, "Write a file, creating parent directories as needed."@, Access::Write, params_v(seq![param_v("path"@, "string"@, "Project-relative path."@, None, None), param_v("content"@, "string"@, "Full new contents of the file."@, None, None)], seq!["path"@, "content"@])),
    ])
}

pub open spec fn git_tool_v() -> ToolInfoV {
    tool_v("git"@, "Git"@, "Status, log, diff and DevDeck-attributed commits"@, seq![
        action_v("status"@, "Paths with uncommitted changes."@, Access::Read, params_v(seq![], seq![])),
        action_v("log"@, "Recent commits, newest first."@, Access::Read, params_v(seq![param_v("limit"@, "integer"@, ""@, Some(1u64), Some(100u64))], seq![])),
        action_v("diff"@, "Paths that differ between two commits."@, Access::Read, params_v(seq![param_v("from"@, "string"@, "Base commit."@, None, None), param_v("to"@, "string"@, "Defaults to HEAD."@, None, None)], seq!["from"@])),
        action_v("commit"@, "Stage paths and commit, attributed to the calling agent."@, Access::Write, params_v(seq![param_v("message"@, "string"@, ""@, None, None), param_v("paths"@, "array"@, ""@, None, None)], seq!["message"@])),
    ])
}

pub open spec fn terminal_tool_v() -> ToolInfoV {
    tool_v("terminal"@, "Terminal"@, "Run a command in the project directory"@, seq![
        action_v("run"@, "Run a shell command in the project root and return its output."@, Access::Write, params_v(seq![param_v("command"@, "string"@, "The command line to run."@, None, None)], seq!["command"@])),
    ])
}

pub open spec fn process_tool_v() -> ToolInfoV {
    tool_v("process"@, "Process"@, "Start, stop and inspect the project's application"@, seq![
        action_v("start"@, "Start the app, defaulting to the dev command in .devdeck/config/app.yaml."@, Access::Write, params_v(seq![param_v("command"@, "string"@, ""@, None, None)], seq![])),
        action_v("status"@, "Whether the app is running."@, Access::Read, params_v(seq![], seq![])),
        action_v("logs"@, "Output captured from the app."@, Access::Read, params_v(seq![], seq![])),
        action_v("stop"@, "Stop the app."@, Access::Write, params_v(seq![], seq![])),
    ])
}

pub open spec fn tests_tool_v() -> ToolInfoV {
    tool_v("tests"@, "Tests"@, "Run the project's configured test command"@, seq![
        action_v("run"@, "Run the test command from .devdeck/config/app.yaml."@, Access::Write, params_v(seq![param_v("command"@, "string"@, ""@, None, None)], seq![])),
    ])
}

pub open spec fn knowledge_tool_v() -> ToolInfoV {
    tool_v("knowledge"@, "Knowledge"@, "Search .devdeck knowledge and decisions"@, seq![
        action_v("search"@, "Find .devdeck documents containing a phrase."@, Access::Read, params_v(seq![param_v("query"@, "string"@, ""@, None, None)], seq![])),
    ])
}

pub open spec fn delegate_tool_v() -> ToolInfoV {
    tool_v("delegate"@, "Delegate"@, "Hand work to a specialist agent and check on it"@, seq![
        action_v("start"@, "Start a specialist agent on a feature. Returns immediately                      with a session id; the agent keeps working in the background."@, Access::Write, params_v(seq![param_v("agent_id"@, "string"@, "Which agent, e.g. dev-a, qa, architect."@, None, None), param_v("feature_id"@, "string"@, "Feature slug the work belongs to."@, None, None), param_v("work_item_id"@, "string"@, "Optional work item within the feature."@, None, None), param_v("intent"@, "string"@, "One line describing what it should achieve."@, None, None)], seq!["agent_id"@, "feature_id"@])),
        action_v("status"@, "Sessions that are running or have recently finished."@, Access::Read, params_v(seq![], seq![])),
    ])
}

pub open spec fn memory_tool_v() -> ToolInfoV {
    tool_v("memory"@, "Memory"@, "Durable notes about you, kept outside any repository"@, seq![
        action_v("list"@, "Everything currently remembered."@, Access::Read, params_v(seq![], seq![])),
        action_v("save"@, "Remember something for later. Goes to the personal store,                      never into a project's committed .devdeck."@, Access::Write, params_v(seq![param_v("title"@, "string"@, "One line naming the note."@, None, None), param_v("body"@, "string"@, "What to remember."@, None, None), param_v("project_id"@, "string"@, "Optional project this is about."@, None, None), param_v("tags"@, "array"@, ""@, None, None)], seq!["title"@, "body"@])),
        action_v("forget"@, "Delete a note by id."@, Access::Write, params_v(seq![param_v("id"@, "string"@, ""@, None, None)], seq!["id"@])),
    ])
}

pub open spec fn registry_v() -> Seq<ToolInfoV> {
    seq![files_tool_v(), git_tool_v(), terminal_tool_v(), process_tool_v(), tests_tool_v(), knowledge_tool_v(), delegate_tool_v(), memory_tool_v()]
}

fn files_tool() -> (r: ToolInfo)
    ensures
        r@ == files_tool_v(),
{
    let mut acts: Vec<ToolAction> = Vec::new();
    {
        let mut ps: Vec<Param> = Vec::new();
        ps.push(param("path", "string", "Project-relative path. Absolute paths and .. are refused.", None, None));
        let mut rq: Vec<String> = Vec::new();
        rq.push("path".to_owned());
        assert(ps@.map_values(|p: Param| p@) =~= seq![param_v("path"@, "string"@, "Project-relative path. Absolute paths and .. are refused."@, None, None)]);
        assert(views(rq@) =~= seq!["path"@]);
        acts.push(action("read", "Read a file's contents.", Access::Read, Params { props: ps, required: rq }));
    }
    {
        let mut ps: Vec<Param> = Vec::new();
        ps.push(param("path", "string", "Project-relative path. Absolute paths and .. are refused.", None, None));
        let mut rq: Vec<String> = Vec::new();
        rq.push("path".to_owned());
        assert(ps@.map_values(|p: Param| p@) =~= seq![param_v("path"@, "string"@, "Project-relative path. Absolute paths and .. are refused."@, None, None)]);
        assert(views(rq@) =~= seq!["path"@]);
        acts.push(action("list", "List a directory.", Access::Read, Params { props: ps, required: rq }));
    }
    {
        let mut ps: Vec<Param> = Vec::new();
        ps.push(param("path", "string", "Project-relative path.", None, None));
        ps.push(param("content", "string", "Full new contents of the file.", None, None));
        let mut rq: Vec<String> = Vec::new();
        rq.push("path".to_owned());
        rq.push("content".to_owned());
        assert(ps@.map_values(|p: Param| p@) =~= seq![param_v("path"@, "string"@, "Project-relative path."@, None, None), param_v("content"@, "string"@, "Full new contents of the file."@, None, None)]);
        assert(views(rq@) =~= seq!["path"@, "content"@]);
        acts.push(action("write", "Write a file, creating parent directories as needed.", Access::Write, Params { props: ps, required: rq }));
    }
    assert(acts@.map_values(|a: ToolAction| a@) =~= files_tool_v().actions);
    let r = ToolInfo { id: "files".to_owned(), name: "Files".to_owned(), description: "Read and write files inside the project".to_owned(), actions: acts };
    assert(r@ =~= files_tool_v());
    r
}

fn git_tool() -> (r: ToolInfo)
    ensures
        r@ == git_tool_v(),
{
    let mut acts: Vec<ToolAction> = Vec::new();
    {
        let mut ps: Vec<Param> = Vec::new();
        let mut rq: Vec<String> = Vec::new();
        assert(ps@.map_values(|p: Param| p@) =~= seq![]);
        assert(views(rq@) =~= seq![]);
        acts.push(action("status", "Paths with uncommitted changes.", Access::Read, Params { props: ps, required: rq }));
    }
    {
        let mut ps: Vec<Param> = Vec::new();
        ps.push(param("limit", "integer", "", Some(1u64), Some(100u64)));
        let mut rq: Vec<String> = Vec::new();
        assert(ps@.map_values(|p: Param| p@) =~= seq![param_v("limit"@, "integer"@, ""@, Some(1u64), Some(100u64))]);
        assert(views(rq@) =~= seq![]);
        acts.push(action("log", "Recent commits, newest first.", Access::Read, Params { props: ps, required: rq }));
    }
    {
        let mut ps: Vec<Param> = Vec::new();
        ps.push(param("from", "string", "Base commit.", None, None));
        ps.push(param("to", "string", "Defaults to HEAD.", None, None));
        let mut rq: Vec<String> = Vec::new();
        rq.push("from".to_owned());
        assert(ps@.map_values(|p: Param| p@) =~= seq![param_v("from"@, "string"@, "Base commit."@, None, None), param_v("to"@, "string"@, "Defaults to HEAD."@, None, None)]);
        assert(views(rq@) =~= seq!["from"@]);
        acts.push(action("diff", "Paths that differ between two commits.", Access::Read, Params { props: ps, required: rq }));
    }
    {
        let mut ps: Vec<Param> = Vec::new();
        ps.push(param("message", "string", "", None, None));
        ps.push(param("paths", "array", "", None, None));
        let mut rq: Vec<String> = Vec::new();
        rq.push("message".to_owned());
        assert(ps@.map_values(|p: Param| p@) =~= seq![param_v("message"@, "string"@, ""@, None, None), param_v("paths"@, "array"@, ""@, None, None)]);
        assert(views(rq@) =~= seq!["message"@]);
        acts.push(action("commit", "Stage paths and commit, attributed to the calling agent.", Access::Write, Params { props: ps, required: rq }));
    }
    assert(acts@.map_values(|a: ToolAction| a@) =~= git_tool_v().actions);
    let r = ToolInfo { id: "git".to_owned(), name: "Git".to_owned(), description: "Status, log, diff and DevDeck-attributed commits".to_owned(), actions: acts };
    assert(r@ =~= git_tool_v());
    r
}

fn terminal_tool() -> (r: ToolInfo)
    ensures
        r@ == terminal_tool_v(),
{
    let mut acts: Vec<ToolAction> = Vec::new();
    {
        let mut ps: Vec<Param> = Vec::new();
        ps.push(param("command", "string", "The command line to run.", None, None));
        let mut rq: Vec<String> = Vec::new();
        rq.push("command".to_owned());
        assert(ps@.map_values(|p: Param| p@) =~= seq![param_v("command"@, "string"@, "The command line to run."@, None, None)]);
        assert(views(rq@) =~= seq!["command"@]);
        acts.push(action("run", "Run a shell command in the project root and return its output.", Access::Write, Params { props: ps, required: rq }));
    }
    assert(acts@.map_values(|a: ToolAction| a@) =~= terminal_tool_v().actions);
    let r = ToolInfo { id: "terminal".to_owned(), name: "Terminal".to_owned(), description: "Run a command in the project directory".to_owned(), actions: acts };
    assert(r@ =~= terminal_tool_v());
    r
}

fn process_tool() -> (r: ToolInfo)
    ensures
        r@ == process_tool_v(),
{
    let mut acts: Vec<ToolAction> = Vec::new();
    {
        let mut ps: Vec<Param> = Vec::new();
        ps.push(param("command", "string", "", None, None));
        let mut rq: Vec<String> = Vec::new();
        assert(ps@.map_values(|p: Param| p@) =~= seq![param_v("command"@, "string"@, ""@, None, None)]);
        assert(views(rq@) =~= seq![]);
        acts.push(action("start", "Start the app, defaulting to the dev command in .devdeck/config/app.yaml.", Access::Write, Params { props: ps, required: rq }));
    }
    {
        let mut ps: Vec<Param> = Vec::new();
        let mut rq: Vec<String> = Vec::new();
        assert(ps@.map_values(|p: Param| p@) =~= seq![]);
        assert(views(rq@) =~= seq![]);
        acts.push(action("status", "Whether the app is running.", Access::Read, Params { props: ps, required: rq }));
    }
    {
        let mut ps: Vec<Param> = Vec::new();
        let mut rq: Vec<String> = Vec::new();
        assert(ps@.map_values(|p: Param| p@) =~= seq![]);
        assert(views(rq@) =~= seq![]);
        acts.push(action("logs", "Output captured from the app.", Access::Read, Params { props: ps, required: rq }));
    }
    {
        let mut ps: Vec<Param> = Vec::new();
        let mut rq: Vec<String> = Vec::new();
        assert(ps@.map_values(|p: Param| p@) =~= seq![]);
        assert(views(rq@) =~= seq![]);
        acts.push(action("stop", "Stop the app.", Access::Write, Params { props: ps, required: rq }));
    }
    assert(acts@.map_values(|a: ToolAction| a@) =~= process_tool_v().actions);
    let r = ToolInfo { id: "process".to_owned(), name: "Process".to_owned(), description: "Start, stop and inspect the project's application".to_owned(), actions: acts };
    assert(r@ =~= process_tool_v());
    r
}

fn tests_tool() -> (r: ToolInfo)
    ensures
        r@ == tests_tool_v(),
{
    let mut acts: Vec<ToolAction> = Vec::new();
    {
        let mut ps: Vec<Param> = Vec::new();
        ps.push(param("command", "string", "", None, None));
        let mut rq: Vec<String> = Vec::new();
        assert(ps@.map_values(|p: Param| p@) =~= seq![param_v("command"@, "string"@, ""@, None, None)]);
        assert(views(rq@) =~= seq![]);
        acts.push(action("run", "Run the test command from .devdeck/config/app.yaml.", Access::Write, Params { props: ps, required: rq }));
    }
    assert(acts@.map_values(|a: ToolAction| a@) =~= tests_tool_v().actions);
    let r = ToolInfo { id: "tests".to_owned(), name: "Tests".to_owned(), description: "Run the project's configured test command".to_owned(), actions: acts };
    assert(r@ =~= tests_tool_v());
    r
}

fn knowledge_tool() -> (r: ToolInfo)
    ensures
        r@ == knowledge_tool_v(),
{
    let mut acts: Vec<ToolAction> = Vec::new();
    {
        let mut ps: Vec<Param> = Vec::new();
        ps.push(param("query", "string", "", None, None));
        let mut rq: Vec<String> = Vec::new();
        assert(ps@.map_values(|p: Param| p@) =~= seq![param_v("query"@, "string"@, ""@, None, None)]);
        assert(views(rq@) =~= seq![]);
        acts.push(action("search", "Find .devdeck documents containing a phrase.", Access::Read, Params { props: ps, required: rq }));
    }
    assert(acts@.map_values(|a: ToolAction| a@) =~= knowledge_tool_v().actions);
    let r = ToolInfo { id: "knowledge".to_owned(), name: "Knowledge".to_owned(), description: "Search .devdeck knowledge and decisions".to_owned(), actions: acts };
    assert(r@ =~= knowledge_tool_v());
    r
}

fn delegate_tool() -> (r: ToolInfo)
    ensures
        r@ == delegate_tool_v(),
{
    let mut acts: Vec<ToolAction> = Vec::new();
    {
        let mut ps: Vec<Param> = Vec::new();
        ps.push(param("agent_id", "string", "Which agent, e.g. dev-a, qa, architect.", None, None));
        ps.push(param("feature_id", "string", "Feature slug the work belongs to.", None, None));
        ps.push(param("work_item_id", "string", "Optional work item within the feature.", None, None));
        ps.push(param("intent", "string", "One line describing what it should achieve.", None, None));
        let mut rq: Vec<String> = Vec::new();
        rq.push("agent_id".to_owned());
        rq.push("feature_id".to_owned());
        assert(ps@.map_values(|p: Param| p@) =~= seq![param_v("agent_id"@, "string"@, "Which agent, e.g. dev-a, qa, architect."@, None, None), param_v("feature_id"@, "string"@, "Feature slug the work belongs to."@, None, None), param_v("work_item_id"@, "string"@, "Optional work item within the feature."@, None, None), param_v("intent"@, "string"@, "One line describing what it should achieve."@, None, None)]);
        assert(views(rq@) =~= seq!["agent_id"@, "feature_id"@]);
        acts.push(action("start", "Start a specialist agent on a feature. Returns immediately                      with a session id; the agent keeps working in the background.", Access::Write, Params { props: ps, required: rq }));
    }
    {
        let mut ps: Vec<Param> = Vec::new();
        let mut rq: Vec<String> = Vec::new();
        assert(ps@.map_values(|p: Param| p@) =~= seq![]);
        assert(views(rq@) =~= seq![]);
        acts.push(action("status", "Sessions that are running or have recently finished.", Access::Read, Params { props: ps, required: rq }));
    }
    assert(acts@.map_values(|a: ToolAction| a@) =~= delegate_tool_v().actions);
    let r = ToolInfo { id: "delegate".to_owned(), name: "Delegate".to_owned(), description: "Hand work to a specialist agent and check on it".to_owned(), actions: acts };
    assert(r@ =~= delegate_tool_v());
    r
}

fn memory_tool() -> (r: ToolInfo)
    ensures
        r@ == memory_tool_v(),
{
    let mut acts: Vec<ToolAction> = Vec::new();
    {
        let mut ps: Vec<Param> = Vec::new();
        let mut rq: Vec<String> = Vec::new();
        assert(ps@.map_values(|p: Param| p@) =~= seq![]);
        assert(views(rq@) =~= seq![]);
        acts.push(action("list", "Everything currently remembered.", Access::Read, Params { props: ps, required: rq }));
    }
    {
        let mut ps: Vec<Param> = Vec::new();
        ps.push(param("title", "string", "One line naming the note.", None, None));
        ps.push(param("body", "string", "What to remember.", None, None));
        ps.push(param("project_id", "string", "Optional project this is about.", None, None));
        ps.push(param("tags", "array", "", None, None));
        let mut rq: Vec<String> = Vec::new();
        rq.push("title".to_owned());
        rq.push("body".to_owned());
        assert(ps@.map_values(|p: Param| p@) =~= seq![param_v("title"@, "string"@, "One line naming the note."@, None, None), param_v("body"@, "string"@, "What to remember."@, None, None), param_v("project_id"@, "string"@, "Optional project this is about."@, None, None), param_v("tags"@, "array"@, ""@, None, None)]);
        assert(views(rq@) =~= seq!["title"@, "body"@]);
        acts.push(action("save", "Remember something for later. Goes to the personal store,                      never into a project's committed .devdeck.", Access::Write, Params { props: ps, required: rq }));
    }
    {
        let mut ps: Vec<Param> = Vec::new();
        ps.push(param("id", "string", "", None, None));
        let mut rq: Vec<String> = Vec::new();
        rq.push("id".to_owned());
        assert(ps@.map_values(|p: Param| p@) =~= seq![param_v("id"@, "string"@, ""@, None, None)]);
        assert(views(rq@) =~= seq!["id"@]);
        acts.push(action("forget", "Delete a note by id.", Access::Write, Params { props: ps, required: rq }));
    }
    assert(acts@.map_values(|a: ToolAction| a@) =~= memory_tool_v().actions);
    let r = ToolInfo { id: "memory".to_owned(), name: "Memory".to_owned(), description: "Durable notes about you, kept outside any repository".to_owned(), actions: acts };
    assert(r@ =~= memory_tool_v());
    r
}

/// Every tool an agent can be given, and each of its actions with the
/// access it needs and the schema a model calls it with.
pub fn registry() -> (r: Vec<ToolInfo>)
    ensures
        tools_view(r@) == registry_v(),
{
    let mut r: Vec<ToolInfo> = Vec::new();
    r.push(files_tool());
    r.push(git_tool());
    r.push(terminal_tool());
    r.push(process_tool());
    r.push(tests_tool());
    r.push(knowledge_tool());
    r.push(delegate_tool());
    r.push(memory_tool());
    assert(tools_view(r@) =~= registry_v());
    r
}

pub open spec fn find_tool(ts: Seq<ToolInfoV>, id: Seq<char>) -> Option<ToolInfoV>
    decreases ts.len(),
{
    if ts.len() == 0 {
        None
    } else if ts[0].id == id {
        Some(ts[0])
    } else {
        find_tool(ts.drop_first(), id)
    }
}

pub open spec fn find_action(acts: Seq<ActionV>, name: Seq<char>) -> Option<ActionV>
    decreases acts.len(),
{
    if acts.len() == 0 {
        None
    } else if acts[0].name == name {
        Some(acts[0])
    } else {
        find_action(acts.drop_first(), name)
    }
}

/// What the registry says an action needs. An unknown tool or action is a
/// write: guessing "read" for something unrecognised would let it be granted
/// against any arguments.
pub open spec fn access_spec(tool: Seq<char>, action: Seq<char>) -> Access {
    match find_tool(registry_v(), tool) {
        Some(t) => match find_action(t.actions, action) {
            Some(a) => a.access,
            None => Access::Write,
        },
        None => Access::Write,
    }
}

fn find_tool_exec(ts: &Vec<ToolInfo>, id: &str) -> (r: Option<usize>)
    ensures
        match r {
            Some(i) => i < ts.len() && find_tool(tools_view(ts@), id@) == Some(ts@[i as int]@),
            None => find_tool(tools_view(ts@), id@) is None,
        },
{
    let key = chars_of(id);
    let mut i: usize = 0;
    assert(tools_view(ts@).subrange(0, ts.len() as int) =~= tools_view(ts@));
    while i < ts.len()
        invariant
            i <= ts.len(),
            key@ == id@,
            find_tool(tools_view(ts@), id@) == find_tool(tools_view(ts@).subrange(
                i as int,
                ts.len() as int,
            ), id@),
        decreases ts.len() - i,
    {
        let v = chars_of(ts[i].id.as_str());
        let ghost rest = tools_view(ts@).subrange(i as int, ts.len() as int);
        assert(rest[0] == ts@[i as int]@);
        if crate::text::seq_eq(&v, &key) {
            return Some(i);
        }
        assert(rest.drop_first() =~= tools_view(ts@).subrange(i + 1, ts.len() as int));
        i = i + 1;
    }
    None
}

fn find_action_exec(acts: &Vec<ToolAction>, name: &str) -> (r: Option<usize>)
    ensures
        match r {
            Some(i) => i < acts.len() && find_action(acts@.map_values(|a: ToolAction| a@), name@)
                == Some(acts@[i as int]@),
            None => find_action(acts@.map_values(|a: ToolAction| a@), name@) is None,
        },
{
    let key = chars_of(name);
    let ghost all = acts@.map_values(|a: ToolAction| a@);
    let mut i: usize = 0;
    assert(all.subrange(0, acts.len() as int) =~= all);
    while i < acts.len()
        invariant
            i <= acts.len(),
            key@ == name@,
            all == acts@.map_values(|a: ToolAction| a@),
            find_action(all, name@) == find_action(all.subrange(i as int, acts.len() as int), name@),
        decreases acts.len() - i,
    {
        let v = chars_of(acts[i].name.as_str());
        let ghost rest = all.subrange(i as int, acts.len() as int);
        assert(rest[0] == acts@[i as int]@);
        if crate::text::seq_eq(&v, &key) {
            return Some(i);
        }
        assert(rest.drop_first() =~= all.subrange(i + 1, acts.len() as int));
        i = i + 1;
    }
    None
}

/// Whether an action reads or writes, from the registry rather than a second
/// hand-written list.
pub fn access_for(tool: &str, action: &str) -> (r: Access)
    ensures
        r == access_spec(tool@, action@),
{
    let reg = registry();
    assert(tools_view(reg@).subrange(0, reg@.len() as int) =~= tools_view(reg@));
    match find_tool_exec(&reg, tool) {
        Some(i) => match find_action_exec(&reg[i].actions, action) {
            Some(j) => reg[i].actions[j].access,
            None => Access::Write,
        },
        None => Access::Write,
    }
}

/// Which access a call needs; the same answer `access_for` gives.
pub fn required_access(tool: &str, action: &str) -> (r: Access)
    ensures
        r == access_spec(tool@, action@),
{
    access_for(tool, action)
}

fn clone_param(p: &Param) -> (r: Param)
    ensures
        r@ == p@,
{
    Param {
        name: p.name.clone(),
        kind: p.kind.clone(),
        description: p.description.clone(),
        minimum: p.minimum,
        maximum: p.maximum,
    }
}

fn clone_strings(v: &Vec<String>) -> (r: Vec<String>)
    ensures
        views(r@) == views(v@),
{
    let mut r: Vec<String> = Vec::new();
    let mut i: usize = 0;
    while i < v.len()
        invariant
            i <= v.len(),
            views(r@) == views(v@).subrange(0, i as int),
        decreases v.len() - i,
    {
        let c = v[i].clone();
        assert(c@ == v@[i as int]@);
        let ghost before = r@;
        r.push(c);
        i = i + 1;
        assert(views(r@) =~= views(before).push(c@));
        assert(views(r@) =~= views(v@).subrange(0, i as int));
    }
    assert(views(v@).subrange(0, v.len() as int) =~= views(v@));
    r
}

fn clone_params(p: &Params) -> (r: Params)
    ensures
        r@ == p@,
{
    let mut props: Vec<Param> = Vec::new();
    let mut i: usize = 0;
    while i < p.props.len()
        invariant
            i <= p.props.len(),
            props@.map_values(|x: Param| x@) == p.props@.map_values(|x: Param| x@).subrange(
                0,
                i as int,
            ),
        decreases p.props.len() - i,
    {
        let c = clone_param(&p.props[i]);
        let ghost before = props@;
        props.push(c);
        i = i + 1;
        assert(props@.map_values(|x: Param| x@) =~= before.map_values(|x: Param| x@).push(c@));
        assert(props@.map_values(|x: Param| x@) =~= p.props@.map_values(|x: Param| x@).subrange(
            0,
            i as int,
        ));
    }
    assert(p.props@.map_values(|x: Param| x@).subrange(0, p.props.len() as int) =~= p.props@.map_values(
        |x: Param| x@,
    ));
    let r = Params { props, required: clone_strings(&p.required) };
    assert(r@ =~= p@);
    r
}

#[derive(Debug)]
/// One function as a model sees it: a flat name, a description, and a schema.
pub struct ToolDefinition {
    pub name: String,
    pub description: String,
    pub input_schema: Params,
}

pub ghost struct DefinitionV {
    pub name: Seq<char>,
    pub description: Seq<char>,
    pub input_schema: ParamsV,
}

impl View for ToolDefinition {
    type V = DefinitionV;

    open spec fn view(&self) -> DefinitionV {
        DefinitionV {
            name: self.name@,
            description: self.description@,
            input_schema: self.input_schema@,
        }
    }
}

pub const APPROVAL_NOTE: &'static str = " (requires human approval; the call waits for an answer)";

/// Whether an agent holding `p` is offered an action needing `a`. Approval
/// is offered: a person can say yes to it.
pub open spec fn offered(p: Permission, a: Access) -> bool {
    match p {
        Permission::Full => true,
        Permission::Read => a == Access::Read,
        Permission::Approval => true,
        Permission::Nothing => false,
    }
}

pub open spec fn definition_v(t: ToolInfoV, a: ActionV, p: Permission) -> DefinitionV {
    DefinitionV {
        name: wire(t.id, a.name),
        description: t.name + " \u{2014} "@ + a.description + if p == Permission::Approval {
            APPROVAL_NOTE@
        } else {
            seq![]
        },
        input_schema: a.params,
    }
}

pub open spec fn defs_of_actions(t: ToolInfoV, acts: Seq<ActionV>, p: Permission) -> Seq<
    DefinitionV,
>
    decreases acts.len(),
{
    if acts.len() == 0 {
        seq![]
    } else {
        let rest = defs_of_actions(t, acts.drop_last(), p);
        if offered(p, acts.last().access) {
            rest.push(definition_v(t, acts.last(), p))
        } else {
            rest
        }
    }
}

pub open spec fn defs_of_tools(
    ts: Seq<ToolInfoV>,
    agent: Seq<char>,
    m: Map<(Seq<char>, Seq<char>), Permission>,
) -> Seq<DefinitionV>
    decreases ts.len(),
{
    if ts.len() == 0 {
        seq![]
    } else {
        defs_of_tools(ts.drop_last(), agent, m) + defs_of_actions(
            ts.last(),
            ts.last().actions,
            lookup(m, agent, ts.last().id),
        )
    }
}

/// The callables one agent may actually use, in registry order. Actions the
/// agent's permission would refuse are left out entirely rather than offered
/// and then refused.
pub open spec fn definitions_spec(agent: Seq<char>, m: Map<(Seq<char>, Seq<char>), Permission>) -> Seq<
    DefinitionV,
> {
    defs_of_tools(registry_v(), agent, m)
}

pub fn definitions_for(agent: &str, permissions: &PermissionMatrix) -> (r: Vec<ToolDefinition>)
    ensures
        r@.map_values(|d: ToolDefinition| d@) == definitions_spec(agent@, permissions@),
{
    let reg = registry();
    let ghost regv = tools_view(reg@);
    let mut out: Vec<ToolDefinition> = Vec::new();
    let mut i: usize = 0;
    while i < reg.len()
        invariant
            i <= reg.len(),
            regv == tools_view(reg@),
            regv == registry_v(),
            out@.map_values(|d: ToolDefinition| d@) == defs_of_tools(
                regv.subrange(0, i as int),
                agent@,
                permissions@,
            ),
        decreases reg.len() - i,
    {
        let tool = &reg[i];
        let perm = permissions.get(agent, tool.id.as_str());
        let ghost tv = tool@;
        let ghost base = out@.map_values(|d: ToolDefinition| d@);
        let mut j: usize = 0;
        while j < tool.actions.len()
            invariant
                j <= tool.actions.len(),
                tv == tool@,
                perm == lookup(permissions@, agent@, tv.id),
                out@.map_values(|d: ToolDefinition| d@) == base + defs_of_actions(
                    tv,
                    tv.actions.subrange(0, j as int),
                    perm,
                ),
            decreases tool.actions.len() - j,
        {
            let act = &tool.actions[j];
            let ghost before = out@.map_values(|d: ToolDefinition| d@);
            proof {
                assert(tv.actions.subrange(0, j + 1 as int).drop_last() =~= tv.actions.subrange(
                    0,
                    j as int,
                ));
                assert(tv.actions[j as int] == act@);
            }
            let ok = match perm {
                Permission::Full => true,
                Permission::Read => act.access == Access::Read,
                Permission::Approval => true,
                Permission::Nothing => false,
            };
            if ok {
                let mut description = tool.name.clone();
                push_str(&mut description, " \u{2014} ");
                push_str(&mut description, act.description.as_str());
                if perm == Permission::Approval {
                    push_str(&mut description, APPROVAL_NOTE);
                }
                let d = ToolDefinition {
                    name: wire_name(tool.id.as_str(), act.name.as_str()),
                    description,
                    input_schema: clone_params(&act.params),
                };
                proof {
                    if perm == Permission::Approval {
                        assert(d@.description =~= definition_v(tv, act@, perm).description);
                    } else {
                        assert(d@.description =~= definition_v(tv, act@, perm).description);
                    }
                    assert(d@ == definition_v(tv, act@, perm));
                }
                out.push(d);
                proof {
                    assert(out@.map_values(|d: ToolDefinition| d@) =~= before.push(
                        definition_v(tv, act@, perm),
                    ));
                }
            }
            j = j + 1;
            proof {
                assert(out@.map_values(|d: ToolDefinition| d@) =~= base + defs_of_actions(
                    tv,
                    tv.actions.subrange(0, j as int),
                    perm,
                ));
            }
        }
        proof {
            assert(tv.actions.subrange(0, tool.actions.len() as int) =~= tv.actions);
            assert(regv.subrange(0, i + 1 as int).drop_last() =~= regv.subrange(0, i as int));
            assert(regv[i as int] == tv);
        }
        i = i + 1;
    }
    assert(regv.subrange(0, reg.len() as int) =~= regv);
    out
}

#[derive(Debug)]
/// A request to run one action of one tool.
pub struct ToolCall {
    pub tool: String,
    pub action: String,
    pub args: Json,
    /// The provider's own id for this call, sent back with its result.
    /// Empty where there is no wire protocol to answer on.
    pub call_id: String,
}

pub ghost struct ToolCallV {
    pub tool: Seq<char>,
    pub action: Seq<char>,
    pub args: JsonV,
    pub call_id: Seq<char>,
}

impl View for ToolCall {
    type V = ToolCallV;

    open spec fn view(&self) -> ToolCallV {
        ToolCallV { tool: self.tool@, action: self.action@, args: self.args@, call_id: self.call_id@ }
    }
}

impl ToolCall {
    pub fn new(tool: &str, action: &str, args: Json) -> (r: Self)
        ensures
            r@ == (ToolCallV { tool: tool@, action: action@, args: args@, call_id: seq![] }),
    {
        ToolCall { tool: copy_str(tool), action: copy_str(action), args, call_id: String::new() }
    }
}

/// The keys of an argument payload: an object's keys, none for anything else.
pub open spec fn arg_keys(j: JsonV) -> Seq<Seq<char>> {
    match j {
        JsonV::Obj(f) => keys_v(f),
        _ => seq![],
    }
}

/// The action of `t` that `name` names, when it names one of `t`'s.
pub open spec fn match_wire(t: ToolInfoV, name: Seq<char>) -> Option<ActionV> {
    let prefix = t.id + seq!['_'];
    if starts_with(name, prefix) {
        find_action(t.actions, name.subrange(prefix.len() as int, name.len() as int))
    } else {
        None
    }
}

/// The first tool, in registry order, that a wire name resolves against.
pub open spec fn resolve_wire(ts: Seq<ToolInfoV>, name: Seq<char>) -> Option<(ToolInfoV, ActionV)>
    decreases ts.len(),
{
    if ts.len() == 0 {
        None
    } else {
        match match_wire(ts[0], name) {
            Some(a) => Some((ts[0], a)),
            None => resolve_wire(ts.drop_first(), name),
        }
    }
}

pub open spec fn wire_names_of(t: ToolInfoV) -> Seq<Seq<char>> {
    t.actions.map_values(|a: ActionV| wire(t.id, a.name))
}

pub open spec fn all_wire_names(ts: Seq<ToolInfoV>) -> Seq<Seq<char>>
    decreases ts.len(),
{
    if ts.len() == 0 {
        seq![]
    } else {
        all_wire_names(ts.drop_last()) + wire_names_of(ts.last())
    }
}

/// The first required key, in schema order, that the payload lacks.
pub open spec fn first_missing(required: Seq<Seq<char>>, keys: Seq<Seq<char>>) -> Option<Seq<char>>
    decreases required.len(),
{
    if required.len() == 0 {
        None
    } else if !keys.contains(required[0]) {
        Some(required[0])
    } else {
        first_missing(required.drop_first(), keys)
    }
}

/// Turning a model's function call back into a tool and action, checked
/// against the declared schema before anything runs.
pub open spec fn parse_call_spec(name: Seq<char>, is_object: bool, keys: Seq<Seq<char>>) -> Result<
    (Seq<char>, Seq<char>),
    Seq<char>,
> {
    match resolve_wire(registry_v(), name) {
        None => Err(
            "unknown tool '"@ + name + "'. Available: "@ + crate::text::join(
                all_wire_names(registry_v()),
                ", "@,
            ),
        ),
        Some((t, a)) => if !is_object {
            Err("'"@ + name + "' expects an object of arguments"@)
        } else {
            match first_missing(a.params.required, keys) {
                Some(k) => Err("'"@ + name + "' is missing required argument '"@ + k + "'"@),
                None => Ok((t.id, a.name)),
            }
        },
    }
}

fn match_wire_exec(t: &ToolInfo, name: &[char]) -> (r: Option<usize>)
    ensures
        match r {
            Some(j) => j < t.actions.len() && match_wire(t@, name@) == Some(t.actions@[j as int]@),
            None => match_wire(t@, name@) is None,
        },
{
    let mut prefix = chars_of(t.id.as_str());
    prefix.push('_');
    assert(prefix@ =~= t@.id + seq!['_']);
    if !occurs_at_exec(name, &prefix, 0) {
        return None;
    }
    let rest = sub_vec(name, prefix.len(), name.len());
    let rest_s = from_chars(&rest);
    find_action_exec(&t.actions, rest_s.as_str())
}

fn all_wire_names_exec(ts: &Vec<ToolInfo>) -> (r: Vec<String>)
    ensures
        views(r@) == all_wire_names(tools_view(ts@)),
{
    let mut out: Vec<String> = Vec::new();
    let mut i: usize = 0;
    while i < ts.len()
        invariant
            i <= ts.len(),
            views(out@) == all_wire_names(tools_view(ts@).subrange(0, i as int)),
        decreases ts.len() - i,
    {
        let t = &ts[i];
        let ghost base = views(out@);
        let mut j: usize = 0;
        while j < t.actions.len()
            invariant
                j <= t.actions.len(),
                views(out@) == base + wire_names_of(t@).subrange(0, j as int),
            decreases t.actions.len() - j,
        {
            let w = wire_name(t.id.as_str(), t.actions[j].name.as_str());
            let ghost before = views(out@);
            out.push(w);
            j = j + 1;
            assert(views(out@) =~= before.push(w@));
            assert(t@.actions[j - 1] == t.actions@[j - 1]@);
            assert(views(out@) =~= base + wire_names_of(t@).subrange(0, j as int));
        }
        assert(wire_names_of(t@).subrange(0, t.actions.len() as int) =~= wire_names_of(t@));
        assert(tools_view(ts@).subrange(0, i + 1 as int).drop_last() =~= tools_view(ts@).subrange(
            0,
            i as int,
        ));
        i = i + 1;
    }
    assert(tools_view(ts@).subrange(0, ts.len() as int) =~= tools_view(ts@));
    out
}

fn has_key(keys: &Vec<String>, k: &str) -> (r: bool)
    ensures
        r == views(keys@).contains(k@),
{
    let mut i: usize = 0;
    while i < keys.len()
        invariant
            i <= keys.len(),
            forall|j: int| 0 <= j < i ==> keys@[j]@ != k@,
        decreases keys.len() - i,
    {
        if str_eq(keys[i].as_str(), k) {
            assert(views(keys@)[i as int] == k@);
            return true;
        }
        i = i + 1;
    }
    assert forall|j: int| 0 <= j < views(keys@).len() implies views(keys@)[j] != k@ by {
        assert(views(keys@)[j] == keys@[j]@);
    }
    false
}

/// Turn a model's function call back into the tool and action it names.
/// A precise error it can act on beats a confusing failure from deep inside a
/// tool.
pub fn parse_tool_call(name: &str, input: &Json) -> (r: Result<ToolCall, String>)
    ensures
        match (r, parse_call_spec(name@, is_obj(input@), arg_keys(input@))) {
            (Ok(c), Ok(want)) => (c@.tool, c@.action) == want && c@.args == input@ && c@.call_id
                == Seq::<char>::empty(),
            (Err(e), Err(want)) => e@ == want,
            _ => false,
        },
{
    let is_object = input.is_object();
    let keys = object_keys(input);
    assert(views(keys@) == arg_keys(input@));
    let reg = registry();
    let nv = chars_of(name);
    let mut i: usize = 0;
    let mut found: Option<(usize, usize)> = None;
    assert(tools_view(reg@).subrange(0, reg.len() as int) =~= tools_view(reg@));
    while i < reg.len()
        invariant_except_break
            found is None,
            resolve_wire(registry_v(), name@) == resolve_wire(
                tools_view(reg@).subrange(i as int, reg.len() as int),
                name@,
            ),
        invariant
            i <= reg.len(),
            nv@ == name@,
            tools_view(reg@) == registry_v(),
        ensures
            match found {
                None => resolve_wire(registry_v(), name@) is None,
                Some((ti, aj)) => ti < reg.len() && aj < reg@[ti as int].actions.len()
                    && resolve_wire(registry_v(), name@) == Some(
                    (reg@[ti as int]@, reg@[ti as int].actions@[aj as int]@),
                ),
            },
        decreases reg.len() - i,
    {
        let ghost rest = tools_view(reg@).subrange(i as int, reg.len() as int);
        assert(rest[0] == reg@[i as int]@);
        match match_wire_exec(&reg[i], &nv) {
            Some(j) => {
                found = Some((i, j));
                break ;
            },
            None => {},
        }
        assert(rest.drop_first() =~= tools_view(reg@).subrange(i + 1, reg.len() as int));
        i = i + 1;
    }
    match found {
        None => {
            let mut msg = "unknown tool '".to_owned();
            push_str(&mut msg, name);
            push_str(&mut msg, "'. Available: ");
            let names = all_wire_names_exec(&reg);
            let joined = crate::text::join_strings(&names, ", ");
            push_str(&mut msg, joined.as_str());
            assert(crate::text::str_views(names@) =~= views(names@));
            assert(msg@ =~= "unknown tool '"@ + name@ + "'. Available: "@ + crate::text::join(
                all_wire_names(registry_v()),
                ", "@,
            ));
            Err(msg)
        },
        Some((ti, aj)) => {
            let t = &reg[ti];
            let a = &t.actions[aj];
            assert(resolve_wire(registry_v(), name@) == Some((t@, a@)));
            if !is_object {
                let mut msg = "'".to_owned();
                push_str(&mut msg, name);
                push_str(&mut msg, "' expects an object of arguments");
                assert(msg@ =~= "'"@ + name@ + "' expects an object of arguments"@);
                return Err(msg);
            }
            let req = &a.params.required;
            let mut k: usize = 0;
            let ghost reqv = views(req@);
            assert(a@.params.required == reqv);
            assert(reqv.subrange(0, req.len() as int) =~= reqv);
            while k < req.len()
                invariant
                    k <= req.len(),
                    reqv == views(req@),
                    is_object,
                    is_object == is_obj(input@),
                    views(keys@) == arg_keys(input@),
                    a@.params.required == reqv,
                    resolve_wire(registry_v(), name@) == Some((t@, a@)),
                    first_missing(reqv, views(keys@)) == first_missing(
                        reqv.subrange(k as int, req.len() as int),
                        views(keys@),
                    ),
                decreases req.len() - k,
            {
                let ghost rest = reqv.subrange(k as int, req.len() as int);
                assert(rest[0] == req@[k as int]@);
                if !has_key(&keys, req[k].as_str()) {
                    let mut msg = "'".to_owned();
                    push_str(&mut msg, name);
                    push_str(&mut msg, "' is missing required argument '");
                    push_str(&mut msg, req[k].as_str());
                    push_str(&mut msg, "'");
                    assert(!views(keys@).contains(rest[0]));
                    assert(msg@ =~= "'"@ + name@ + "' is missing required argument '"@ + rest[0]
                        + "'"@);
                    return Err(msg);
                }
                assert(rest.drop_first() =~= reqv.subrange(k + 1, req.len() as int));
                k = k + 1;
            }
            Ok(ToolCall::new(t.id.as_str(), a.name.as_str(), input.copy()))
        },
    }
}


/// What one tool call came to.
#[derive(Debug)]
pub struct ToolResult {
    pub ok: bool,
    pub tool: String,
    pub action: String,
    pub output: String,
    /// Project-relative paths this call wrote: what starts reconciliation.
    pub changed_files: Vec<String>,
    pub error: Option<String>,
}

impl ToolResult {
    /// A call that worked, with what it printed.
    pub fn ok(tool: &str, action: &str, output: String) -> (r: Self)
        ensures
            r.ok,
            r.tool@ == tool@,
            r.action@ == action@,
            r.output == output,
            r.changed_files@.len() == 0,
            r.error is None,
    {
        ToolResult {
            ok: true,
            tool: copy_str(tool),
            action: copy_str(action),
            output,
            changed_files: Vec::new(),
            error: None,
        }
    }

    /// A call that failed, and why.
    pub fn failed(tool: &str, action: &str, error: String) -> (r: Self)
        ensures
            !r.ok,
            r.tool@ == tool@,
            r.action@ == action@,
            r.output@.len() == 0,
            r.changed_files@.len() == 0,
            r.error == Some(error),
    {
        ToolResult {
            ok: false,
            tool: copy_str(tool),
            action: copy_str(action),
            output: String::new(),
            changed_files: Vec::new(),
            error: Some(error),
        }
    }

    /// The same result, naming the files it wrote.
    pub fn with_files(self, files: Vec<String>) -> (r: Self)
        ensures
            r.changed_files == files,
            r.ok == self.ok,
            r.tool == self.tool,
            r.action == self.action,
            r.output == self.output,
            r.error == self.error,
    {
        let mut r = self;
        r.changed_files = files;
        r
    }
}

/// A process the process tool started for a project.
#[derive(Debug)]
pub struct RunningApp {
    pub project_id: String,
    pub command: String,
    pub pid: Option<u32>,
    pub status: String,
    pub logs: Vec<String>,
    pub started_at: String,
}

/// What the Tools screen shows about a started application.
#[derive(Debug, Default)]
pub struct AppStatus {
    pub project_id: String,
    pub command: String,
    pub pid: Option<u32>,
    pub status: String,
    pub started_at: String,
    pub log_lines: usize,
}

/// The status line for a running application: everything but its log,
/// which is counted.
pub fn app_status(a: &RunningApp) -> (r: AppStatus)
    ensures
        r.project_id@ == a.project_id@,
        r.command@ == a.command@,
        r.pid == a.pid,
        r.status@ == a.status@,
        r.started_at@ == a.started_at@,
        r.log_lines == a.logs@.len(),
{
    AppStatus {
        project_id: copy_str(a.project_id.as_str()),
        command: copy_str(a.command.as_str()),
        pid: a.pid,
        status: copy_str(a.status.as_str()),
        started_at: copy_str(a.started_at.as_str()),
        log_lines: a.logs.len(),
    }
}

/// An id with no `_` in it, so that the wire name it starts is never
/// mistaken for another's.
pub open spec fn plain_id(id: Seq<char>) -> bool {
    forall|k: int| 0 <= k < id.len() ==> id[k] != '_'
}

proof fn lemma_registry_ids_plain()
    ensures
        forall|i: int| 0 <= i < registry_v().len() ==> plain_id(#[trigger] registry_v()[i].id),
{
    reveal_strlit("files");
    reveal_strlit("git");
    reveal_strlit("terminal");
    reveal_strlit("process");
    reveal_strlit("tests");
    reveal_strlit("knowledge");
    reveal_strlit("delegate");
    reveal_strlit("memory");
    let r = registry_v();
    assert(r[0].id == "files"@);
    assert(r[1].id == "git"@);
    assert(r[2].id == "terminal"@);
    assert(r[3].id == "process"@);
    assert(r[4].id == "tests"@);
    assert(r[5].id == "knowledge"@);
    assert(r[6].id == "delegate"@);
    assert(r[7].id == "memory"@);
}

proof fn lemma_find_action_some(acts: Seq<ActionV>, name: Seq<char>, j: int)
    requires
        0 <= j < acts.len(),
        acts[j].name == name,
    ensures
        find_action(acts, name) matches Some(b) && b.name == name && acts.contains(b),
    decreases j,
{
    if acts[0].name != name {
        lemma_find_action_some(acts.drop_first(), name, j - 1);
        let b = find_action(acts.drop_first(), name)->0;
        let w = choose|w: int| 0 <= w < acts.drop_first().len() && acts.drop_first()[w] == b;
        assert(acts[w + 1] == b);
    } else {
        assert(acts[0] == acts[0]);
    }
}

proof fn lemma_find_action_name(acts: Seq<ActionV>, name: Seq<char>)
    ensures
        find_action(acts, name) matches Some(b) ==> b.name == name && acts.contains(b),
    decreases acts.len(),
{
    if acts.len() > 0 && acts[0].name != name {
        lemma_find_action_name(acts.drop_first(), name);
        if let Some(b) = find_action(acts.drop_first(), name) {
            let w = choose|w: int| 0 <= w < acts.drop_first().len() && acts.drop_first()[w] == b;
            assert(acts[w + 1] == b);
        }
    } else if acts.len() > 0 {
        assert(acts[0] == acts[0]);
    }
}

proof fn lemma_match_wire(k: ToolInfoV, t: ToolInfoV, a: Seq<char>)
    requires
        plain_id(k.id),
        plain_id(t.id),
    ensures
        match_wire(k, wire(t.id, a)) matches Some(b) ==> k.id == t.id && b.name == a && k.actions.contains(b),
{
    let name = wire(t.id, a);
    let pre = k.id + seq!['_'];
    if starts_with(name, pre) {
        let p = k.id.len();
        let q = t.id.len();
        assert(name.subrange(0, pre.len() as int)[p as int] == '_');
        assert(name[p as int] == '_');
        if p < q {
            assert(name[p as int] == t.id[p as int]);
        } else if p > q {
            assert(name[q as int] == '_');
            assert(name.subrange(0, pre.len() as int)[q as int] == k.id[q as int]);
        } else {
            assert forall|x: int| 0 <= x < p implies k.id[x] == t.id[x] by {
                assert(name.subrange(0, pre.len() as int)[x] == k.id[x]);
            }
            assert(k.id =~= t.id);
            assert(name.subrange(pre.len() as int, name.len() as int) =~= a);
            lemma_find_action_name(k.actions, a);
        }
    }
}

proof fn lemma_resolve_wire(ts: Seq<ToolInfoV>, t: ToolInfoV, a: ActionV)
    requires
        ts.contains(t),
        t.actions.contains(a),
        forall|i: int| 0 <= i < ts.len() ==> plain_id(#[trigger] ts[i].id),
    ensures
        resolve_wire(ts, wire(t.id, a.name)) matches Some((t2, a2)) && t2.id == t.id && a2.name == a.name
            && ts.contains(t2) && t2.actions.contains(a2),
    decreases ts.len(),
{
    let name = wire(t.id, a.name);
    let w = choose|w: int| 0 <= w < ts.len() && ts[w] == t;
    assert(plain_id(ts[0].id));
    assert(plain_id(t.id));
    lemma_match_wire(ts[0], t, a.name);
    if let Some(b) = match_wire(ts[0], name) {
        assert(ts.contains(ts[0]));
    } else if w == 0 {
        let j = choose|j: int| 0 <= j < t.actions.len() && t.actions[j] == a;
        lemma_find_action_some(t.actions, a.name, j);
        assert(starts_with(name, t.id + seq!['_'])) by {
            assert(name.subrange(0, (t.id.len() + 1) as int) =~= t.id + seq!['_']);
        }
        assert(name.subrange((t.id.len() + 1) as int, name.len() as int) =~= a.name);
    } else {
        let d = ts.drop_first();
        assert(d[w - 1] == t);
        assert forall|i: int| 0 <= i < d.len() implies plain_id(#[trigger] d[i].id) by {
            assert(d[i] == ts[i + 1]);
        }
        lemma_resolve_wire(d, t, a);
        let (t2, a2) = resolve_wire(d, name)->0;
        let v = choose|v: int| 0 <= v < d.len() && d[v] == t2;
        assert(ts[v + 1] == t2);
    }
}

/// A model's call named by an action's wire name reads back as that tool and
/// action, whenever its arguments are an object holding every key the
/// action requires: every tool's wire names are its own.
pub proof fn law_a_wire_name_round_trips(i: int, j: int, keys: Seq<Seq<char>>)
    requires
        0 <= i < registry_v().len(),
        0 <= j < registry_v()[i].actions.len(),
        forall|k: int, b: ActionV|
            0 <= k < registry_v().len() && registry_v()[k].id == registry_v()[i].id && #[trigger] registry_v()[
                k
            ].actions.contains(b) && b.name == registry_v()[i].actions[j].name ==> forall|x: int|
                0 <= x < b.params.required.len() ==> keys.contains(#[trigger] b.params.required[x]),
    ensures
        parse_call_spec(wire(registry_v()[i].id, registry_v()[i].actions[j].name), true, keys) == Ok::<
            (Seq<char>, Seq<char>),
            Seq<char>,
        >((registry_v()[i].id, registry_v()[i].actions[j].name)),
{
    let r = registry_v();
    let t = r[i];
    let a = t.actions[j];
    lemma_registry_ids_plain();
    assert(r.contains(t));
    assert(t.actions.contains(a));
    lemma_resolve_wire(r, t, a);
    let (t2, a2) = resolve_wire(r, wire(t.id, a.name))->0;
    let k = choose|k: int| 0 <= k < r.len() && r[k] == t2;
    assert(r[k].actions.contains(a2));
    lemma_no_missing(a2.params.required, keys);
}

proof fn lemma_no_missing(required: Seq<Seq<char>>, keys: Seq<Seq<char>>)
    requires
        forall|x: int| 0 <= x < required.len() ==> keys.contains(#[trigger] required[x]),
    ensures
        first_missing(required, keys) is None,
    decreases required.len(),
{
    if required.len() > 0 {
        assert(keys.contains(required[0]));
        assert forall|x: int| 0 <= x < required.drop_first().len() implies keys.contains(
            #[trigger] required.drop_first()[x],
        ) by {
            assert(required.drop_first()[x] == required[x + 1]);
        }
        lemma_no_missing(required.drop_first(), keys);
    }
}

} // verus!
