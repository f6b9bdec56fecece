//! The session lifecycle's decisions, one step at a time: how many turns an
//! agent gets, what each action it asks for leads to, what a tool's result
//! tells the next turn, what it touched, and how a session ends. Whoever
//! runs the loop performs the step it is told and hands back the result; a
//! provider only ever answers "what next?".
use vstd::prelude::*;
use crate::text::{copy_str, is_taken, push_str, str_views};
use crate::state::{AgentDef, Checkpoint, Session, SessionStatus, TestRun, TranscriptEntry};
use crate::provider::{AgentAction, AgentActionV, AgentRequest, Observation, ObservationV, RequestV};
use crate::tools::{PermissionMatrix, ToolCall, ToolCallV, ToolResult};
use crate::json::{Json, JsonV};

verus! {

/// A provider that never says "done" would spin forever; the runtime stops
/// regardless after this many turns.
pub const MAX_TURNS: u32 = 8;

#[derive(Debug)]
pub struct StartAgentCommand {
    pub project_id: String,
    pub feature_id: String,
    pub agent_id: String,
    pub work_item_id: Option<String>,
    pub intent: Option<String>,
    /// Areas this agent expects to touch, for claim overlap detection.
    pub areas: Vec<String>,
    /// Symbols it reads: what makes it go stale when they change.
    pub depends_on: Vec<String>,
}

#[derive(Debug)]
pub struct SessionOutcome {
    pub session_id: String,
    pub status: String,
    pub turns: u32,
    pub summary: String,
    pub files_touched: Vec<String>,
    pub context_tokens: usize,
    pub conflicts_detected: usize,
}

/// The files, in the order first touched, each once.
pub open spec fn add_new(seen: Seq<Seq<char>>, files: Seq<Seq<char>>) -> Seq<Seq<char>>
    decreases files.len(),
{
    if files.len() == 0 {
        seen
    } else {
        let s = add_new(seen, files.drop_last());
        if s.contains(files.last()) {
            s
        } else {
            s.push(files.last())
        }
    }
}

#[derive(Debug)]
/// Where a session's loop stands.
pub struct Drive {
    turns: u32,
    files_touched: Vec<String>,
    summary: String,
    failed: Option<String>,
    finished: bool,
    observations: Vec<Observation>,
}

pub ghost struct DriveV {
    pub turns: int,
    pub files_touched: Seq<Seq<char>>,
    pub summary: Seq<char>,
    pub failed: Option<Seq<char>>,
    pub finished: bool,
    /// What the calls so far came to, in order: what the next turn sees.
    pub observations: Seq<ObservationV>,
}

impl View for Drive {
    type V = DriveV;

    closed spec fn view(&self) -> DriveV {
        DriveV {
            turns: self.turns as int,
            files_touched: str_views(self.files_touched@),
            summary: self.summary@,
            failed: match self.failed {
                Some(e) => Some(e@),
                None => None,
            },
            finished: self.finished,
            observations: self.observations@.map_values(|o: Observation| o@),
        }
    }
}

impl Drive {
    #[verifier::type_invariant]
    closed spec fn inv(self) -> bool {
        self.turns <= MAX_TURNS
    }

    pub fn new() -> (d: Self)
        ensures
            d@ == (DriveV {
                turns: 0,
                files_touched: seq![],
                summary: seq![],
                failed: None,
                finished: false,
                observations: seq![],
            }),
    {
        let d = Drive {
            turns: 0,
            files_touched: Vec::new(),
            summary: String::new(),
            failed: None,
            finished: false,
            observations: Vec::new(),
        };
        assert(str_views(d.files_touched@) =~= seq![]);
        assert(d@.observations =~= seq![]);
        d
    }

    /// Start the next turn, if there is one: not after the agent finished,
    /// not after its provider failed, and never past `MAX_TURNS`.
    pub fn next_turn(&mut self) -> (r: Option<u32>)
        ensures
            old(self)@.finished || old(self)@.failed is Some || old(self)@.turns >= MAX_TURNS ==> r is None
                && final(self)@ == old(self)@,
            !(old(self)@.finished || old(self)@.failed is Some || old(self)@.turns >= MAX_TURNS) ==> r
                == Some(old(self)@.turns as u32) && final(self)@ == (DriveV { turns: old(self)@.turns + 1, ..old(self)@ }),
            final(self)@.turns <= MAX_TURNS,
            r matches Some(t) ==> t < MAX_TURNS,
    {
        proof {
            use_type_invariant(&*self);
        }
        if self.finished || self.failed.is_some() || self.turns >= MAX_TURNS {
            return None;
        }
        let t = self.turns;
        self.turns = self.turns + 1;
        Some(t)
    }

    /// The provider could not answer: the loop ends, and the session fails.
    pub fn provider_failed(&mut self, e: String)
        ensures
            final(self)@ == (DriveV { failed: Some(e@), ..old(self)@ }),
    {
        proof {
            use_type_invariant(&*self);
        }
        self.failed = Some(e);
    }

    /// The response said it is complete.
    pub fn complete(&mut self)
        ensures
            final(self)@ == (DriveV { finished: true, ..old(self)@ }),
    {
        proof {
            use_type_invariant(&*self);
        }
        self.finished = true;
    }

    /// The agent said it is done, and how it went.
    pub fn done(&mut self, summary: String)
        ensures
            final(self)@ == (DriveV { summary: summary@, finished: true, ..old(self)@ }),
    {
        proof {
            use_type_invariant(&*self);
        }
        self.summary = summary;
        self.finished = true;
    }

    /// Files a tool call changed, each recorded once, in the order first
    /// touched.
    pub fn touched(&mut self, files: &Vec<String>)
        ensures
            final(self)@ == (DriveV {
                files_touched: add_new(old(self)@.files_touched, str_views(files@)),
                ..old(self)@
            }),
    {
        proof {
            use_type_invariant(&*self);
        }
        let ghost f = str_views(files@);
        let ghost start = str_views(self.files_touched@);
        let mut seen = Vec::new();
        std::mem::swap(&mut seen, &mut self.files_touched);
        let mut i: usize = 0;
        while i < files.len()
            invariant
                i <= files.len(),
                f == str_views(files@),
                str_views(seen@) == add_new(start, f.take(i as int)),
            decreases files.len() - i,
        {
            assert(f.take(i + 1).drop_last() =~= f.take(i as int));
            assert(f.take(i + 1).last() == files@[i as int]@);
            if !is_taken(&seen, files[i].as_str()) {
                let c = copy_str(files[i].as_str());
                let ghost before = seen@;
                seen.push(c);
                assert(str_views(seen@) =~= str_views(before).push(c@));
            }
            i = i + 1;
        }
        assert(f.take(files.len() as int) =~= f);
        std::mem::swap(&mut seen, &mut self.files_touched);
    }

    pub fn turns(&self) -> (r: u32)
        ensures
            r == self@.turns,
            r <= MAX_TURNS,
    {
        proof {
            use_type_invariant(self);
        }
        self.turns
    }

    /// How the session ended: failed if the provider failed, completed
    /// otherwise; the summary the agent gave, else the failure, else a line
    /// that says there was none.
    pub fn outcome(&self) -> (r: (SessionStatus, String))
        ensures
            r.0 == (if self@.failed is Some {
                SessionStatus::Failed
            } else {
                SessionStatus::Completed
            }),
            r.1@ == (if self@.summary.len() > 0 {
                self@.summary
            } else {
                match self@.failed {
                    Some(e) => e,
                    None => "Session ended with no summary."@,
                }
            }),
    {
        let status = if self.failed.is_some() {
            SessionStatus::Failed
        } else {
            SessionStatus::Completed
        };
        let summary = if crate::text::chars_of(self.summary.as_str()).len() > 0 {
            copy_str(self.summary.as_str())
        } else {
            match &self.failed {
                Some(e) => copy_str(e.as_str()),
                None => copy_str("Session ended with no summary."),
            }
        };
        (status, summary)
    }

    /// What the claim is released as: "released" after a failure,
    /// "completed" otherwise.
    pub fn release_label(&self) -> (r: &'static str)
        ensures
            r@ == (if self@.failed is Some {
                "released"@
            } else {
                "completed"@
            }),
    {
        if self.failed.is_some() {
            "released"
        } else {
            "completed"
        }
    }
}


/// What an action leads to outside the loop's own state.
#[derive(PartialEq, Eq, Structural, Debug, Clone, Copy)]
pub enum DriveStep {
    /// Nothing: the loop's state took it all.
    Nothing,
    /// Run the call through the project's tool service and hand the result
    /// to `on_tool_result`.
    RunTool,
    /// Save the decision, announce it, commit it and reconcile; a save that
    /// fails goes to `on_record_failed`.
    RecordDecision,
    /// Save the feature's context body and announce the change; a save that
    /// fails goes to `on_record_failed`.
    PersistContext,
    /// Announce that the symbol changed and reconcile.
    AnnounceSymbol,
}

/// One action taken: `Done` gives the summary and finishes the loop, so no
/// further turn starts; every other action is work to be done outside, and
/// changes nothing here.
pub open spec fn drive_next(d: DriveV, a: AgentActionV) -> (DriveV, DriveStep) {
    match a {
        AgentActionV::Tool(_) => (d, DriveStep::RunTool),
        AgentActionV::Decision { .. } => (d, DriveStep::RecordDecision),
        AgentActionV::UpdateContext { .. } => (d, DriveStep::PersistContext),
        AgentActionV::SymbolChanged { .. } => (d, DriveStep::AnnounceSymbol),
        AgentActionV::Done { summary } => (DriveV { summary, finished: true, ..d }, DriveStep::Nothing),
    }
}

/// What a tool's result tells the next turn: the call it answers, whether it
/// worked, and its output, or its error when it failed.
pub open spec fn observation_v(call: ToolCallV, ok: bool, output: Seq<char>, error: Option<Seq<char>>) -> ObservationV {
    ObservationV {
        call_id: call.call_id,
        tool: call.tool,
        action: call.action,
        args: call.args,
        ok,
        output: if ok {
            output
        } else {
            match error {
                Some(e) => e,
                None => seq![],
            }
        },
    }
}

/// What a decision or a context body that could not be saved tells the next
/// turn. It answers no call, so it has no id and no arguments.
pub open spec fn record_failed_v(e: Seq<char>) -> ObservationV {
    ObservationV { call_id: seq![], tool: "decision"@, action: "record"@, args: JsonV::Null, ok: false, output: e }
}

/// What the loop does once a tool call came back, besides what it keeps.
#[derive(Debug)]
pub struct AfterTool {
    /// The line for the session's transcript.
    pub entry: TranscriptEntry,
    /// The call changed files: commit them, then reconcile from the
    /// session's checkpoint.
    pub commit: bool,
    /// The call was a test run: record it, and announce whether it passed.
    pub record_test: bool,
}

fn copy_observation(o: &Observation) -> (r: Observation)
    ensures
        r@ == o@,
{
    Observation {
        call_id: copy_str(o.call_id.as_str()),
        tool: copy_str(o.tool.as_str()),
        action: copy_str(o.action.as_str()),
        args: o.args.copy(),
        ok: o.ok,
        output: copy_str(o.output.as_str()),
    }
}

impl Drive {
    /// Take one of a response's actions.
    pub fn on_action(&mut self, a: &AgentAction) -> (r: DriveStep)
        ensures
            final(self)@ == drive_next(old(self)@, a@).0,
            r == drive_next(old(self)@, a@).1,
    {
        match a {
            AgentAction::Tool(_) => DriveStep::RunTool,
            AgentAction::Decision { .. } => DriveStep::RecordDecision,
            AgentAction::UpdateContext { .. } => DriveStep::PersistContext,
            AgentAction::SymbolChanged { .. } => DriveStep::AnnounceSymbol,
            AgentAction::Done { summary } => {
                self.done(copy_str(summary.as_str()));
                DriveStep::Nothing
            },
        }
    }

    /// A tool call came back: the next turn sees what it came to, the files
    /// it changed count as touched, and the transcript says which call it
    /// was and whether it worked.
    pub fn on_tool_result(&mut self, call: &ToolCall, res: &ToolResult, now_iso: &str) -> (r: AfterTool)
        ensures
            final(self)@ == (DriveV {
                observations: old(self)@.observations.push(
                    observation_v(call@, res.ok, res.output@, crate::provider::opt_view(res.error)),
                ),
                files_touched: add_new(old(self)@.files_touched, str_views(res.changed_files@)),
                ..old(self)@
            }),
            r.entry.at@ == now_iso@,
            r.entry.kind@ == (if res.ok {
                "tool"@
            } else {
                "tool-error"@
            }),
            r.entry.text@ == call.tool@ + "."@ + call.action@,
            r.commit == (res.changed_files@.len() > 0),
            r.record_test == (call.tool@ == crate::tools::TOOL_TESTS@),
    {
        proof {
            use_type_invariant(&*self);
        }
        let output = if res.ok {
            copy_str(res.output.as_str())
        } else {
            match &res.error {
                Some(e) => copy_str(e.as_str()),
                None => String::new(),
            }
        };
        let o = Observation {
            call_id: copy_str(call.call_id.as_str()),
            tool: copy_str(call.tool.as_str()),
            action: copy_str(call.action.as_str()),
            args: call.args.copy(),
            ok: res.ok,
            output,
        };
        let ghost before = self.observations@;
        let mut obs: Vec<Observation> = Vec::new();
        std::mem::swap(&mut obs, &mut self.observations);
        obs.push(o);
        self.observations = obs;
        assert(self.observations@.map_values(|x: Observation| x@) =~= before.map_values(
            |x: Observation| x@,
        ).push(o@));
        self.touched(&res.changed_files);
        let mut text = copy_str(call.tool.as_str());
        push_str(&mut text, ".");
        push_str(&mut text, call.action.as_str());
        let kind = if res.ok {
            copy_str("tool")
        } else {
            copy_str("tool-error")
        };
        AfterTool {
            entry: TranscriptEntry { at: copy_str(now_iso), kind, text },
            commit: res.changed_files.len() > 0,
            record_test: crate::text::str_eq(call.tool.as_str(), crate::tools::TOOL_TESTS),
        }
    }

    /// A decision or a context body could not be saved: the next turn is
    /// told why.
    pub fn on_record_failed(&mut self, e: String)
        ensures
            final(self)@ == (DriveV { observations: old(self)@.observations.push(record_failed_v(e@)), ..old(self)@ }),
    {
        proof {
            use_type_invariant(&*self);
        }
        let o = Observation {
            call_id: String::new(),
            tool: copy_str("decision"),
            action: copy_str("record"),
            args: Json::Null,
            ok: false,
            output: e,
        };
        let ghost before = self.observations@;
        let mut obs: Vec<Observation> = Vec::new();
        std::mem::swap(&mut obs, &mut self.observations);
        obs.push(o);
        self.observations = obs;
        assert(self.observations@.map_values(|x: Observation| x@) =~= before.map_values(
            |x: Observation| x@,
        ).push(o@));
    }

    /// What the agent is asked on turn `turn`: its own identity and model,
    /// the context and the goal, exactly the tools it is allowed, and what
    /// every call so far came to. A goal-driven agent carries no history.
    pub fn request(
        &self,
        agent: &AgentDef,
        context: &str,
        goal: &str,
        matrix: &PermissionMatrix,
        turn: u32,
    ) -> (r: AgentRequest)
        ensures
            r@ == (RequestV {
                agent_id: agent.id@,
                role: agent.role@,
                model: agent.model@,
                system: agent.system@,
                context: context@,
                goal: goal@,
                tools: crate::tools::definitions_spec(agent.id@, matrix@),
                observations: self@.observations,
                turn,
                history: seq![],
            }),
    {
        let mut observations: Vec<Observation> = Vec::new();
        let mut i: usize = 0;
        while i < self.observations.len()
            invariant
                i <= self.observations.len(),
                observations@.map_values(|x: Observation| x@) =~= self.observations@.map_values(
                    |x: Observation| x@,
                ).take(i as int),
            decreases self.observations.len() - i,
        {
            let o = copy_observation(&self.observations[i]);
            let ghost before = observations@;
            observations.push(o);
            proof {
                let all = self.observations@.map_values(|x: Observation| x@);
                assert(observations@.map_values(|x: Observation| x@) =~= before.map_values(
                    |x: Observation| x@,
                ).push(o@));
                assert(all.take(i + 1) =~= all.take(i as int).push(all[i as int]));
            }
            i = i + 1;
        }
        assert(self.observations@.map_values(|x: Observation| x@).take(
            self.observations.len() as int,
        ) =~= self.observations@.map_values(|x: Observation| x@));
        let r = AgentRequest {
            agent_id: copy_str(agent.id.as_str()),
            role: copy_str(agent.role.as_str()),
            model: copy_str(agent.model.as_str()),
            system: copy_str(agent.system.as_str()),
            context: copy_str(context),
            goal: copy_str(goal),
            tools: crate::tools::definitions_for(agent.id.as_str(), matrix),
            observations,
            turn,
            history: Vec::new(),
        };
        assert(r@.history =~= seq![]);
        r
    }
}

/// The transcript line for a response's message; an empty message has none.
pub fn message_entry(message: &str, now_iso: &str) -> (r: Option<TranscriptEntry>)
    ensures
        message@.len() == 0 ==> r is None,
        message@.len() > 0 ==> (r matches Some(e) && e.at@ == now_iso@ && e.kind@ == "message"@ && e.text@
            == message@),
{
    if crate::text::chars_of(message).len() == 0 {
        None
    } else {
        Some(TranscriptEntry { at: copy_str(now_iso), kind: copy_str("message"), text: copy_str(message) })
    }
}


/// Why a session cannot start, checked in this order: the project, the
/// agent, then the feature.
pub fn begin_check(
    cmd: &StartAgentCommand,
    project_known: bool,
    agent_known: bool,
    feature_exists: bool,
) -> (r: Result<(), String>)
    ensures
        !project_known ==> (r matches Err(e) && e@ == "unknown project '"@ + cmd.project_id@ + "'"@),
        project_known && !agent_known ==> (r matches Err(e) && e@ == "unknown agent '"@ + cmd.agent_id@
            + "'"@),
        project_known && agent_known && !feature_exists ==> (r matches Err(e) && e@ == "feature '"@
            + cmd.feature_id@ + "' does not exist in "@ + cmd.project_id@),
        project_known && agent_known && feature_exists ==> r is Ok,
{
    if !project_known {
        let mut e = copy_str("unknown project '");
        crate::text::push_str(&mut e, cmd.project_id.as_str());
        crate::text::push_str(&mut e, "'");
        return Err(e);
    }
    if !agent_known {
        let mut e = copy_str("unknown agent '");
        crate::text::push_str(&mut e, cmd.agent_id.as_str());
        crate::text::push_str(&mut e, "'");
        return Err(e);
    }
    if !feature_exists {
        let mut e = copy_str("feature '");
        crate::text::push_str(&mut e, cmd.feature_id.as_str());
        crate::text::push_str(&mut e, "' does not exist in ");
        crate::text::push_str(&mut e, cmd.project_id.as_str());
        return Err(e);
    }
    Ok(())
}

/// What the agent is asked to do: the command's intent, or "<role> work on
/// <feature>".
pub fn claim_intent(cmd: &StartAgentCommand, role: &str) -> (r: String)
    ensures
        r@ == (match cmd.intent {
            Some(i) => i@,
            None => role@ + " work on "@ + cmd.feature_id@,
        }),
{
    match &cmd.intent {
        Some(i) => copy_str(i.as_str()),
        None => {
            let mut s = copy_str(role);
            crate::text::push_str(&mut s, " work on ");
            crate::text::push_str(&mut s, cmd.feature_id.as_str());
            s
        },
    }
}

/// The first item with this id.
pub open spec fn first_item(items: Seq<crate::deck::WorkItemV>, id: Seq<char>, k: int) -> bool {
    &&& 0 <= k < items.len()
    &&& items[k].id == id
    &&& forall|j: int| 0 <= j < k ==> #[trigger] items[j].id != id
}

pub(crate) fn find_item(items: &Vec<crate::deck::WorkItem>, id: &str) -> (r: Option<usize>)
    ensures
        match r {
            Some(k) => first_item(crate::deck::work_view(items@), id@, k as int),
            None => forall|j: int| 0 <= j < items@.len() ==> #[trigger] items@[j].id@ != id@,
        },
{
    let mut i: usize = 0;
    while i < items.len()
        invariant
            i <= items.len(),
            forall|j: int| 0 <= j < i ==> #[trigger] items@[j].id@ != id@,
        decreases items.len() - i,
    {
        if crate::text::str_eq(items[i].id.as_str(), id) {
            assert(crate::deck::work_view(items@)[i as int].id == id@);
            assert forall|j: int| 0 <= j < i implies #[trigger] crate::deck::work_view(items@)[j].id
                != id@ by {
                assert(crate::deck::work_view(items@)[j] == items@[j]@);
            }
            return Some(i);
        }
        i = i + 1;
    }
    None
}

/// The step with this id set to a status (and, when given, an assignee);
/// nothing changes when there is no such step.
pub fn set_item_status(items: &mut Vec<crate::deck::WorkItem>, id: &str, status: &str, assignee: Option<&str>)
    ensures
        final(items)@.len() == old(items)@.len(),
        (forall|j: int| 0 <= j < old(items)@.len() ==> #[trigger] old(items)@[j].id@ != id@) ==> crate::deck::work_view(
            final(items)@,
        ) == crate::deck::work_view(old(items)@),
        forall|k: int| first_item(crate::deck::work_view(old(items)@), id@, k) ==> crate::deck::work_view(
            final(items)@,
        ) == crate::deck::work_view(old(items)@).update(
            k,
            crate::deck::WorkItemV {
                status: status@,
                assignee: match assignee {
                    Some(a) => Some(a@),
                    None => crate::deck::work_view(old(items)@)[k].assignee,
                },
                ..crate::deck::work_view(old(items)@)[k]
            },
        ),
{
    let ghost w = crate::deck::work_view(items@);
    if let Some(k) = find_item(items, id) {
        let old_item = &items[k];
        let updated = crate::deck::WorkItem {
            id: copy_str(old_item.id.as_str()),
            title: copy_str(old_item.title.as_str()),
            status: copy_str(status),
            assignee: match assignee {
                Some(a) => Some(copy_str(a)),
                None => match &old_item.assignee {
                    Some(a) => Some(copy_str(a.as_str())),
                    None => None,
                },
            },
            areas: crate::text::copy_strings(&old_item.areas),
        };
        let ghost nv = updated@;
        items.set(k, updated);
        proof {
            assert forall|k2: int| first_item(w, id@, k2) implies k2 == k by {
                if k2 < k {
                    assert(w[k2].id != id@);
                } else if k2 > k {
                    assert(w[k as int].id != id@);
                }
            }
            assert(crate::deck::work_view(items@) =~= w.update(k as int, nv));
        }
    } else {
        proof {
            assert forall|k2: int| !first_item(w, id@, k2) by {
                if 0 <= k2 < w.len() {
                    assert(w[k2] == old(items)@[k2]@);
                }
            }
        }
    }
}


fn copy_opt_str(a: &Option<String>) -> (r: Option<String>)
    ensures
        crate::provider::opt_view(r) == crate::provider::opt_view(*a),
{
    match a {
        Some(x) => Some(copy_str(x.as_str())),
        None => None,
    }
}

/// A session as it begins: planning, at its checkpoint, with nothing done.
pub fn new_session(
    id: String,
    agent: &AgentDef,
    cmd: &StartAgentCommand,
    now_iso: &str,
    checkpoint: Checkpoint,
    context_tokens: usize,
) -> (r: Session)
    ensures
        r.id == id,
        r.agent_id@ == agent.id@,
        r.agent_name@ == agent.name@,
        r.role@ == agent.role@,
        r.project_id@ == cmd.project_id@,
        r.feature_id@ == cmd.feature_id@,
        crate::provider::opt_view(r.work_item_id) == crate::provider::opt_view(cmd.work_item_id),
        r.status == SessionStatus::Planning,
        r.started_at@ == now_iso@,
        r.ended_at is None,
        r.checkpoint == Some(checkpoint),
        !r.stale,
        r.turns == 0,
        r.context_tokens == context_tokens,
        r.files_touched@.len() == 0,
        r.transcript@.len() == 0,
        r.summary is None,
{
    Session {
        id,
        agent_id: copy_str(agent.id.as_str()),
        agent_name: copy_str(agent.name.as_str()),
        role: copy_str(agent.role.as_str()),
        project_id: copy_str(cmd.project_id.as_str()),
        feature_id: copy_str(cmd.feature_id.as_str()),
        work_item_id: copy_opt_str(&cmd.work_item_id),
        status: SessionStatus::Planning,
        started_at: copy_str(now_iso),
        ended_at: None,
        checkpoint: Some(checkpoint),
        stale: false,
        turns: 0,
        context_tokens,
        files_touched: Vec::new(),
        transcript: Vec::new(),
        summary: None,
    }
}

impl Drive {
    /// The session once the loop is over: how it ended, when, after how
    /// many turns, what it touched, and its summary as `outcome` gives it.
    pub fn end_session(&self, s: &mut Session, now_iso: &str)
        ensures
            final(s).status == (if self@.failed is Some {
                SessionStatus::Failed
            } else {
                SessionStatus::Completed
            }),
            crate::provider::opt_view(final(s).ended_at) == Some(now_iso@),
            final(s).turns == self@.turns,
            str_views(final(s).files_touched@) == self@.files_touched,
            crate::provider::opt_view(final(s).summary) == Some(
                if self@.summary.len() > 0 {
                    self@.summary
                } else {
                    match self@.failed {
                        Some(e) => e,
                        None => "Session ended with no summary."@,
                    }
                },
            ),
            final(s).id == old(s).id,
            final(s).agent_id == old(s).agent_id,
            final(s).project_id == old(s).project_id,
            final(s).feature_id == old(s).feature_id,
            final(s).work_item_id == old(s).work_item_id,
            final(s).started_at == old(s).started_at,
            final(s).checkpoint == old(s).checkpoint,
            final(s).stale == old(s).stale,
            final(s).context_tokens == old(s).context_tokens,
            final(s).transcript == old(s).transcript,
    {
        let (status, summary) = self.outcome();
        let t = self.turns();
        let mut files: Vec<String> = Vec::new();
        let mut i: usize = 0;
        while i < self.files_touched.len()
            invariant
                i <= self.files_touched.len(),
                str_views(files@) == str_views(self.files_touched@).take(i as int),
            decreases self.files_touched.len() - i,
        {
            let ghost before = files@;
            files.push(copy_str(self.files_touched[i].as_str()));
            proof {
                let all = str_views(self.files_touched@);
                assert(str_views(files@) =~= str_views(before).push(all[i as int]));
                assert(all.take(i + 1) =~= all.take(i as int).push(all[i as int]));
            }
            i = i + 1;
        }
        assert(str_views(self.files_touched@).take(self.files_touched.len() as int) =~= str_views(
            self.files_touched@,
        ));
        s.status = status;
        s.ended_at = Some(copy_str(now_iso));
        s.turns = t;
        s.files_touched = files;
        s.summary = Some(summary);
    }
}

/// The record of a test run a tool call made: it passed when the call
/// worked, under the project's test command, or "(none)" when it has none.
pub fn test_run(
    id: String,
    project_id: &str,
    feature_id: &str,
    agent_id: &str,
    test_command: &Option<String>,
    now_iso: &str,
    res: &ToolResult,
) -> (r: TestRun)
    ensures
        r.id == id,
        r.project_id@ == project_id@,
        crate::provider::opt_view(r.feature_id) == Some(feature_id@),
        r.agent_id@ == agent_id@,
        r.command@ == (match test_command {
            Some(c) => c@,
            None => "(none)"@,
        }),
        r.started_at@ == now_iso@,
        crate::provider::opt_view(r.ended_at) == Some(now_iso@),
        r.passed == res.ok,
        r.output@ == res.output@,
{
    TestRun {
        id,
        project_id: copy_str(project_id),
        feature_id: Some(copy_str(feature_id)),
        agent_id: copy_str(agent_id),
        command: match test_command {
            Some(c) => copy_str(c.as_str()),
            None => copy_str("(none)"),
        },
        started_at: copy_str(now_iso),
        ended_at: Some(copy_str(now_iso)),
        passed: res.ok,
        output: copy_str(res.output.as_str()),
    }
}

/// The commit message for the files a tool call changed.
pub fn change_message(agent_name: &str, intent: &str) -> (r: String)
    ensures
        r@ == agent_name@ + ": "@ + intent@,
{
    let mut r = copy_str(agent_name);
    push_str(&mut r, ": ");
    push_str(&mut r, intent);
    r
}

/// The commit message for a recorded decision.
pub fn decision_message(title: &str) -> (r: String)
    ensures
        r@ == "Decision: "@ + title@,
{
    let mut r = copy_str("Decision: ");
    push_str(&mut r, title);
    r
}

/// The body of a session's durable record: a heading with its id, then its
/// summary.
pub fn session_body(session_id: &str, summary: &str) -> (r: String)
    ensures
        r@ == "# Session "@ + session_id@ + "\n\n"@ + summary@ + "\n"@,
{
    let mut r = copy_str("# Session ");
    push_str(&mut r, session_id);
    push_str(&mut r, "\n\n");
    push_str(&mut r, summary);
    push_str(&mut r, "\n");
    r
}

} // verus!
