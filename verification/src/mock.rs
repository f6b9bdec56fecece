//! The scripted provider's replies.
//!
//! Deterministic, and deliberately not clever: it lets the whole loop run
//! with no key and no network. It reads the same request a real model would,
//! so a fault in what is handed over shows up here too, and what it cannot
//! support it says rather than pretends.
use vstd::prelude::*;
use crate::text::{
    chars_of, contains, contains_str, copy_str, decimal, join, join_strings, push_str, str_eq,
    str_views, trim, trim_vec, usize_to_string, words_from, from_chars,
};
use crate::json::{Json, JsonV};
use crate::tools::{ToolCall, ToolCallV};
use crate::provider::{
    AgentAction, AgentActionV, AgentRequest, AgentResponse, MockProvider, ObservationV, RequestV,
    ResponseV, actions_view, drop_cr, drop_cr_exec, feature_after, first_feature, lines_from,
    lemma_nl_from, next_line, obs_text, truncate_words,
};
use crate::bots::{lowercase, to_lowercase};
use crate::site::{index_from, index_from_exec};

verus! {

pub open spec fn done_v(summary: Seq<char>) -> AgentActionV {
    AgentActionV::Done { summary }
}

/// A call of `tool.action` with these arguments, as the mock makes it.
pub open spec fn call_v(tool: Seq<char>, action: Seq<char>, args: Seq<(Seq<char>, JsonV)>) -> AgentActionV {
    AgentActionV::Tool(ToolCallV { tool, action, args: JsonV::Obj(args), call_id: seq![] })
}

pub open spec fn reply_v(message: Seq<char>, actions: Seq<AgentActionV>, complete: bool) -> ResponseV {
    ResponseV { message, actions, complete }
}

pub open spec fn s_v(t: Seq<char>) -> JsonV {
    JsonV::Str(t)
}

// ---------------------------------------------------------------------------
// The scripts, stated
// ---------------------------------------------------------------------------

/// One result, reported back in a line: the first line of what it printed
/// ("done" when it printed nothing), or what failed.
pub open spec fn report_line(o: ObservationV) -> Seq<char> {
    if o.ok {
        if lines_from(o.output, 0).len() > 0 {
            lines_from(o.output, 0)[0]
        } else {
            "done"@
        }
    } else {
        o.tool + "."@ + o.action + " failed: "@ + o.output
    }
}

pub open spec fn report(obs: Seq<ObservationV>) -> Seq<char> {
    join(obs.map_values(|o: ObservationV| report_line(o)), " "@)
}

pub open spec fn wants_work(g: Seq<char>) -> bool {
    contains(g, "start"@) || contains(g, "implement"@) || contains(g, "build"@) || contains(
        g,
        "work on"@,
    ) || contains(g, "get going"@) || contains(g, "kick off"@)
}

pub open spec fn wants_memory(g: Seq<char>) -> bool {
    contains(g, "remember"@) || contains(g, "note that"@) || contains(g, "keep in mind"@)
}

/// The first `n` words of a text, joined by single spaces.
pub open spec fn first_words(s: Seq<char>, n: nat) -> Seq<char> {
    join(
        if words_from(s, 0).len() <= n {
            words_from(s, 0)
        } else {
            words_from(s, 0).take(n as int)
        },
        " "@,
    )
}

pub open spec fn no_feature_msg() -> Seq<char> {
    "There is no feature in this project to start work on yet.                           Create one and I'll delegate it."@
}

pub open spec fn honest_default_msg() -> Seq<char> {
    "I'm running on the mock provider, so I can coordinate but not think:                       ask me to start work on a feature, or to remember something.                       Connect a real provider in Settings to have an actual conversation."@
}

/// The orchestrator: after tool results, report them and stop; asked to
/// remember, save it; asked to start work, hand the first feature to
/// Developer A; otherwise say plainly what it can and cannot do.
pub open spec fn orchestrator_v(r: RequestV) -> ResponseV {
    if r.turn > 0 {
        let s = report(r.observations);
        reply_v(
            if s.len() == 0 {
                "Done."@
            } else {
                s
            },
            seq![done_v("handled"@)],
            true,
        )
    } else if wants_memory(lowercase(r.goal)) {
        reply_v(
            "Noting that."@,
            seq![
                call_v(
                    "memory"@,
                    "save"@,
                    seq![("body"@, s_v(r.goal)), ("title"@, s_v(first_words(r.goal, 8)))],
                ),
            ],
            false,
        )
    } else if wants_work(lowercase(r.goal)) {
        match feature_after(lines_from(r.context, 0), false) {
            Some(f) => reply_v(
                "I'll put Developer A on "@ + f + "."@,
                seq![
                    call_v(
                        "delegate"@,
                        "start"@,
                        seq![
                            ("agent_id"@, s_v("dev-a"@)),
                            ("feature_id"@, s_v(f)),
                            ("intent"@, s_v(r.goal)),
                        ],
                    ),
                ],
                false,
            ),
            None => reply_v(no_feature_msg(), seq![done_v("nothing to delegate"@)], true),
        }
    } else {
        reply_v(honest_default_msg(), seq![done_v("answered"@)], true)
    }
}

pub open spec fn sync_context_body() -> Seq<char> {
    "## Goal\n\nKeep each site working without connectivity.\n\n## Current state\n\n- Local queue implemented.\n- Push sync implemented.\n- Pull sync incomplete.\n- Conflict resolution in progress.\n\n## Rules\n\n- The server is authoritative on conflict.\n- Never trust a client timestamp for ordering.\n"@
}

pub open spec fn adr_v() -> AgentActionV {
    AgentActionV::Decision {
        id: "adr-server-authoritative"@,
        title: "Server-authoritative conflict resolution"@,
        body: "Offline sites may have unreliable clocks, so the server decides the winner rather than trusting a client timestamp."@,
        impacts: seq!["Sync engine"@, "API reconciliation"@, "Mobile UI"@],
        supersedes: None,
    }
}

/// The architect: search, record the decision, then rewrite the context.
pub open spec fn architect_v(r: RequestV) -> ResponseV {
    if r.turn == 0 {
        reply_v(
            "Reading the feature context before deciding anything."@,
            seq![call_v("knowledge"@, "search"@, seq![("query"@, s_v("sync"@))])],
            false,
        )
    } else if r.turn == 1 {
        reply_v("Offline sites have unreliable clocks, so the server must decide."@, seq![adr_v()], false)
    } else {
        reply_v(
            "Decision recorded and context updated."@,
            seq![
                AgentActionV::UpdateContext { body: sync_context_body() },
                done_v("Defined the sync architecture; recorded ADR."@),
            ],
            true,
        )
    }
}

/// Whether this developer owns the shared interface: Developer A, or the
/// lead.
pub open spec fn owns_interface(agent_id: Seq<char>) -> bool {
    contains(agent_id, "-a"@) || agent_id == "lead"@
}

pub open spec fn types_file() -> Seq<char> {
    "// Server-authoritative outcome, per ADR.\nexport type SyncResult = {\n  outcome: 'applied' | 'rejected' | 'deferred'\n}\n"@
}

pub open spec fn badge_file() -> Seq<char> {
    "// Reads SyncResult.ok \u{2014} assumes the old shape.\nexport const SyncBadge = () => null\n"@
}

/// The developers: look first; then the interface owner changes the shared
/// type and says so, and the other builds against the old one.
pub open spec fn developer_v(r: RequestV) -> ResponseV {
    let owns = owns_interface(r.agent_id);
    if r.turn == 0 {
        reply_v("Checking what is already here."@, seq![call_v("git"@, "status"@, seq![])], false)
    } else if r.turn == 1 && owns {
        reply_v(
            "Changing SyncResult so a conflict can be represented."@,
            seq![
                call_v(
                    "files"@,
                    "write"@,
                    seq![("content"@, s_v(types_file())), ("path"@, s_v("packages/sync/types.ts"@))],
                ),
                AgentActionV::SymbolChanged { symbol: "SyncResult"@ },
            ],
            false,
        )
    } else if r.turn == 1 {
        reply_v(
            "Building the sync status badge against SyncResult."@,
            seq![
                call_v(
                    "files"@,
                    "write"@,
                    seq![("content"@, s_v(badge_file())), ("path"@, s_v("apps/mobile/SyncBadge.tsx"@))],
                ),
            ],
            false,
        )
    } else {
        reply_v(
            "Work complete for this turn."@,
            seq![
                done_v(
                    if owns {
                        "Implemented conflict resolution; SyncResult now carries an outcome."@
                    } else {
                        "Built the sync status UI."@
                    },
                ),
            ],
            true,
        )
    }
}

/// QA: start the app, run the tests, report the last result.
pub open spec fn qa_v(r: RequestV) -> ResponseV {
    if r.turn == 0 {
        reply_v("Starting the application before testing it."@, seq![call_v("process"@, "start"@, seq![])], false)
    } else if r.turn == 1 {
        reply_v("Running the configured test command."@, seq![call_v("tests"@, "run"@, seq![])], false)
    } else {
        reply_v(
            "Recording the result."@,
            seq![
                done_v(
                    "Ran the suite. "@ + if r.observations.len() > 0 {
                        obs_text(r.observations.last())
                    } else {
                        seq![]
                    },
                ),
            ],
            true,
        )
    }
}

/// Whether any result mentions the new field.
pub open spec fn saw_outcome(obs: Seq<ObservationV>) -> bool {
    exists|i: int| 0 <= i < obs.len() && contains(obs_text(obs[i]), "outcome"@)
}

/// The auditor: read the shared type, then say whether it matches the
/// decision.
pub open spec fn auditor_v(r: RequestV) -> ResponseV {
    if r.turn == 0 {
        reply_v(
            "Comparing the implementation against the recorded decisions."@,
            seq![call_v("files"@, "read"@, seq![("path"@, s_v("packages/sync/types.ts"@))])],
            false,
        )
    } else if saw_outcome(r.observations) {
        reply_v(
            "Implementation matches the server-authoritative decision."@,
            seq![done_v("Reviewed: consistent with ADR."@)],
            true,
        )
    } else {
        reply_v(
            "Implementation does not yet reflect the recorded decision."@,
            seq![done_v("Reviewed: inconsistent with ADR."@)],
            true,
        )
    }
}

/// The script for a role; a role with none finishes at once, saying so.
pub open spec fn script_v(role: Seq<char>, r: RequestV) -> ResponseV {
    if role == "architect"@ {
        architect_v(r)
    } else if role == "developer"@ {
        developer_v(r)
    } else if role == "qa"@ {
        qa_v(r)
    } else if role == "auditor"@ {
        auditor_v(r)
    } else if role == "orchestrator"@ {
        orchestrator_v(r)
    } else {
        reply_v("No script for role '"@ + role + "'."@, seq![done_v("nothing to do"@)], true)
    }
}

/// The length of a text in bytes, as `str::len` gives it.
pub open spec fn byte_len(s: Seq<char>) -> usize {
    vstd::utf8::encode_utf8(s).len() as usize
}

/// The system prompt's first sentence, trimmed: what a first reply is
/// labelled with.
pub open spec fn first_sentence(system: Seq<char>) -> Seq<char> {
    trim(system.take(index_from(system, '.', 0)))
}

pub open spec fn mention_msg(r: RequestV) -> Seq<char> {
    r.role
        + " here, on the mock provider - I can read this thread but not think. Hand me an item with @"@
        + r.agent_id
        + " take \"...\" and I will run it in a session; point me at a real provider under Settings to have me actually answer."@
}

/// One turn of the mock: refused without context on the first turn; a
/// plain answer when named without tools (the orchestrator excepted);
/// otherwise the role's script, the first reply labelled with the model,
/// the system prompt's first sentence, and how much it was given.
pub open spec fn run_v(r: RequestV) -> Result<ResponseV, Seq<char>> {
    if r.context.len() == 0 && r.turn == 0 {
        Err(r.agent_id + " was started with no context for '"@ + r.goal + "'"@)
    } else if r.tools.len() == 0 && r.role != "orchestrator"@ {
        Ok(reply_v(mention_msg(r), seq![done_v("answered"@)], true))
    } else {
        let resp = script_v(r.role, r);
        if r.turn == 0 {
            Ok(
                ResponseV {
                    message: "["@ + r.model + " \u{b7} "@ + first_sentence(r.system) + "] "@
                        + resp.message + " ("@ + decimal(r.tools.len()) + " tools, "@ + decimal(
                        byte_len(r.context) as nat,
                    ) + " chars of context)"@,
                    ..resp
                },
            )
        } else {
            Ok(resp)
        }
    }
}

// ---------------------------------------------------------------------------
// Building blocks
// ---------------------------------------------------------------------------

fn done(summary: &str) -> (r: AgentAction)
    ensures
        r@ == done_v(summary@),
{
    AgentAction::Done { summary: copy_str(summary) }
}

fn field(k: &str, v: &str) -> (r: (String, Json))
    ensures
        r.0@ == k@,
        r.1@ == s_v(v@),
{
    (copy_str(k), Json::Str(copy_str(v)))
}

/// An object of these members, in this order.
fn obj(fields: Vec<(String, Json)>) -> (r: Json)
    ensures
        r@ == JsonV::Obj(fields@.map_values(|f: (String, Json)| (f.0@, f.1@))),
{
    let r = Json::Obj(fields);
    proof {
        if let JsonV::Obj(a) = r@ {
            assert(a =~= fields@.map_values(|f: (String, Json)| (f.0@, f.1@)));
        }
    }
    r
}

fn call0(tool: &str, action: &str) -> (r: AgentAction)
    ensures
        r@ == call_v(tool@, action@, seq![]),
{
    let fs: Vec<(String, Json)> = Vec::new();
    let args = obj(fs);
    assert(args@ == JsonV::Obj(seq![])) by {
        assert(fs@.map_values(|f: (String, Json)| (f.0@, f.1@)) =~= Seq::<(Seq<char>, JsonV)>::empty());
    }
    AgentAction::Tool(ToolCall::new(tool, action, args))
}

fn call1(tool: &str, action: &str, k: &str, v: &str) -> (r: AgentAction)
    ensures
        r@ == call_v(tool@, action@, seq![(k@, s_v(v@))]),
{
    let mut fs: Vec<(String, Json)> = Vec::new();
    fs.push(field(k, v));
    let args = obj(fs);
    assert(args@ == JsonV::Obj(seq![(k@, s_v(v@))])) by {
        assert(fs@.map_values(|f: (String, Json)| (f.0@, f.1@)) =~= seq![(k@, s_v(v@))]);
    }
    AgentAction::Tool(ToolCall::new(tool, action, args))
}

fn call2(tool: &str, action: &str, k1: &str, v1: &str, k2: &str, v2: &str) -> (r: AgentAction)
    ensures
        r@ == call_v(tool@, action@, seq![(k1@, s_v(v1@)), (k2@, s_v(v2@))]),
{
    let mut fs: Vec<(String, Json)> = Vec::new();
    fs.push(field(k1, v1));
    fs.push(field(k2, v2));
    let args = obj(fs);
    assert(args@ == JsonV::Obj(seq![(k1@, s_v(v1@)), (k2@, s_v(v2@))])) by {
        assert(fs@.map_values(|f: (String, Json)| (f.0@, f.1@)) =~= seq![(k1@, s_v(v1@)), (k2@, s_v(v2@))]);
    }
    AgentAction::Tool(ToolCall::new(tool, action, args))
}

fn call3(tool: &str, action: &str, k1: &str, v1: &str, k2: &str, v2: &str, k3: &str, v3: &str) -> (r: AgentAction)
    ensures
        r@ == call_v(tool@, action@, seq![(k1@, s_v(v1@)), (k2@, s_v(v2@)), (k3@, s_v(v3@))]),
{
    let mut fs: Vec<(String, Json)> = Vec::new();
    fs.push(field(k1, v1));
    fs.push(field(k2, v2));
    fs.push(field(k3, v3));
    let args = obj(fs);
    assert(args@ == JsonV::Obj(seq![(k1@, s_v(v1@)), (k2@, s_v(v2@)), (k3@, s_v(v3@))])) by {
        assert(fs@.map_values(|f: (String, Json)| (f.0@, f.1@)) =~= seq![
            (k1@, s_v(v1@)),
            (k2@, s_v(v2@)),
            (k3@, s_v(v3@)),
        ]);
    }
    AgentAction::Tool(ToolCall::new(tool, action, args))
}

fn reply1(message: String, a: AgentAction, complete: bool) -> (r: AgentResponse)
    ensures
        r@ == reply_v(message@, seq![a@], complete),
{
    let mut actions: Vec<AgentAction> = Vec::new();
    actions.push(a);
    let r = AgentResponse { message, actions, complete };
    assert(r@.actions =~= seq![a@]);
    r
}

fn reply2(message: String, a: AgentAction, b: AgentAction, complete: bool) -> (r: AgentResponse)
    ensures
        r@ == reply_v(message@, seq![a@, b@], complete),
{
    let mut actions: Vec<AgentAction> = Vec::new();
    actions.push(a);
    actions.push(b);
    let r = AgentResponse { message, actions, complete };
    assert(r@.actions =~= seq![a@, b@]);
    r
}

/// The first line of a text, as `str::lines` gives it.
fn first_line(s: &str) -> (r: Option<String>)
    ensures
        match r {
            Some(l) => lines_from(s@, 0).len() > 0 && lines_from(s@, 0)[0] == l@,
            None => lines_from(s@, 0).len() == 0,
        },
{
    let v = chars_of(s);
    if v.len() == 0 {
        return None;
    }
    let (e, _) = next_line(&v, 0);
    proof {
        lemma_nl_from(v@, 0, e as int);
    }
    let l = drop_cr_exec(&v, 0, e);
    Some(from_chars(&l))
}

fn report_exec(obs: &Vec<crate::provider::Observation>) -> (r: String)
    ensures
        r@ == report(obs@.map_values(|o: crate::provider::Observation| o@)),
{
    let ghost ov = obs@.map_values(|o: crate::provider::Observation| o@);
    let mut parts: Vec<String> = Vec::new();
    let mut i: usize = 0;
    while i < obs.len()
        invariant
            i <= obs.len(),
            ov == obs@.map_values(|o: crate::provider::Observation| o@),
            str_views(parts@) == ov.take(i as int).map_values(|o: ObservationV| report_line(o)),
        decreases obs.len() - i,
    {
        let o = &obs[i];
        let line = if o.ok {
            match first_line(o.output.as_str()) {
                Some(l) => l,
                None => copy_str("done"),
            }
        } else {
            let mut m = copy_str(o.tool.as_str());
            push_str(&mut m, ".");
            push_str(&mut m, o.action.as_str());
            push_str(&mut m, " failed: ");
            push_str(&mut m, o.output.as_str());
            m
        };
        assert(line@ == report_line(ov[i as int]));
        let ghost before = parts@;
        parts.push(line);
        i = i + 1;
        assert(str_views(parts@) =~= str_views(before).push(line@));
        assert(ov.take(i as int) =~= ov.take(i - 1).push(ov[i - 1]));
        assert(ov.take(i as int).map_values(|o: ObservationV| report_line(o)) =~= ov.take(i - 1).map_values(
            |o: ObservationV| report_line(o),
        ).push(report_line(ov[i - 1])));
    }
    assert(ov.take(obs.len() as int) =~= ov);
    join_strings(&parts, " ")
}

impl MockProvider {
    fn orchestrator(req: &AgentRequest) -> (r: AgentResponse)
        ensures
            r@ == orchestrator_v(req@),
    {
        if req.turn > 0 {
            let summary = report_exec(&req.observations);
            let message = if summary.as_str().is_empty() {
                copy_str("Done.")
            } else {
                summary
            };
            return reply1(message, done("handled"), true);
        }
        let g = to_lowercase(req.goal.as_str());
        let gs = g.as_str();
        let memory = contains_str(gs, "remember") || contains_str(gs, "note that") || contains_str(
            gs,
            "keep in mind",
        );
        if memory {
            let title = truncate_words(req.goal.as_str(), 8);
            let a = call2("memory", "save", "body", req.goal.as_str(), "title", title.as_str());
            return reply1(copy_str("Noting that."), a, false);
        }
        let work = contains_str(gs, "start") || contains_str(gs, "implement") || contains_str(
            gs,
            "build",
        ) || contains_str(gs, "work on") || contains_str(gs, "get going") || contains_str(
            gs,
            "kick off",
        );
        if work {
            match first_feature(req.context.as_str()) {
                Some(feature) => {
                    let mut m = copy_str("I'll put Developer A on ");
                    push_str(&mut m, feature.as_str());
                    push_str(&mut m, ".");
                    let a = call3(
                        "delegate",
                        "start",
                        "agent_id",
                        "dev-a",
                        "feature_id",
                        feature.as_str(),
                        "intent",
                        req.goal.as_str(),
                    );
                    return reply1(m, a, false);
                },
                None => {
                    return reply1(
                        copy_str(
                            "There is no feature in this project to start work on yet.                           Create one and I'll delegate it.",
                        ),
                        done("nothing to delegate"),
                        true,
                    );
                },
            }
        }
        reply1(
            copy_str(
                "I'm running on the mock provider, so I can coordinate but not think:                       ask me to start work on a feature, or to remember something.                       Connect a real provider in Settings to have an actual conversation.",
            ),
            done("answered"),
            true,
        )
    }

    fn architect(req: &AgentRequest) -> (r: AgentResponse)
        ensures
            r@ == architect_v(req@),
    {
        if req.turn == 0 {
            reply1(
                copy_str("Reading the feature context before deciding anything."),
                call1("knowledge", "search", "query", "sync"),
                false,
            )
        } else if req.turn == 1 {
            let mut impacts: Vec<String> = Vec::new();
            impacts.push(copy_str("Sync engine"));
            impacts.push(copy_str("API reconciliation"));
            impacts.push(copy_str("Mobile UI"));
            let a = AgentAction::Decision {
                id: copy_str("adr-server-authoritative"),
                title: copy_str("Server-authoritative conflict resolution"),
                body: copy_str(
                    "Offline sites may have unreliable clocks, so the server decides the winner rather than trusting a client timestamp.",
                ),
                impacts,
                supersedes: None,
            };
            assert(str_views(impacts@) =~= seq!["Sync engine"@, "API reconciliation"@, "Mobile UI"@]);
            reply1(copy_str("Offline sites have unreliable clocks, so the server must decide."), a, false)
        } else {
            let u = AgentAction::UpdateContext {
                body: copy_str(
                    "## Goal\n\nKeep each site working without connectivity.\n\n## Current state\n\n- Local queue implemented.\n- Push sync implemented.\n- Pull sync incomplete.\n- Conflict resolution in progress.\n\n## Rules\n\n- The server is authoritative on conflict.\n- Never trust a client timestamp for ordering.\n",
                ),
            };
            reply2(
                copy_str("Decision recorded and context updated."),
                u,
                done("Defined the sync architecture; recorded ADR."),
                true,
            )
        }
    }

    fn developer(req: &AgentRequest) -> (r: AgentResponse)
        ensures
            r@ == developer_v(req@),
    {
        // Developer A owns the shared interface and the other builds the UI:
        // the agent's id decides which, so both run the same code.
        let owns = contains_str(req.agent_id.as_str(), "-a") || str_eq(req.agent_id.as_str(), "lead");
        if req.turn == 0 {
            reply1(copy_str("Checking what is already here."), call0("git", "status"), false)
        } else if req.turn == 1 && owns {
            let w = call2(
                "files",
                "write",
                "content",
                "// Server-authoritative outcome, per ADR.\nexport type SyncResult = {\n  outcome: 'applied' | 'rejected' | 'deferred'\n}\n",
                "path",
                "packages/sync/types.ts",
            );
            reply2(
                copy_str("Changing SyncResult so a conflict can be represented."),
                w,
                AgentAction::SymbolChanged { symbol: copy_str("SyncResult") },
                false,
            )
        } else if req.turn == 1 {
            let w = call2(
                "files",
                "write",
                "content",
                "// Reads SyncResult.ok \u{2014} assumes the old shape.\nexport const SyncBadge = () => null\n",
                "path",
                "apps/mobile/SyncBadge.tsx",
            );
            reply1(copy_str("Building the sync status badge against SyncResult."), w, false)
        } else {
            let d = if owns {
                done("Implemented conflict resolution; SyncResult now carries an outcome.")
            } else {
                done("Built the sync status UI.")
            };
            reply1(copy_str("Work complete for this turn."), d, true)
        }
    }

    fn qa(req: &AgentRequest) -> (r: AgentResponse)
        ensures
            r@ == qa_v(req@),
    {
        if req.turn == 0 {
            reply1(copy_str("Starting the application before testing it."), call0("process", "start"), false)
        } else if req.turn == 1 {
            reply1(copy_str("Running the configured test command."), call0("tests", "run"), false)
        } else {
            let mut s = copy_str("Ran the suite. ");
            let n = req.observations.len();
            if n > 0 {
                let t = req.observations[n - 1].text();
                push_str(&mut s, t.as_str());
            } else {
                assert(s@ =~= "Ran the suite. "@ + Seq::<char>::empty());
            }
            reply1(copy_str("Recording the result."), AgentAction::Done { summary: s }, true)
        }
    }

    fn auditor(req: &AgentRequest) -> (r: AgentResponse)
        ensures
            r@ == auditor_v(req@),
    {
        if req.turn == 0 {
            return reply1(
                copy_str("Comparing the implementation against the recorded decisions."),
                call1("files", "read", "path", "packages/sync/types.ts"),
                false,
            );
        }
        let ghost ov = req@.observations;
        let mut saw = false;
        let mut i: usize = 0;
        while i < req.observations.len()
            invariant
                i <= req.observations.len(),
                ov == req@.observations,
                ov.len() == req.observations.len(),
                saw == exists|j: int| 0 <= j < i && contains(obs_text(ov[j]), "outcome"@),
            decreases req.observations.len() - i,
        {
            let t = req.observations[i].text();
            assert(ov[i as int] == req.observations@[i as int]@);
            if contains_str(t.as_str(), "outcome") {
                saw = true;
            }
            i = i + 1;
        }
        if saw {
            reply1(
                copy_str("Implementation matches the server-authoritative decision."),
                done("Reviewed: consistent with ADR."),
                true,
            )
        } else {
            reply1(
                copy_str("Implementation does not yet reflect the recorded decision."),
                done("Reviewed: inconsistent with ADR."),
                true,
            )
        }
    }

    /// The script for one role, turn by turn. `Done` ends the loop.
    fn script(role: &str, req: &AgentRequest) -> (r: AgentResponse)
        ensures
            r@ == script_v(role@, req@),
    {
        if str_eq(role, "architect") {
            Self::architect(req)
        } else if str_eq(role, "developer") {
            Self::developer(req)
        } else if str_eq(role, "qa") {
            Self::qa(req)
        } else if str_eq(role, "auditor") {
            Self::auditor(req)
        } else if str_eq(role, "orchestrator") {
            Self::orchestrator(req)
        } else {
            let mut m = copy_str("No script for role '");
            push_str(&mut m, role);
            push_str(&mut m, "'.");
            reply1(m, done("nothing to do"), true)
        }
    }

    /// One turn. The mock reads the same fields a real model would, so a
    /// request assembled wrongly fails here too.
    pub fn run(&self, request: &AgentRequest) -> (r: Result<AgentResponse, String>)
        ensures
            match (r, run_v(request@)) {
                (Ok(a), Ok(b)) => a@ == b,
                (Err(a), Err(b)) => a@ == b,
                _ => false,
            },
    {
        if request.context.as_str().is_empty() && request.turn == 0 {
            let mut e = copy_str(request.agent_id.as_str());
            push_str(&mut e, " was started with no context for '");
            push_str(&mut e, request.goal.as_str());
            push_str(&mut e, "'");
            return Err(e);
        }
        if request.tools.len() == 0 && !str_eq(request.role.as_str(), "orchestrator") {
            // Named in a thread with no tools: running a script would start
            // writing files, which a mention must never do.
            let mut m = copy_str(request.role.as_str());
            push_str(
                &mut m,
                " here, on the mock provider - I can read this thread but not think. Hand me an item with @",
            );
            push_str(&mut m, request.agent_id.as_str());
            push_str(
                &mut m,
                " take \"...\" and I will run it in a session; point me at a real provider under Settings to have me actually answer.",
            );
            assert(m@ =~= mention_msg(request@));
            return Ok(reply1(m, done("answered"), true));
        }
        let mut response = Self::script(request.role.as_str(), request);
        if request.turn == 0 {
            let sys = chars_of(request.system.as_str());
            let dot = index_from_exec(&sys, '.', 0);
            let head = crate::text::sub_vec(&sys, 0, dot);
            let label = from_chars(&trim_vec(&head));
            assert(head@ =~= request@.system.take(index_from(request@.system, '.', 0)));
            let mut m = copy_str("[");
            push_str(&mut m, request.model.as_str());
            push_str(&mut m, " \u{b7} ");
            push_str(&mut m, label.as_str());
            push_str(&mut m, "] ");
            push_str(&mut m, response.message.as_str());
            push_str(&mut m, " (");
            let nt = usize_to_string(request.tools.len());
            push_str(&mut m, nt.as_str());
            push_str(&mut m, " tools, ");
            let ctx = request.context.as_str();
            let nc = usize_to_string(ctx.len());
            assert(ctx.len() == byte_len(request@.context));
            push_str(&mut m, nc.as_str());
            push_str(&mut m, " chars of context)");
            assert(label@ == first_sentence(request@.system));
            assert(request@.tools.len() == request.tools.len());
            assert(m@ =~= "["@ + request@.model + " \u{b7} "@ + first_sentence(request@.system) + "] "@
                + response@.message + " ("@ + decimal(request@.tools.len()) + " tools, "@ + decimal(
                byte_len(request@.context) as nat,
            ) + " chars of context)"@);
            response.message = m;
        }
        Ok(response)
    }
}

} // verus!
