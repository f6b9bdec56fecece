//! What a model's JSON looks like, going out and coming back.
//!
//! Tool definitions are written in the two shapes the providers want; tool
//! calls and text are read back out of their replies, whole or streamed; and
//! a reply becomes the actions the runtime runs. Nothing below the provider
//! layer has an opinion about wire formats.
use vstd::prelude::*;
use crate::text::{copy_str, is_blank, join, join_strings, push_str, str_views, trim};
use crate::json::{
    Json, JsonV, is_obj, get_v, get_str, get_arr, u64_v, arr_v, str_v, pairs_view, jsons_view, obj_from,
    arr_from, push_field, push_item, jstr,
};
use crate::tools::{Param, ParamV, Params, ParamsV, ToolDefinition, DefinitionV, wire, wire_name};
use crate::provider::{
    AgentRequest, RequestV, Observation, ObservationV, ChatTurnV, obs_text, AnthropicProvider,
    OpenAICompatibleProvider,
};
use crate::order::{str_lt, str_lt_exec, lemma_str_lt_total, lemma_str_lt_trans, lemma_str_lt_irrefl};
use crate::provider::{ModelInfo, ModelInfoV, models_view};
use crate::tools::{ToolCall, ToolCallV, arg_keys, parse_call_spec, parse_tool_call};
use crate::provider::{AgentAction, AgentActionV, AgentResponse, ResponseV, actions_view};

verus! {

/// A tool call a model asked for, before it is checked or permitted.
#[derive(Debug)]
pub struct RawToolCall {
    /// The provider's id for the call, sent back with the result.
    pub id: String,
    pub name: String,
    pub input: Json,
}

pub ghost struct RawCallV {
    pub id: Seq<char>,
    pub name: Seq<char>,
    pub input: JsonV,
}

impl View for RawToolCall {
    type V = RawCallV;

    open spec fn view(&self) -> RawCallV {
        RawCallV { id: self.id@, name: self.name@, input: self.input@ }
    }
}

pub open spec fn raws_view(v: Seq<RawToolCall>) -> Seq<RawCallV> {
    v.map_values(|c: RawToolCall| c@)
}

/// What one call becomes: the action it names, carrying the call's id, or
/// the call's id and a message the model can correct itself by.
pub open spec fn action_of(c: RawCallV) -> Result<AgentActionV, (Seq<char>, Seq<char>)> {
    match parse_call_spec(c.name, is_obj(c.input), arg_keys(c.input)) {
        Ok(ta) => Ok(
            AgentActionV::Tool(ToolCallV { tool: ta.0, action: ta.1, args: c.input, call_id: c.id }),
        ),
        Err(e) => Err((c.id, e)),
    }
}

pub open spec fn outcome_view(o: Result<AgentAction, (String, String)>) -> Result<
    AgentActionV,
    (Seq<char>, Seq<char>),
> {
    match o {
        Ok(a) => Ok(a@),
        Err(e) => Err((e.0@, e.1@)),
    }
}

/// Turn raw calls into actions the runtime can run, one outcome per call,
/// in order.
pub fn to_actions(calls: &Vec<RawToolCall>) -> (r: Vec<Result<AgentAction, (String, String)>>)
    ensures
        r@.len() == calls@.len(),
        forall|i: int| 0 <= i < calls@.len() ==> outcome_view(#[trigger] r@[i]) == action_of(calls@[i]@),
{
    let mut out: Vec<Result<AgentAction, (String, String)>> = Vec::new();
    let mut i: usize = 0;
    while i < calls.len()
        invariant
            i <= calls.len(),
            out@.len() == i,
            forall|k: int| 0 <= k < i ==> outcome_view(#[trigger] out@[k]) == action_of(calls@[k]@),
        decreases calls.len() - i,
    {
        let c = &calls[i];
        match parse_tool_call(c.name.as_str(), &c.input) {
            Ok(mut call) => {
                call.call_id = copy_str(c.id.as_str());
                out.push(Ok(AgentAction::Tool(call)));
            },
            Err(e) => {
                out.push(Err((copy_str(c.id.as_str()), e)));
            },
        }
        i = i + 1;
    }
    out
}

/// The actions among the outcomes, in order.
pub open spec fn oks(os: Seq<Result<AgentActionV, (Seq<char>, Seq<char>)>>) -> Seq<AgentActionV>
    decreases os.len(),
{
    if os.len() == 0 {
        seq![]
    } else {
        let rest = oks(os.drop_last());
        match os.last() {
            Ok(a) => rest.push(a),
            Err(_) => rest,
        }
    }
}

/// What is said of each refused call, in order.
pub open spec fn refusals(os: Seq<Result<AgentActionV, (Seq<char>, Seq<char>)>>) -> Seq<Seq<char>>
    decreases os.len(),
{
    if os.len() == 0 {
        seq![]
    } else {
        let rest = refusals(os.drop_last());
        match os.last() {
            Ok(_) => rest,
            Err(e) => rest.push("tool call "@ + e.0 + " was rejected: "@ + e.1),
        }
    }
}

pub open spec fn incomplete_note(name: Seq<char>) -> Seq<char> {
    "tool call "@ + name + " arrived incomplete and was not run -- send it again"@
}

/// A model's text and calls as one turn's answer. What ran is what parsed;
/// what did not, and what arrived cut off, is said in the message so the
/// model can try again. Nothing to run and nothing refused means it is
/// finished, and its text, when it has any, is its summary.
pub open spec fn assemble_v(message: Seq<char>, calls: Seq<RawCallV>, dropped: Seq<Seq<char>>) -> ResponseV {
    let os = calls.map_values(|c: RawCallV| action_of(c));
    let rejected = refusals(os) + dropped.map_values(|n: Seq<char>| incomplete_note(n));
    let complete = oks(os).len() == 0 && rejected.len() == 0;
    ResponseV {
        message: if rejected.len() == 0 {
            message
        } else {
            message + "\n"@ + join(rejected, "\n"@)
        },
        actions: if complete && trim(message).len() > 0 {
            seq![AgentActionV::Done { summary: message }]
        } else {
            oks(os)
        },
        complete,
    }
}

pub fn assemble(message: String, calls: &Vec<RawToolCall>, dropped: &Vec<String>) -> (r: AgentResponse)
    ensures
        r@ == assemble_v(message@, raws_view(calls@), str_views(dropped@)),
{
    let outcomes = to_actions(calls);
    let ghost os = raws_view(calls@).map_values(|c: RawCallV| action_of(c));
    let mut actions: Vec<AgentAction> = Vec::new();
    let mut rejected: Vec<String> = Vec::new();
    let mut outs = outcomes;
    let ghost all = outs@;
    assert(all.len() == os.len());
    // Walk the outcomes in order, keeping ownership of each.
    let mut rev: Vec<Result<AgentAction, (String, String)>> = Vec::new();
    while outs.len() > 0
        invariant
            outs@.len() + rev@.len() == all.len(),
            forall|k: int| 0 <= k < outs@.len() ==> outs@[k] == all[k],
            forall|k: int| 0 <= k < rev@.len() ==> rev@[k] == all[all.len() - 1 - k],
        decreases outs@.len(),
    {
        let o = outs.pop().unwrap();
        rev.push(o);
    }
    let mut i: usize = 0;
    let n = rev.len();
    while rev.len() > 0
        invariant
            rev@.len() + i == n,
            n == all.len(),
            n == os.len(),
            forall|k: int| 0 <= k < rev@.len() ==> rev@[k] == all[n - 1 - k],
            forall|k: int| 0 <= k < n ==> outcome_view(#[trigger] all[k]) == os[k],
            actions_view(actions@) == oks(os.take(i as int)),
            str_views(rejected@) == refusals(os.take(i as int)),
        decreases rev@.len(),
    {
        let o = rev.pop().unwrap();
        assert(o == all[i as int]);
        assert(os.take(i + 1).drop_last() =~= os.take(i as int));
        match o {
            Ok(a) => {
                let ghost before = actions@;
                actions.push(a);
                assert(actions_view(actions@) =~= actions_view(before).push(a@));
            },
            Err(e) => {
                let mut m = copy_str("tool call ");
                push_str(&mut m, e.0.as_str());
                push_str(&mut m, " was rejected: ");
                push_str(&mut m, e.1.as_str());
                let ghost before = rejected@;
                rejected.push(m);
                assert(str_views(rejected@) =~= str_views(before).push(m@));
            },
        }
        i = i + 1;
    }
    assert(os.take(n as int) =~= os);
    let ghost refused = str_views(rejected@);
    let mut j: usize = 0;
    while j < dropped.len()
        invariant
            j <= dropped.len(),
            str_views(rejected@) == refused + str_views(dropped@).take(j as int).map_values(
                |x: Seq<char>| incomplete_note(x),
            ),
        decreases dropped.len() - j,
    {
        let mut m = copy_str("tool call ");
        push_str(&mut m, dropped[j].as_str());
        push_str(&mut m, " arrived incomplete and was not run -- send it again");
        let ghost before = rejected@;
        rejected.push(m);
        j = j + 1;
        assert(str_views(rejected@) =~= str_views(before).push(m@));
        assert(str_views(dropped@).take(j as int) =~= str_views(dropped@).take(j - 1).push(dropped@[j - 1]@));
        assert(str_views(dropped@).take(j as int).map_values(|x: Seq<char>| incomplete_note(x))
            =~= str_views(dropped@).take(j - 1).map_values(|x: Seq<char>| incomplete_note(x)).push(
            incomplete_note(dropped@[j - 1]@),
        ));
    }
    assert(str_views(dropped@).take(dropped.len() as int) =~= str_views(dropped@));
    let complete = actions.len() == 0 && rejected.len() == 0;
    if complete && !is_blank(message.as_str()) {
        let s = copy_str(message.as_str());
        let ghost before = actions@;
        actions.push(AgentAction::Done { summary: s });
        assert(actions_view(actions@) =~= seq![AgentActionV::Done { summary: message@ }]);
    }
    let msg = if rejected.len() == 0 {
        message
    } else {
        let mut m = message;
        push_str(&mut m, "\n");
        let joined = join_strings(&rejected, "\n");
        push_str(&mut m, joined.as_str());
        m
    };
    AgentResponse { message: msg, actions, complete }
}

// ---------------------------------------------------------------------------
// Model lists
// ---------------------------------------------------------------------------

/// A member's text when it is there, is a string and is not empty.
pub open spec fn nonempty_str(j: JsonV, key: Seq<char>) -> Option<Seq<char>> {
    match get_str(j, key) {
        Some(s) => if s.len() > 0 {
            Some(s)
        } else {
            None
        },
        None => None,
    }
}

/// A context window: the member, when it is a whole number that is not
/// zero once cut to 32 bits.
pub open spec fn window_of(v: Option<JsonV>) -> Option<u32> {
    match v {
        Some(x) => match u64_v(x) {
            Some(c) => if (c as u32) > 0 {
                Some(c as u32)
            } else {
                None
            },
            None => None,
        },
        None => None,
    }
}

/// One entry of an OpenAI-style list: it needs an id; its name is its
/// `name` or else its id; its window is `context_length`, or else, when that
/// is absent, `context_window`.
pub open spec fn openai_entry(m: JsonV) -> Option<ModelInfoV> {
    match nonempty_str(m, "id"@) {
        Some(id) => Some(
            ModelInfoV {
                id,
                name: match nonempty_str(m, "name"@) {
                    Some(n) => n,
                    None => id,
                },
                context_window: window_of(
                    match get_v(m, "context_length"@) {
                        Some(c) => Some(c),
                        None => get_v(m, "context_window"@),
                    },
                ),
            },
        ),
        None => None,
    }
}

/// One entry of Anthropic's list: an id, its `display_name` or else its id,
/// and no window, which it does not publish.
pub open spec fn anthropic_entry(m: JsonV) -> Option<ModelInfoV> {
    match nonempty_str(m, "id"@) {
        Some(id) => Some(
            ModelInfoV {
                id,
                name: match nonempty_str(m, "display_name"@) {
                    Some(n) => n,
                    None => id,
                },
                context_window: None,
            },
        ),
        None => None,
    }
}

pub open spec fn openai_entries(list: Seq<JsonV>) -> Seq<ModelInfoV>
    decreases list.len(),
{
    if list.len() == 0 {
        seq![]
    } else {
        let rest = openai_entries(list.drop_last());
        match openai_entry(list.last()) {
            Some(m) => rest.push(m),
            None => rest,
        }
    }
}

pub open spec fn anthropic_entries(list: Seq<JsonV>) -> Seq<ModelInfoV>
    decreases list.len(),
{
    if list.len() == 0 {
        seq![]
    } else {
        let rest = anthropic_entries(list.drop_last());
        match anthropic_entry(list.last()) {
            Some(m) => rest.push(m),
            None => rest,
        }
    }
}

/// The `data` array of a model-list reply; nothing when there is none.
pub open spec fn data_of(body: JsonV) -> Seq<JsonV> {
    match get_arr(body, "data"@) {
        Some(xs) => xs,
        None => seq![],
    }
}

/// The first of `cs` with this id.
pub open spec fn first_with(cs: Seq<ModelInfoV>, id: Seq<char>) -> Option<ModelInfoV>
    decreases cs.len(),
{
    if cs.len() == 0 {
        None
    } else {
        match first_with(cs.drop_last(), id) {
            Some(m) => Some(m),
            None => if cs.last().id == id {
                Some(cs.last())
            } else {
                None
            },
        }
    }
}

pub open spec fn ids_of(ms: Seq<ModelInfoV>) -> Seq<Seq<char>> {
    ms.map_values(|m: ModelInfoV| m.id)
}

/// `out` is `cs` sorted by id with each id kept once, the first of its kind:
/// what a stable sort and then dropping repeats gives.
pub open spec fn sorted_firsts(cs: Seq<ModelInfoV>, out: Seq<ModelInfoV>) -> bool {
    &&& crate::order::strictly_sorted(ids_of(out))
    &&& forall|k: int| 0 <= k < out.len() ==> first_with(cs, #[trigger] out[k].id) == Some(out[k])
    &&& forall|j: int| 0 <= j < cs.len() ==> exists|k: int| 0 <= k < out.len() && out[k].id == (#[trigger] cs[j]).id
}

/// `out` is `cs` with each run of equal ids cut to its first.
pub open spec fn dedup_runs(cs: Seq<ModelInfoV>) -> Seq<ModelInfoV>
    decreases cs.len(),
{
    if cs.len() == 0 {
        seq![]
    } else {
        let rest = dedup_runs(cs.drop_last());
        if cs.len() >= 2 && cs[cs.len() - 2].id == cs.last().id {
            rest
        } else {
            rest.push(cs.last())
        }
    }
}

proof fn lemma_first_with_found(cs: Seq<ModelInfoV>, id: Seq<char>)
    requires
        first_with(cs, id) is Some,
    ensures
        exists|j: int| 0 <= j < cs.len() && cs[j].id == id && cs[j] == first_with(cs, id).unwrap(),
    decreases cs.len(),
{
    if cs.len() > 0 {
        if first_with(cs.drop_last(), id) is Some {
            lemma_first_with_found(cs.drop_last(), id);
            let j = choose|j: int| 0 <= j < cs.drop_last().len() && cs.drop_last()[j].id == id
                && cs.drop_last()[j] == first_with(cs.drop_last(), id).unwrap();
            assert(cs[j] == cs.drop_last()[j]);
        } else {
            assert(cs[cs.len() - 1] == cs.last());
        }
    }
}

proof fn lemma_first_with_absent(cs: Seq<ModelInfoV>, id: Seq<char>)
    requires
        forall|j: int| 0 <= j < cs.len() ==> cs[j].id != id,
    ensures
        first_with(cs, id) is None,
    decreases cs.len(),
{
    if cs.len() > 0 {
        assert forall|j: int| 0 <= j < cs.drop_last().len() implies cs.drop_last()[j].id != id by {
            assert(cs.drop_last()[j] == cs[j]);
        }
        lemma_first_with_absent(cs.drop_last(), id);
        assert(cs.last() == cs[cs.len() - 1]);
    }
}

fn model_copy(m: &ModelInfo) -> (r: ModelInfo)
    ensures
        r@ == m@,
{
    ModelInfo { id: copy_str(m.id.as_str()), name: copy_str(m.name.as_str()), context_window: m.context_window }
}

/// Put `m` where its id sorts, unless its id is there already.
fn add_sorted(out: &mut Vec<ModelInfo>, m: ModelInfo)
    requires
        crate::order::strictly_sorted(ids_of(models_view(old(out)@))),
    ensures
        crate::order::strictly_sorted(ids_of(models_view(final(out)@))),
        (exists|k: int| 0 <= k < old(out)@.len() && old(out)@[k]@.id == m@.id) ==> models_view(final(out)@)
            == models_view(old(out)@),
        !(exists|k: int| 0 <= k < old(out)@.len() && old(out)@[k]@.id == m@.id) ==> exists|p: int|
            0 <= p <= old(out)@.len() && models_view(final(out)@) == models_view(old(out)@).insert(p, m@),
{
    let ghost old_v = models_view(out@);
    let ghost ids = ids_of(old_v);
    let xv = crate::text::chars_of(m.id.as_str());
    let mut i: usize = 0;
    while i < out.len()
        invariant
            i <= out.len(),
            models_view(out@) == old_v,
            ids == ids_of(old_v),
            crate::order::strictly_sorted(ids),
            xv@ == m.id@,
            forall|j: int| 0 <= j < i ==> str_lt(ids[j], m.id@),
        ensures
            i <= out.len(),
            models_view(out@) == old_v,
            forall|j: int| 0 <= j < i ==> str_lt(ids[j], m.id@),
            i < out.len() ==> !str_lt(ids[i as int], m.id@),
        decreases out.len() - i,
    {
        let cv = crate::text::chars_of(out[i].id.as_str());
        assert(cv@ == ids[i as int]);
        if !str_lt_exec(&cv, &xv) {
            break ;
        }
        i = i + 1;
    }
    if i < out.len() {
        let cv = crate::text::chars_of(out[i].id.as_str());
        if crate::text::seq_eq(&cv, &xv) {
            assert(out@[i as int]@.id == m@.id);
            return ;
        }
        proof {
            lemma_str_lt_total(ids[i as int], m.id@);
        }
    }
    proof {
        assert forall|k: int| 0 <= k < old_v.len() implies old_v[k].id != m@.id by {
            if k < i {
                assert(str_lt(ids[k], m.id@));
                if ids[k] == m.id@ {
                    lemma_str_lt_irrefl(m.id@);
                }
            } else {
                assert(str_lt(m.id@, ids[i as int]));
                if k > i {
                    assert(str_lt(ids[i as int], ids[k]));
                    lemma_str_lt_trans(m.id@, ids[i as int], ids[k]);
                }
                if ids[k] == m.id@ {
                    lemma_str_lt_irrefl(m.id@);
                }
            }
        }
        assert forall|k: int| 0 <= k < old(out)@.len() implies old(out)@[k]@.id != m@.id by {
            assert(old_v[k] == old(out)@[k]@);
        }
    }
    let ghost mv = m@;
    out.insert(i, m);
    proof {
        let nv = models_view(out@);
        assert(nv =~= old_v.insert(i as int, mv));
        let nids = ids_of(nv);
        assert(nids =~= ids.insert(i as int, mv.id));
        assert forall|a: int, b: int| 0 <= a < b < nids.len() implies str_lt(nids[a], nids[b]) by {
            if b < i {
            } else if a < i && b == i {
            } else if a < i && b > i {
                assert(str_lt(ids[a], mv.id));
                assert(str_lt(mv.id, ids[i as int]));
                if b - 1 > i {
                    assert(str_lt(ids[i as int], ids[b - 1]));
                    lemma_str_lt_trans(mv.id, ids[i as int], ids[b - 1]);
                }
                lemma_str_lt_trans(ids[a], mv.id, ids[b - 1]);
            } else if a == i {
                assert(str_lt(mv.id, ids[i as int]));
                if b - 1 > i {
                    lemma_str_lt_trans(mv.id, ids[i as int], ids[b - 1]);
                }
            } else {
            }
        }
    }
}

fn nonempty_str_exec(j: &Json, key: &str) -> (r: Option<String>)
    ensures
        match r {
            Some(s) => nonempty_str(j@, key@) == Some(s@),
            None => nonempty_str(j@, key@) is None,
        },
{
    match j.get(key) {
        Some(v) => match v.as_str() {
            Some(t) => if t.is_empty() {
                None
            } else {
                Some(copy_str(t))
            },
            None => None,
        },
        None => None,
    }
}

fn openai_entry_exec(m: &Json) -> (r: Option<ModelInfo>)
    ensures
        match r {
            Some(x) => openai_entry(m@) == Some(x@),
            None => openai_entry(m@) is None,
        },
{
    let id = match nonempty_str_exec(m, "id") {
        Some(id) => id,
        None => return None,
    };
    let name = match nonempty_str_exec(m, "name") {
        Some(n) => n,
        None => copy_str(id.as_str()),
    };
    let src = match m.get("context_length") {
        Some(c) => Some(c),
        None => m.get("context_window"),
    };
    let context_window = match src {
        Some(x) => match x.as_u64() {
            Some(c) => {
                let w = c as u32;
                if w > 0 {
                    Some(w)
                } else {
                    None
                }
            },
            None => None,
        },
        None => None,
    };
    Some(ModelInfo { id, name, context_window })
}

fn anthropic_entry_exec(m: &Json) -> (r: Option<ModelInfo>)
    ensures
        match r {
            Some(x) => anthropic_entry(m@) == Some(x@),
            None => anthropic_entry(m@) is None,
        },
{
    let id = match nonempty_str_exec(m, "id") {
        Some(id) => id,
        None => return None,
    };
    let name = match nonempty_str_exec(m, "display_name") {
        Some(n) => n,
        None => copy_str(id.as_str()),
    };
    Some(ModelInfo { id, name, context_window: None })
}

fn data_exec(body: &Json) -> (r: Option<&Vec<Json>>)
    ensures
        match r {
            Some(v) => data_of(body@) == v@.map_values(|x: Json| x@),
            None => data_of(body@) == Seq::<JsonV>::empty(),
        },
{
    match body.get("data") {
        Some(d) => d.as_array(),
        None => None,
    }
}

/// `{"data":[{"id":..,"name":..,"context_length":..}]}`, sorted by id with
/// each id once, because the order providers return is neither stable nor
/// meaningful. Anything else yields nothing rather than junk.
pub fn parse_openai_models(body: &Json) -> (r: Vec<ModelInfo>)
    ensures
        sorted_firsts(openai_entries(data_of(body@)), models_view(r@)),
{
    let mut out: Vec<ModelInfo> = Vec::new();
    let list = match data_exec(body) {
        Some(l) => l,
        None => {
            assert(openai_entries(Seq::<JsonV>::empty()) =~= Seq::<ModelInfoV>::empty());
            return out;
        },
    };
    let ghost lv = list@.map_values(|x: Json| x@);
    let ghost cands = openai_entries(lv);
    let mut i: usize = 0;
    while i < list.len()
        invariant
            i <= list.len(),
            lv == list@.map_values(|x: Json| x@),
            sorted_firsts(openai_entries(lv.take(i as int)), models_view(out@)),
        decreases list.len() - i,
    {
        let ghost cs = openai_entries(lv.take(i as int));
        let ghost before = models_view(out@);
        assert(lv.take(i + 1).drop_last() =~= lv.take(i as int));
        assert(lv.take(i + 1).last() == list@[i as int]@);
        match openai_entry_exec(&list[i]) {
            Some(m) => {
                let ghost mv = m@;
                let ghost ncs = cs.push(mv);
                assert(openai_entries(lv.take(i + 1)) == ncs);
                assert(ncs.drop_last() =~= cs);
                let ghost present = exists|k: int| 0 <= k < before.len() && before[k].id == mv.id;
                proof {
                    if present {
                        let k = choose|k: int| 0 <= k < before.len() && before[k].id == mv.id;
                        assert(out@[k]@ == before[k]);
                    }
                    if exists|k: int| 0 <= k < out@.len() && out@[k]@.id == mv.id {
                        let k = choose|k: int| 0 <= k < out@.len() && out@[k]@.id == mv.id;
                        assert(out@[k]@ == before[k]);
                    }
                }
                add_sorted(&mut out, m);
                proof {
                    lemma_add_keeps_firsts(cs, before, mv, models_view(out@), present);
                }
            },
            None => {
                assert(openai_entries(lv.take(i + 1)) == cs);
            },
        }
        i = i + 1;
    }
    assert(lv.take(list.len() as int) =~= lv);
    out
}

proof fn lemma_add_keeps_firsts(
    cs: Seq<ModelInfoV>,
    out: Seq<ModelInfoV>,
    m: ModelInfoV,
    out2: Seq<ModelInfoV>,
    present: bool,
)
    requires
        sorted_firsts(cs, out),
        present == exists|k: int| 0 <= k < out.len() && out[k].id == m.id,
        present ==> out2 == out,
        !present ==> exists|p: int| 0 <= p <= out.len() && out2 == out.insert(p, m),
        crate::order::strictly_sorted(ids_of(out2)),
    ensures
        sorted_firsts(cs.push(m), out2),
{
    let ncs = cs.push(m);
    assert(ncs.drop_last() =~= cs);
    assert(ncs.last() == m);
    if present {
        assert forall|k: int| 0 <= k < out2.len() implies first_with(ncs, #[trigger] out2[k].id) == Some(out2[k]) by {
            assert(first_with(cs, out[k].id) == Some(out[k]));
        }
        assert forall|j: int| 0 <= j < ncs.len() implies exists|k: int| 0 <= k < out2.len() && out2[k].id == (#[trigger] ncs[j]).id by {
            if j < cs.len() {
                assert(ncs[j] == cs[j]);
            } else {
                let k = choose|k: int| 0 <= k < out.len() && out[k].id == m.id;
                assert(out2[k].id == ncs[j].id);
            }
        }
    } else {
        let p = choose|p: int| 0 <= p <= out.len() && out2 == out.insert(p, m);
        assert forall|j: int| 0 <= j < cs.len() implies cs[j].id != m.id by {
            let k = choose|k: int| 0 <= k < out.len() && out[k].id == (#[trigger] cs[j]).id;
            assert(out[k].id == cs[j].id);
        }
        lemma_first_with_absent(cs, m.id);
        assert forall|k: int| 0 <= k < out2.len() implies first_with(ncs, #[trigger] out2[k].id) == Some(out2[k]) by {
            if k < p {
                assert(out2[k] == out[k]);
                assert(first_with(cs, out[k].id) == Some(out[k]));
            } else if k == p {
                assert(out2[k] == m);
            } else {
                assert(out2[k] == out[k - 1]);
                assert(first_with(cs, out[k - 1].id) == Some(out[k - 1]));
            }
        }
        assert forall|j: int| 0 <= j < ncs.len() implies exists|k: int| 0 <= k < out2.len() && out2[k].id == (#[trigger] ncs[j]).id by {
            if j < cs.len() {
                assert(ncs[j] == cs[j]);
                let k = choose|k: int| 0 <= k < out.len() && out[k].id == (#[trigger] cs[j]).id;
                if k < p {
                    assert(out2[k] == out[k]);
                } else {
                    assert(out2[k + 1] == out[k]);
                }
            } else {
                assert(out2[p] == m);
            }
        }
    }
}

/// `{"data":[{"id":..,"display_name":..}]}`, newest first as Anthropic
/// returns it, with a repeated id dropped.
pub fn parse_anthropic_models(body: &Json) -> (r: Vec<ModelInfo>)
    ensures
        models_view(r@) == dedup_runs(anthropic_entries(data_of(body@))),
{
    let mut out: Vec<ModelInfo> = Vec::new();
    let list = match data_exec(body) {
        Some(l) => l,
        None => {
            assert(anthropic_entries(Seq::<JsonV>::empty()) =~= Seq::<ModelInfoV>::empty());
            assert(dedup_runs(Seq::<ModelInfoV>::empty()) =~= Seq::<ModelInfoV>::empty());
            assert(models_view(out@) =~= Seq::<ModelInfoV>::empty());
            return out;
        },
    };
    let ghost lv = list@.map_values(|x: Json| x@);
    let mut i: usize = 0;
    assert(models_view(out@) =~= dedup_runs(anthropic_entries(lv.take(0))));
    while i < list.len()
        invariant
            i <= list.len(),
            lv == list@.map_values(|x: Json| x@),
            models_view(out@) == dedup_runs(anthropic_entries(lv.take(i as int))),
            anthropic_entries(lv.take(i as int)).len() > 0 ==> out@.len() > 0 && out@.last()@.id
                == anthropic_entries(lv.take(i as int)).last().id,
            anthropic_entries(lv.take(i as int)).len() == 0 ==> out@.len() == 0,
        decreases list.len() - i,
    {
        let ghost cs = anthropic_entries(lv.take(i as int));
        assert(lv.take(i + 1).drop_last() =~= lv.take(i as int));
        assert(lv.take(i + 1).last() == list@[i as int]@);
        match anthropic_entry_exec(&list[i]) {
            Some(m) => {
                let ghost ncs = cs.push(m@);
                assert(anthropic_entries(lv.take(i + 1)) == ncs);
                assert(ncs.drop_last() =~= cs);
                let n = out.len();
                let repeat = n > 0 && crate::text::str_eq(out[n - 1].id.as_str(), m.id.as_str());
                if repeat {
                    assert(ncs[ncs.len() - 2] == cs.last());
                } else {
                    let ghost before = out@;
                    out.push(m);
                    assert(models_view(out@) =~= models_view(before).push(out@.last()@));
                    proof {
                        if cs.len() >= 1 {
                            assert(ncs[ncs.len() - 2] == cs.last());
                        }
                    }
                }
            },
            None => {
                assert(anthropic_entries(lv.take(i + 1)) == cs);
            },
        }
        i = i + 1;
    }
    assert(lv.take(list.len() as int) =~= lv);
    out
}

// ---------------------------------------------------------------------------
// Whole replies
// ---------------------------------------------------------------------------

pub open spec fn or_empty(o: Option<Seq<char>>) -> Seq<char> {
    match o {
        Some(s) => s,
        None => seq![],
    }
}

pub open spec fn empty_obj() -> JsonV {
    JsonV::Obj(seq![])
}

/// The text of an Anthropic reply: its text blocks, one per line.
pub open spec fn anthropic_text(bs: Seq<JsonV>) -> Seq<char>
    decreases bs.len(),
{
    if bs.len() == 0 {
        seq![]
    } else {
        let t = anthropic_text(bs.drop_last());
        let b = bs.last();
        if get_str(b, "type"@) == Some("text"@) {
            match get_str(b, "text"@) {
                Some(x) => if t.len() == 0 {
                    x
                } else {
                    t + "\n"@ + x
                },
                None => t,
            }
        } else {
            t
        }
    }
}

/// The calls of an Anthropic reply: its `tool_use` blocks, in order.
pub open spec fn anthropic_calls(bs: Seq<JsonV>) -> Seq<RawCallV>
    decreases bs.len(),
{
    if bs.len() == 0 {
        seq![]
    } else {
        let rest = anthropic_calls(bs.drop_last());
        let b = bs.last();
        if get_str(b, "type"@) == Some("tool_use"@) {
            rest.push(
                RawCallV {
                    id: or_empty(get_str(b, "id"@)),
                    name: or_empty(get_str(b, "name"@)),
                    input: match get_v(b, "input"@) {
                        Some(v) => v,
                        None => empty_obj(),
                    },
                },
            )
        } else {
            rest
        }
    }
}

/// A content block that asks for a tool.
pub open spec fn is_tool_use(b: JsonV) -> bool {
    get_str(b, "type"@) == Some("tool_use"@)
}

/// The `tool_use` blocks of a reply, in order.
pub open spec fn tool_use_blocks(bs: Seq<JsonV>) -> Seq<JsonV> {
    bs.filter(|b: JsonV| is_tool_use(b))
}

/// Every `tool_use` block of an Anthropic reply becomes one call, in the
/// order the blocks came, and nothing else does: the k-th call carries the
/// k-th such block's id, its name, and its input (an empty object when it
/// has none).
pub proof fn law_every_tool_use_block_is_a_call(bs: Seq<JsonV>)
    ensures
        anthropic_calls(bs).len() == tool_use_blocks(bs).len(),
        forall|k: int|
            0 <= k < anthropic_calls(bs).len() ==> {
                let b = #[trigger] tool_use_blocks(bs)[k];
                &&& anthropic_calls(bs)[k].id == or_empty(get_str(b, "id"@))
                &&& anthropic_calls(bs)[k].name == or_empty(get_str(b, "name"@))
                &&& anthropic_calls(bs)[k].input == match get_v(b, "input"@) {
                    Some(v) => v,
                    None => empty_obj(),
                }
            },
    decreases bs.len(),
{
    reveal(Seq::filter);
    let p = |b: JsonV| is_tool_use(b);
    if bs.len() > 0 {
        law_every_tool_use_block_is_a_call(bs.drop_last());
        let f = tool_use_blocks(bs);
        let fd = tool_use_blocks(bs.drop_last());
        assert(f == bs.filter(p));
        assert(fd == bs.drop_last().filter(p));
        if is_tool_use(bs.last()) {
            assert(f == fd.push(bs.last()));
            assert forall|k: int| 0 <= k < fd.len() implies #[trigger] f[k] == fd[k] by {}
        } else {
            assert(f == fd);
        }
    }
}

/// A content block that carries text.
pub open spec fn has_text(b: JsonV) -> bool {
    get_str(b, "type"@) == Some("text"@) && get_str(b, "text"@) is Some
}

/// The texts of a reply's text blocks, in order.
pub open spec fn block_texts(bs: Seq<JsonV>) -> Seq<Seq<char>> {
    bs.filter(|b: JsonV| has_text(b)).map_values(|b: JsonV| or_empty(get_str(b, "text"@)))
}

/// The message of an Anthropic reply is its text blocks' texts, in order,
/// one per line, whenever none of them is empty; with no text block it is
/// empty.
pub proof fn law_the_message_is_the_text_blocks_line_by_line(bs: Seq<JsonV>)
    requires
        forall|k: int| 0 <= k < block_texts(bs).len() ==> #[trigger] block_texts(bs)[k].len() > 0,
    ensures
        anthropic_text(bs) == crate::text::join(block_texts(bs), "\n"@),
        anthropic_text(bs).len() == 0 <==> block_texts(bs).len() == 0,
    decreases bs.len(),
{
    reveal(Seq::filter);
    let p = |b: JsonV| has_text(b);
    let g = |b: JsonV| or_empty(get_str(b, "text"@));
    if bs.len() > 0 {
        let d = bs.drop_last();
        let fd = d.filter(p);
        let f = bs.filter(p);
        assert(block_texts(d) == fd.map_values(g));
        assert(block_texts(bs) == f.map_values(g));
        if has_text(bs.last()) {
            assert(f == fd.push(bs.last()));
            assert(block_texts(bs) =~= block_texts(d).push(g(bs.last())));
            assert forall|k: int| 0 <= k < block_texts(d).len() implies #[trigger] block_texts(d)[k].len() > 0 by {
                assert(block_texts(bs)[k] == block_texts(d)[k]);
            }
            assert(block_texts(bs)[block_texts(d).len() as int].len() > 0);
            law_the_message_is_the_text_blocks_line_by_line(d);
            assert(block_texts(bs).drop_last() =~= block_texts(d));
        } else {
            assert(f == fd);
            assert(block_texts(bs) =~= block_texts(d));
            law_the_message_is_the_text_blocks_line_by_line(d);
        }
    } else {
        assert(block_texts(bs) =~= Seq::<Seq<char>>::empty());
    }
}

pub open spec fn content_of(body: JsonV) -> Seq<JsonV> {
    match get_arr(body, "content"@) {
        Some(xs) => xs,
        None => seq![],
    }
}

fn empty_obj_exec() -> (r: Json)
    ensures
        r@ == empty_obj(),
{
    let r = Json::Obj(Vec::new());
    proof {
        if let JsonV::Obj(a) = r@ {
            assert(a =~= Seq::<(Seq<char>, JsonV)>::empty());
        }
    }
    r
}

fn str_member(j: &Json, key: &str) -> (r: String)
    ensures
        r@ == or_empty(get_str(j@, key@)),
{
    match j.get(key) {
        Some(v) => match v.as_str() {
            Some(t) => copy_str(t),
            None => String::new(),
        },
        None => String::new(),
    }
}

fn is_type(j: &Json, t: &str) -> (r: bool)
    ensures
        r == (get_str(j@, "type"@) == Some(t@)),
{
    match j.get("type") {
        Some(v) => match v.as_str() {
            Some(x) => crate::text::str_eq(x, t),
            None => false,
        },
        None => false,
    }
}

/// Text blocks become the message and `tool_use` blocks become calls. A
/// reply with neither is not an error: the model had nothing to do.
pub fn from_anthropic_response(body: &Json) -> (r: (String, Vec<RawToolCall>))
    ensures
        r.0@ == anthropic_text(content_of(body@)),
        raws_view(r.1@) == anthropic_calls(content_of(body@)),
{
    let mut text = String::new();
    let mut calls: Vec<RawToolCall> = Vec::new();
    let content = match body.get("content") {
        Some(c) => match c.as_array() {
            Some(a) => a,
            None => {
                assert(raws_view(calls@) =~= Seq::<RawCallV>::empty());
                return (text, calls);
            },
        },
        None => {
            assert(raws_view(calls@) =~= Seq::<RawCallV>::empty());
            return (text, calls);
        },
    };
    let ghost bv = content@.map_values(|x: Json| x@);
    assert(bv == content_of(body@));
    let mut i: usize = 0;
    assert(raws_view(calls@) =~= anthropic_calls(bv.take(0)));
    while i < content.len()
        invariant
            i <= content.len(),
            bv == content@.map_values(|x: Json| x@),
            text@ == anthropic_text(bv.take(i as int)),
            raws_view(calls@) == anthropic_calls(bv.take(i as int)),
        decreases content.len() - i,
    {
        let b = &content[i];
        assert(bv.take(i + 1).drop_last() =~= bv.take(i as int));
        assert(bv.take(i + 1).last() == b@);
        if is_type(b, "text") {
            match b.get("text") {
                Some(v) => match v.as_str() {
                    Some(t) => {
                        if !text.as_str().is_empty() {
                            push_str(&mut text, "\n");
                        }
                        push_str(&mut text, t);
                    },
                    None => {},
                },
                None => {},
            }
            assert(!(get_str(b@, "type"@) == Some("tool_use"@))) by {
                reveal_strlit("text");
                reveal_strlit("tool_use");
                assert("text"@.len() != "tool_use"@.len());
            }
        } else if is_type(b, "tool_use") {
            let input = match b.get("input") {
                Some(v) => v.copy(),
                None => empty_obj_exec(),
            };
            let c = RawToolCall { id: str_member(b, "id"), name: str_member(b, "name"), input };
            let ghost before = calls@;
            calls.push(c);
            assert(raws_view(calls@) =~= raws_view(before).push(c@));
        }
        i = i + 1;
    }
    assert(bv.take(content.len() as int) =~= bv);
    (text, calls)
}

/// The message of an OpenAI completion: the first choice's.
pub open spec fn openai_message(body: JsonV) -> Option<JsonV> {
    match get_arr(body, "choices"@) {
        Some(cs) => if cs.len() > 0 {
            get_v(cs[0], "message"@)
        } else {
            None
        },
        None => None,
    }
}

/// The calls listed in an OpenAI completion's message.
pub open spec fn openai_call_list(body: JsonV) -> Seq<JsonV> {
    match openai_message(body) {
        Some(m) => match get_arr(m, "tool_calls"@) {
            Some(xs) => xs,
            None => seq![],
        },
        None => seq![],
    }
}

/// A call's arguments as sent: a JSON string, when there is one.
pub open spec fn arguments_text(c: JsonV) -> Option<Seq<char>> {
    match get_v(c, "function"@) {
        Some(f) => get_str(f, "arguments"@),
        None => None,
    }
}

/// One listed call, its arguments being what reading their text gave.
pub open spec fn openai_call(c: JsonV, parsed: Option<JsonV>) -> RawCallV {
    RawCallV {
        id: or_empty(get_str(c, "id"@)),
        name: match get_v(c, "function"@) {
            Some(f) => or_empty(get_str(f, "name"@)),
            None => seq![],
        },
        input: match (arguments_text(c), parsed) {
            (Some(_), Some(j)) => j,
            _ => empty_obj(),
        },
    }
}

pub open spec fn opt_json_view(o: Option<Json>) -> Option<JsonV> {
    match o {
        Some(j) => Some(j@),
        None => None,
    }
}

fn message_exec(body: &Json) -> (r: Option<&Json>)
    ensures
        match r {
            Some(m) => openai_message(body@) == Some(m@),
            None => openai_message(body@) is None,
        },
{
    match body.get("choices") {
        Some(c) => match c.as_array() {
            Some(cs) => if cs.len() > 0 {
                assert(cs@.map_values(|x: Json| x@)[0] == cs@[0]@);
                cs[0].get("message")
            } else {
                None
            },
            None => None,
        },
        None => None,
    }
}

fn call_list_exec(body: &Json) -> (r: Option<&Vec<Json>>)
    ensures
        match r {
            Some(v) => openai_call_list(body@) == v@.map_values(|x: Json| x@),
            None => openai_call_list(body@) == Seq::<JsonV>::empty(),
        },
{
    match message_exec(body) {
        Some(m) => match m.get("tool_calls") {
            Some(t) => t.as_array(),
            None => None,
        },
        None => None,
    }
}

/// The argument text of each call an OpenAI completion lists, in order.
/// `arguments` is a JSON string, not an object; what it holds is read by
/// the JSON library and handed to `from_openai_response`.
pub fn openai_arguments(body: &Json) -> (r: Vec<Option<String>>)
    ensures
        r@.len() == openai_call_list(body@).len(),
        forall|i: int| 0 <= i < r@.len() ==> crate::provider::opt_view(#[trigger] r@[i]) == arguments_text(openai_call_list(body@)[i]),
{
    let mut out: Vec<Option<String>> = Vec::new();
    match call_list_exec(body) {
        Some(list) => {
            let mut i: usize = 0;
            while i < list.len()
                invariant
                    i <= list.len(),
                    out@.len() == i,
                    openai_call_list(body@) == list@.map_values(|x: Json| x@),
                    forall|k: int| 0 <= k < i ==> crate::provider::opt_view(#[trigger] out@[k]) == arguments_text(openai_call_list(body@)[k]),
                decreases list.len() - i,
            {
                let c = &list[i];
                let a = match c.get("function") {
                    Some(f) => match f.get("arguments") {
                        Some(v) => match v.as_str() {
                            Some(t) => Some(copy_str(t)),
                            None => None,
                        },
                        None => None,
                    },
                    None => None,
                };
                out.push(a);
                i = i + 1;
            }
        },
        None => {},
    }
    out
}

/// The text and the calls of an OpenAI completion. `parsed` holds, for
/// each listed call in order, what reading its argument text gave; a call
/// whose arguments are absent or did not read gets an empty object.
pub fn from_openai_response(body: &Json, parsed: &Vec<Option<Json>>) -> (r: (String, Vec<RawToolCall>))
    ensures
        r.0@ == match openai_message(body@) {
            Some(m) => or_empty(get_str(m, "content"@)),
            None => seq![],
        },
        raws_view(r.1@).len() == openai_call_list(body@).len(),
        forall|i: int|
            0 <= i < openai_call_list(body@).len() ==> #[trigger] raws_view(r.1@)[i] == openai_call(
                openai_call_list(body@)[i],
                if i < parsed@.len() {
                    opt_json_view(parsed@[i])
                } else {
                    None
                },
            ),
{
    let mut calls: Vec<RawToolCall> = Vec::new();
    let m = match message_exec(body) {
        Some(m) => m,
        None => return (String::new(), calls),
    };
    let text = str_member(m, "content");
    match call_list_exec(body) {
        Some(list) => {
            let mut i: usize = 0;
            while i < list.len()
                invariant
                    i <= list.len(),
                    calls@.len() == i,
                    openai_call_list(body@) == list@.map_values(|x: Json| x@),
                    forall|k: int|
                        0 <= k < i ==> (#[trigger] calls@[k])@ == openai_call(
                            openai_call_list(body@)[k],
                            if k < parsed@.len() {
                                opt_json_view(parsed@[k])
                            } else {
                                None
                            },
                        ),
                decreases list.len() - i,
            {
                let c = &list[i];
                let f = c.get("function");
                let has_args = match f {
                    Some(f) => match f.get("arguments") {
                        Some(v) => match v.as_str() {
                            Some(_) => true,
                            None => false,
                        },
                        None => false,
                    },
                    None => false,
                };
                let input = if has_args && i < parsed.len() {
                    match &parsed[i] {
                        Some(j) => j.copy(),
                        None => empty_obj_exec(),
                    }
                } else {
                    empty_obj_exec()
                };
                let name = match f {
                    Some(f) => str_member(f, "name"),
                    None => String::new(),
                };
                let rc = RawToolCall { id: str_member(c, "id"), name, input };
                calls.push(rc);
                i = i + 1;
            }
        },
        None => {},
    }
    (text, calls)
}

// ---------------------------------------------------------------------------
// Going out
// ---------------------------------------------------------------------------

pub open spec fn str_j(s: Seq<char>) -> JsonV {
    JsonV::Str(s)
}

/// One property of an argument schema.
pub open spec fn prop_v(p: ParamV) -> JsonV {
    JsonV::Obj(
        seq![("type"@, str_j(p.kind))] + (if p.description.len() > 0 {
            seq![("description"@, str_j(p.description))]
        } else {
            seq![]
        }) + (match p.minimum {
            Some(m) => seq![("minimum"@, JsonV::Num(crate::text::decimal(m as nat)))],
            None => seq![],
        }) + (match p.maximum {
            Some(m) => seq![("maximum"@, JsonV::Num(crate::text::decimal(m as nat)))],
            None => seq![],
        }) + (if p.kind == "array"@ {
            seq![("items"@, JsonV::Obj(seq![("type"@, str_j("string"@))]))]
        } else {
            seq![]
        }),
    )
}

/// An action's argument schema as JSON Schema: an object with these
/// properties, these required, and no others.
pub open spec fn schema_v(ps: ParamsV) -> JsonV {
    JsonV::Obj(
        seq![
            ("type"@, str_j("object"@)),
            ("properties"@, JsonV::Obj(ps.props.map_values(|p: ParamV| (p.name, prop_v(p))))),
            ("required"@, JsonV::Arr(ps.required.map_values(|r: Seq<char>| str_j(r)))),
            ("additionalProperties"@, JsonV::Bool(false)),
        ],
    )
}

fn prop_json(p: &Param) -> (r: Json)
    ensures
        r@ == prop_v(p@),
{
    let mut fs: Vec<(String, Json)> = Vec::new();
    push_field(&mut fs, "type", jstr(p.kind.as_str()));
    let ghost a = pairs_view(fs@);
    if !p.description.as_str().is_empty() {
        push_field(&mut fs, "description", jstr(p.description.as_str()));
    }
    let ghost b = pairs_view(fs@);
    match p.minimum {
        Some(m) => push_field(&mut fs, "minimum", Json::Num(crate::text::u64_to_string(m))),
        None => {},
    }
    let ghost c = pairs_view(fs@);
    match p.maximum {
        Some(m) => push_field(&mut fs, "maximum", Json::Num(crate::text::u64_to_string(m))),
        None => {},
    }
    let ghost d = pairs_view(fs@);
    if str_eq_lit(p.kind.as_str(), "array") {
        let mut inner: Vec<(String, Json)> = Vec::new();
        push_field(&mut inner, "type", jstr("string"));
        assert(pairs_view(inner@) =~= seq![("type"@, str_j("string"@))]);
        push_field(&mut fs, "items", obj_from(inner));
    }
    let r = obj_from(fs);
    assert(pairs_view(fs@) =~= prop_v_fields(p@));
    r
}

pub open spec fn prop_v_fields(p: ParamV) -> Seq<(Seq<char>, JsonV)> {
    match prop_v(p) {
        JsonV::Obj(f) => f,
        _ => seq![],
    }
}

fn str_eq_lit(a: &str, b: &str) -> (r: bool)
    ensures
        r == (a@ == b@),
{
    crate::text::str_eq(a, b)
}

/// `schema`: what a model is told an action takes.
pub fn schema_json(ps: &Params) -> (r: Json)
    ensures
        r@ == schema_v(ps@),
{
    let mut props: Vec<(String, Json)> = Vec::new();
    let ghost pv = ps@.props;
    let mut i: usize = 0;
    while i < ps.props.len()
        invariant
            i <= ps.props.len(),
            pv == ps@.props,
            pv.len() == ps.props.len(),
            pairs_view(props@) == pv.take(i as int).map_values(|p: ParamV| (p.name, prop_v(p))),
        decreases ps.props.len() - i,
    {
        let p = &ps.props[i];
        assert(pv[i as int] == p@);
        push_field(&mut props, p.name.as_str(), prop_json(p));
        i = i + 1;
        assert(pv.take(i as int) =~= pv.take(i - 1).push(pv[i - 1]));
        assert(pv.take(i as int).map_values(|p: ParamV| (p.name, prop_v(p))) =~= pv.take(i - 1).map_values(
            |p: ParamV| (p.name, prop_v(p)),
        ).push((pv[i - 1].name, prop_v(pv[i - 1]))));
    }
    assert(pv.take(ps.props.len() as int) =~= pv);
    let mut req: Vec<Json> = Vec::new();
    let ghost rv = ps@.required;
    let mut j: usize = 0;
    while j < ps.required.len()
        invariant
            j <= ps.required.len(),
            rv == ps@.required,
            rv.len() == ps.required.len(),
            jsons_view(req@) == rv.take(j as int).map_values(|r: Seq<char>| str_j(r)),
        decreases ps.required.len() - j,
    {
        assert(rv[j as int] == ps.required@[j as int]@);
        push_item(&mut req, jstr(ps.required[j].as_str()));
        j = j + 1;
        assert(rv.take(j as int) =~= rv.take(j - 1).push(rv[j - 1]));
        assert(rv.take(j as int).map_values(|r: Seq<char>| str_j(r)) =~= rv.take(j - 1).map_values(
            |r: Seq<char>| str_j(r),
        ).push(str_j(rv[j - 1])));
    }
    assert(rv.take(ps.required.len() as int) =~= rv);
    let mut fs: Vec<(String, Json)> = Vec::new();
    push_field(&mut fs, "type", jstr("object"));
    push_field(&mut fs, "properties", obj_from(props));
    push_field(&mut fs, "required", arr_from(req));
    push_field(&mut fs, "additionalProperties", Json::Bool(false));
    let r = obj_from(fs);
    assert(pairs_view(fs@) =~= match schema_v(ps@) {
        JsonV::Obj(f) => f,
        _ => seq![],
    });
    r
}

/// Anthropic's `tools`: `{name, description, input_schema}` per definition.
pub open spec fn anthropic_tool_v(d: DefinitionV) -> JsonV {
    JsonV::Obj(
        seq![
            ("name"@, str_j(d.name)),
            ("description"@, str_j(d.description)),
            ("input_schema"@, schema_v(d.input_schema)),
        ],
    )
}

/// OpenAI's `tools`: the same schema under another key, inside a
/// `function` of type `function`.
pub open spec fn openai_tool_v(d: DefinitionV) -> JsonV {
    JsonV::Obj(
        seq![
            ("type"@, str_j("function"@)),
            (
                "function"@,
                JsonV::Obj(
                    seq![
                        ("name"@, str_j(d.name)),
                        ("description"@, str_j(d.description)),
                        ("parameters"@, schema_v(d.input_schema)),
                    ],
                ),
            ),
        ],
    )
}

pub open spec fn defs_view(v: Seq<ToolDefinition>) -> Seq<DefinitionV> {
    v.map_values(|d: ToolDefinition| d@)
}

fn anthropic_tool(d: &ToolDefinition) -> (r: Json)
    ensures
        r@ == anthropic_tool_v(d@),
{
    let mut fs: Vec<(String, Json)> = Vec::new();
    push_field(&mut fs, "name", jstr(d.name.as_str()));
    push_field(&mut fs, "description", jstr(d.description.as_str()));
    push_field(&mut fs, "input_schema", schema_json(&d.input_schema));
    let r = obj_from(fs);
    assert(pairs_view(fs@) =~= match anthropic_tool_v(d@) {
        JsonV::Obj(f) => f,
        _ => seq![],
    });
    r
}

fn openai_tool(d: &ToolDefinition) -> (r: Json)
    ensures
        r@ == openai_tool_v(d@),
{
    let mut inner: Vec<(String, Json)> = Vec::new();
    push_field(&mut inner, "name", jstr(d.name.as_str()));
    push_field(&mut inner, "description", jstr(d.description.as_str()));
    push_field(&mut inner, "parameters", schema_json(&d.input_schema));
    let f = obj_from(inner);
    let mut fs: Vec<(String, Json)> = Vec::new();
    push_field(&mut fs, "type", jstr("function"));
    push_field(&mut fs, "function", f);
    let r = obj_from(fs);
    assert(pairs_view(inner@) =~= seq![
        ("name"@, str_j(d@.name)),
        ("description"@, str_j(d@.description)),
        ("parameters"@, schema_v(d@.input_schema)),
    ]);
    assert(pairs_view(fs@) =~= match openai_tool_v(d@) {
        JsonV::Obj(f) => f,
        _ => seq![],
    });
    r
}

/// Anthropic's `tools` array.
pub fn to_anthropic_tools(tools: &Vec<ToolDefinition>) -> (r: Json)
    ensures
        r@ == JsonV::Arr(defs_view(tools@).map_values(|d: DefinitionV| anthropic_tool_v(d))),
{
    let mut items: Vec<Json> = Vec::new();
    let ghost dv = defs_view(tools@);
    let mut i: usize = 0;
    while i < tools.len()
        invariant
            i <= tools.len(),
            dv == defs_view(tools@),
            jsons_view(items@) == dv.take(i as int).map_values(|d: DefinitionV| anthropic_tool_v(d)),
        decreases tools.len() - i,
    {
        push_item(&mut items, anthropic_tool(&tools[i]));
        i = i + 1;
        assert(dv.take(i as int).map_values(|d: DefinitionV| anthropic_tool_v(d)) =~= dv.take(i - 1).map_values(
            |d: DefinitionV| anthropic_tool_v(d),
        ).push(anthropic_tool_v(dv[i - 1])));
    }
    assert(dv.take(tools.len() as int) =~= dv);
    arr_from(items)
}

/// OpenAI's `tools` array.
pub fn to_openai_tools(tools: &Vec<ToolDefinition>) -> (r: Json)
    ensures
        r@ == JsonV::Arr(defs_view(tools@).map_values(|d: DefinitionV| openai_tool_v(d))),
{
    let mut items: Vec<Json> = Vec::new();
    let ghost dv = defs_view(tools@);
    let mut i: usize = 0;
    while i < tools.len()
        invariant
            i <= tools.len(),
            dv == defs_view(tools@),
            jsons_view(items@) == dv.take(i as int).map_values(|d: DefinitionV| openai_tool_v(d)),
        decreases tools.len() - i,
    {
        push_item(&mut items, openai_tool(&tools[i]));
        i = i + 1;
        assert(dv.take(i as int).map_values(|d: DefinitionV| openai_tool_v(d)) =~= dv.take(i - 1).map_values(
            |d: DefinitionV| openai_tool_v(d),
        ).push(openai_tool_v(dv[i - 1])));
    }
    assert(dv.take(tools.len() as int) =~= dv);
    arr_from(items)
}

// ---------------------------------------------------------------------------
// Conversations
// ---------------------------------------------------------------------------

pub open spec fn turn_msg(role: Seq<char>, content: Seq<char>) -> JsonV {
    JsonV::Obj(seq![("role"@, str_j(role)), ("content"@, str_j(content))])
}

/// The current message: the goal, which opens with "Your task:" only when
/// there is no conversation before it.
pub open spec fn goal_msg(r: RequestV) -> JsonV {
    turn_msg(
        "user"@,
        if r.history.len() == 0 {
            "Your task: "@ + r.goal
        } else {
            r.goal
        },
    )
}

pub open spec fn history_msgs(h: Seq<ChatTurnV>) -> Seq<JsonV> {
    h.map_values(|t: ChatTurnV| turn_msg(t.role, t.content))
}

/// A result told as text: all that a result with no call id can be.
pub open spec fn narration(o: ObservationV) -> Seq<char> {
    "Result of "@ + o.tool + "."@ + o.action + ": "@ + obs_text(o)
}

/// The results that answer a call the model made, in order.
pub open spec fn correlated(obs: Seq<ObservationV>) -> Seq<ObservationV>
    decreases obs.len(),
{
    if obs.len() == 0 {
        seq![]
    } else if obs.last().call_id.len() > 0 {
        correlated(obs.drop_last()).push(obs.last())
    } else {
        correlated(obs.drop_last())
    }
}

/// The results with no call to answer, in order.
pub open spec fn loose(obs: Seq<ObservationV>) -> Seq<ObservationV>
    decreases obs.len(),
{
    if obs.len() == 0 {
        seq![]
    } else if obs.last().call_id.len() == 0 {
        loose(obs.drop_last()).push(obs.last())
    } else {
        loose(obs.drop_last())
    }
}

/// The `tool_use` block a result answers, rebuilt from the result.
pub open spec fn tool_use_v(o: ObservationV) -> JsonV {
    JsonV::Obj(
        seq![
            ("type"@, str_j("tool_use"@)),
            ("id"@, str_j(o.call_id)),
            ("name"@, str_j(wire(o.tool, o.action))),
            (
                "input"@,
                if o.args is Null {
                    empty_obj()
                } else {
                    o.args
                },
            ),
        ],
    )
}

pub open spec fn tool_result_v(o: ObservationV) -> JsonV {
    JsonV::Obj(
        seq![
            ("type"@, str_j("tool_result"@)),
            ("tool_use_id"@, str_j(o.call_id)),
            ("content"@, str_j(obs_text(o))),
            ("is_error"@, JsonV::Bool(!o.ok)),
        ],
    )
}

/// Anthropic's `messages`: the conversation, the goal, then, when results
/// answer calls, the assistant turn that made those calls rebuilt and a user
/// turn of their results, then any other result as text. The system prompt
/// is not a message there.
pub open spec fn anthropic_messages_v(r: RequestV) -> JsonV {
    let c = correlated(r.observations);
    JsonV::Arr(
        history_msgs(r.history) + seq![goal_msg(r)] + (if c.len() > 0 {
            seq![
                JsonV::Obj(seq![("role"@, str_j("assistant"@)), ("content"@, JsonV::Arr(c.map_values(|o: ObservationV| tool_use_v(o))))]),
                JsonV::Obj(seq![("role"@, str_j("user"@)), ("content"@, JsonV::Arr(c.map_values(|o: ObservationV| tool_result_v(o))))]),
            ]
        } else {
            seq![]
        }) + loose(r.observations).map_values(|o: ObservationV| turn_msg("user"@, narration(o))),
    )
}

fn turn_json(role: &str, content: &str) -> (r: Json)
    ensures
        r@ == turn_msg(role@, content@),
{
    let mut fs: Vec<(String, Json)> = Vec::new();
    push_field(&mut fs, "role", jstr(role));
    push_field(&mut fs, "content", jstr(content));
    let r = obj_from(fs);
    assert(pairs_view(fs@) =~= seq![("role"@, str_j(role@)), ("content"@, str_j(content@))]);
    r
}

fn narration_exec(o: &Observation) -> (r: String)
    ensures
        r@ == narration(o@),
{
    let mut m = copy_str("Result of ");
    push_str(&mut m, o.tool.as_str());
    push_str(&mut m, ".");
    push_str(&mut m, o.action.as_str());
    push_str(&mut m, ": ");
    let t = o.text();
    push_str(&mut m, t.as_str());
    m
}

/// The conversation so far and the goal, as messages.
fn opening(r: &AgentRequest, msgs: &mut Vec<Json>)
    ensures
        jsons_view(final(msgs)@) == jsons_view(old(msgs)@) + history_msgs(r@.history) + seq![goal_msg(r@)],
{
    let ghost start = jsons_view(msgs@);
    let ghost hv = r@.history;
    let mut i: usize = 0;
    while i < r.history.len()
        invariant
            i <= r.history.len(),
            hv == r@.history,
            hv.len() == r.history.len(),
            jsons_view(msgs@) == start + history_msgs(hv.take(i as int)),
        decreases r.history.len() - i,
    {
        let t = &r.history[i];
        assert(hv[i as int] == t@);
        push_item(msgs, turn_json(t.role.as_str(), t.content.as_str()));
        i = i + 1;
        assert(hv.take(i as int) =~= hv.take(i - 1).push(hv[i - 1]));
        assert(history_msgs(hv.take(i as int)) =~= history_msgs(hv.take(i - 1)).push(
            turn_msg(hv[i - 1].role, hv[i - 1].content),
        ));
    }
    assert(hv.take(r.history.len() as int) =~= hv);
    let goal = if r.history.len() == 0 {
        let mut g = copy_str("Your task: ");
        push_str(&mut g, r.goal.as_str());
        g
    } else {
        copy_str(r.goal.as_str())
    };
    let ghost before = jsons_view(msgs@);
    push_item(msgs, turn_json("user", goal.as_str()));
    assert(jsons_view(msgs@) =~= start + history_msgs(hv) + seq![goal_msg(r@)]);
}

fn tool_use_json(o: &Observation) -> (r: Json)
    ensures
        r@ == tool_use_v(o@),
{
    let mut fs: Vec<(String, Json)> = Vec::new();
    push_field(&mut fs, "type", jstr("tool_use"));
    push_field(&mut fs, "id", jstr(o.call_id.as_str()));
    let w = wire_name(o.tool.as_str(), o.action.as_str());
    push_field(&mut fs, "name", jstr(w.as_str()));
    let input = if o.args.is_null() {
        empty_obj_exec()
    } else {
        o.args.copy()
    };
    push_field(&mut fs, "input", input);
    let r = obj_from(fs);
    assert(pairs_view(fs@) =~= match tool_use_v(o@) {
        JsonV::Obj(f) => f,
        _ => seq![],
    });
    r
}

fn tool_result_json(o: &Observation) -> (r: Json)
    ensures
        r@ == tool_result_v(o@),
{
    let mut fs: Vec<(String, Json)> = Vec::new();
    push_field(&mut fs, "type", jstr("tool_result"));
    push_field(&mut fs, "tool_use_id", jstr(o.call_id.as_str()));
    let t = o.text();
    push_field(&mut fs, "content", jstr(t.as_str()));
    push_field(&mut fs, "is_error", Json::Bool(!o.ok));
    let r = obj_from(fs);
    assert(pairs_view(fs@) =~= match tool_result_v(o@) {
        JsonV::Obj(f) => f,
        _ => seq![],
    });
    r
}

fn role_block(role: &str, items: Vec<Json>) -> (r: Json)
    ensures
        r@ == JsonV::Obj(seq![("role"@, str_j(role@)), ("content"@, JsonV::Arr(jsons_view(items@)))]),
{
    let mut fs: Vec<(String, Json)> = Vec::new();
    push_field(&mut fs, "role", jstr(role));
    let ghost iv = jsons_view(items@);
    push_field(&mut fs, "content", arr_from(items));
    let r = obj_from(fs);
    assert(pairs_view(fs@) =~= seq![("role"@, str_j(role@)), ("content"@, JsonV::Arr(iv))]);
    r
}

/// Build Anthropic's `messages` for one turn.
pub fn anthropic_messages(request: &AgentRequest) -> (r: Json)
    ensures
        r@ == anthropic_messages_v(request@),
{
    let mut msgs: Vec<Json> = Vec::new();
    opening(request, &mut msgs);
    let ghost head = jsons_view(msgs@);
    let ghost ov = request@.observations;
    let mut uses: Vec<Json> = Vec::new();
    let mut results: Vec<Json> = Vec::new();
    let mut narrated: Vec<Json> = Vec::new();
    let mut i: usize = 0;
    while i < request.observations.len()
        invariant
            i <= request.observations.len(),
            ov == request@.observations,
            ov.len() == request.observations.len(),
            jsons_view(uses@) == correlated(ov.take(i as int)).map_values(|o: ObservationV| tool_use_v(o)),
            jsons_view(results@) == correlated(ov.take(i as int)).map_values(|o: ObservationV| tool_result_v(o)),
            jsons_view(narrated@) == loose(ov.take(i as int)).map_values(|o: ObservationV| turn_msg("user"@, narration(o))),
        decreases request.observations.len() - i,
    {
        let o = &request.observations[i];
        assert(ov[i as int] == o@);
        assert(ov.take(i + 1).drop_last() =~= ov.take(i as int));
        assert(ov.take(i + 1).last() == o@);
        if !o.call_id.as_str().is_empty() {
            push_item(&mut uses, tool_use_json(o));
            push_item(&mut results, tool_result_json(o));
            let ghost c = correlated(ov.take(i as int));
            assert(correlated(ov.take(i + 1)) == c.push(o@));
            assert(c.push(o@).map_values(|o: ObservationV| tool_use_v(o)) =~= c.map_values(|o: ObservationV| tool_use_v(o)).push(tool_use_v(o@)));
            assert(c.push(o@).map_values(|o: ObservationV| tool_result_v(o)) =~= c.map_values(|o: ObservationV| tool_result_v(o)).push(tool_result_v(o@)));
        } else {
            let n = narration_exec(o);
            push_item(&mut narrated, turn_json("user", n.as_str()));
            let ghost l = loose(ov.take(i as int));
            assert(loose(ov.take(i + 1)) == l.push(o@));
            assert(l.push(o@).map_values(|o: ObservationV| turn_msg("user"@, narration(o))) =~= l.map_values(|o: ObservationV| turn_msg("user"@, narration(o))).push(turn_msg("user"@, narration(o@))));
        }
        i = i + 1;
    }
    assert(ov.take(request.observations.len() as int) =~= ov);
    let ghost c = correlated(ov);
    let ghost uv = jsons_view(uses@);
    let ghost rv = jsons_view(results@);
    let ghost nv = jsons_view(narrated@);
    if uses.len() > 0 {
        push_item(&mut msgs, role_block("assistant", uses));
        push_item(&mut msgs, role_block("user", results));
    }
    let ghost mid = jsons_view(msgs@);
    assert(mid == head + if c.len() > 0 {
        seq![
            JsonV::Obj(seq![("role"@, str_j("assistant"@)), ("content"@, JsonV::Arr(c.map_values(|o: ObservationV| tool_use_v(o))))]),
            JsonV::Obj(seq![("role"@, str_j("user"@)), ("content"@, JsonV::Arr(c.map_values(|o: ObservationV| tool_result_v(o))))]),
        ]
    } else {
        seq![]
    });
    let ghost m0 = msgs@;
    let ghost n0 = narrated@;
    msgs.append(&mut narrated);
    assert(msgs@ == m0 + n0);
    assert(jsons_view(msgs@) =~= jsons_view(m0) + jsons_view(n0));
    let r = arr_from(msgs);
    r
}

/// The system prompt and the context, as one block.
pub open spec fn system_block(r: RequestV) -> Seq<char> {
    trim(r.system) + "\n\n# Context\n\n"@ + trim(r.context)
}

/// What one result is on the OpenAI wire: a `tool` message answering its
/// call, or, with no call id to answer, narration.
pub open spec fn openai_result_v(o: ObservationV) -> JsonV {
    if o.call_id.len() == 0 {
        turn_msg("user"@, narration(o))
    } else {
        JsonV::Obj(
            seq![
                ("role"@, str_j("tool"@)),
                ("tool_call_id"@, str_j(o.call_id)),
                ("content"@, str_j(obs_text(o))),
            ],
        )
    }
}

/// OpenAI's `messages`: the system block, the conversation, the goal, then
/// each result in order.
pub open spec fn openai_messages_v(r: RequestV) -> JsonV {
    JsonV::Arr(
        seq![turn_msg("system"@, system_block(r))] + history_msgs(r.history) + seq![goal_msg(r)]
            + r.observations.map_values(|o: ObservationV| openai_result_v(o)),
    )
}

fn system_block_exec(r: &AgentRequest) -> (s: String)
    ensures
        s@ == system_block(r@),
{
    let mut s = crate::text::trim_str(r.system.as_str());
    push_str(&mut s, "\n\n# Context\n\n");
    let c = crate::text::trim_str(r.context.as_str());
    push_str(&mut s, c.as_str());
    s
}

fn openai_result(o: &Observation) -> (r: Json)
    ensures
        r@ == openai_result_v(o@),
{
    if o.call_id.as_str().is_empty() {
        let n = narration_exec(o);
        turn_json("user", n.as_str())
    } else {
        let mut fs: Vec<(String, Json)> = Vec::new();
        push_field(&mut fs, "role", jstr("tool"));
        push_field(&mut fs, "tool_call_id", jstr(o.call_id.as_str()));
        let t = o.text();
        push_field(&mut fs, "content", jstr(t.as_str()));
        let r = obj_from(fs);
        assert(pairs_view(fs@) =~= seq![
            ("role"@, str_j("tool"@)),
            ("tool_call_id"@, str_j(o@.call_id)),
            ("content"@, str_j(obs_text(o@))),
        ]);
        r
    }
}

/// What every turn sends to Anthropic: the model, the token cap, the system
/// block at the top level, the messages, and the tools when there are any,
/// since an empty list is refused.
pub open spec fn anthropic_body_v(model: Seq<char>, r: RequestV, stream: bool, key_saved: bool) -> Result<JsonV, Seq<char>> {
    if model.len() == 0 {
        Err("Anthropic provider has no model configured"@)
    } else if !key_saved {
        Err("Anthropic provider has no API key configured"@)
    } else {
        Ok(
            JsonV::Obj(
                seq![
                    ("model"@, str_j(model)),
                    ("max_tokens"@, JsonV::Num("8192"@)),
                    ("system"@, str_j(system_block(r))),
                    ("messages"@, anthropic_messages_v(r)),
                    ("stream"@, JsonV::Bool(stream)),
                ] + if r.tools.len() > 0 {
                    seq![("tools"@, JsonV::Arr(r.tools.map_values(|d: DefinitionV| anthropic_tool_v(d))))]
                } else {
                    seq![]
                },
            ),
        )
    }
}

pub open spec fn openai_body_v(model: Seq<char>, r: RequestV, stream: bool) -> JsonV {
    JsonV::Obj(
        seq![
            ("model"@, str_j(model)),
            ("messages"@, openai_messages_v(r)),
            ("tools"@, JsonV::Arr(r.tools.map_values(|d: DefinitionV| openai_tool_v(d)))),
            ("tool_choice"@, str_j("auto"@)),
            ("stream"@, JsonV::Bool(stream)),
        ],
    )
}

impl OpenAICompatibleProvider {
    /// The messages for one turn. A result that answers a call goes back as
    /// a `tool` message carrying that call's id; one with none is narrated.
    pub fn messages(&self, request: &AgentRequest) -> (r: Json)
        ensures
            r@ == openai_messages_v(request@),
    {
        let mut msgs: Vec<Json> = Vec::new();
        let sb = system_block_exec(request);
        push_item(&mut msgs, turn_json("system", sb.as_str()));
        opening(request, &mut msgs);
        let ghost head = jsons_view(msgs@);
        let ghost ov = request@.observations;
        let mut i: usize = 0;
        while i < request.observations.len()
            invariant
                i <= request.observations.len(),
                ov == request@.observations,
                ov.len() == request.observations.len(),
                jsons_view(msgs@) == head + ov.take(i as int).map_values(|o: ObservationV| openai_result_v(o)),
            decreases request.observations.len() - i,
        {
            let o = &request.observations[i];
            assert(ov[i as int] == o@);
            push_item(&mut msgs, openai_result(o));
            i = i + 1;
            assert(ov.take(i as int) =~= ov.take(i - 1).push(ov[i - 1]));
            assert(ov.take(i as int).map_values(|o: ObservationV| openai_result_v(o)) =~= ov.take(i - 1).map_values(
                |o: ObservationV| openai_result_v(o),
            ).push(openai_result_v(ov[i - 1])));
        }
        assert(ov.take(request.observations.len() as int) =~= ov);
        assert(jsons_view(msgs@) =~= seq![turn_msg("system"@, system_block(request@))] + history_msgs(request@.history) + seq![goal_msg(request@)]
            + ov.map_values(|o: ObservationV| openai_result_v(o)));
        arr_from(msgs)
    }

    /// The request body for one turn, the same for streaming and not.
    pub fn body(&self, request: &AgentRequest, stream: bool) -> (r: Json)
        ensures
            r@ == openai_body_v(self.config.model@, request@, stream),
    {
        let mut fs: Vec<(String, Json)> = Vec::new();
        push_field(&mut fs, "model", jstr(self.config.model.as_str()));
        push_field(&mut fs, "messages", self.messages(request));
        let t = to_openai_tools(&request.tools);
        push_field(&mut fs, "tools", t);
        push_field(&mut fs, "tool_choice", jstr("auto"));
        push_field(&mut fs, "stream", Json::Bool(stream));
        let r = obj_from(fs);
        assert(pairs_view(fs@) =~= match openai_body_v(self.config.model@, request@, stream) {
            JsonV::Obj(f) => f,
            _ => seq![],
        });
        r
    }
}

impl AnthropicProvider {
    /// The request body for one turn. `key_saved` is whether the credential
    /// store holds a key under the configured target.
    pub fn body(&self, request: &AgentRequest, stream: bool, key_saved: bool) -> (r: Result<Json, String>)
        ensures
            match (r, anthropic_body_v(self.config.model@, request@, stream, key_saved)) {
                (Ok(a), Ok(b)) => a@ == b,
                (Err(a), Err(b)) => a@ == b,
                _ => false,
            },
    {
        if self.config.model.as_str().is_empty() {
            return Err(copy_str("Anthropic provider has no model configured"));
        }
        if !key_saved {
            return Err(copy_str("Anthropic provider has no API key configured"));
        }
        let mut fs: Vec<(String, Json)> = Vec::new();
        push_field(&mut fs, "model", jstr(self.config.model.as_str()));
        let mt = copy_str("8192");
        push_field(&mut fs, "max_tokens", Json::Num(mt));
        let sb = system_block_exec(request);
        push_field(&mut fs, "system", jstr(sb.as_str()));
        push_field(&mut fs, "messages", anthropic_messages(request));
        push_field(&mut fs, "stream", Json::Bool(stream));
        let ghost five = pairs_view(fs@);
        if request.tools.len() > 0 {
            push_field(&mut fs, "tools", to_anthropic_tools(&request.tools));
        }
        let r = obj_from(fs);
        assert(pairs_view(fs@) =~= match anthropic_body_v(self.config.model@, request@, stream, key_saved) {
            Ok(JsonV::Obj(f)) => f,
            _ => seq![],
        });
        Ok(r)
    }
}

} // verus!
