//! Asking a person before a worker acts: the tool the worker calls, and the
//! files a question and its answer are written to.
use vstd::prelude::*;
use crate::text::{copy_str, push_str, decimal, trim, trim_str, is_blank, str_eq};
use crate::json::{Json, JsonV, get_v, str_v, get_str, obj_from, arr_from, push_field, push_item, jstr, pairs_view, jsons_view};

verus! {

pub const SERVER: &'static str = "devdeck";
pub const TOOL: &'static str = "approve";

/// The name the worker's CLI knows the approval tool by.
pub fn tool_id() -> (r: String)
    ensures
        r@ == "mcp__"@ + SERVER@ + "__"@ + TOOL@,
{
    let mut r = copy_str("mcp__");
    push_str(&mut r, SERVER);
    push_str(&mut r, "__");
    push_str(&mut r, TOOL);
    r
}

/// What a person said back.
#[derive(Debug)]
pub struct Answer {
    pub allow: bool,
    /// Why not, in your words.
    pub note: String,
    pub at: String,
}

/// The file a question is written to, in its run's folder.
pub fn ask_file(id: &str) -> (r: String)
    ensures
        r@ == id@ + ".ask.json"@,
{
    let mut r = copy_str(id);
    push_str(&mut r, ".ask.json");
    r
}

/// The file its answer is written to.
pub fn answer_file(id: &str) -> (r: String)
    ensures
        r@ == id@ + ".answer.json"@,
{
    let mut r = copy_str(id);
    push_str(&mut r, ".answer.json");
    r
}

/// What the worker is told when nobody answered in time.
pub fn unanswered_reason(wait_secs: u64) -> (r: String)
    ensures
        r@ == "Nobody answered in "@ + decimal(wait_secs as nat)
            + " seconds. The question is still in the room — answering it there lets this be picked up again. Stop now and say what you could not check."@,
{
    let mut r = copy_str("Nobody answered in ");
    push_str(&mut r, crate::text::u64_to_string(wait_secs).as_str());
    push_str(
        &mut r,
        " seconds. The question is still in the room — answering it there lets this be picked up again. Stop now and say what you could not check.",
    );
    r
}

/// One question, as written down for the app to find.
#[derive(Debug)]
pub struct Ask {
    /// The CLI's own id for the call being decided. One question, one file.
    pub id: String,
    pub run: String,
    /// `Bash`, `Write`, whatever it reached for.
    pub tool: String,
    /// What it wanted to do, verbatim: shown to the person, never edited.
    pub input: Json,
    pub at: String,
}

pub open spec fn allow_v(input: JsonV) -> JsonV {
    JsonV::Obj(seq![("behavior"@, JsonV::Str("allow"@)), ("updatedInput"@, input)])
}

pub open spec fn deny_v(why: Seq<char>) -> JsonV {
    JsonV::Obj(seq![("behavior"@, JsonV::Str("deny"@)), ("message"@, JsonV::Str(why))])
}

/// The verdict that lets the call through, with its input as it was asked.
pub fn allow(input: &Json) -> (r: Json)
    ensures
        r@ == allow_v(input@),
{
    let mut f: Vec<(String, Json)> = Vec::new();
    assert(pairs_view(f@) =~= Seq::<(Seq<char>, JsonV)>::empty());
    push_field(&mut f, "behavior", jstr("allow"));
    push_field(&mut f, "updatedInput", input.copy());
    assert(pairs_view(f@) =~= seq![("behavior"@, JsonV::Str("allow"@)), ("updatedInput"@, input@)]);
    let r = obj_from(f);
    assert(r@ == allow_v(input@));
    r
}

/// The verdict that refuses the call, and says why.
pub fn deny(why: &str) -> (r: Json)
    ensures
        r@ == deny_v(why@),
{
    let mut f: Vec<(String, Json)> = Vec::new();
    assert(pairs_view(f@) =~= Seq::<(Seq<char>, JsonV)>::empty());
    push_field(&mut f, "behavior", jstr("deny"));
    push_field(&mut f, "message", jstr(why));
    assert(pairs_view(f@) =~= seq![("behavior"@, JsonV::Str("deny"@)), ("message"@, JsonV::Str(why@))]);
    let r = obj_from(f);
    assert(r@ == deny_v(why@));
    r
}

/// What the worker is told once the person has answered: yes lets the call
/// through unchanged; no is a refusal in the person's words, when they gave
/// some.
pub fn answered(a: &Answer, input: &Json) -> (r: Json)
    ensures
        r@ == (if a.allow {
            allow_v(input@)
        } else if a.note@.len() == 0 {
            deny_v("You said no."@)
        } else {
            deny_v("You said no: "@ + a.note@)
        }),
{
    if a.allow {
        allow(input)
    } else if a.note.as_str().is_empty() {
        deny("You said no.")
    } else {
        let mut m = copy_str("You said no: ");
        push_str(&mut m, a.note.as_str());
        deny(m.as_str())
    }
}

/// What the worker is told when the question could not be written down:
/// nobody was asked, so it may not proceed.
pub fn not_asked() -> (r: Json)
    ensures
        r@ == deny_v("DevDeck could not write the question down, so nobody was asked."@),
{
    deny("DevDeck could not write the question down, so nobody was asked.")
}

/// What the worker is told when nobody answered in time: a refusal that
/// says why, never a silent yes.
pub fn unanswered_verdict(wait_secs: u64) -> (r: Json)
    ensures
        r@ == deny_v(
            "Nobody answered in "@ + decimal(wait_secs as nat)
                + " seconds. The question is still in the room — answering it there lets this be picked up again. Stop now and say what you could not check."@,
        ),
{
    let m = unanswered_reason(wait_secs);
    deny(m.as_str())
}

/// The fields a question's most telling part is looked for in, in order.
pub open spec fn telling_keys() -> Seq<Seq<char>> {
    seq!["command"@, "file_path"@, "path"@, "url"@, "pattern"@, "prompt"@]
}

/// The first of `keys` whose field is a string with something in it,
/// trimmed.
pub open spec fn telling(input: JsonV, keys: Seq<Seq<char>>) -> Option<Seq<char>>
    decreases keys.len(),
{
    if keys.len() == 0 {
        None
    } else {
        match get_str(input, keys[0]) {
            Some(v) => if trim(v).len() > 0 {
                Some(trim(v))
            } else {
                telling(input, keys.drop_first())
            },
            None => telling(input, keys.drop_first()),
        }
    }
}

/// How many bytes a character takes in UTF-8.
pub open spec fn utf8_len(c: char) -> nat {
    if (c as u32) < 0x80 {
        1
    } else if (c as u32) < 0x800 {
        2
    } else if (c as u32) < 0x10000 {
        3
    } else {
        4
    }
}

/// How many bytes a text takes in UTF-8: `str::len`.
pub open spec fn byte_len(s: Seq<char>) -> nat
    decreases s.len(),
{
    if s.len() == 0 {
        0
    } else {
        byte_len(s.drop_last()) + utf8_len(s.last())
    }
}

/// The text ends a character exactly `n` bytes in.
pub open spec fn boundary_at(s: Seq<char>, n: nat) -> bool {
    exists|k: int| 0 <= k <= s.len() && byte_len(#[trigger] s.take(k)) == n
}

/// The first 300 bytes of the text.
pub open spec fn first_300(s: Seq<char>) -> Seq<char> {
    s.take(choose|k: int| 0 <= k <= s.len() && byte_len(#[trigger] s.take(k)) == 300)
}

/// What is shown of a question: the most telling field, or else the
/// input's text, cut after 300 bytes with an ellipsis.
pub open spec fn one_line_spec(input: JsonV, raw: Seq<char>) -> Seq<char> {
    match telling(input, telling_keys()) {
        Some(v) => v,
        None => if byte_len(raw) > 300 {
            first_300(raw) + "…"@
        } else {
            raw
        },
    }
}

fn utf8_len_exec(c: char) -> (r: usize)
    ensures
        r == utf8_len(c),
{
    let n = c as u32;
    if n < 0x80 {
        1
    } else if n < 0x800 {
        2
    } else if n < 0x10000 {
        3
    } else {
        4
    }
}

proof fn lemma_byte_len_mono(s: Seq<char>, i: int, j: int)
    requires
        0 <= i <= j <= s.len(),
    ensures
        byte_len(s.take(i)) + (j - i) <= byte_len(s.take(j)),
    decreases j - i,
{
    if i < j {
        lemma_byte_len_mono(s, i, j - 1);
        assert(s.take(j).drop_last() =~= s.take(j - 1));
    }
}

fn telling_key(i: usize) -> (r: &'static str)
    requires
        i < 6,
    ensures
        r@ == telling_keys()[i as int],
{
    match i {
        0 => "command",
        1 => "file_path",
        2 => "path",
        3 => "url",
        4 => "pattern",
        _ => "prompt",
    }
}

/// What it wants to do, in one line a person can judge: the command itself,
/// or its most telling field, never a paraphrase. `raw` is the input as
/// JSON text.
pub fn one_line(ask: &Ask, raw: &str) -> (r: String)
    requires
        telling(ask.input@, telling_keys()) is None && byte_len(raw@) > 300 ==> boundary_at(raw@, 300),
    ensures
        r@ == one_line_spec(ask.input@, raw@),
{
    let ghost ks = telling_keys();
    let mut i: usize = 0;
    assert(ks.skip(0) =~= ks);
    while i < 6
        invariant
            i <= 6,
            ks == telling_keys(),
            telling(ask.input@, ks) == telling(ask.input@, ks.skip(i as int)),
        decreases 6 - i,
    {
        let ghost rest = ks.skip(i as int);
        let key = telling_key(i);
        assert(rest[0] == key@);
        assert(rest.drop_first() =~= ks.skip(i + 1));
        if let Some(v) = ask.input.get(key) {
            if let Some(t) = v.as_str() {
                if !is_blank(t) {
                    return trim_str(t);
                }
            }
        }
        i = i + 1;
    }
    assert(ks.skip(6) =~= Seq::<Seq<char>>::empty());
    let cs = crate::text::chars_of(raw);
    let ghost w = raw@;
    let mut k: usize = 0;
    let mut bytes: usize = 0;
    assert(w.take(0) =~= Seq::<char>::empty());
    while k < cs.len() && bytes < 300
        invariant
            cs@ == w,
            w == raw@,
            k <= cs.len(),
            bytes == byte_len(w.take(k as int)),
            bytes <= 303,
            forall|j: int| 0 <= j < k ==> byte_len(#[trigger] w.take(j)) < 300,
        decreases cs.len() - k,
    {
        assert(w.take(k + 1).drop_last() =~= w.take(k as int));
        assert(w.take(k + 1).last() == cs@[k as int]);
        bytes = bytes + utf8_len_exec(cs[k]);
        k = k + 1;
    }
    assert(w.take(cs.len() as int) =~= w);
    proof {
        lemma_byte_len_mono(w, k as int, cs.len() as int);
    }
    if bytes > 300 {
        proof {
            assert forall|k2: int| 0 <= k2 <= w.len() implies byte_len(#[trigger] w.take(k2)) != 300 by {
                if k2 >= k {
                    lemma_byte_len_mono(w, k as int, k2);
                }
            }
            assert(!boundary_at(w, 300));
        }
        assert(false);
        return copy_str(raw);
    }
    if k < cs.len() {
        let mut r = crate::text::from_sub(&cs, 0, k);
        push_str(&mut r, "…");
        proof {
            lemma_byte_len_mono(w, k as int, k + 1);
            assert(w.take(k + 1).drop_last() =~= w.take(k as int));
            let c = choose|k2: int| 0 <= k2 <= w.len() && byte_len(#[trigger] w.take(k2)) == 300;
            assert(boundary_at(w, 300));
            if c < k {
            } else if c > k {
                lemma_byte_len_mono(w, k + 1, c);
            }
            assert(c == k);
            assert(w.subrange(0, k as int) =~= w.take(k as int));
        }
        return r;
    }
    copy_str(raw)
}

pub open spec fn obj1(k: Seq<char>, v: JsonV) -> JsonV {
    JsonV::Obj(seq![(k, v)])
}

pub open spec fn obj2(k1: Seq<char>, v1: JsonV, k2: Seq<char>, v2: JsonV) -> JsonV {
    JsonV::Obj(seq![(k1, v1), (k2, v2)])
}

pub open spec fn obj3(k1: Seq<char>, v1: JsonV, k2: Seq<char>, v2: JsonV, k3: Seq<char>, v3: JsonV) -> JsonV {
    JsonV::Obj(seq![(k1, v1), (k2, v2), (k3, v3)])
}

fn mk_obj1(k: &str, v: Json) -> (r: Json)
    ensures
        r@ == obj1(k@, v@),
{
    let ghost vv = v@;
    let mut f: Vec<(String, Json)> = Vec::new();
    assert(pairs_view(f@) =~= Seq::<(Seq<char>, JsonV)>::empty());
    push_field(&mut f, k, v);
    assert(pairs_view(f@) =~= seq![(k@, vv)]);
    obj_from(f)
}

fn mk_obj2(k1: &str, v1: Json, k2: &str, v2: Json) -> (r: Json)
    ensures
        r@ == obj2(k1@, v1@, k2@, v2@),
{
    let ghost a = v1@;
    let ghost b = v2@;
    let mut f: Vec<(String, Json)> = Vec::new();
    assert(pairs_view(f@) =~= Seq::<(Seq<char>, JsonV)>::empty());
    push_field(&mut f, k1, v1);
    push_field(&mut f, k2, v2);
    assert(pairs_view(f@) =~= seq![(k1@, a), (k2@, b)]);
    obj_from(f)
}

fn mk_obj3(k1: &str, v1: Json, k2: &str, v2: Json, k3: &str, v3: Json) -> (r: Json)
    ensures
        r@ == obj3(k1@, v1@, k2@, v2@, k3@, v3@),
{
    let ghost a = v1@;
    let ghost b = v2@;
    let ghost c = v3@;
    let mut f: Vec<(String, Json)> = Vec::new();
    assert(pairs_view(f@) =~= Seq::<(Seq<char>, JsonV)>::empty());
    push_field(&mut f, k1, v1);
    push_field(&mut f, k2, v2);
    push_field(&mut f, k3, v3);
    assert(pairs_view(f@) =~= seq![(k1@, a), (k2@, b), (k3@, c)]);
    obj_from(f)
}

fn mk_arr(v: Json) -> (r: Json)
    ensures
        r@ == JsonV::Arr(seq![v@]),
{
    let ghost a = v@;
    let mut xs: Vec<Json> = Vec::new();
    assert(jsons_view(xs@) =~= Seq::<JsonV>::empty());
    push_item(&mut xs, v);
    assert(jsons_view(xs@) =~= seq![a]);
    arr_from(xs)
}

fn mk_arr2(v1: Json, v2: Json) -> (r: Json)
    ensures
        r@ == JsonV::Arr(seq![v1@, v2@]),
{
    let ghost a = v1@;
    let ghost b = v2@;
    let mut xs: Vec<Json> = Vec::new();
    assert(jsons_view(xs@) =~= Seq::<JsonV>::empty());
    push_item(&mut xs, v1);
    push_item(&mut xs, v2);
    assert(jsons_view(xs@) =~= seq![a, b]);
    arr_from(xs)
}

fn empty_obj() -> (r: Json)
    ensures
        r@ == JsonV::Obj(seq![]),
{
    let f: Vec<(String, Json)> = Vec::new();
    assert(pairs_view(f@) =~= Seq::<(Seq<char>, JsonV)>::empty());
    obj_from(f)
}

/// `value.pointer("/a/b")` on object members.
pub open spec fn at_path(j: JsonV, a: Seq<char>, b: Seq<char>) -> Option<JsonV> {
    match get_v(j, a) {
        Some(x) => get_v(x, b),
        None => None,
    }
}

/// A string found there, or `dflt`.
pub open spec fn str_or(v: Option<JsonV>, dflt: Seq<char>) -> Seq<char> {
    match v {
        Some(x) => match str_v(x) {
            Some(s) => s,
            None => dflt,
        },
        None => dflt,
    }
}

/// The answer to `initialize`: their protocol version echoed back, they
/// pick and we follow.
pub open spec fn initialize_v(msg: JsonV, version: Seq<char>) -> JsonV {
    obj3(
        "protocolVersion"@,
        JsonV::Str(str_or(at_path(msg, "params"@, "protocolVersion"@), "2025-11-25"@)),
        "capabilities"@,
        obj1("tools"@, JsonV::Obj(seq![])),
        "serverInfo"@,
        obj2("name"@, JsonV::Str(SERVER@), "version"@, JsonV::Str(version)),
    )
}

/// The answer to `tools/list`: the one tool, and what it takes.
pub open spec fn tools_list_v() -> JsonV {
    obj1(
        "tools"@,
        JsonV::Arr(
            seq![
                obj3(
                    "name"@,
                    JsonV::Str(TOOL@),
                    "description"@,
                    JsonV::Str("Decide whether a tool call a worker wants to make may proceed."@),
                    "inputSchema"@,
                    obj3(
                        "type"@,
                        JsonV::Str("object"@),
                        "properties"@,
                        obj3(
                            "tool_name"@,
                            obj1("type"@, JsonV::Str("string"@)),
                            "input"@,
                            obj1("type"@, JsonV::Str("object"@)),
                            "tool_use_id"@,
                            obj1("type"@, JsonV::Str("string"@)),
                        ),
                        "required"@,
                        JsonV::Arr(seq![JsonV::Str("tool_name"@), JsonV::Str("input"@)]),
                    ),
                ),
            ],
        ),
    )
}

/// What one message from the CLI comes to.
#[derive(Debug)]
pub enum RpcStep {
    /// A notification, or anything else without an id: no reply.
    Ignore,
    /// Reply to the message with this id with this result.
    Reply { id: Json, result: Json },
    /// Ask the person, then reply with the verdict when there is an id.
    Ask { id: Option<Json>, ask: Ask },
}

pub ghost struct AskV {
    pub id: Seq<char>,
    pub run: Seq<char>,
    pub tool: Seq<char>,
    pub input: JsonV,
    pub at: Seq<char>,
}

impl View for Ask {
    type V = AskV;

    open spec fn view(&self) -> AskV {
        AskV { id: self.id@, run: self.run@, tool: self.tool@, input: self.input@, at: self.at@ }
    }
}

#[allow(inconsistent_fields)]
pub ghost enum RpcStepV {
    Ignore,
    Reply { id: JsonV, result: JsonV },
    Ask { id: Option<JsonV>, ask: AskV },
}

impl View for RpcStep {
    type V = RpcStepV;

    open spec fn view(&self) -> RpcStepV {
        match self {
            RpcStep::Ignore => RpcStepV::Ignore,
            RpcStep::Reply { id, result } => RpcStepV::Reply { id: id@, result: result@ },
            RpcStep::Ask { id, ask } => RpcStepV::Ask {
                id: match id {
                    Some(i) => Some(i@),
                    None => None,
                },
                ask: ask@,
            },
        }
    }
}

/// The question a `tools/call` carries, for this run, asked at `now`.
pub open spec fn ask_of(msg: JsonV, run: Seq<char>, now: Seq<char>) -> AskV {
    let args = match at_path(msg, "params"@, "arguments"@) {
        Some(a) => a,
        None => JsonV::Null,
    };
    AskV {
        id: str_or(get_v(args, "tool_use_id"@), "unknown"@),
        run,
        tool: str_or(get_v(args, "tool_name"@), "something"@),
        input: match get_v(args, "input"@) {
            Some(i) => i,
            None => JsonV::Null,
        },
        at: now,
    }
}

/// What the server does with one message: it answers exactly the three
/// methods the CLI sends, and never replies to a message without an id.
pub open spec fn rpc_spec(msg: JsonV, run: Seq<char>, version: Seq<char>, now: Seq<char>) -> RpcStepV {
    let method = str_or(get_v(msg, "method"@), ""@);
    let id = get_v(msg, "id"@);
    if method == "tools/call"@ {
        RpcStepV::Ask { id, ask: ask_of(msg, run, now) }
    } else {
        match id {
            None => RpcStepV::Ignore,
            Some(i) => RpcStepV::Reply {
                id: i,
                result: if method == "initialize"@ {
                    initialize_v(msg, version)
                } else if method == "tools/list"@ {
                    tools_list_v()
                } else {
                    JsonV::Obj(seq![])
                },
            },
        }
    }
}

fn str_field_or(j: &Json, key: &str, dflt: &str) -> (r: String)
    ensures
        r@ == str_or(get_v(j@, key@), dflt@),
{
    match j.get(key) {
        Some(v) => match v.as_str() {
            Some(s) => copy_str(s),
            None => copy_str(dflt),
        },
        None => copy_str(dflt),
    }
}

fn tools_list() -> (r: Json)
    ensures
        r@ == tools_list_v(),
{
    let props = mk_obj3(
        "tool_name",
        mk_obj1("type", jstr("string")),
        "input",
        mk_obj1("type", jstr("object")),
        "tool_use_id",
        mk_obj1("type", jstr("string")),
    );
    let schema = mk_obj3(
        "type",
        jstr("object"),
        "properties",
        props,
        "required",
        mk_arr2(jstr("tool_name"), jstr("input")),
    );
    let tool = mk_obj3(
        "name",
        jstr(TOOL),
        "description",
        jstr("Decide whether a tool call a worker wants to make may proceed."),
        "inputSchema",
        schema,
    );
    mk_obj1("tools", mk_arr(tool))
}

/// Decide what to do with one message the CLI sent: `version` is this
/// program's, `now` the time a question would be asked at.
pub fn rpc_step(msg: &Json, run: &str, version: &str, now: &str) -> (r: RpcStep)
    ensures
        r@ == rpc_spec(msg@, run@, version@, now@),
{
    let method = str_field_or(msg, "method", "");
    let id = match msg.get("id") {
        Some(i) => Some(i.copy()),
        None => None,
    };
    if str_eq(method.as_str(), "tools/call") {
        let args = match msg.get("params") {
            Some(p) => match p.get("arguments") {
                Some(a) => a.copy(),
                None => Json::Null,
            },
            None => Json::Null,
        };
        let input = match args.get("input") {
            Some(i) => i.copy(),
            None => Json::Null,
        };
        let ask = Ask {
            id: str_field_or(&args, "tool_use_id", "unknown"),
            run: copy_str(run),
            tool: str_field_or(&args, "tool_name", "something"),
            input,
            at: copy_str(now),
        };
        return RpcStep::Ask { id, ask };
    }
    match id {
        None => RpcStep::Ignore,
        Some(i) => {
            let result = if str_eq(method.as_str(), "initialize") {
                let pv = match msg.get("params") {
                    Some(p) => str_field_or(p, "protocolVersion", "2025-11-25"),
                    None => copy_str("2025-11-25"),
                };
                mk_obj3(
                    "protocolVersion",
                    Json::Str(pv),
                    "capabilities",
                    mk_obj1("tools", empty_obj()),
                    "serverInfo",
                    mk_obj2("name", jstr(SERVER), "version", jstr(version)),
                )
            } else if str_eq(method.as_str(), "tools/list") {
                tools_list()
            } else {
                empty_obj()
            };
            RpcStep::Reply { id: i, result }
        },
    }
}

/// The result of a `tools/call`: the verdict's JSON text, as the one text
/// item of its content.
pub fn call_result(verdict_text: &str) -> (r: Json)
    ensures
        r@ == obj1("content"@, JsonV::Arr(seq![obj2("type"@, JsonV::Str("text"@), "text"@, JsonV::Str(verdict_text@))])),
{
    mk_obj1("content", mk_arr(mk_obj2("type", jstr("text"), "text", jstr(verdict_text))))
}

/// A JSON-RPC reply.
pub fn rpc_reply(id: Json, result: Json) -> (r: Json)
    ensures
        r@ == obj3("jsonrpc"@, JsonV::Str("2.0"@), "id"@, id@, "result"@, result@),
{
    mk_obj3("jsonrpc", jstr("2.0"), "id", id, "result", result)
}

pub open spec fn asks_view(v: Seq<Ask>) -> Seq<AskV> {
    v.map_values(|a: Ask| a@)
}

/// Oldest first: no question is listed before one asked earlier.
pub open spec fn oldest_first(s: Seq<AskV>) -> bool {
    forall|i: int, j: int| 0 <= i < j < s.len() ==> !crate::order::str_lt(#[trigger] s[j].at, #[trigger] s[i].at)
}

fn insert_ask(v: &mut Vec<Ask>, x: Ask)
    requires
        oldest_first(asks_view(old(v)@)),
    ensures
        oldest_first(asks_view(final(v)@)),
        asks_view(final(v)@).to_multiset() == asks_view(old(v)@).to_multiset().insert(x@),
{
    let ghost w = asks_view(v@);
    let ghost xv = x@;
    let xa = crate::text::chars_of(x.at.as_str());
    let mut i: usize = 0;
    while i < v.len()
        invariant
            i <= v.len(),
            asks_view(v@) == w,
            xv == x@,
            xa@ == x.at@,
            forall|j: int| 0 <= j < i ==> !crate::order::str_lt(xv.at, #[trigger] w[j].at),
        ensures
            i <= v.len(),
            asks_view(v@) == w,
            forall|j: int| 0 <= j < i ==> !crate::order::str_lt(xv.at, #[trigger] w[j].at),
            i < v.len() ==> crate::order::str_lt(xv.at, w[i as int].at),
        decreases v.len() - i,
    {
        assert(w[i as int] == v@[i as int]@);
        let ya = crate::text::chars_of(v[i].at.as_str());
        if crate::order::str_lt_exec(&xa, &ya) {
            break;
        }
        i = i + 1;
    }
    v.insert(i, x);
    proof {
        let nv = asks_view(v@);
        assert(nv =~= w.insert(i as int, xv));
        vstd::seq_lib::to_multiset_insert(w, i as int, xv);
        assert forall|p: int, q: int| 0 <= p < q < nv.len() implies !crate::order::str_lt(
            #[trigger] nv[q].at,
            #[trigger] nv[p].at,
        ) by {
            if q < i {
                assert(nv[p] == w[p] && nv[q] == w[q]);
            } else if q == i {
                assert(nv[p] == w[p] && nv[q] == xv);
            } else if p < i {
                assert(nv[p] == w[p] && nv[q] == w[q - 1]);
            } else if p == i {
                assert(nv[p] == xv && nv[q] == w[q - 1]);
                if crate::order::str_lt(w[q - 1].at, xv.at) {
                    crate::order::lemma_str_lt_trans(w[q - 1].at, xv.at, w[i as int].at);
                    if q - 1 == i {
                        crate::order::lemma_str_lt_irrefl(w[i as int].at);
                    }
                }
            } else {
                assert(nv[p] == w[p - 1] && nv[q] == w[q - 1]);
            }
        }
    }
}

/// The questions, oldest first: the same questions, each as often as it
/// was given, none before one asked earlier.
pub fn oldest_asks_first(asks: Vec<Ask>) -> (r: Vec<Ask>)
    ensures
        oldest_first(asks_view(r@)),
        asks_view(r@).to_multiset() == asks_view(asks@).to_multiset(),
{
    let ghost all = asks_view(asks@);
    let mut rest = asks;
    let mut r: Vec<Ask> = Vec::new();
    let mut i: usize = 0;
    let n = rest.len();
    proof {
        assert(all.skip(0) =~= all);
        assert(all.take(0) =~= Seq::<AskV>::empty());
        vstd::seq_lib::to_multiset_len(all.take(0));
        vstd::multiset::lemma_multiset_empty_len(all.take(0).to_multiset());
        vstd::seq_lib::to_multiset_len(asks_view(r@));
        vstd::multiset::lemma_multiset_empty_len(asks_view(r@).to_multiset());
    }
    while rest.len() > 0
        invariant
            n == all.len(),
            rest.len() + i == n,
            asks_view(rest@) == all.skip(i as int),
            oldest_first(asks_view(r@)),
            asks_view(r@).to_multiset() == all.take(i as int).to_multiset(),
        decreases rest.len(),
    {
        let ghost before = asks_view(rest@);
        let ghost old_rest = rest@;
        let x = rest.remove(0);
        proof {
            assert(old_rest[0] == x);
            assert(before[0] == x@);
            assert(rest@ =~= old_rest.remove(0));
            assert(asks_view(rest@) =~= before.drop_first());
            assert(x@ == all[i as int]);
            assert(asks_view(rest@) =~= all.skip(i + 1));
            assert(all.take(i + 1) =~= all.take(i as int).push(all[i as int]));
            vstd::seq_lib::to_multiset_build(all.take(i as int), all[i as int]);
        }
        insert_ask(&mut r, x);
        i = i + 1;
    }
    assert(all.take(n as int) =~= all);
    r
}

} // verus!
