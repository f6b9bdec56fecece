use devdeck::json::Json;
use devdeck::provider::{
    AgentAction, AgentRequest, AnthropicConfig, AnthropicProvider, ChatTurn, Observation,
    OpenAICompatibleConfig, OpenAICompatibleProvider, key_target,
};
use devdeck::tools::{definitions_for, registry, Permission, PermissionMatrix};
use devdeck::wire::{
    assemble, from_anthropic_response, from_openai_response, openai_arguments, parse_anthropic_models,
    parse_openai_models, schema_json, to_actions, to_anthropic_tools, to_openai_tools, anthropic_messages,
    RawToolCall,
};

fn to_json(v: &serde_json::Value) -> Json {
    match v {
        serde_json::Value::Null => Json::Null,
        serde_json::Value::Bool(b) => Json::Bool(*b),
        serde_json::Value::Number(n) => Json::Num(n.to_string()),
        serde_json::Value::String(s) => Json::Str(s.clone()),
        serde_json::Value::Array(a) => Json::Arr(a.iter().map(to_json).collect()),
        serde_json::Value::Object(m) => {
            Json::Obj(m.iter().map(|(k, v)| (k.clone(), to_json(v))).collect())
        }
    }
}

fn from_json(j: &Json) -> serde_json::Value {
    match j {
        Json::Null => serde_json::Value::Null,
        Json::Bool(b) => serde_json::Value::Bool(*b),
        Json::Num(n) => serde_json::from_str(n).unwrap(),
        Json::Str(s) => serde_json::Value::String(s.clone()),
        Json::Arr(a) => serde_json::Value::Array(a.iter().map(from_json).collect()),
        Json::Obj(m) => {
            let mut o = serde_json::Map::new();
            for (k, v) in m {
                o.insert(k.clone(), from_json(v));
            }
            serde_json::Value::Object(o)
        }
    }
}

fn j(text: &str) -> Json {
    to_json(&serde_json::from_str::<serde_json::Value>(text).unwrap())
}

fn s<'a>(v: &'a Json, key: &str) -> Option<&'a str> {
    v.get(key).and_then(|x| x.as_str())
}

fn arr(v: &Json) -> &Vec<Json> {
    v.as_array().unwrap()
}

fn full(agent: &str) -> PermissionMatrix {
    let mut m = PermissionMatrix::new();
    for t in registry() {
        m.set(agent, &t.id, Permission::Full);
    }
    m
}

fn cfg() -> OpenAICompatibleConfig {
    OpenAICompatibleConfig {
        name: "OpenRouter".into(),
        base_url: "https://openrouter.ai/api/v1".into(),
        key_target: key_target("test-openai-none"),
        model: "anthropic/sonnet-4.5".into(),
        headers: vec![("X-Team".into(), "platform".into())],
        timeout_secs: Some(30),
    }
}

fn req() -> AgentRequest {
    AgentRequest {
        agent_id: "dev-a".into(),
        role: "developer".into(),
        model: "anthropic/sonnet-4.5".into(),
        system: "You implement work items.".into(),
        context: "## Feature context\n\nOffline sync.".into(),
        goal: "Implement conflict resolution".into(),
        tools: definitions_for("dev-a", &full("dev-a")),
        observations: vec![],
        turn: 0,
        history: vec![],
    }
}

fn obs(call_id: &str, tool: &str, action: &str, ok: bool) -> Observation {
    Observation {
        call_id: call_id.into(),
        tool: tool.into(),
        action: action.into(),
        args: j(r#"{ "path": "a.ts" }"#),
        ok,
        output: if ok { "contents".into() } else { "denied".into() },
    }
}

/// What the JSON library reads the argument text of each pending call as.
fn read_each(texts: &[Option<String>]) -> Vec<Option<Json>> {
    texts
        .iter()
        .map(|t| {
            t.as_ref()
                .and_then(|t| serde_json::from_str::<serde_json::Value>(t).ok())
                .map(|v| to_json(&v))
        })
        .collect()
}

#[test]
fn anthropic_and_openai_carry_the_same_schema_under_different_keys() {
    let defs = definitions_for("dev", &full("dev"));
    assert!(!defs.is_empty());

    let a = to_anthropic_tools(&defs);
    let o = to_openai_tools(&defs);
    let (a, o) = (arr(&a), arr(&o));
    assert_eq!(a.len(), defs.len());
    assert_eq!(o.len(), defs.len());

    for (i, d) in defs.iter().enumerate() {
        assert_eq!(s(&a[i], "name"), Some(d.name.as_str()));
        assert_eq!(a[i].get("input_schema"), Some(&schema_json(&d.input_schema)));

        assert_eq!(s(&o[i], "type"), Some("function"));
        let f = o[i].get("function").unwrap();
        assert_eq!(s(f, "name"), Some(d.name.as_str()));
        // Same schema, different key.
        assert_eq!(f.get("parameters"), Some(&schema_json(&d.input_schema)));
    }
}

#[test]
fn a_schema_is_an_object_with_its_properties_and_nothing_else() {
    let defs = definitions_for("dev", &full("dev"));
    let write = defs.iter().find(|d| d.name == "files_write").unwrap();
    let v = from_json(&schema_json(&write.input_schema));
    assert_eq!(v["type"], "object");
    assert_eq!(v["additionalProperties"], false);
    assert_eq!(v["properties"]["path"]["type"], "string");
    assert_eq!(v["properties"]["content"]["type"], "string");
    let required: Vec<&str> = v["required"].as_array().unwrap().iter().map(|x| x.as_str().unwrap()).collect();
    assert_eq!(required, vec!["path", "content"]);

    let log = defs.iter().find(|d| d.name == "git_log").unwrap();
    let v = from_json(&schema_json(&log.input_schema));
    assert_eq!(v["properties"]["limit"]["type"], "integer");
    assert_eq!(v["properties"]["limit"]["minimum"], 1);
    assert_eq!(v["properties"]["limit"]["maximum"], 100);
}

#[test]
fn an_anthropic_response_yields_its_text_and_its_tool_calls() {
    let body = j(r#"{
        "content": [
            { "type": "text", "text": "I'll read the sync types first." },
            { "type": "tool_use", "id": "toolu_01",
              "name": "files_read",
              "input": { "path": "packages/sync/types.ts" } }
        ]
    }"#);
    let (text, calls) = from_anthropic_response(&body);
    assert!(text.contains("sync types"));
    assert_eq!(calls.len(), 1);
    assert_eq!(calls[0].id, "toolu_01");
    assert_eq!(calls[0].name, "files_read");
    assert_eq!(s(&calls[0].input, "path"), Some("packages/sync/types.ts"));
}

#[test]
fn text_blocks_are_joined_one_per_line() {
    let body = j(r#"{ "content": [
        { "type": "text", "text": "one" },
        { "type": "tool_use", "id": "t", "name": "git_status" },
        { "type": "text", "text": "two" }
    ] }"#);
    let (text, calls) = from_anthropic_response(&body);
    assert_eq!(text, "one\ntwo");
    assert_eq!(calls.len(), 1);
    assert_eq!(calls[0].input, Json::Obj(vec![]), "a missing input is an empty object");
}

#[test]
fn openai_arguments_are_a_json_string_and_are_parsed_as_one() {
    let body = j(r#"{
        "choices": [{
            "message": {
                "content": "Reading the file.",
                "tool_calls": [{
                    "id": "call_1",
                    "type": "function",
                    "function": {
                        "name": "files_read",
                        "arguments": "{\"path\":\"packages/sync/types.ts\"}"
                    }
                }]
            }
        }]
    }"#);
    let parsed = read_each(&openai_arguments(&body));
    let (text, calls) = from_openai_response(&body, &parsed);
    assert_eq!(text, "Reading the file.");
    assert_eq!(calls.len(), 1);
    assert_eq!(
        s(&calls[0].input, "path"),
        Some("packages/sync/types.ts"),
        "arguments were not parsed out of the JSON string"
    );
}

#[test]
fn unreadable_openai_arguments_become_an_empty_object() {
    let body = j(r#"{ "choices": [{ "message": { "tool_calls": [
        { "id": "c", "function": { "name": "git_status", "arguments": "{not json" } }
    ] } }] }"#);
    let texts = openai_arguments(&body);
    assert_eq!(texts, vec![Some("{not json".to_string())]);
    let (text, calls) = from_openai_response(&body, &read_each(&texts));
    assert_eq!(text, "");
    assert_eq!(calls[0].id, "c");
    assert_eq!(calls[0].input, Json::Obj(vec![]));
}

#[test]
fn a_response_with_no_tool_calls_is_not_an_error() {
    for body in [
        j(r#"{ "content": [{ "type": "text", "text": "Nothing to do." }] }"#),
        j(r#"{ "choices": [{ "message": { "content": "Nothing to do." } }] }"#),
    ] {
        let (_, a) = from_anthropic_response(&body);
        let (_, o) = from_openai_response(&body, &read_each(&openai_arguments(&body)));
        assert!(a.is_empty() && o.is_empty());
    }
    let junk = j(r#"{ "unexpected": true }"#);
    assert!(from_anthropic_response(&junk).1.is_empty());
    assert!(from_openai_response(&junk, &vec![]).1.is_empty());
}

#[test]
fn a_valid_call_becomes_an_action_and_a_bad_one_becomes_feedback() {
    let calls = vec![
        RawToolCall { id: "ok".into(), name: "files_read".into(), input: j(r#"{ "path": "a.ts" }"#) },
        RawToolCall { id: "bad-args".into(), name: "files_read".into(), input: j("{}") },
        RawToolCall { id: "bad-name".into(), name: "files_delete".into(), input: j("{}") },
    ];
    let out = to_actions(&calls);
    match &out[0] {
        Ok(AgentAction::Tool(c)) => assert_eq!(c.call_id, "ok", "the call keeps its id"),
        other => panic!("expected a tool action, got {other:?}"),
    }

    let (id, msg) = out[1].as_ref().unwrap_err();
    assert_eq!(id, "bad-args");
    assert!(msg.contains("missing required argument 'path'"), "got: {msg}");

    let (id, msg) = out[2].as_ref().unwrap_err();
    assert_eq!(id, "bad-name");
    assert!(msg.contains("unknown tool"), "got: {msg}");
}

#[test]
fn a_read_only_agent_is_advertised_no_writes_on_either_wire() {
    let mut m = PermissionMatrix::new();
    for t in registry() {
        m.set("qa", &t.id, Permission::Read);
    }
    let defs = definitions_for("qa", &m);
    let json = from_json(&to_anthropic_tools(&defs)).to_string();
    assert!(!json.contains("files_write"), "a write reached the wire: {json}");
    assert!(!json.contains("terminal_run"));
    assert!(json.contains("files_read"));
    let json = from_json(&to_openai_tools(&defs)).to_string();
    assert!(!json.contains("files_write"));
}

#[test]
fn openai_style_models_are_parsed_and_sorted() {
    let body = j(r#"{
        "data": [
            { "id": "openai/gpt-5", "name": "GPT-5", "context_length": 400000 },
            { "id": "anthropic/sonnet-4.5", "context_length": 200000 },
            { "id": "meta-llama/llama-4" }
        ]
    }"#);
    let m = parse_openai_models(&body);
    assert_eq!(m.len(), 3);
    assert_eq!(m[0].id, "anthropic/sonnet-4.5");
    assert_eq!(m[2].id, "openai/gpt-5");
    assert_eq!(m[0].name, "anthropic/sonnet-4.5");
    assert_eq!(m[2].name, "GPT-5");
    assert_eq!(m[1].context_window, None);
    assert_eq!(m[2].context_window, Some(400_000));
}

#[test]
fn a_repeated_model_id_is_listed_once_as_it_first_came() {
    let body = j(r#"{ "data": [
        { "id": "b", "name": "first b" },
        { "id": "a", "context_window": 8192 },
        { "id": "b", "name": "second b" }
    ] }"#);
    let m = parse_openai_models(&body);
    assert_eq!(m.iter().map(|x| x.id.as_str()).collect::<Vec<_>>(), vec!["a", "b"]);
    assert_eq!(m[1].name, "first b");
    assert_eq!(m[0].context_window, Some(8192), "context_window stands in for context_length");
}

#[test]
fn anthropic_models_use_their_display_names_and_keep_their_order() {
    let body = j(r#"{
        "data": [
            { "id": "anthropic-opus-4-5", "display_name": "Anthropic Opus 4.5" },
            { "id": "anthropic-sonnet-4-5", "display_name": "Anthropic Sonnet 4.5" }
        ]
    }"#);
    let m = parse_anthropic_models(&body);
    assert_eq!(m.len(), 2);
    assert_eq!(m[0].id, "anthropic-opus-4-5");
    assert_eq!(m[0].name, "Anthropic Opus 4.5");
    assert!(m.iter().all(|x| x.context_window.is_none()));
}

#[test]
fn an_unexpected_model_payload_yields_nothing_rather_than_junk() {
    for body in [
        j("{}"),
        j(r#"{ "data": "nope" }"#),
        j(r#"{ "data": [{ "no_id": true }, { "id": "" }] }"#),
    ] {
        assert!(parse_openai_models(&body).is_empty(), "{body:?}");
        assert!(parse_anthropic_models(&body).is_empty(), "{body:?}");
    }
}

#[test]
fn a_tool_result_is_preceded_by_the_call_it_answers() {
    let mut r = req();
    r.observations = vec![obs("toolu_1", "files", "read", true)];

    let msgs = from_json(&anthropic_messages(&r));
    let msgs = msgs.as_array().unwrap();

    let assistant = msgs
        .iter()
        .position(|m| m["role"] == "assistant")
        .expect("the assistant turn must be reconstructed");
    let result_turn = msgs
        .iter()
        .position(|m| m["role"] == "user" && m["content"][0]["type"] == "tool_result")
        .expect("the result must be a user turn");
    assert!(assistant < result_turn, "the call has to come first");

    let use_block = &msgs[assistant]["content"][0];
    assert_eq!(use_block["type"], "tool_use");
    assert_eq!(use_block["id"], "toolu_1");
    assert_eq!(use_block["name"], "files_read");
    assert_eq!(use_block["input"]["path"], "a.ts");
    assert_eq!(msgs[result_turn]["content"][0]["tool_use_id"], "toolu_1");
}

#[test]
fn a_failed_tool_result_is_flagged_as_an_error_not_as_output() {
    let mut r = req();
    r.observations = vec![obs("toolu_2", "terminal", "run", false)];
    let msgs = from_json(&anthropic_messages(&r));
    let result = msgs
        .as_array()
        .unwrap()
        .iter()
        .find(|m| m["content"][0]["type"] == "tool_result")
        .unwrap()
        .clone();
    assert_eq!(result["content"][0]["is_error"], true);
}

#[test]
fn an_observation_with_no_call_id_survives_as_text() {
    let mut r = req();
    let mut o = obs("", "decision", "record", false);
    o.output = "could not record".into();
    r.observations = vec![o];

    let msgs = from_json(&anthropic_messages(&r));
    let msgs = msgs.as_array().unwrap();
    assert!(
        !msgs.iter().any(|m| m["content"][0]["type"] == "tool_result"),
        "no id means no tool_result block"
    );
    assert!(
        msgs.iter().any(|m| m["content"].as_str().is_some_and(|c| c.contains("could not record"))),
        "but it must still reach the model"
    );
}

#[test]
fn the_system_prompt_is_never_a_message() {
    let r = req();
    let msgs = from_json(&anthropic_messages(&r));
    for m in msgs.as_array().unwrap() {
        assert_ne!(m["role"], "system", "system is a top-level field here");
    }
}

#[test]
fn a_conversation_goes_before_the_goal_and_drops_the_task_prefix() {
    let mut r = req();
    r.history = vec![
        ChatTurn { role: "user".into(), content: "hello".into() },
        ChatTurn { role: "assistant".into(), content: "hi".into() },
    ];
    let msgs = from_json(&anthropic_messages(&r));
    let msgs = msgs.as_array().unwrap();
    assert_eq!(msgs[0]["content"], "hello");
    assert_eq!(msgs[1]["role"], "assistant");
    assert_eq!(msgs[2]["content"], "Implement conflict resolution");
    let first = from_json(&anthropic_messages(&req()));
    assert_eq!(first[0]["content"], "Your task: Implement conflict resolution");
}

#[test]
fn anthropic_refuses_to_call_out_half_configured() {
    let p = AnthropicProvider::new(AnthropicConfig {
        key_target: key_target("anthropic-test-missing"),
        model: String::new(),
    });
    let e = p.body(&req(), false, false).unwrap_err();
    assert!(e.contains("model"), "should name the missing piece: {e}");
    let h = p.health(false);
    assert!(!h.ok);
    assert!(!h.configured);
}

#[test]
fn an_anthropic_body_has_its_system_at_the_top_and_tools_only_when_there_are_some() {
    let p = AnthropicProvider::new(AnthropicConfig { key_target: key_target("x"), model: "m".into() });
    assert!(p.body(&req(), false, false).unwrap_err().contains("API key"));
    let b = from_json(&p.body(&req(), true, true).unwrap());
    assert_eq!(b["model"], "m");
    assert_eq!(b["max_tokens"], 8192);
    assert_eq!(b["stream"], true);
    assert_eq!(b["system"], "You implement work items.\n\n# Context\n\n## Feature context\n\nOffline sync.");
    assert!(b["tools"].as_array().is_some_and(|t| !t.is_empty()));
    let mut bare = req();
    bare.tools.clear();
    let b = from_json(&p.body(&bare, false, true).unwrap());
    assert!(b.get("tools").is_none(), "an empty tools list is refused there");
}

#[test]
fn streamed_and_whole_responses_assemble_identically() {
    let calls = vec![RawToolCall { id: "call_1".into(), name: "files_read".into(), input: j(r#"{ "path": "a.ts" }"#) }];

    let whole = assemble("Reading it.".into(), &calls, &vec![]);
    let streamed = assemble("Reading it.".into(), &calls, &vec![]);
    assert_eq!(whole.message, streamed.message);
    assert_eq!(whole.complete, streamed.complete);
    assert_eq!(whole.actions.len(), streamed.actions.len());

    assert!(!whole.complete, "a pending tool call means more to do");
    let text_only = assemble("All done.".into(), &vec![], &vec![]);
    assert!(text_only.complete);
    assert!(matches!(text_only.actions.first(), Some(AgentAction::Done { .. })));
}

#[test]
fn a_dropped_call_is_reported_back_rather_than_swallowed() {
    let r = assemble("working".into(), &vec![], &vec!["terminal_run".into()]);
    assert!(r.message.contains("terminal_run"));
    assert!(r.message.contains("incomplete"));
    assert!(!r.complete, "the turn is not over; the model still needs to send it again");
    assert_eq!(
        r.message,
        "working\ntool call terminal_run arrived incomplete and was not run -- send it again"
    );
}

#[test]
fn a_refused_call_is_said_in_the_message_and_a_blank_finish_has_no_summary() {
    let calls = vec![RawToolCall { id: "x".into(), name: "nope".into(), input: j("{}") }];
    let r = assemble("hm".into(), &calls, &vec![]);
    assert!(!r.complete);
    assert!(r.actions.is_empty());
    assert!(r.message.starts_with("hm\ntool call x was rejected: unknown tool 'nope'"), "{}", r.message);
    let blank = assemble("  ".into(), &vec![], &vec![]);
    assert!(blank.complete);
    assert!(blank.actions.is_empty());
}

#[test]
fn context_is_a_system_message_and_the_goal_is_the_user_turn() {
    let p = OpenAICompatibleProvider::new(cfg());
    let msgs = from_json(&p.messages(&req()));
    let msgs = msgs.as_array().unwrap();

    assert_eq!(msgs[0]["role"], "system");
    let system = msgs[0]["content"].as_str().unwrap();
    assert!(system.contains("You implement work items"));
    assert!(system.contains("Offline sync"), "context must be in the system message");

    assert_eq!(msgs[1]["role"], "user");
    assert!(msgs[1]["content"].as_str().unwrap().contains("Implement conflict resolution"));
}

#[test]
fn a_tool_result_is_returned_against_the_call_it_answers() {
    let p = OpenAICompatibleProvider::new(cfg());
    let mut r = req();
    r.observations = vec![
        Observation {
            call_id: "call_abc".into(),
            tool: "files".into(),
            action: "read".into(),
            args: j(r#"{ "path": "types.ts" }"#),
            ok: true,
            output: "export type SyncResult = {}".into(),
        },
        Observation {
            call_id: String::new(),
            tool: "git".into(),
            action: "status".into(),
            args: Json::Null,
            ok: false,
            output: "not a repo".into(),
        },
    ];

    let msgs = from_json(&p.messages(&r));
    let msgs = msgs.as_array().unwrap();
    let tool_msg = msgs.iter().find(|m| m["role"] == "tool").unwrap();
    assert_eq!(tool_msg["tool_call_id"], "call_abc");
    assert!(tool_msg["content"].as_str().unwrap().contains("SyncResult"));

    let narrated = msgs
        .iter()
        .filter(|m| m["role"] == "user")
        .find(|m| m["content"].as_str().unwrap().contains("git.status"))
        .expect("an un-correlated result is narrated instead");
    assert!(
        narrated["content"].as_str().unwrap().contains("ERROR: not a repo"),
        "a failed result must read as a failure"
    );
}

#[test]
fn an_openai_body_asks_for_tools_by_choice() {
    let p = OpenAICompatibleProvider::new(cfg());
    let b = from_json(&p.body(&req(), false));
    assert_eq!(b["model"], "anthropic/sonnet-4.5");
    assert_eq!(b["tool_choice"], "auto");
    assert_eq!(b["stream"], false);
    assert_eq!(b["messages"][0]["role"], "system");
}

#[test]
fn an_unconfigured_transport_refuses_before_touching_the_network() {
    let mut c = cfg();
    c.base_url.clear();
    let e = OpenAICompatibleProvider::new(c).ready().unwrap_err();
    assert!(e.contains("base URL"), "got: {e}");

    let mut c = cfg();
    c.model.clear();
    let e = OpenAICompatibleProvider::new(c).ready().unwrap_err();
    assert!(e.contains("model"), "got: {e}");
    assert!(OpenAICompatibleProvider::new(cfg()).ready().is_ok());
}

#[test]
fn the_model_directory_sits_beside_the_endpoint() {
    assert_eq!(
        OpenAICompatibleProvider::new(cfg()).models_url().unwrap(),
        "https://openrouter.ai/api/v1/models"
    );
    let mut c = cfg();
    c.base_url = "  ".into();
    assert!(OpenAICompatibleProvider::new(c).models_url().unwrap_err().contains("base URL"));
}
