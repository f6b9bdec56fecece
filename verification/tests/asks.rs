use devdeck::asks::{
    answer_file, answered, ask_file, oldest_asks_first, call_result, deny, not_asked, one_line, rpc_reply, rpc_step, tool_id,
    unanswered_reason, unanswered_verdict, Answer, Ask, RpcStep,
};
use devdeck::json::Json;

fn to_json(v: &serde_json::Value) -> Json {
    match v {
        serde_json::Value::Null => Json::Null,
        serde_json::Value::Bool(b) => Json::Bool(*b),
        serde_json::Value::Number(n) => Json::Num(n.to_string()),
        serde_json::Value::String(s) => Json::Str(s.clone()),
        serde_json::Value::Array(a) => Json::Arr(a.iter().map(to_json).collect()),
        serde_json::Value::Object(m) => Json::Obj(m.iter().map(|(k, v)| (k.clone(), to_json(v))).collect()),
    }
}

fn from_json(j: &Json) -> serde_json::Value {
    match j {
        Json::Null => serde_json::Value::Null,
        Json::Bool(b) => serde_json::Value::Bool(*b),
        Json::Num(n) => serde_json::from_str(n).unwrap(),
        Json::Str(s) => serde_json::Value::String(s.clone()),
        Json::Arr(a) => serde_json::Value::Array(a.iter().map(from_json).collect()),
        Json::Obj(m) => {
            let mut o = serde_json::Map::new();
            for (k, v) in m {
                o.insert(k.clone(), from_json(v));
            }
            serde_json::Value::Object(o)
        }
    }
}

fn j(text: &str) -> Json {
    to_json(&serde_json::from_str::<serde_json::Value>(text).unwrap())
}

fn ask_with(input: &str) -> Ask {
    Ask { id: "x".into(), run: "r".into(), tool: "Bash".into(), input: j(input), at: "now".into() }
}

fn raw_of(a: &Ask) -> String {
    from_json(&a.input).to_string()
}

#[test]
fn the_approval_tool_has_the_name_the_cli_expects() {
    assert_eq!(tool_id(), "mcp__devdeck__approve");
}

#[test]
fn a_question_and_its_answer_have_their_own_files() {
    assert_eq!(ask_file("abc"), "abc.ask.json");
    assert_eq!(answer_file("abc"), "abc.answer.json");
}

#[test]
fn nobody_answering_is_a_no_that_says_why() {
    let r = unanswered_reason(90);
    assert!(r.starts_with("Nobody answered in 90 seconds."), "{r}");
    assert!(r.contains("Stop now"));
    let v = from_json(&unanswered_verdict(1));
    assert_eq!(v["behavior"], "deny");
    let msg = v["message"].as_str().unwrap_or_default();
    assert!(msg.contains("Nobody answered"), "said: {msg}");
    assert!(msg.contains("still in the room"), "said: {msg}");
}

#[test]
fn a_question_shows_the_command_itself() {
    let ask = ask_with(r#"{ "command": "cargo test --lib", "description": "Run the tests" }"#);
    assert_eq!(one_line(&ask, &raw_of(&ask)), "cargo test --lib");
}

#[test]
fn the_verdicts_are_the_shapes_the_cli_understands() {
    let a = from_json(&devdeck::asks::allow(&j(r#"{ "command": "npx tsc -b" }"#)));
    assert_eq!(a["behavior"], "allow");
    assert_eq!(a["updatedInput"]["command"], "npx tsc -b");

    let d = from_json(&deny("You said no."));
    assert_eq!(d["behavior"], "deny");
    assert_eq!(d["message"], "You said no.");
}

#[test]
fn an_answer_is_the_verdict_in_the_persons_words() {
    let input = j(r#"{ "command": "rm -rf build" }"#);
    let yes = Answer { allow: true, note: String::new(), at: "t".into() };
    assert_eq!(from_json(&answered(&yes, &input))["updatedInput"]["command"], "rm -rf build");
    let no = Answer { allow: false, note: String::new(), at: "t".into() };
    assert_eq!(from_json(&answered(&no, &input))["message"], "You said no.");
    let why = Answer { allow: false, note: "not on main".into(), at: "t".into() };
    assert_eq!(from_json(&answered(&why, &input))["message"], "You said no: not on main");
    assert_eq!(
        from_json(&not_asked())["message"],
        "DevDeck could not write the question down, so nobody was asked."
    );
}

#[test]
fn the_most_telling_field_is_shown_and_a_long_input_is_cut() {
    let ask = ask_with(r#"{ "description": "x", "file_path": "  src/main.rs " }"#);
    assert_eq!(one_line(&ask, &raw_of(&ask)), "src/main.rs");
    let ask = ask_with(r#"{ "command": "   ", "url": "https://example.com" }"#);
    assert_eq!(one_line(&ask, &raw_of(&ask)), "https://example.com");
    let ask = ask_with(r#"{ "n": 3 }"#);
    assert_eq!(one_line(&ask, &raw_of(&ask)), r#"{"n":3}"#);
    let long = format!(r#"{{ "body": "{}" }}"#, "a".repeat(400));
    let ask = ask_with(&long);
    let raw = raw_of(&ask);
    let shown = one_line(&ask, &raw);
    assert_eq!(shown, format!("{}…", &raw[..300]));
}

#[test]
fn the_server_answers_the_three_methods_it_is_sent() {
    let init = rpc_step(
        &j(r#"{ "jsonrpc": "2.0", "id": 1, "method": "initialize", "params": { "protocolVersion": "2025-06-18" } }"#),
        "run1",
        "0.9.0",
        "t0",
    );
    match init {
        RpcStep::Reply { id, result } => {
            assert_eq!(from_json(&id), serde_json::Value::from(1));
            let r = from_json(&result);
            assert_eq!(r["protocolVersion"], "2025-06-18");
            assert_eq!(r["serverInfo"]["name"], "devdeck");
            assert_eq!(r["serverInfo"]["version"], "0.9.0");
            assert!(r["capabilities"]["tools"].is_object());
        }
        other => panic!("{other:?}"),
    }
    match rpc_step(&j(r#"{ "id": 2, "method": "initialize" }"#), "r", "1", "t") {
        RpcStep::Reply { result, .. } => assert_eq!(from_json(&result)["protocolVersion"], "2025-11-25"),
        other => panic!("{other:?}"),
    }
    match rpc_step(&j(r#"{ "id": "a", "method": "tools/list" }"#), "r", "1", "t") {
        RpcStep::Reply { result, .. } => {
            let r = from_json(&result);
            assert_eq!(r["tools"][0]["name"], "approve");
            assert_eq!(r["tools"][0]["inputSchema"]["required"][1], "input");
        }
        other => panic!("{other:?}"),
    }
    let call = rpc_step(
        &j(r#"{ "id": 3, "method": "tools/call", "params": { "name": "approve", "arguments": { "tool_name": "Bash", "input": { "command": "ls" }, "tool_use_id": "toolu_1" } } }"#),
        "run1",
        "1",
        "t9",
    );
    match call {
        RpcStep::Ask { id, ask } => {
            assert!(id.is_some());
            assert_eq!(ask.id, "toolu_1");
            assert_eq!(ask.run, "run1");
            assert_eq!(ask.tool, "Bash");
            assert_eq!(ask.at, "t9");
            assert_eq!(from_json(&ask.input)["command"], "ls");
        }
        other => panic!("{other:?}"),
    }
    match rpc_step(&j(r#"{ "id": 4, "method": "tools/call", "params": {} }"#), "r", "1", "t") {
        RpcStep::Ask { ask, .. } => {
            assert_eq!(ask.id, "unknown");
            assert_eq!(ask.tool, "something");
            assert_eq!(ask.input, Json::Null);
        }
        other => panic!("{other:?}"),
    }
}

#[test]
fn a_notification_gets_no_reply_and_anything_else_an_empty_one() {
    assert!(matches!(rpc_step(&j(r#"{ "method": "notifications/initialized" }"#), "r", "1", "t"), RpcStep::Ignore));
    assert!(matches!(rpc_step(&j(r#"{ "method": "initialize" }"#), "r", "1", "t"), RpcStep::Ignore));
    match rpc_step(&j(r#"{ "id": 7, "method": "ping" }"#), "r", "1", "t") {
        RpcStep::Reply { result, .. } => assert_eq!(from_json(&result), serde_json::Value::Object(serde_json::Map::new())),
        other => panic!("{other:?}"),
    }
}

#[test]
fn a_verdict_goes_back_as_the_text_of_a_reply() {
    let r = from_json(&rpc_reply(Json::Num("3".into()), call_result(r#"{"behavior":"deny"}"#)));
    assert_eq!(r["jsonrpc"], "2.0");
    assert_eq!(r["id"], 3);
    assert_eq!(r["result"]["content"][0]["type"], "text");
    assert_eq!(r["result"]["content"][0]["text"], r#"{"behavior":"deny"}"#);
}

#[test]
fn questions_are_listed_oldest_first() {
    let mk = |id: &str, at: &str| Ask { id: id.into(), run: "r".into(), tool: "Bash".into(), input: Json::Null, at: at.into() };
    let asks = vec![
        mk("c", "2026-09-24T10:05:00+02:00"),
        mk("a", "2026-09-24T10:01:00+02:00"),
        mk("b", "2026-09-24T10:03:00+02:00"),
        mk("a2", "2026-09-24T10:01:00+02:00"),
    ];
    let ids: Vec<String> = oldest_asks_first(asks).into_iter().map(|a| a.id).collect();
    assert_eq!(ids.len(), 4);
    assert_eq!(&ids[2..], &["b".to_string(), "c".to_string()]);
    assert!(ids[..2].contains(&"a".to_string()) && ids[..2].contains(&"a2".to_string()));
}
