use devdeck::json::Json;
use devdeck::stream::{data_payload, AnthropicStreamAccumulator, StreamAccumulator};
use devdeck::wire::RawToolCall;

fn to_json(v: &serde_json::Value) -> Json {
    match v {
        serde_json::Value::Null => Json::Null,
        serde_json::Value::Bool(b) => Json::Bool(*b),
        serde_json::Value::Number(n) => Json::Num(n.to_string()),
        serde_json::Value::String(s) => Json::Str(s.clone()),
        serde_json::Value::Array(a) => Json::Arr(a.iter().map(to_json).collect()),
        serde_json::Value::Object(m) => {
            Json::Obj(m.iter().map(|(k, v)| (k.clone(), to_json(v))).collect())
        }
    }
}

/// What the JSON library reads a text as, if anything.
fn read(text: &str) -> Option<Json> {
    serde_json::from_str::<serde_json::Value>(text).ok().map(|v| to_json(&v))
}

fn s<'a>(v: &'a Json, key: &str) -> Option<&'a str> {
    v.get(key).and_then(|x| x.as_str())
}

fn feed(acc: &mut StreamAccumulator, lines: &[&str]) -> String {
    let mut seen = String::new();
    for l in lines {
        if let Some(p) = data_payload(l) {
            if let Some(t) = acc.push_payload(&p, read(&p)) {
                seen.push_str(&t);
            }
        }
    }
    seen
}

fn finish(acc: StreamAccumulator) -> (String, Vec<RawToolCall>, Vec<String>) {
    let parsed: Vec<Option<Json>> = acc.pending_args().iter().map(|t| read(t)).collect();
    acc.finish(&parsed)
}

fn feed_anthropic(acc: &mut AnthropicStreamAccumulator, lines: &[&str]) -> String {
    let mut seen = String::new();
    for l in lines {
        if let Some(p) = data_payload(l) {
            if let Some(c) = read(&p) {
                if let Some(t) = acc.push_chunk(&c) {
                    seen.push_str(&t);
                }
            }
        }
    }
    seen
}

fn finish_anthropic(acc: AnthropicStreamAccumulator) -> (String, Vec<RawToolCall>, Vec<String>) {
    let parsed: Vec<Option<Json>> = acc.pending_args().iter().map(|t| read(t)).collect();
    acc.finish(&parsed)
}

#[test]
fn anthropic_text_deltas_accumulate() {
    let mut acc = AnthropicStreamAccumulator::new();
    let live = feed_anthropic(
        &mut acc,
        &[
            r#"data: {"type":"message_start","message":{"id":"msg_1"}}"#,
            r#"data: {"type":"content_block_start","index":0,"content_block":{"type":"text","text":""}}"#,
            r#"data: {"type":"content_block_delta","index":0,"delta":{"type":"text_delta","text":"I'll "}}"#,
            r#"data: {"type":"content_block_delta","index":0,"delta":{"type":"text_delta","text":"delegate."}}"#,
            r#"data: {"type":"content_block_stop","index":0}"#,
            r#"data: {"type":"message_stop"}"#,
        ],
    );
    assert!(acc.finished());
    assert_eq!(live, "I'll delegate.");
    assert_eq!(finish_anthropic(acc).0, "I'll delegate.");
}

#[test]
fn an_anthropic_tool_call_is_reassembled_from_partial_json() {
    let mut acc = AnthropicStreamAccumulator::new();
    feed_anthropic(
        &mut acc,
        &[
            r#"data: {"type":"content_block_start","index":1,"content_block":{"type":"tool_use","id":"toolu_9","name":"delegate_start"}}"#,
            r#"data: {"type":"content_block_delta","index":1,"delta":{"type":"input_json_delta","partial_json":"{\"agent_i"}}"#,
            r#"data: {"type":"content_block_delta","index":1,"delta":{"type":"input_json_delta","partial_json":"d\":\"dev-a\"}"}}"#,
            r#"data: {"type":"message_stop"}"#,
        ],
    );
    let (_, calls, dropped) = finish_anthropic(acc);
    assert!(dropped.is_empty(), "nothing should have been unparsable");
    assert_eq!(calls.len(), 1);
    assert_eq!(calls[0].id, "toolu_9");
    assert_eq!(calls[0].name, "delegate_start");
    assert_eq!(s(&calls[0].input, "agent_id"), Some("dev-a"));
}

#[test]
fn text_and_a_tool_call_in_one_message_stay_separate() {
    let mut acc = AnthropicStreamAccumulator::new();
    feed_anthropic(
        &mut acc,
        &[
            r#"data: {"type":"content_block_delta","index":0,"delta":{"type":"text_delta","text":"Reading it."}}"#,
            r#"data: {"type":"content_block_start","index":1,"content_block":{"type":"tool_use","id":"t1","name":"files_read"}}"#,
            r#"data: {"type":"content_block_delta","index":1,"delta":{"type":"input_json_delta","partial_json":"{\"path\":\"a.ts\"}"}}"#,
            r#"data: {"type":"message_stop"}"#,
        ],
    );
    let (text, calls, _) = finish_anthropic(acc);
    assert_eq!(text, "Reading it.");
    assert_eq!(calls.len(), 1);
    assert_eq!(s(&calls[0].input, "path"), Some("a.ts"));
}

#[test]
fn an_error_event_ends_the_stream_and_drops_the_half_written_call() {
    let mut acc = AnthropicStreamAccumulator::new();
    feed_anthropic(
        &mut acc,
        &[
            r#"data: {"type":"content_block_delta","index":0,"delta":{"type":"text_delta","text":"starting"}}"#,
            r#"data: {"type":"content_block_start","index":1,"content_block":{"type":"tool_use","id":"t","name":"terminal_run"}}"#,
            r#"data: {"type":"content_block_delta","index":1,"delta":{"type":"input_json_delta","partial_json":"{\"command"}}"#,
            r#"data: {"type":"error","error":{"type":"overloaded_error"}}"#,
        ],
    );
    assert!(acc.finished(), "an error ends the stream");
    let (text, calls, dropped) = finish_anthropic(acc);
    assert_eq!(text, "starting", "what did arrive is still real");
    assert!(calls.is_empty(), "a half-written call must not run");
    assert_eq!(dropped, vec!["terminal_run".to_string()]);
}

#[test]
fn text_deltas_accumulate_and_are_reported_as_they_arrive() {
    let mut acc = StreamAccumulator::new();
    let live = feed(
        &mut acc,
        &[
            r#"data: {"choices":[{"delta":{"content":"I'll "}}]}"#,
            r#"data: {"choices":[{"delta":{"content":"put dev-a "}}]}"#,
            r#"data: {"choices":[{"delta":{"content":"on it."}}]}"#,
            "data: [DONE]",
        ],
    );
    assert!(acc.finished());
    assert_eq!(live, "I'll put dev-a on it.");
    let (text, calls, dropped) = finish(acc);
    assert_eq!(text, "I'll put dev-a on it.");
    assert!(calls.is_empty() && dropped.is_empty());
}

#[test]
fn keepalives_and_blank_lines_are_not_data() {
    let mut acc = StreamAccumulator::new();
    feed(
        &mut acc,
        &[": ping", "", "event: message", r#"data: {"choices":[{"delta":{"content":"hi"}}]}"#],
    );
    assert_eq!(finish(acc).0, "hi");
    assert_eq!(data_payload(": ping"), None);
    assert_eq!(data_payload("  data:  [DONE] "), Some("[DONE]".to_string()));
}

#[test]
fn a_tool_call_split_across_fragments_is_reassembled() {
    let mut acc = StreamAccumulator::new();
    feed(
        &mut acc,
        &[
            r#"data: {"choices":[{"delta":{"tool_calls":[{"index":0,"id":"call_1","function":{"name":"delegate_start","arguments":""}}]}}]}"#,
            r#"data: {"choices":[{"delta":{"tool_calls":[{"index":0,"function":{"arguments":"{\"agent_i"}}]}}]}"#,
            r#"data: {"choices":[{"delta":{"tool_calls":[{"index":0,"function":{"arguments":"d\":\"dev-a\",\"feature_id"}}]}}]}"#,
            r#"data: {"choices":[{"delta":{"tool_calls":[{"index":0,"function":{"arguments":"\":\"offline-sync\"}"}}]}}]}"#,
            "data: [DONE]",
        ],
    );
    let (_, calls, dropped) = finish(acc);
    assert!(dropped.is_empty(), "nothing should have been unparsable");
    assert_eq!(calls.len(), 1);
    assert_eq!(calls[0].id, "call_1");
    assert_eq!(calls[0].name, "delegate_start");
    assert_eq!(s(&calls[0].input, "agent_id"), Some("dev-a"));
    assert_eq!(s(&calls[0].input, "feature_id"), Some("offline-sync"));
}

#[test]
fn parallel_tool_calls_stay_separate() {
    let mut acc = StreamAccumulator::new();
    feed(
        &mut acc,
        &[
            r#"data: {"choices":[{"delta":{"tool_calls":[{"index":0,"id":"a","function":{"name":"files_read","arguments":"{\"path\":"}}]}}]}"#,
            r#"data: {"choices":[{"delta":{"tool_calls":[{"index":1,"id":"b","function":{"name":"git_status","arguments":"{"}}]}}]}"#,
            r#"data: {"choices":[{"delta":{"tool_calls":[{"index":0,"function":{"arguments":"\"a.ts\"}"}}]}}]}"#,
            r#"data: {"choices":[{"delta":{"tool_calls":[{"index":1,"function":{"arguments":"}"}}]}}]}"#,
        ],
    );
    let (_, calls, _) = finish(acc);
    assert_eq!(calls.len(), 2);
    assert_eq!(calls[0].name, "files_read");
    assert_eq!(s(&calls[0].input, "path"), Some("a.ts"));
    assert_eq!(calls[1].name, "git_status");
}

#[test]
fn fragments_with_no_index_belong_to_the_same_call() {
    let mut acc = StreamAccumulator::new();
    feed(
        &mut acc,
        &[
            r#"data: {"choices":[{"delta":{"tool_calls":[{"id":"c","function":{"name":"git_log","arguments":"{\"limit"}}]}}]}"#,
            r#"data: {"choices":[{"delta":{"tool_calls":[{"function":{"arguments":"\":5}"}}]}}]}"#,
        ],
    );
    let (_, calls, _) = finish(acc);
    assert_eq!(calls.len(), 1, "one call, not one per chunk");
    assert_eq!(calls[0].input.get("limit").and_then(|v| v.as_u64()), Some(5));
}

#[test]
fn a_truncated_call_is_dropped_rather_than_run_with_empty_arguments() {
    let mut acc = StreamAccumulator::new();
    feed(
        &mut acc,
        &[
            r#"data: {"choices":[{"delta":{"content":"working on it"}}]}"#,
            r#"data: {"choices":[{"delta":{"tool_calls":[{"index":0,"id":"x","function":{"name":"terminal_run","arguments":"{\"command\":\"rm -r"}}]}}]}"#,
        ],
    );
    assert!(!acc.finished(), "the stream never said [DONE]");
    let (text, calls, dropped) = finish(acc);
    assert_eq!(text, "working on it", "the text still survives");
    assert!(calls.is_empty(), "a half-written call is not a call");
    assert_eq!(dropped, vec!["terminal_run".to_string()]);
}

#[test]
fn a_call_with_no_arguments_is_still_a_call() {
    let mut acc = StreamAccumulator::new();
    feed(
        &mut acc,
        &[r#"data: {"choices":[{"delta":{"tool_calls":[{"index":0,"id":"z","function":{"name":"git_status"}}]}}]}"#],
    );
    let (_, calls, dropped) = finish(acc);
    assert_eq!(calls.len(), 1);
    assert_eq!(calls[0].input, Json::Obj(vec![]));
    assert!(dropped.is_empty());
}

#[test]
fn fragments_that_arrive_out_of_order_come_out_by_index() {
    let mut acc = StreamAccumulator::new();
    feed(
        &mut acc,
        &[
            r#"data: {"choices":[{"delta":{"tool_calls":[{"index":2,"id":"late","function":{"name":"git_status"}}]}}]}"#,
            r#"data: {"choices":[{"delta":{"tool_calls":[{"index":0,"id":"early","function":{"name":"git_log"}}]}}]}"#,
        ],
    );
    let (_, calls, _) = finish(acc);
    assert_eq!(calls.iter().map(|c| c.id.as_str()).collect::<Vec<_>>(), vec!["early", "late"]);
}
