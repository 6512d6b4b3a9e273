use serde_json::Value;
use stakit::error::ProviderError;
use stakit::json::Json;
use stakit::message::{
    AssistantContent, ImageSource, Message, SystemPrompt, Thinking, ToolResultPart, UserContent,
};
use stakit::provider::claude;
use stakit::provider::claude::{
    sse_line_overflow, ClaudeClient, ClaudeStream, MAX_INFLIGHT_TOOLS, MAX_SSE_LINE, MAX_TOOL_ARGS,
};
use stakit::provider::openai;
use stakit::provider::openai::{OpenAiClient, OpenAiStream};
use stakit::provider::{
    api_error, parse_retry_after, ChatRequest, StopReason, StreamEvent, ThinkingConfig, ToolChoice,
    ToolDef,
};
use stakit::cache::{CacheStrategy, CacheTarget, CacheTtl};
use stakit::usage::Usage;
use std::time::Duration;

fn json(text: &str) -> Json {
    Json::parse(text).expect("valid JSON")
}

fn model_id() -> String {
    "opus-4-8".to_owned()
}

fn request(model: &str) -> ChatRequest {
    ChatRequest::new(model.to_owned())
}

#[test]
fn chat_request_defaults() {
    let req = request(&model_id());
    assert_eq!(req.max_tokens, 4096);
    assert_eq!(req.tool_choice, ToolChoice::Auto);
    assert_eq!(req.cache, CacheStrategy::Auto);
    assert!(req.messages.is_empty());
}

#[test]
fn build_body_sets_core_fields_and_caches_system() {
    let mut req = request(&model_id());
    req.system = Some(SystemPrompt::from("be helpful"));
    req.messages = vec![Message::user_text("hi".into())];
    let body = claude::build_body(&model_id(), &req, false).to_value();
    assert_eq!(body["model"], model_id());
    assert_eq!(body["max_tokens"], 4096);
    assert_eq!(body["stream"], false);
    assert_eq!(body["system"][0]["cache_control"]["type"], "ephemeral");
    assert_eq!(body["messages"][0]["role"], "user");
    assert_eq!(body["messages"][0]["content"][0]["text"], "hi");
}

#[test]
fn thinking_config_maps_to_anthropic_thinking_budget() {
    let mut req = request(&model_id());
    req.thinking = ThinkingConfig::Budget(3000);
    let body = claude::build_body(&model_id(), &req, false).to_value();
    assert_eq!(body["thinking"]["type"], "enabled");
    assert_eq!(body["thinking"]["budget_tokens"], 3000);

    req.thinking = ThinkingConfig::Off;
    let body = claude::build_body(&model_id(), &req, false).to_value();
    assert!(body.get("thinking").is_none(), "Off must omit thinking");
}

#[test]
fn tool_result_blocks_come_first_in_user_turn() {
    let msg = Message::User(vec![
        UserContent::Text("here".into()),
        UserContent::ToolResult {
            id: "toolu_1".into(),
            content: vec![ToolResultPart::Text("42".into())],
            is_error: false,
        },
    ]);
    let v = claude::map_message(&msg).to_value();
    assert_eq!(v["content"][0]["type"], "tool_result");
    assert_eq!(v["content"][0]["tool_use_id"], "toolu_1");
    assert_eq!(v["content"][1]["type"], "text");
}

#[test]
fn parse_response_reads_text_tooluse_stop_and_usage() {
    let value = json(
        r#"{
            "content": [
                { "type": "text", "text": "hello" },
                { "type": "tool_use", "id": "toolu_9", "name": "wx", "input": { "city": "Paris" } }
            ],
            "stop_reason": "tool_use",
            "usage": { "input_tokens": 10, "output_tokens": 7, "cache_read_input_tokens": 3 }
        }"#,
    );
    let resp = claude::parse_response(&value);
    assert_eq!(resp.stop, StopReason::ToolUse);
    assert_eq!(resp.usage.input_tokens, 10);
    assert_eq!(resp.usage.output_tokens, 7);
    assert_eq!(resp.usage.cache_read_tokens, 3);
    assert_eq!(
        resp.content[1],
        AssistantContent::ToolUse {
            id: "toolu_9".into(),
            name: "wx".into(),
            input: json(r#"{ "city": "Paris" }"#),
        }
    );
}

#[test]
fn accumulator_emits_whole_tool_call_from_fragments() {
    let mut accum = claude::Accum::new();
    let events = [
        json(r#"{ "type": "message_start", "message": { "usage": { "input_tokens": 5 } } }"#),
        json(
            r#"{ "type": "content_block_start", "index": 0,
                "content_block": { "type": "tool_use", "id": "toolu_1", "name": "wx", "input": {} } }"#,
        ),
        json(
            r#"{ "type": "content_block_delta", "index": 0,
                "delta": { "type": "input_json_delta", "partial_json": "{\"city\":" } }"#,
        ),
        json(
            r#"{ "type": "content_block_delta", "index": 0,
                "delta": { "type": "input_json_delta", "partial_json": "\"Paris\"}" } }"#,
        ),
        json(r#"{ "type": "content_block_stop", "index": 0 }"#),
        json(
            r#"{ "type": "message_delta", "delta": { "stop_reason": "tool_use" },
                "usage": { "output_tokens": 12 } }"#,
        ),
        json(r#"{ "type": "message_stop" }"#),
    ];
    let mut out = Vec::new();
    for e in &events {
        out.extend(accum.push(e).ok().expect("push ok"));
    }
    assert!(matches!(out[0], StreamEvent::Start { .. }));
    let tool_call = out
        .iter()
        .find(|e| matches!(e, StreamEvent::ToolCall { .. }))
        .expect("tool call emitted");
    assert_eq!(
        *tool_call,
        StreamEvent::ToolCall {
            id: "toolu_1".into(),
            name: "wx".into(),
            arguments: "{\"city\":\"Paris\"}".to_owned(),
        }
    );
    let StreamEvent::End { stop, usage } = out.last().expect("end") else {
        panic!("last event is not End");
    };
    assert_eq!(*stop, StopReason::ToolUse);
    assert_eq!(usage.output_tokens, 12);
    assert_eq!(usage.input_tokens, 5);
}

#[test]
fn accumulator_streams_text() {
    let mut accum = claude::Accum::new();
    let evs = accum
        .push(&json(
            r#"{ "type": "content_block_delta", "index": 0,
                "delta": { "type": "text_delta", "text": "Hel" } }"#,
        ))
        .ok().expect("push ok");
    assert_eq!(evs, vec![StreamEvent::TextDelta("Hel".into())]);
}

#[test]
fn too_many_open_tool_calls_are_refused() {
    let mut accum = claude::Accum::new();
    for i in 0..MAX_INFLIGHT_TOOLS {
        let start = format!(
            "{{ \"type\": \"content_block_start\", \"index\": {i}, \"content_block\": {{ \"type\": \"tool_use\", \"id\": \"t\", \"name\": \"n\" }} }}"
        );
        accum.push(&json(&start)).ok().expect("within the cap");
    }
    let over = json(
        r#"{ "type": "content_block_start", "index": 9999,
            "content_block": { "type": "tool_use", "id": "t", "name": "n" } }"#,
    );
    assert!(accum.push(&over).is_err());
}

#[test]
fn an_oversized_argument_text_is_refused() {
    let mut accum = claude::Accum::new();
    accum
        .push(&json(
            r#"{ "type": "content_block_start", "index": 0,
                "content_block": { "type": "tool_use", "id": "t", "name": "n" } }"#,
        ))
        .ok()
        .expect("start");
    let delta = Json::object3(
        "type",
        Json::text("content_block_delta"),
        "index",
        Json::unsigned(0),
        "delta",
        Json::object2(
            "type",
            Json::text("input_json_delta"),
            "partial_json",
            Json::text(&"x".repeat(MAX_TOOL_ARGS + 1)),
        ),
    );
    assert!(accum.push(&delta).is_err());
}

#[test]
fn api_error_does_not_surface_raw_body_secrets() {
    let body = Json::object2(
        "error",
        Json::object2(
            "type",
            Json::text("invalid_request_error"),
            "message",
            Json::text("model not found"),
        ),
        "request_echo",
        Json::object1("x-api-key", Json::text("sk-secret-LEAK")),
    )
    .render();
    let err = api_error(400, &body, None);
    let surfaced = err.to_text();
    assert!(
        !surfaced.contains("sk-secret-LEAK"),
        "raw body leaked into Display: {surfaced}"
    );
    assert!(surfaced.contains("model not found"), "{surfaced}");
}

#[test]
fn api_error_falls_back_to_safe_message_for_opaque_body() {
    let err = api_error(502, "<html>sk-secret-LEAK gateway</html>", None);
    let surfaced = err.to_text();
    assert!(!surfaced.contains("sk-secret-LEAK"), "{surfaced}");
    assert!(surfaced.contains("502"), "{surfaced}");
}

#[test]
fn client_debug_redacts_api_key() {
    let client = ClaudeClient::new("sk-secret-LEAK".into());
    let dbg = client.debug_text();
    assert!(!dbg.contains("sk-secret-LEAK"), "{dbg}");
    assert!(dbg.contains("[redacted]"), "{dbg}");
    let model = client.model(model_id());
    let dbg = model.debug_text();
    assert!(!dbg.contains("sk-secret-LEAK"), "{dbg}");
}

#[test]
fn clients_from_the_environment() {
    assert!(ClaudeClient::from_env(None).is_err());
    let client = ClaudeClient::from_env(Some("k".into())).ok().unwrap();
    assert_eq!(client.api_key(), "k");
    assert_eq!(client.messages_url(), "https://api.anthropic.com/v1/messages");
    let model = client
        .with_base_url("http://localhost:1".into())
        .model("m".into());
    assert_eq!(model.model_id(), "m");
    assert_eq!(model.messages_url(), "http://localhost:1/v1/messages");
    assert!(OpenAiClient::from_env(None).is_err());
    let model = OpenAiClient::new("k".into()).model("gpt".into());
    assert_eq!(model.completions_url(), "https://api.openai.com/v1/chat/completions");
}

#[test]
fn responses_by_status() {
    let model = ClaudeClient::new("k".into()).model("m".into());
    let ok = model
        .read_response(200, r#"{"content":[{"type":"text","text":"hi"}],"stop_reason":"end_turn"}"#, None)
        .ok()
        .unwrap();
    assert_eq!(ok.content, vec![AssistantContent::Text("hi".into())]);
    assert_eq!(ok.stop, StopReason::EndTurn);
    assert!(matches!(
        model.read_response(200, "not json", None),
        Err(ProviderError::Decode { .. })
    ));
    assert!(matches!(
        model.read_response(429, "{}", Some(Duration::from_secs(3))),
        Err(ProviderError::Api { status: 429, retry_after: Some(d), .. }) if d == Duration::from_secs(3)
    ));
    let model = OpenAiClient::new("k".into()).model("m".into());
    assert!(matches!(
        model.read_response(500, "oops", None),
        Err(ProviderError::Api { status: 500, .. })
    ));
}

#[test]
fn retry_after_is_read_in_seconds() {
    assert_eq!(parse_retry_after(Some("7")), Some(Duration::from_secs(7)));
    assert_eq!(parse_retry_after(Some(" 7 ")), Some(Duration::from_secs(7)));
    assert_eq!(parse_retry_after(Some("soon")), None);
    assert_eq!(parse_retry_after(Some("99999999999999999999")), None);
    assert_eq!(parse_retry_after(None), None);
}

#[test]
fn sse_line_overflow_trips_only_past_the_cap_without_newline() {
    assert!(!sse_line_overflow("data: partial", 0));
    let mut delimited = "x".repeat(MAX_SSE_LINE + 10);
    delimited.push('\n');
    assert!(!sse_line_overflow(&delimited, 0));
    assert!(sse_line_overflow(&"x".repeat(MAX_SSE_LINE + 1), 0));
}

#[test]
fn sse_line_overflow_scans_only_the_unscanned_tail() {
    let mut buf = String::from("\n");
    buf.push_str(&"x".repeat(MAX_SSE_LINE + 1));
    assert!(!sse_line_overflow(&buf, 0));
    assert!(sse_line_overflow(&buf, 1));
}

#[test]
fn claude_chunk_boundaries_do_not_matter() {
    let body = "data: {\"type\":\"content_block_delta\",\"index\":0,\"delta\":{\"type\":\"text_delta\",\"text\":\"a\"}}\n\ndata: {\"type\":\"message_delta\",\"delta\":{\"stop_reason\":\"end_turn\"}}\n\ndata: {\"type\":\"message_stop\"}\n\n";
    let mut whole = ClaudeStream::new();
    let at_once = whole.push_text(body).events;
    let mut pieces = ClaudeStream::new();
    let mut split = Vec::new();
    for c in body.chars() {
        split.extend(pieces.push_text(&c.to_string()).events);
    }
    assert_eq!(at_once, split);
    assert_eq!(at_once[0], StreamEvent::TextDelta("a".into()));
    assert!(matches!(at_once.last(), Some(StreamEvent::End { .. })));
    let mut bytes = ClaudeStream::new();
    assert_eq!(bytes.push_chunk(body.as_bytes()).events, at_once);
}

#[test]
fn broken_utf8_is_replaced() {
    let mut stream = ClaudeStream::new();
    let mut body = b"data: {\"type\":\"content_block_delta\",\"index\":0,\"delta\":{\"type\":\"text_delta\",\"text\":\"a".to_vec();
    body.push(0xff);
    body.extend_from_slice(b"\"}}\n");
    assert_eq!(
        stream.push_chunk(&body).events,
        vec![StreamEvent::TextDelta("a\u{fffd}".into())]
    );
}

#[test]
fn an_endless_line_ends_the_stream_with_an_error() {
    let mut stream = ClaudeStream::new();
    let step = stream.push_text(&"x".repeat(MAX_SSE_LINE + 1));
    assert!(step.events.is_empty());
    assert!(step.error.is_some());
}

#[test]
fn images_and_reasoning_are_mapped() {
    let msg = Message::User(vec![
        UserContent::Image(ImageSource::Base64 {
            media_type: "image/png".into(),
            data: vec![1, 2, 3, 250],
        }),
        UserContent::Image(ImageSource::Url {
            url: "https://x/y.png".into(),
        }),
        UserContent::Image(ImageSource::FileId {
            file_id: "file_1".into(),
        }),
    ]);
    let v = claude::map_message(&msg).to_value();
    assert_eq!(v["content"][0]["source"]["data"], "AQID+g==");
    assert_eq!(v["content"][0]["source"]["media_type"], "image/png");
    assert_eq!(v["content"][1]["source"]["url"], "https://x/y.png");
    assert_eq!(v["content"][2]["source"]["file_id"], "file_1");
    let msg = Message::Assistant(vec![AssistantContent::Thinking(Thinking::Visible {
        text: "hm".into(),
        signature: Some("sig".into()),
    })]);
    let v = claude::map_message(&msg).to_value();
    assert_eq!(v["content"][0]["type"], "thinking");
    assert_eq!(v["content"][0]["signature"], "sig");
    let mut out = Vec::new();
    openai::map_user_parts(
        &vec![UserContent::Image(ImageSource::Base64 {
            media_type: "image/png".into(),
            data: vec![1, 2, 3, 250],
        })],
        &mut out,
    );
    let v = out[0].to_value();
    assert_eq!(
        v["content"][0]["image_url"]["url"],
        "data:image/png;base64,AQID+g=="
    );
}

#[test]
fn explicit_breakpoints_keep_the_cap() {
    let mut req = request("m");
    req.system = Some(SystemPrompt::from("s"));
    req.tools = vec![ToolDef::new("t".into(), "d".into(), json("{}"))];
    req.messages = (0..8).map(|i| Message::user_text(format!("m{i}"))).collect();
    req.cache = CacheStrategy::Breakpoints {
        ttl: CacheTtl::OneHour,
        points: vec![
            CacheTarget::Tools,
            CacheTarget::System,
            CacheTarget::LastUserMessage,
            CacheTarget::MessageIndex(1),
            CacheTarget::MessageIndex(2),
            CacheTarget::MessageIndex(3),
        ],
    };
    let body = claude::build_body("m", &req, true).to_value();
    assert_eq!(count_cache_control(&body), 3);
    assert!(body["messages"][7]["content"][0].get("cache_control").is_some());
    assert_eq!(body["tools"][0]["cache_control"]["type"], "ephemeral");
}

fn count_cache_control(v: &Value) -> usize {
    match v {
        Value::Object(map) => {
            let here = usize::from(map.contains_key("cache_control"));
            here + map.values().map(count_cache_control).sum::<usize>()
        }
        Value::Array(items) => items.iter().map(count_cache_control).sum(),
        _ => 0,
    }
}

#[test]
fn build_body_maps_system_and_tool_messages() {
    let mut req = request("gpt-4o");
    req.system = Some(SystemPrompt::from("be brief"));
    req.messages = vec![
        Message::user_text("hi".into()),
        Message::User(vec![UserContent::ToolResult {
            id: "call_1".into(),
            content: vec![ToolResultPart::Text("42".into())],
            is_error: false,
        }]),
    ];
    let body = openai::build_body("gpt-4o", &req, false).to_value();
    let msgs = body["messages"].as_array().unwrap();
    assert_eq!(msgs[0]["role"], "system");
    assert_eq!(msgs[1]["role"], "user");
    assert_eq!(msgs[2]["role"], "tool");
    assert_eq!(msgs[2]["tool_call_id"], "call_1");
    assert_eq!(msgs[2]["content"], "42");
}

#[test]
fn extra_passthrough_carries_reasoning_effort() {
    let mut req = request("o4-mini");
    req.extra.put("reasoning_effort", Json::text("high"));
    let body = openai::build_body("o4-mini", &req, false).to_value();
    assert_eq!(body["reasoning_effort"], "high");
}

#[test]
fn parse_response_reads_tool_call_and_usage() {
    let value = json(
        r#"{
            "choices": [{
                "message": {
                    "content": null,
                    "tool_calls": [{
                        "id": "call_9",
                        "type": "function",
                        "function": { "name": "wx", "arguments": "{\"city\":\"Paris\"}" }
                    }]
                },
                "finish_reason": "tool_calls"
            }],
            "usage": { "prompt_tokens": 12, "completion_tokens": 4,
                       "prompt_tokens_details": { "cached_tokens": 8 } }
        }"#,
    );
    let resp = openai::parse_response(&value);
    assert_eq!(resp.stop, StopReason::ToolUse);
    assert_eq!(resp.usage.input_tokens, 12);
    assert_eq!(resp.usage.cache_read_tokens, 8);
    assert_eq!(
        resp.content[0],
        AssistantContent::ToolUse {
            id: "call_9".into(),
            name: "wx".into(),
            input: json(r#"{ "city": "Paris" }"#),
        }
    );
}

#[test]
fn accumulator_builds_tool_call_from_chunks() {
    let mut accum = openai::Accum::new();
    accum.push(&json(
        r#"{ "choices": [{ "delta": { "tool_calls": [{
            "index": 0, "id": "call_1", "function": { "name": "wx", "arguments": "{\"c\":" } } ] } }] }"#,
    ));
    accum.push(&json(
        r#"{ "choices": [{ "delta": { "tool_calls": [{
            "index": 0, "function": { "arguments": "1}" } } ] }, "finish_reason": "tool_calls" }] }"#,
    ));
    accum.push(&json(
        r#"{ "choices": [], "usage": { "prompt_tokens": 5, "completion_tokens": 2 } }"#,
    ));
    let out = accum.finish();
    let StreamEvent::ToolCall {
        id,
        name,
        arguments,
    } = &out[0]
    else {
        panic!("expected ToolCall");
    };
    assert_eq!(id, "call_1");
    assert_eq!(name, "wx");
    assert_eq!(json(arguments), json(r#"{ "c": 1 }"#));
    let StreamEvent::End { stop, usage } = &out[1] else {
        panic!("expected End");
    };
    assert_eq!(*stop, StopReason::ToolUse);
    assert_eq!(usage.output_tokens, 2);
}

#[test]
fn text_deltas_stream() {
    let mut accum = openai::Accum::new();
    let out = accum.push(&json(r#"{ "choices": [{ "delta": { "content": "Hi" } }] }"#));
    assert_eq!(out, vec![StreamEvent::TextDelta("Hi".into())]);
}

#[test]
fn openai_streams_start_and_end_once() {
    let body = "data: {\"choices\":[{\"delta\":{\"content\":\"a\"}}]}\n\ndata: {\"choices\":[{\"delta\":{\"content\":\"b\"},\"finish_reason\":\"stop\"}]}\n\ndata: [DONE]\n\ndata: {\"choices\":[{\"delta\":{\"content\":\"late\"}}]}\n\n";
    let mut whole = OpenAiStream::new();
    let mut at_once = whole.push_text(body);
    assert!(whole.is_done());
    at_once.extend(whole.end_of_body());
    let ends = at_once
        .iter()
        .filter(|e| matches!(e, StreamEvent::End { .. }))
        .count();
    assert_eq!(ends, 1);
    assert!(!at_once.contains(&StreamEvent::TextDelta("late".into())));
    let mut pieces = OpenAiStream::new();
    let mut split = Vec::new();
    for c in body.chars() {
        split.extend(pieces.push_text(&c.to_string()));
    }
    split.extend(pieces.end_of_body());
    assert_eq!(at_once, split);
    let mut cut = OpenAiStream::new();
    cut.push_chunk(b"data: {\"choices\":[{\"delta\":{\"content\":\"a\"}}]}\n\n");
    assert!(!cut.is_done());
    assert!(matches!(
        cut.end_of_body().last(),
        Some(StreamEvent::End { .. })
    ));
}

#[test]
fn finish_reasons() {
    assert_eq!(openai::map_finish_reason("stop"), StopReason::EndTurn);
    assert_eq!(openai::map_finish_reason("length"), StopReason::MaxTokens);
    assert_eq!(openai::map_finish_reason("tool_calls"), StopReason::ToolUse);
    assert_eq!(
        openai::map_finish_reason("mystery"),
        StopReason::Other("mystery".into())
    );
    assert_eq!(claude::map_stop_reason("end_turn", None), StopReason::EndTurn);
    assert_eq!(claude::map_stop_reason("refusal", None), StopReason::Refusal);
    assert_eq!(claude::map_stop_reason("pause_turn", None), StopReason::Pause);
    assert_eq!(
        claude::map_stop_reason("stop_sequence", Some("END")),
        StopReason::StopSequence("END".into())
    );
    assert_eq!(Usage::zero(), Usage::default());
}
