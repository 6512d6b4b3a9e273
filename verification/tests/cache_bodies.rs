use serde_json::Value;
use stakit::cache::CacheStrategy;
use stakit::json::Json;
use stakit::message::{AssistantContent, Message, SystemPrompt, ToolResultPart, UserContent};
use stakit::provider::{claude, openai, ChatRequest, ToolDef};

fn model_id() -> String {
    "opus-4-8".to_owned()
}

fn user(text: &str) -> Message {
    Message::user_text(text.to_owned())
}

fn tools(n: usize) -> Vec<ToolDef> {
    (0..n)
        .map(|i| {
            ToolDef::new(
                format!("tool_{i}"),
                format!("description for tool {i}"),
                Json::parse(
                    r#"{
                    "type": "object",
                    "properties": { "arg": { "type": "string" } },
                    "required": ["arg"]
                }"#,
                )
                .unwrap(),
            )
        })
        .collect()
}

fn two_turn_history(first_user: &str, trailing_user: &str) -> Vec<Message> {
    vec![
        user(first_user),
        Message::Assistant(vec![AssistantContent::Text(
            "sure, here is an answer".into(),
        )]),
        user(trailing_user),
    ]
}

fn claude_request(n: usize, messages: Vec<Message>) -> ChatRequest {
    let mut req = ChatRequest::new(model_id());
    req.system = Some(SystemPrompt::from(
        "You are a helpful assistant.\n\n## Available skills\n- foo (foo): does foo",
    ));
    req.tools = tools(n);
    req.messages = messages;
    req
}

fn claude_body(req: &ChatRequest) -> Value {
    claude::build_request_body(req).to_value()
}

fn openai_body(req: &ChatRequest) -> Value {
    openai::build_request_body(req).to_value()
}

fn count_cache_control(v: &Value) -> usize {
    match v {
        Value::Object(map) => {
            let here = usize::from(map.contains_key("cache_control"));
            here + map.values().map(count_cache_control).sum::<usize>()
        }
        Value::Array(items) => items.iter().map(count_cache_control).sum(),
        _ => 0,
    }
}

fn last_tool_is_cached(body: &Value) -> bool {
    body["tools"]
        .as_array()
        .and_then(|t| t.last())
        .is_some_and(|t| t.get("cache_control").is_some())
}

fn system_is_cached(body: &Value) -> bool {
    body["system"]
        .as_array()
        .and_then(|s| s.first())
        .is_some_and(|b| b.get("cache_control").is_some())
}

#[test]
fn claude_auto_breakpoints_after_tools_and_system_and_rolling() {
    let req = claude_request(3, two_turn_history("first question", "follow-up question"));
    let body = claude_body(&req);

    let count = count_cache_control(&body);
    assert!(
        (2..=4).contains(&count),
        "expected 2..=4 breakpoints, got {count}: {body:#}"
    );
    assert!(last_tool_is_cached(&body), "tools block must be cached");
    assert!(system_is_cached(&body), "system block must be cached");

    let msgs = body["messages"].as_array().expect("messages array");
    assert!(
        msgs[0]["content"]
            .as_array()
            .and_then(|c| c.last())
            .is_some_and(|b| b.get("cache_control").is_some()),
        "rolling breakpoint must be on the previous turn's last block: {body:#}"
    );
    assert!(
        msgs.last()
            .and_then(|m| m["content"].as_array())
            .and_then(|c| c.last())
            .is_some_and(|b| b.get("cache_control").is_none()),
        "the in-progress (last) turn must NOT be cached: {body:#}"
    );
}

#[test]
fn openai_auto_sets_prompt_cache_key() {
    let mut req = ChatRequest::new("gpt-4o".into());
    req.system = Some(SystemPrompt::from("be brief"));
    req.messages = vec![user("hi")];
    req.cache_key = Some("sess-1".into());

    let body = openai_body(&req);
    assert_eq!(body["prompt_cache_key"], "sess-1");

    req.cache_key = None;
    let body = openai_body(&req);
    assert!(
        body.get("prompt_cache_key").is_none(),
        "no key must omit prompt_cache_key"
    );
}

#[test]
fn claude_shared_prefix_identical_across_users() {
    let mut a = claude_request(3, vec![user("user A question")]);
    a.cache_key = Some("user-a".into());
    let mut b = claude_request(3, vec![user("a totally different question from B")]);
    b.cache_key = Some("user-b".into());

    let body_a = claude_body(&a);
    let body_b = claude_body(&b);

    assert_ne!(body_a["messages"], body_b["messages"]);
    assert_eq!(
        serde_json::to_string(&body_a["tools"]).unwrap(),
        serde_json::to_string(&body_b["tools"]).unwrap(),
        "tools prefix must be byte-identical across users"
    );
    assert_eq!(
        serde_json::to_string(&body_a["system"]).unwrap(),
        serde_json::to_string(&body_b["system"]).unwrap(),
        "system prefix must be byte-identical across users"
    );
    assert!(last_tool_is_cached(&body_a) && system_is_cached(&body_a));
}

#[test]
fn claude_breakpoints_stable_across_turns() {
    let one_turn = claude_request(3, vec![user("first question")]);
    let two_turn = claude_request(
        3,
        two_turn_history("first question", "second, follow-up question"),
    );

    let body1 = claude_body(&one_turn);
    let body2 = claude_body(&two_turn);

    assert_eq!(
        serde_json::to_string(&body1["tools"]).unwrap(),
        serde_json::to_string(&body2["tools"]).unwrap(),
        "tools breakpoint must not move when a turn is appended"
    );
    assert_eq!(
        serde_json::to_string(&body1["system"]).unwrap(),
        serde_json::to_string(&body2["system"]).unwrap(),
        "system breakpoint must not move when a turn is appended"
    );

    assert_eq!(count_cache_control(&body1), 2, "one-turn: tools + system");
    assert_eq!(
        count_cache_control(&body2),
        3,
        "two-turn: tools + system + rolling"
    );
}

#[test]
fn claude_off_places_no_breakpoints() {
    let mut req = claude_request(3, two_turn_history("q1", "q2"));
    req.cache = CacheStrategy::Off;
    let body = claude_body(&req);
    assert_eq!(
        count_cache_control(&body),
        0,
        "Off must not cache: {body:#}"
    );
}

#[test]
fn claude_rolling_breakpoint_on_tool_result_turn() {
    let messages = vec![
        user("question"),
        Message::Assistant(vec![AssistantContent::ToolUse {
            id: "t1".into(),
            name: "tool_0".into(),
            input: Json::object1("arg", Json::text("x")),
        }]),
        Message::User(vec![UserContent::ToolResult {
            id: "t1".into(),
            content: vec![ToolResultPart::Text("result".into())],
            is_error: false,
        }]),
        Message::Assistant(vec![AssistantContent::Text("done".into())]),
        user("another question"),
    ];
    let req = claude_request(2, messages);
    let body = claude_body(&req);

    let msgs = body["messages"].as_array().unwrap();
    assert!(
        msgs[2]["content"]
            .as_array()
            .and_then(|c| c.last())
            .is_some_and(|b| b.get("cache_control").is_some()),
        "rolling breakpoint must land on the previous-turn tool-result block: {body:#}"
    );
}

#[test]
fn claude_caps_what_the_author_asked_for() {
    for strategy in [CacheStrategy::Off, CacheStrategy::default()] {
        let mut req = claude_request(5, two_turn_history("q1", "q2"));
        req.cache = strategy;
        for tool in &mut req.tools {
            tool.cache = true;
        }
        if let Some(system) = &mut req.system {
            system.cache = true;
        }
        let body = claude_body(&req);
        assert_eq!(count_cache_control(&body), 4, "{body:#}");
    }
}

#[test]
fn claude_does_not_charge_a_marked_place_twice() {
    let mut req = claude_request(3, two_turn_history("q1", "q2"));
    req.tools[2].cache = true;
    if let Some(system) = &mut req.system {
        system.cache = true;
    }
    let plan = claude::CachePlan::resolve(&req);
    assert_eq!(plan.rolling_message, Some(0));
    let body = claude_body(&req);
    assert_eq!(count_cache_control(&body), 3, "{body:#}");
    assert!(last_tool_is_cached(&body) && system_is_cached(&body));
    assert!(body["messages"][0]["content"][0].get("cache_control").is_some());
}

#[test]
fn claude_off_keeps_what_the_author_asked_for() {
    let mut req = claude_request(3, two_turn_history("q1", "q2"));
    req.cache = CacheStrategy::Off;
    req.tools[1].cache = true;
    let body = claude_body(&req);
    assert_eq!(count_cache_control(&body), 1, "{body:#}");
    assert!(body["tools"][1].get("cache_control").is_some());
}
