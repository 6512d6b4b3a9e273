use serde_json::Value;
use stakit::error::AgentError;
use stakit::json::Json;
use stakit::llm;
use stakit::llm::LLM;
use stakit::message::AssistantContent;
use stakit::provider::{claude, openai, ChatRequest, ChatResponse, StopReason, ToolChoice};
use stakit::usage::Usage;

fn schema() -> Json {
    Json::parse(
        r#"{ "type": "object",
            "properties": {
                "name": { "type": "string", "description": "The user's name." },
                "age": { "type": "integer", "description": "The user's age." }
            },
            "required": ["name", "age"] }"#,
    )
    .unwrap()
}

fn extract_request() -> ChatRequest {
    LLM::new("test-model".into())
        .user("Bob is 30".into())
        .extract_request(schema())
        .ok()
        .expect("request")
}

fn claude_body(req: &ChatRequest) -> Value {
    claude::build_request_body(req).to_value()
}

fn openai_body(req: &ChatRequest) -> Value {
    openai::build_request_body(req).to_value()
}

fn claude_extract_tool(body: &Value) -> &Value {
    body["tools"]
        .as_array()
        .and_then(|t| t.iter().find(|v| v["name"] == "extract"))
        .expect("the body must contain an 'extract' tool")
}

fn openai_extract_function(body: &Value) -> &Value {
    body["tools"]
        .as_array()
        .and_then(|t| {
            t.iter()
                .find(|v| v["type"] == "function" && v["function"]["name"] == "extract")
        })
        .expect("the body must contain an 'extract' function tool")
}

#[test]
fn claude_extract_tool_name_is_extract() {
    let body = claude_body(&extract_request());
    let tool = claude_extract_tool(&body);
    assert_eq!(tool["name"], "extract");
}

#[test]
fn claude_extract_tool_input_schema_matches_user_schema() {
    let body = claude_body(&extract_request());
    let tool = claude_extract_tool(&body);
    let found = &tool["input_schema"];
    assert_eq!(found, &schema().to_value(), "input_schema must be the schema");
}

#[test]
fn claude_tool_choice_forces_extract_tool() {
    let body = claude_body(&extract_request());
    assert_eq!(
        body["tool_choice"]["type"], "tool",
        "tool_choice.type must be 'tool'; body={body:#}"
    );
    assert_eq!(
        body["tool_choice"]["name"], "extract",
        "tool_choice.name must be 'extract'; body={body:#}"
    );
}

#[test]
fn openai_extract_function_name_is_extract() {
    let body = openai_body(&extract_request());
    let function = openai_extract_function(&body);
    assert_eq!(function["function"]["name"], "extract");
}

#[test]
fn openai_extract_function_parameters_match_user_schema() {
    let body = openai_body(&extract_request());
    let function = openai_extract_function(&body);
    let parameters = &function["function"]["parameters"];
    assert_eq!(parameters, &schema().to_value(), "parameters must be the schema");
}

#[test]
fn openai_tool_choice_forces_extract_function() {
    let body = openai_body(&extract_request());
    assert_eq!(
        body["tool_choice"]["type"], "function",
        "tool_choice.type must be 'function'; body={body:#}"
    );
    assert_eq!(
        body["tool_choice"]["function"]["name"], "extract",
        "tool_choice.function.name must be 'extract'; body={body:#}"
    );
}

fn response(content: Vec<AssistantContent>) -> ChatResponse {
    ChatResponse {
        content,
        stop: StopReason::EndTurn,
        usage: Usage::default(),
    }
}

#[test]
fn llm_extract_returns_typed_value() {
    let found = llm::extract(&response(vec![AssistantContent::ToolUse {
        id: "call_1".into(),
        name: "extract".into(),
        input: Json::parse(r#"{ "name": "Bob", "age": 30 }"#).unwrap(),
    }]))
    .ok()
    .unwrap();
    assert_eq!(found.str_at("name"), Some("Bob"));
    assert_eq!(found.u64_at("age"), Some(30));
}

#[test]
fn llm_text_returns_string() {
    let req = LLM::new("mock-text".into())
        .user("hi".into())
        .text_request()
        .ok()
        .unwrap();
    assert_eq!(req.model, "mock-text");
    assert_eq!(req.tool_choice, ToolChoice::Disabled);
    assert!(req.tools.is_empty());
    assert_eq!(
        llm::text(&response(vec![
            AssistantContent::Text("hel".into()),
            AssistantContent::Text("lo".into()),
        ])),
        "hello"
    );
}

#[test]
fn llm_missing_user_returns_schema_error() {
    let err = LLM::new("mock-text".into()).text_request().err().unwrap();
    assert!(matches!(err, AgentError::Schema(_)));
}

#[test]
fn llm_extract_missing_tool_use_returns_schema_error() {
    let err = llm::extract(&response(vec![AssistantContent::Text("hello".into())]))
        .err()
        .unwrap();
    assert!(matches!(err, AgentError::Schema(_)));
}

#[test]
fn settings_reach_the_request() {
    let req = LLM::new("bound".into())
        .model("chosen".into())
        .system("be brief".into())
        .user("hi".into())
        .max_tokens(7)
        .temperature(Json::parse("0.5").unwrap())
        .text_request()
        .ok()
        .unwrap();
    assert_eq!(req.model, "chosen");
    assert_eq!(req.system.unwrap().text, "be brief");
    assert_eq!(req.max_tokens, 7);
    assert_eq!(req.temperature.unwrap().render(), "0.5");
}
