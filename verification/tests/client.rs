use stakit::client::options::{CallOpts, Method};
use stakit::client::result::{ActionResult, ErrorBody};
use stakit::client::stream::JsonLines;
use stakit::client::ws::{parse_frame, receive, to_ws_url, Connection, Incoming, Received, ServerFrame};
use stakit::client::{encode_query, read_unary, Client, TransportError};
use stakit::json::Json;

fn json(text: &str) -> Json {
    Json::parse(text).expect("valid JSON")
}

fn pairs(list: &[(&str, &str)]) -> Vec<(String, String)> {
    list.iter()
        .map(|(n, v)| (n.to_string(), v.to_string()))
        .collect()
}

#[test]
fn unary_ok_returns_data() {
    let response = json(r#"{ "greet": { "status": "ok", "data": { "text": "hello" } } }"#);
    let result = read_unary(&response, "greet").unwrap();
    assert!(result.is_ok() && !result.is_error());
    assert_eq!(
        result.data().unwrap().as_ref().unwrap().str_at("text"),
        Some("hello")
    );
    assert!(result.error().is_none());
}

#[test]
fn unary_app_error_is_action_error() {
    let response = json(
        r#"{ "x": { "status": "error", "error": { "code": 422, "message": "bad", "fields": { "name": ["short"] } } } }"#,
    );
    let result = read_unary(&response, "x").unwrap();
    let error = result.error().expect("error");
    assert_eq!(error.code, 422);
    assert_eq!(error.message, "bad");
    assert!(error.fields.as_ref().unwrap().get("name").is_some());
    assert!(matches!(result.into_ok(), Err(e) if e.code == 422));
}

#[test]
fn unary_unexpected_response_shape_is_typed_error_not_panic() {
    assert!(matches!(
        read_unary(&json(r#"["unexpected","array"]"#), "greet"),
        Err(TransportError::MissingAction(a)) if a == "greet"
    ));
}

#[test]
fn unary_faults_are_told() {
    assert!(matches!(
        read_unary(&json("{}"), "greet"),
        Err(TransportError::MissingAction(_))
    ));
    for (bad, fault) in [
        (r#"{ "greet": ["ok"] }"#, "missing field `data`"),
        (r#"{ "greet": ["ok", 1, 2] }"#, "invalid length of the envelope"),
        (
            r#"{ "greet": ["error", { "code": 1, "message": "m" }, 2] }"#,
            "invalid length of the envelope",
        ),
        (r#"{ "greet": 7 }"#, "missing field `status`"),
        (
            r#"{ "greet": { "status": "maybe" } }"#,
            "unknown variant `maybe`, expected `ok` or `error`",
        ),
        (r#"{ "greet": { "status": "error" } }"#, "missing field `error`"),
        (
            r#"{ "greet": { "status": "error", "error": {} } }"#,
            "missing field `code`",
        ),
        (
            r#"{ "greet": { "status": "error", "error": { "code": 1 } } }"#,
            "missing field `message`",
        ),
        (
            r#"{ "greet": { "status": "error", "error": { "code": 70000, "message": "m" } } }"#,
            "invalid error body",
        ),
    ] {
        assert!(
            matches!(
                read_unary(&json(bad), "greet"),
                Err(TransportError::Decode(message)) if message == fault
            ),
            "{bad}"
        );
    }
}

#[test]
fn queries_carry_the_action() {
    assert_eq!(
        encode_query("greet", json(r#"{ "name": "a" }"#)),
        r#"{"greet":{"name":"a"}}"#
    );
}

#[test]
fn per_call_url_override_leaves_base_untouched() {
    let client = Client::new("http://base".into());
    let plan = client.plan_fetch("q".into(), &CallOpts::new().url("http://other".into()));
    assert_eq!(plan.url, "http://other");
    let plan = client.plan_fetch("q".into(), &CallOpts::new());
    assert_eq!(plan.url, "http://base");
    assert_eq!(plan.method, Method::Get);
    assert_eq!(plan.q, "q");
}

#[test]
fn per_call_headers_merge_and_leave_base_untouched() {
    let client = Client::builder("http://base".into())
        .header("Authorization".into(), "base".into())
        .header("X-A".into(), "1".into())
        .build();
    let opts = CallOpts::new()
        .header("authorization".into(), "call".into())
        .header("X-B".into(), "2".into());
    let plan = client.plan_fetch("q".into(), &opts);
    assert_eq!(
        plan.headers,
        pairs(&[("Authorization", "call"), ("X-A", "1"), ("X-B", "2")])
    );
    assert_eq!(
        client.plan_fetch("q".into(), &CallOpts::new()).headers,
        pairs(&[("Authorization", "base"), ("X-A", "1")])
    );
}

#[test]
fn files_upload_via_multipart() {
    let client = Client::new("http://base".into());
    let plan = client.plan_fetch("q".into(), &CallOpts::new().file(vec![1, 2]).file(vec![3]));
    assert_eq!(plan.method, Method::Post);
    assert_eq!(plan.files, vec![vec![1, 2], vec![3]]);
    let plan = client.plan_fetch(
        "q".into(),
        &CallOpts::default().file(vec![1]).method(Method::Put),
    );
    assert_eq!(plan.method, Method::Put);
}

#[test]
fn set_headers_replace_and_update() {
    let mut client = Client::builder("http://base".into())
        .header("A".into(), "1".into())
        .build();
    client.set_headers(pairs(&[("B", "2")]));
    assert_eq!(
        client.plan_fetch("q".into(), &CallOpts::new()).headers,
        pairs(&[("B", "2")])
    );
    client.update_headers().push(("C".into(), "3".into()));
    assert_eq!(
        client.merged_headers(&Vec::new()),
        pairs(&[("B", "2"), ("C", "3")])
    );
}

#[test]
fn streams_and_sockets_have_their_own_urls() {
    let client = Client::builder("http://base".into())
        .stream_url("http://stream".into())
        .ws_url("https://socket".into())
        .danger_accept_invalid_certs(true)
        .build();
    let plan = client.plan_stream("q".into(), &CallOpts::new());
    assert_eq!(plan.url, "http://stream");
    assert_eq!(plan.method, Method::Post);
    assert_eq!(client.plan_connect(&CallOpts::new()), "wss://socket");
    assert_eq!(
        client.plan_connect(&CallOpts::new().url("http://x".into())),
        "wss://socket"
    );
    assert!(client.accept_invalid_certs());
    let plain = Client::new("http://base".into());
    assert_eq!(plain.plan_stream("q".into(), &CallOpts::new()).url, "http://base");
    assert_eq!(plain.plan_connect(&CallOpts::new()), "ws://base");
    assert_eq!(
        plain.plan_connect(&CallOpts::new().url("http://x".into())),
        "ws://x"
    );
    assert!(!plain.accept_invalid_certs());
    assert_eq!(Method::default(), Method::Get);
}

#[test]
fn batch_runs_multiple_actions_in_one_request() {
    let client = Client::new("http://base".into());
    let batch = client
        .batch()
        .add("greet".into(), Ok(json(r#"{ "name": "a" }"#)))
        .add("version".into(), Ok(Json::Null))
        .add("greet".into(), Ok(json(r#"{ "name": "b" }"#)));
    let plan = batch.plan().unwrap();
    assert_eq!(plan.url, "http://base");
    assert_eq!(
        plan.q,
        r#"[["greet",{"name":"a"}],["version",null],["greet",{"name":"b"}]]"#
    );
    let results = batch
        .read(json(
            r#"[{ "status": "ok", "data": 1 }, { "status": "error", "error": { "code": 500, "message": "m" } }, { "status": "ok", "data": 3 }]"#,
        ))
        .unwrap();
    assert_eq!(results.len(), 3);
    assert!(!results.is_empty());
    assert_eq!(results.action(0), Some("greet"));
    assert_eq!(results.action(1), Some("version"));
    assert_eq!(results.action(3), None);
    assert_eq!(results.get(0).unwrap().ok().unwrap().unwrap().as_u64(), Some(1));
    assert!(results.get(1).unwrap().is_error());
    assert_eq!(results.get(2).unwrap().ok().unwrap().unwrap().as_u64(), Some(3));
}

#[test]
fn a_batch_goes_through_the_client_that_started_it() {
    let near = Client::builder("http://near".into())
        .header("authorization".into(), "n".into())
        .build();
    let far = Client::new("http://far".into());
    let plan = near.batch().add("a".into(), Ok(Json::Null)).plan().unwrap();
    assert_eq!(plan.url, "http://near");
    assert_eq!(plan.headers, vec![("authorization".to_owned(), "n".to_owned())]);
    let plan = far.batch().options(CallOpts::new()).plan().unwrap();
    assert_eq!(plan.url, "http://far");
    assert!(plan.headers.is_empty());
}

#[test]
fn batch_index_out_of_range_is_typed_error_not_panic() {
    let client = Client::new("http://base".into());
    let results = client
        .batch()
        .add("greet".into(), Ok(json(r#"{ "name": "x" }"#)))
        .read(json(r#"["unexpected","array"]"#))
        .unwrap();
    assert!(matches!(
        results.get(999),
        Err(TransportError::IndexOutOfRange(999))
    ));
}

#[test]
fn a_batch_reads_an_array_alone() {
    let client = Client::new("http://base".into());
    assert!(client.batch().read(json("[]")).unwrap().is_empty());
    assert!(matches!(
        client.batch().read(json("{}")),
        Err(TransportError::UnexpectedResponse(what)) if what == "batch expected an array response"
    ));
}

#[test]
fn the_first_encode_failure_of_a_batch_stands() {
    let client = Client::new("http://base".into());
    let batch = client
        .batch()
        .add("a".into(), Err("first".into()))
        .add("b".into(), Err("second".into()))
        .options(CallOpts::new());
    assert!(matches!(
        batch.payload(),
        Err(TransportError::Encode(e)) if e == "first"
    ));
}

fn items(results: &[ActionResult<Option<Json>>]) -> Vec<u64> {
    results
        .iter()
        .filter_map(|r| r.data().and_then(|d| d.as_ref()).and_then(|d| d.as_u64()))
        .collect()
}

#[test]
fn stream_yields_items_then_ends() {
    let body = "{\"type\":\"next\",\"data\":1}\n{\"type\":\"next\",\"data\":2}\n{\"type\":\"end\"}\n{\"type\":\"next\",\"data\":3}\n";
    let mut lines = JsonLines::new();
    assert_eq!(items(&lines.push_chunk(body.as_bytes())), vec![1, 2]);
    assert!(lines.is_done());
    assert!(lines.push_chunk(body.as_bytes()).is_empty());
}

#[test]
fn success_may_come_without_data() {
    let response = json(r#"{ "greet": { "status": "ok" } }"#);
    assert!(matches!(
        read_unary(&response, "greet"),
        Ok(ActionResult::Success(None))
    ));
    let mut lines = JsonLines::new();
    let out = lines.push_chunk(b"{\"type\":\"next\"}\n{\"type\":\"next\",\"data\":null}\n");
    assert_eq!(out.len(), 2);
    assert!(matches!(out[0], ActionResult::Success(None)));
    assert!(matches!(out[1], ActionResult::Success(Some(Json::Null))));
}

#[test]
fn stream_error_terminates() {
    let mut lines = JsonLines::new();
    let out = lines.push_chunk(
        b"{\"type\":\"next\",\"data\":1}\n{\"type\":\"error\",\"error\":{\"code\":400,\"message\":\"no\"}}\n{\"type\":\"next\",\"data\":2}\n",
    );
    assert_eq!(out.len(), 2);
    assert_eq!(out[1].error().unwrap().code, 400);
    assert!(lines.is_done());
}

#[test]
fn jsonl_stream_drops_malformed_frames_without_panicking() {
    let mut body = [
        "",
        "not json at all",
        "{}",
        r#"{"type":"unknownkind"}"#,
        r#"{"type":"next","data":"a string not a u32"}"#,
        r#"{"type":"next","data":1}"#,
        r#"{"type":"next","data":2}"#,
        r#"{"type":"end"}"#,
        r#"{"type":"next","data":99}"#,
    ]
    .join("\n");
    body.push('\n');
    let mut lines = JsonLines::new();
    assert_eq!(items(&lines.push_chunk(body.as_bytes())), vec![1, 2]);
    let mut pieces = JsonLines::new();
    let mut found = Vec::new();
    for b in body.as_bytes() {
        found.extend(items(&pieces.push_chunk(&[*b])));
    }
    assert_eq!(found, vec![1, 2]);
}

#[test]
fn records_may_be_listed() {
    let body = "[\"next\",1]\n[\"next\"]\n[\"next\",2,3]\n[\"end\",1]\n[\"error\",{\"code\":400,\"message\":\"no\"}]\n[\"next\",4]\n";
    let mut lines = JsonLines::new();
    let out = lines.push_chunk(body.as_bytes());
    assert_eq!(out.len(), 2);
    assert_eq!(items(&out), vec![1]);
    assert_eq!(out[1].error().unwrap().code, 400);
    assert!(lines.is_done());
    let mut ended = JsonLines::new();
    assert!(ended.push_chunk(b"[\"end\"]\n").is_empty());
    assert!(ended.is_done());
    let listed = json(r#"{ "greet": ["ok", 5] }"#);
    let data = read_unary(&listed, "greet").unwrap().ok().unwrap().unwrap();
    assert_eq!(data.as_u64(), Some(5));
}

#[test]
fn websocket_roundtrip() {
    let mut connection = Connection::new();
    let (id, frame) = connection.send("greet", json(r#"{ "name": "a" }"#));
    assert_eq!(id, 1);
    assert_eq!(
        json(&frame),
        json(r#"{ "kind": "call", "id": 1, "action": "greet", "params": { "name": "a" } }"#)
    );
    let (id, _) = connection.send("greet", Json::Null);
    assert_eq!(id, 2);
    assert_eq!(connection.next_id(), 3);
    let ServerFrame::Result { id, result } =
        parse_frame(br#"{ "kind": "result", "id": 1, "data": "hi" }"#).unwrap()
    else {
        panic!("expected a result");
    };
    assert_eq!(id, 1);
    assert_eq!(result.data().unwrap().as_str(), Some("hi"));
    assert!(matches!(
        parse_frame(br#"{ "kind": "end", "id": 4 }"#),
        Ok(ServerFrame::End { id: 4 })
    ));
}

#[test]
fn websocket_server_to_client_call() {
    let ServerFrame::ClientCall { id, action, data } =
        parse_frame(br#"{ "kind": "client_call", "id": 9, "name": "confirm", "params": [1] }"#)
            .unwrap()
    else {
        panic!("expected a client call");
    };
    assert_eq!(id, 9);
    assert_eq!(action, "confirm");
    assert_eq!(data.render(), "[1]");
    let connection = Connection::new();
    assert_eq!(
        json(&connection.reply(9, Json::text("yes"))),
        json(r#"{ "kind": "client_result", "id": 9, "data": "yes" }"#)
    );
    let error = ErrorBody {
        code: 403,
        message: "no".into(),
        fields: None,
    };
    assert_eq!(
        json(&connection.reply_error(9, &error)),
        json(r#"{ "kind": "client_result", "id": 9, "error": { "code": 403, "message": "no" } }"#)
    );
    assert_eq!(ErrorBody::from_value(&error.to_json()), Some(error));
}

#[test]
fn frames_that_are_none() {
    assert!(matches!(
        parse_frame(b"nonsense"),
        Err(TransportError::Decode(_))
    ));
    assert!(matches!(
        parse_frame(br#"{ "kind": "other" }"#),
        Err(TransportError::WebSocket(m)) if m == "unknown frame kind"
    ));
    let ServerFrame::Result { id, result } =
        parse_frame(br#"{ "kind": "result", "status": "error" }"#).unwrap()
    else {
        panic!("expected a result");
    };
    assert_eq!(id, 0);
    let error = result.error().unwrap();
    assert_eq!(error.code, 500);
    assert_eq!(error.message, "missing error body");
    assert!(matches!(
        parse_frame(br#"{ "kind": "result", "status": "error", "error": 1 }"#),
        Err(TransportError::Decode(m)) if m == "missing field `code`"
    ));
}

#[test]
fn messages_of_a_socket() {
    assert!(matches!(
        receive(Incoming::Data(br#"{"kind":"end"}"#.to_vec())),
        Received::Frame(Ok(ServerFrame::End { id: 0 }))
    ));
    assert!(matches!(receive(Incoming::Close), Received::Closed));
    assert!(matches!(receive(Incoming::Other), Received::Skip));
    assert!(matches!(
        receive(Incoming::Failed("reset".into())),
        Received::Frame(Err(TransportError::WebSocket(m))) if m == "reset"
    ));
}

#[test]
fn socket_urls() {
    assert_eq!(to_ws_url("http://h/p"), "ws://h/p");
    assert_eq!(to_ws_url("https://h/p"), "wss://h/p");
    assert_eq!(to_ws_url("ws://h/p"), "ws://h/p");
    assert_eq!(to_ws_url(&to_ws_url("https://h")), "wss://h");
}

#[test]
fn transport_error_texts() {
    assert_eq!(
        TransportError::MissingAction("greet".into()).to_text(),
        "response missing result for action `greet`"
    );
    assert_eq!(TransportError::Http("x".into()).to_text(), "http request failed: x");
    assert_eq!(
        TransportError::Encode("x".into()).to_text(),
        "failed to encode parameters: x"
    );
    assert_eq!(
        TransportError::Decode("x".into()).to_text(),
        "failed to decode response: x"
    );
    assert_eq!(TransportError::WebSocket("x".into()).to_text(), "websocket error: x");
    assert_eq!(TransportError::Closed.to_text(), "connection closed");
    assert!(TransportError::IndexOutOfRange(12).to_text().contains("12"));
}
