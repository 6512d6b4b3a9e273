//! Duplex frames over a websocket.

use crate::client::result::{
    describe_error_fault, ActionResult, ActionResultView, ErrorBody, ErrorBodyView,
};
use crate::client::TransportError;
use crate::json;
use crate::json::{Json, JsonView};
use crate::text::strip_prefix;
use vstd::prelude::*;

verus! {

/// An `http(s)` url as `ws(s)`; any other url as it is.
pub open spec fn websocket_url(url: Seq<char>) -> Seq<char> {
    if "https://"@.is_prefix_of(url) {
        "wss://"@ + url.skip("https://"@.len() as int)
    } else if "http://"@.is_prefix_of(url) {
        "ws://"@ + url.skip("http://"@.len() as int)
    } else {
        url
    }
}

/// Rewrites an `http(s)` url to `ws(s)`; leaves any other url untouched.
pub fn to_ws_url(url: &str) -> (rewritten: String)
    ensures
        rewritten@ == websocket_url(url@),
{
    match strip_prefix(url, "https://") {
        Some(rest) => {
            assert("https://"@.is_prefix_of(url@));
            assert(url@.skip("https://"@.len() as int) =~= rest@);
            return "wss://".to_owned().concat(rest.as_str());
        },
        None => {},
    }
    match strip_prefix(url, "http://") {
        Some(rest) => {
            assert("http://"@.is_prefix_of(url@));
            assert(url@.skip("http://"@.len() as int) =~= rest@);
            "ws://".to_owned().concat(rest.as_str())
        },
        None => url.to_owned(),
    }
}

/// A rewritten url is never an `http(s)` one, and rewriting it again changes
/// nothing.
pub proof fn rewriting_a_url_settles_it(url: Seq<char>)
    ensures
        !"https://"@.is_prefix_of(websocket_url(url)),
        !"http://"@.is_prefix_of(websocket_url(url)),
        websocket_url(websocket_url(url)) == websocket_url(url),
{
    reveal_strlit("https://");
    reveal_strlit("http://");
    reveal_strlit("wss://");
    reveal_strlit("ws://");
    let w = websocket_url(url);
    if w != url {
        assert(w[0] == 'w');
        assert("https://"@[0] == 'h');
        assert("http://"@[0] == 'h');
        if "https://"@.is_prefix_of(w) {
            assert("https://"@[0] == w[0]);
        }
        if "http://"@.is_prefix_of(w) {
            assert("http://"@[0] == w[0]);
        }
    } else if "https://"@.is_prefix_of(url) {
        assert(w[0] == 'w');
        assert("https://"@[0] == url[0]);
    } else if "http://"@.is_prefix_of(url) {
        assert(w[0] == 'w');
        assert("http://"@[0] == url[0]);
    }
}

/// A frame received from the server.
#[derive(Debug)]
pub enum ServerFrame {
    /// A result for a call. The data is untyped: one connection carries many
    /// actions.
    Result {
        /// The call that this answers.
        id: u64,
        /// The outcome.
        result: ActionResult<Json>,
    },
    /// A stream action finished.
    End {
        /// The call that ended.
        id: u64,
    },
    /// The server calls an action of the client.
    ClientCall {
        /// The call to answer.
        id: u64,
        /// The name of the client action.
        action: String,
        /// The parameters, untyped.
        data: Json,
    },
}

/// What a [`ServerFrame`] stands for.
#[verifier::ext_equal]
pub enum ServerFrameView {
    /// A result for a call.
    Result {
        /// The call that this answers.
        id: u64,
        /// The outcome.
        result: ActionResultView,
    },
    /// A stream action finished.
    End {
        /// The call that ended.
        id: u64,
    },
    /// The server calls an action of the client.
    ClientCall {
        /// The call to answer.
        id: u64,
        /// The name of the client action.
        action: Seq<char>,
        /// The parameters.
        data: JsonView,
    },
}

impl View for ServerFrame {
    type V = ServerFrameView;

    open spec fn view(&self) -> ServerFrameView {
        match *self {
            ServerFrame::Result { id, result } => ServerFrameView::Result {
                id,
                result: crate::client::result::result_view(result),
            },
            ServerFrame::End { id } => ServerFrameView::End { id },
            ServerFrame::ClientCall { id, action, data } => ServerFrameView::ClientCall {
                id,
                action: action@,
                data: data@,
            },
        }
    }
}

/// Why a frame cannot be read.
#[verifier::ext_equal]
pub enum FrameFault {
    /// Its error is none: what is wrong with it.
    Decode(Seq<char>),
    /// Its kind is unknown.
    UnknownKind,
}

/// The member under a key, else null.
pub open spec fn member_or_null(value: JsonView, key: Seq<char>) -> JsonView {
    match value.member(key) {
        Some(v) => v,
        None => JsonView::Null,
    }
}

/// The error of a result frame that carries none.
pub open spec fn missing_error() -> ErrorBodyView {
    ErrorBodyView { code: 500, message: "missing error body"@, fields: None }
}

/// The frame that a JSON value stands for, by its `kind`.
pub open spec fn frame_of(value: JsonView) -> Result<ServerFrameView, FrameFault> {
    let id = match value.unsigned_at("id"@) {
        Some(id) => id,
        None => 0,
    };
    match value.text_at("kind"@) {
        None => Err(FrameFault::UnknownKind),
        Some(kind) => if kind == "result"@ {
            if value.text_at("status"@) == Some("error"@) {
                match value.member("error"@) {
                    None => Ok(
                        ServerFrameView::Result {
                            id,
                            result: ActionResultView::Failure(missing_error()),
                        },
                    ),
                    Some(error) => match crate::client::result::error_body_of(error) {
                        Some(body) => Ok(
                            ServerFrameView::Result {
                                id,
                                result: ActionResultView::Failure(body),
                            },
                        ),
                        None => Err(
                            FrameFault::Decode(crate::client::result::error_body_fault(error)),
                        ),
                    },
                }
            } else {
                Ok(
                    ServerFrameView::Result {
                        id,
                        result: ActionResultView::Success(member_or_null(value, "data"@)),
                    },
                )
            }
        } else if kind == "end"@ {
            Ok(ServerFrameView::End { id })
        } else if kind == "client_call"@ {
            Ok(
                ServerFrameView::ClientCall {
                    id,
                    action: JsonView::text_or_empty(value.text_at("name"@)),
                    data: member_or_null(value, "params"@),
                },
            )
        } else {
            Err(FrameFault::UnknownKind)
        },
    }
}

fn copy_or_null(value: &Json, key: &str) -> (member: Json)
    ensures
        member@ == member_or_null(value@, key@),
{
    match value.get(key) {
        Some(v) => v.clone(),
        None => Json::Null,
    }
}

/// The outcome of reading a frame is the one that its fault or value calls for.
pub open spec fn frame_read(
    expected: Result<ServerFrameView, FrameFault>,
    frame: Result<ServerFrame, TransportError>,
) -> bool {
    match (expected, frame) {
        (Ok(e), Ok(f)) => f@ == e,
        (Err(FrameFault::Decode(fault)), Err(TransportError::Decode(message))) => message@ == fault,
        (Err(FrameFault::UnknownKind), Err(TransportError::WebSocket(message))) => message@
            == "unknown frame kind"@,
        _ => false,
    }
}

/// Reads a frame from a JSON value.
pub fn read_frame(value: &Json) -> (frame: Result<ServerFrame, TransportError>)
    ensures
        frame_read(frame_of(value@), frame),
{
    let id: u64 = match value.u64_at("id") {
        Some(id) => id,
        None => 0,
    };
    let kind = match value.str_at("kind") {
        Some(kind) => kind,
        None => {
            return Err(TransportError::WebSocket("unknown frame kind".to_owned()));
        },
    };
    if *kind == *"result" {
        let failed = match value.str_at("status") {
            Some(status) => *status == *"error",
            None => false,
        };
        if failed {
            let body = match value.get("error") {
                None => ErrorBody {
                    code: 500,
                    message: "missing error body".to_owned(),
                    fields: None,
                },
                Some(error) => match ErrorBody::from_value(error) {
                    Some(body) => body,
                    None => {
                        return Err(TransportError::Decode(describe_error_fault(error)));
                    },
                },
            };
            Ok(ServerFrame::Result { id, result: ActionResult::Failure(body) })
        } else {
            Ok(ServerFrame::Result { id, result: ActionResult::Success(copy_or_null(value, "data")) })
        }
    } else if *kind == *"end" {
        Ok(ServerFrame::End { id })
    } else if *kind == *"client_call" {
        Ok(
            ServerFrame::ClientCall {
                id,
                action: json::text_or_empty(value.str_at("name")),
                data: copy_or_null(value, "params"),
            },
        )
    } else {
        Err(TransportError::WebSocket("unknown frame kind".to_owned()))
    }
}

/// Reads a frame from raw bytes.
pub fn parse_frame(bytes: &[u8]) -> (frame: Result<ServerFrame, TransportError>)
    ensures
        match json::json_of_bytes(bytes@) {
            Ok(value) => frame_read(frame_of(value), frame),
            Err(message) => frame matches Err(TransportError::Decode(m)) && m@ == message,
        },
{
    match Json::parse_bytes(bytes) {
        Ok(value) => read_frame(&value),
        Err(message) => Err(TransportError::Decode(message)),
    }
}

/// A message of a websocket, as far as the client tells them apart.
pub enum Incoming {
    /// A text or binary message.
    Data(Vec<u8>),
    /// The server closes the connection.
    Close,
    /// A ping, a pong or a raw frame.
    Other,
    /// Reading failed.
    Failed(String),
}

/// What a message means to the reader of a connection.
pub enum Received {
    /// A frame, or the failure to read one.
    Frame(Result<ServerFrame, TransportError>),
    /// Nothing more will come.
    Closed,
    /// Nothing for the reader: read on.
    Skip,
}

/// Decides what a message means.
pub fn receive(message: Incoming) -> (received: Received)
    ensures
        match (message, received) {
            (Incoming::Data(bytes), Received::Frame(frame)) => match json::json_of_bytes(bytes@) {
                Ok(value) => frame_read(frame_of(value), frame),
                Err(m) => frame matches Err(TransportError::Decode(e)) && e@ == m,
            },
            (Incoming::Close, Received::Closed) => true,
            (Incoming::Other, Received::Skip) => true,
            (Incoming::Failed(m), Received::Frame(Err(TransportError::WebSocket(e)))) => e == m,
            _ => false,
        },
{
    match message {
        Incoming::Data(bytes) => Received::Frame(parse_frame(bytes.as_slice())),
        Incoming::Close => Received::Closed,
        Incoming::Other => Received::Skip,
        Incoming::Failed(message) => Received::Frame(Err(TransportError::WebSocket(message))),
    }
}

/// The frame of a call.
pub open spec fn call_json(id: u64, action: Seq<char>, params: JsonView) -> JsonView {
    JsonView::Object(
        map![
            "kind"@ => JsonView::Text("call"@),
            "id"@ => JsonView::Unsigned(id),
            "action"@ => JsonView::Text(action),
            "params"@ => params,
        ],
    )
}

/// The frame that answers a client call.
pub open spec fn reply_json(id: u64, key: Seq<char>, value: JsonView) -> JsonView {
    JsonView::Object(
        map![
            "kind"@ => JsonView::Text("client_result"@),
            "id"@ => JsonView::Unsigned(id),
            key => value,
        ],
    )
}

/// The writing side of a connection: it numbers the calls.
pub struct Connection {
    next_id: u64,
}

impl Connection {
    /// The number of the next call.
    pub closed spec fn upcoming(self) -> u64 {
        self.next_id
    }

    /// A fresh connection: the first call is number one.
    pub fn new() -> (connection: Connection)
        ensures
            connection.upcoming() == 1,
    {
        Connection { next_id: 1 }
    }

    /// The number of the next call.
    pub fn next_id(&self) -> (id: u64)
        ensures
            id == self.upcoming(),
    {
        self.next_id
    }

    /// Numbers a call of a server action, and writes its frame.
    pub fn send(&mut self, action: &str, params: Json) -> (sent: (u64, String))
        requires
            old(self).upcoming() < u64::MAX,
        ensures
            sent.0 == old(self).upcoming(),
            final(self).upcoming() == old(self).upcoming() + 1,
            sent.1@ == json::text_of_json(call_json(sent.0, action@, params@)),
    {
        let id = self.next_id;
        self.next_id = id + 1;
        let frame = Json::object4(
            "kind",
            Json::text("call"),
            "id",
            Json::unsigned(id),
            "action",
            Json::text(action),
            "params",
            params,
        );
        (id, frame.render())
    }

    /// The frame that answers a client call with data.
    pub fn reply(&self, id: u64, data: Json) -> (frame: String)
        ensures
            frame@ == json::text_of_json(reply_json(id, "data"@, data@)),
    {
        Json::object3(
            "kind",
            Json::text("client_result"),
            "id",
            Json::unsigned(id),
            "data",
            data,
        ).render()
    }

    /// The frame that answers a client call with an error.
    pub fn reply_error(&self, id: u64, error: &ErrorBody) -> (frame: String)
        ensures
            frame@ == json::text_of_json(
                reply_json(id, "error"@, crate::client::result::error_body_json(error@)),
            ),
    {
        Json::object3(
            "kind",
            Json::text("client_result"),
            "id",
            Json::unsigned(id),
            "error",
            error.to_json(),
        ).render()
    }
}

proof fn lemma_frame_kinds_differ()
    ensures
        "result"@ != "end"@,
        "result"@ != "client_call"@,
        "end"@ != "client_call"@,
{
    reveal_strlit("result");
    reveal_strlit("end");
    reveal_strlit("client_call");
    assert("result"@.len() == 6);
    assert("end"@.len() == 3);
    assert("client_call"@.len() == 11);
}

proof fn lemma_frame_keys_differ()
    ensures
        "kind"@ != "id"@,
        "kind"@ != "action"@,
        "kind"@ != "params"@,
        "kind"@ != "data"@,
        "kind"@ != "error"@,
        "id"@ != "action"@,
        "id"@ != "params"@,
        "id"@ != "data"@,
        "id"@ != "error"@,
        "action"@ != "params"@,
        "action"@ != "data"@,
        "action"@ != "error"@,
        "params"@ != "data"@,
        "params"@ != "error"@,
        "data"@ != "error"@,
{
    reveal_strlit("kind");
    reveal_strlit("id");
    reveal_strlit("action");
    reveal_strlit("params");
    reveal_strlit("data");
    reveal_strlit("error");
    assert("kind"@.len() == 4);
    assert("id"@.len() == 2);
    assert("action"@.len() == 6);
    assert("params"@.len() == 6);
    assert("data"@.len() == 4);
    assert("error"@.len() == 5);
    assert("kind"@[0] != "data"@[0]);
    assert("action"@[0] != "params"@[0]);
}


/// A secure url stays secure and a plain one plain, to the same place; a url of any
/// other scheme is left as it is.
pub proof fn a_url_keeps_its_place(rest: Seq<char>, url: Seq<char>)
    ensures
        websocket_url("https://"@ + rest) == "wss://"@ + rest,
        websocket_url("http://"@ + rest) == "ws://"@ + rest,
        !"https://"@.is_prefix_of(url) && !"http://"@.is_prefix_of(url) ==> websocket_url(url)
            == url,
{
    reveal_strlit("https://");
    reveal_strlit("http://");
    let secure = "https://"@ + rest;
    let plain = "http://"@ + rest;
    assert(secure.take(8) =~= "https://"@);
    assert(secure.skip(8) =~= rest);
    assert(plain.take(7) =~= "http://"@);
    assert(plain.skip(7) =~= rest);
    if "https://"@.is_prefix_of(plain) {
        assert("https://"@[4] == plain[4]);
    }
}

/// The number of the call that a frame is about.
pub open spec fn call_number(value: JsonView) -> u64 {
    match value.unsigned_at("id"@) {
        Some(id) => id,
        None => 0,
    }
}

/// A frame means what its kind says, for the call whose number it carries: the result
/// of a call, which fails exactly where its status is an error, the end of one, or a
/// call of a client action by its name and with its parameters. A frame of no known
/// kind is refused.
pub proof fn a_frame_means_what_its_kind_says(value: JsonView)
    ensures
        value.text_at("kind"@) == Some("result"@) && value.text_at("status"@) != Some("error"@)
            ==> frame_of(value) == Ok::<ServerFrameView, FrameFault>(
            ServerFrameView::Result {
                id: call_number(value),
                result: ActionResultView::Success(
                    match value.member("data"@) {
                        Some(data) => data,
                        None => JsonView::Null,
                    },
                ),
            },
        ),
        value.text_at("kind"@) == Some("result"@) && value.text_at("status"@) == Some("error"@)
            ==> match value.member("error"@) {
            Some(error) => match crate::client::result::error_body_of(error) {
                Some(body) => frame_of(value) == Ok::<ServerFrameView, FrameFault>(
                    ServerFrameView::Result {
                        id: call_number(value),
                        result: ActionResultView::Failure(body),
                    },
                ),
                None => frame_of(value) matches Err(FrameFault::Decode(_)),
            },
            None => frame_of(value) == Ok::<ServerFrameView, FrameFault>(
                ServerFrameView::Result {
                    id: call_number(value),
                    result: ActionResultView::Failure(
                        ErrorBodyView { code: 500, message: "missing error body"@, fields: None },
                    ),
                },
            ),
        },
        value.text_at("kind"@) == Some("end"@) ==> frame_of(value) == Ok::<
            ServerFrameView,
            FrameFault,
        >(ServerFrameView::End { id: call_number(value) }),
        value.text_at("kind"@) == Some("client_call"@) ==> (frame_of(value) matches Ok(
            ServerFrameView::ClientCall { id, action, data },
        ) && id == call_number(value) && (value.text_at("name"@) matches Some(name) ==> action
            == name) && (value.text_at("name"@) is None ==> action.len() == 0) && (value.member(
            "params"@,
        ) matches Some(params) ==> data == params) && (value.member("params"@) is None ==> data
            is Null)),
        (value.text_at("kind"@) is None || (value.text_at("kind"@) != Some("result"@)
            && value.text_at("kind"@) != Some("end"@) && value.text_at("kind"@) != Some(
            "client_call"@,
        ))) ==> frame_of(value) matches Err(FrameFault::UnknownKind),
{
    lemma_frame_kinds_differ();
}

/// A call says its number, its action and its parameters, and a reply says the number
/// of the call that it answers, and its data or its error.
pub proof fn a_frame_says_which_call_it_is(id: u64, action: Seq<char>, params: JsonView)
    ensures
        call_json(id, action, params).text_at("kind"@) == Some("call"@),
        call_json(id, action, params).unsigned_at("id"@) == Some(id),
        call_json(id, action, params).text_at("action"@) == Some(action),
        call_json(id, action, params).member("params"@) == Some(params),
        reply_json(id, "data"@, params).text_at("kind"@) == Some("client_result"@),
        reply_json(id, "data"@, params).unsigned_at("id"@) == Some(id),
        reply_json(id, "data"@, params).member("data"@) == Some(params),
        reply_json(id, "data"@, params).member("error"@) is None,
        reply_json(id, "error"@, params).text_at("kind"@) == Some("client_result"@),
        reply_json(id, "error"@, params).unsigned_at("id"@) == Some(id),
        reply_json(id, "error"@, params).member("error"@) == Some(params),
        reply_json(id, "error"@, params).member("data"@) is None,
{
    lemma_frame_keys_differ();
}

} // verus!
