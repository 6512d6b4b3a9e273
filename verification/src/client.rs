//! A client for action servers: what a call sends, and what its response means.
//!
//! A network failure is a [`TransportError`]; an application error of an action
//! is an [`ActionResult::Failure`].

pub mod options;
pub mod result;
pub mod stream;
pub mod ws;

use crate::json::{Json, JsonView};
use crate::text;
use crate::text::{decimal_text, eq_ignore_case};
use crate::views;
use self::options::{CallOpts, Method};
use self::result::{decode_envelope, ActionResult};
use vstd::prelude::*;

verus! {

/// A failure talking to a server. Application errors never appear here.
#[derive(Debug)]
#[non_exhaustive]
pub enum TransportError {
    /// The underlying HTTP request failed.
    Http(String),
    /// The request parameters could not be serialised.
    Encode(String),
    /// The server response could not be read.
    Decode(String),
    /// The response did not contain the requested action's result.
    MissingAction(String),
    /// The response has another shape than the request calls for.
    UnexpectedResponse(String),
    /// There is no result at this index.
    IndexOutOfRange(usize),
    /// A websocket-level failure.
    WebSocket(String),
    /// The connection closed before a reply arrived.
    Closed,
}

impl TransportError {
    /// The message that a reader sees.
    pub open spec fn shown(self) -> Seq<char> {
        match self {
            TransportError::Http(e) => "http request failed: "@ + e@,
            TransportError::Encode(e) => "failed to encode parameters: "@ + e@,
            TransportError::Decode(e) => "failed to decode response: "@ + e@,
            TransportError::MissingAction(action) => "response missing result for action `"@
                + action@ + "`"@,
            TransportError::UnexpectedResponse(what) => "unexpected response: "@ + what@,
            TransportError::IndexOutOfRange(index) => "no result at index "@ + text::decimal(
                index as nat,
            ),
            TransportError::WebSocket(e) => "websocket error: "@ + e@,
            TransportError::Closed => "connection closed"@,
        }
    }

    /// The message for a reader.
    pub fn to_text(&self) -> (shown: String)
        ensures
            shown@ == self.shown(),
    {
        match self {
            TransportError::Http(e) => "http request failed: ".to_owned().concat(e.as_str()),
            TransportError::Encode(e) => {
                "failed to encode parameters: ".to_owned().concat(e.as_str())
            },
            TransportError::Decode(e) => {
                "failed to decode response: ".to_owned().concat(e.as_str())
            },
            TransportError::MissingAction(action) => {
                "response missing result for action `".to_owned().concat(action.as_str()).concat(
                    "`",
                )
            },
            TransportError::UnexpectedResponse(what) => {
                "unexpected response: ".to_owned().concat(what.as_str())
            },
            TransportError::IndexOutOfRange(index) => {
                "no result at index ".to_owned().concat(decimal_text(*index as u64).as_str())
            },
            TransportError::WebSocket(e) => "websocket error: ".to_owned().concat(e.as_str()),
            TransportError::Closed => "connection closed".to_owned(),
        }
    }
}

/// What a list of headers stands for.
pub open spec fn header_views(
    headers: Seq<(String, String)>,
) -> Seq<(Seq<char>, Seq<char>)> {
    headers.map_values(|h: (String, String)| (h.0@, h.1@))
}

/// The position of the first header with this name, whatever its case.
pub open spec fn header_position(
    headers: Seq<(Seq<char>, Seq<char>)>,
    name: Seq<char>,
) -> Option<int>
    decreases headers.len(),
{
    if headers.len() == 0 {
        None
    } else if text::same_ignoring_case(headers[0].0, name) {
        Some(0)
    } else {
        match header_position(headers.drop_first(), name) {
            Some(i) => Some(i + 1),
            None => None,
        }
    }
}

/// The value of a header.
pub open spec fn header_value(
    headers: Seq<(Seq<char>, Seq<char>)>,
    name: Seq<char>,
) -> Option<Seq<char>> {
    match header_position(headers, name) {
        Some(i) => Some(headers[i].1),
        None => None,
    }
}

/// The headers with one more set: its value replaces that of the first header
/// of its name, else it is added.
pub open spec fn with_header(
    headers: Seq<(Seq<char>, Seq<char>)>,
    name: Seq<char>,
    value: Seq<char>,
) -> Seq<(Seq<char>, Seq<char>)> {
    match header_position(headers, name) {
        Some(i) => headers.update(i, (headers[i].0, value)),
        None => headers.push((name, value)),
    }
}

/// The base headers with those of a call set over them, in order.
pub open spec fn merged(
    base: Seq<(Seq<char>, Seq<char>)>,
    extra: Seq<(Seq<char>, Seq<char>)>,
) -> Seq<(Seq<char>, Seq<char>)>
    decreases extra.len(),
{
    if extra.len() == 0 {
        base
    } else {
        with_header(merged(base, extra.drop_last()), extra.last().0, extra.last().1)
    }
}

proof fn lemma_header_position(headers: Seq<(Seq<char>, Seq<char>)>, name: Seq<char>)
    ensures
        match header_position(headers, name) {
            Some(i) => {
                &&& 0 <= i < headers.len()
                &&& text::same_ignoring_case(headers[i].0, name)
                &&& forall|j: int|
                    0 <= j < i ==> !text::same_ignoring_case((#[trigger] headers[j]).0, name)
            },
            None => forall|j: int|
                0 <= j < headers.len() ==> !text::same_ignoring_case(
                    (#[trigger] headers[j]).0,
                    name,
                ),
        },
    decreases headers.len(),
{
    if headers.len() > 0 && !text::same_ignoring_case(headers[0].0, name) {
        let rest = headers.drop_first();
        lemma_header_position(rest, name);
        match header_position(rest, name) {
            Some(i) => {
                assert forall|j: int| 0 <= j < i + 1 implies !text::same_ignoring_case(
                    (#[trigger] headers[j]).0,
                    name,
                ) by {
                    if j > 0 {
                        assert(rest[j - 1] == headers[j]);
                    }
                }
            },
            None => {
                assert forall|j: int| 0 <= j < headers.len() implies !text::same_ignoring_case(
                    (#[trigger] headers[j]).0,
                    name,
                ) by {
                    if j > 0 {
                        assert(rest[j - 1] == headers[j]);
                    }
                }
            },
        }
    }
}

/// A set header reads back under any case of its name, and every other header
/// keeps its value.
pub proof fn a_set_header_wins(
    headers: Seq<(Seq<char>, Seq<char>)>,
    name: Seq<char>,
    value: Seq<char>,
    other: Seq<char>,
)
    ensures
        header_value(with_header(headers, name, value), other) == (if text::same_ignoring_case(
            name,
            other,
        ) {
            Some(value)
        } else {
            header_value(headers, other)
        }),
{
    let after = with_header(headers, name, value);
    lemma_header_position(headers, name);
    lemma_header_position(headers, other);
    lemma_header_position(after, other);
    let same = text::same_ignoring_case(name, other);
    match header_position(headers, name) {
        Some(i) => {
            assert(after[i].0 == headers[i].0);
            lemma_same_case(headers[i].0, name, other);
            assert forall|j: int| 0 <= j < headers.len() && j != i implies (#[trigger] after[j])
                == headers[j] by {}
            if same {
                assert forall|j: int| 0 <= j < i implies !text::same_ignoring_case(
                    (#[trigger] after[j]).0,
                    other,
                ) by {
                    lemma_same_case(headers[j].0, name, other);
                }
            }
            match header_position(headers, other) {
                Some(k) => {
                    if !same {
                        assert(k != i);
                        assert(after[k] == headers[k]);
                    }
                },
                None => {},
            }
        },
        None => {
            let n = headers.len() as int;
            assert(after[n] == (name, value));
            assert forall|j: int| 0 <= j < n implies (#[trigger] after[j]) == headers[j] by {}
            if same {
                assert forall|j: int| 0 <= j < n implies !text::same_ignoring_case(
                    (#[trigger] after[j]).0,
                    other,
                ) by {
                    lemma_same_case(headers[j].0, name, other);
                }
            } else {
                match header_position(headers, other) {
                    Some(k) => {
                        assert(after[k] == headers[k]);
                    },
                    None => {},
                }
            }
        },
    }
}

/// The value of the last header with this name, whatever its case.
pub open spec fn last_value(
    headers: Seq<(Seq<char>, Seq<char>)>,
    name: Seq<char>,
) -> Option<Seq<char>>
    decreases headers.len(),
{
    if headers.len() == 0 {
        None
    } else if text::same_ignoring_case(headers.last().0, name) {
        Some(headers.last().1)
    } else {
        last_value(headers.drop_last(), name)
    }
}

/// The headers of a call win over the base headers, the last one of a name over
/// those before it; every other base header keeps its value.
pub proof fn call_headers_win(
    base: Seq<(Seq<char>, Seq<char>)>,
    extra: Seq<(Seq<char>, Seq<char>)>,
    name: Seq<char>,
)
    ensures
        header_value(merged(base, extra), name) == (match last_value(extra, name) {
            Some(value) => Some(value),
            None => header_value(base, name),
        }),
    decreases extra.len(),
{
    if extra.len() > 0 {
        let so_far = merged(base, extra.drop_last());
        call_headers_win(base, extra.drop_last(), name);
        a_set_header_wins(so_far, extra.last().0, extra.last().1, name);
    }
}

/// Texts that differ only in case are alike towards any third one.
proof fn lemma_same_case(x: Seq<char>, name: Seq<char>, other: Seq<char>)
    ensures
        text::same_ignoring_case(name, other) ==> text::same_ignoring_case(x, name)
            == text::same_ignoring_case(x, other),
        text::same_ignoring_case(x, name) && !text::same_ignoring_case(name, other)
            ==> !text::same_ignoring_case(x, other),
{
    if text::same_ignoring_case(name, other) && text::same_ignoring_case(x, name) {
        assert forall|i: int| 0 <= i < x.len() implies text::ascii_lower(#[trigger] x[i])
            == text::ascii_lower(other[i]) by {
            assert(text::ascii_lower(name[i]) == text::ascii_lower(other[i]));
        }
    }
    if text::same_ignoring_case(name, other) && text::same_ignoring_case(x, other) {
        assert forall|i: int| 0 <= i < x.len() implies text::ascii_lower(#[trigger] x[i])
            == text::ascii_lower(name[i]) by {
            assert(text::ascii_lower(name[i]) == text::ascii_lower(other[i]));
        }
    }
    if text::same_ignoring_case(x, name) && text::same_ignoring_case(x, other) {
        assert forall|i: int| 0 <= i < name.len() implies text::ascii_lower(#[trigger] name[i])
            == text::ascii_lower(other[i]) by {
            assert(text::ascii_lower(x[i]) == text::ascii_lower(name[i]));
        }
    }
}

/// A handle on a server: its urls and base headers.
pub struct Client {
    base_url: String,
    headers: Vec<(String, String)>,
    stream_url: Option<String>,
    ws_url: Option<String>,
    accept_invalid_certs: bool,
}

/// What a [`Client`] or a [`Builder`] stands for.
#[verifier::ext_equal]
pub struct ClientView {
    /// Base url.
    pub base_url: Seq<char>,
    /// Base headers.
    pub headers: Seq<(Seq<char>, Seq<char>)>,
    /// Url for streams.
    pub stream_url: Option<Seq<char>>,
    /// Url for websockets.
    pub ws_url: Option<Seq<char>>,
    /// Whether websocket certificates are left unverified.
    pub accept_invalid_certs: bool,
}

impl View for Client {
    type V = ClientView;

    closed spec fn view(&self) -> ClientView {
        ClientView {
            base_url: self.base_url@,
            headers: header_views(self.headers@),
            stream_url: views::optional(self.stream_url),
            ws_url: views::optional(self.ws_url),
            accept_invalid_certs: self.accept_invalid_certs,
        }
    }
}

/// Builder for a [`Client`].
pub struct Builder {
    client: Client,
}

impl View for Builder {
    type V = ClientView;

    closed spec fn view(&self) -> ClientView {
        self.client@
    }
}

impl Builder {
    /// Adds a base header, sent on every call.
    #[must_use]
    pub fn header(self, name: String, value: String) -> (builder: Builder)
        ensures
            builder@ == (ClientView { headers: self@.headers.push((name@, value@)), ..self@ }),
    {
        let mut client = self.client;
        client.headers.push((name, value));
        assert(header_views(client.headers@) =~= self@.headers.push((name@, value@)));
        Builder { client }
    }

    /// Sets the url for streams.
    #[must_use]
    pub fn stream_url(self, url: String) -> (builder: Builder)
        ensures
            builder@ == (ClientView { stream_url: Some(url@), ..self@ }),
    {
        let mut client = self.client;
        client.stream_url = Some(url);
        Builder { client }
    }

    /// Sets the url for websockets.
    #[must_use]
    pub fn ws_url(self, url: String) -> (builder: Builder)
        ensures
            builder@ == (ClientView { ws_url: Some(url@), ..self@ }),
    {
        let mut client = self.client;
        client.ws_url = Some(url);
        Builder { client }
    }

    /// Leaves websocket certificates unverified. Only for trusted networks.
    #[must_use]
    pub fn danger_accept_invalid_certs(self, accept: bool) -> (builder: Builder)
        ensures
            builder@ == (ClientView { accept_invalid_certs: accept, ..self@ }),
    {
        let mut client = self.client;
        client.accept_invalid_certs = accept;
        Builder { client }
    }

    /// Finishes the client.
    #[must_use]
    pub fn build(self) -> (client: Client)
        ensures
            client@ == self@,
    {
        self.client
    }
}

/// What a call sends.
pub struct HttpRequest {
    /// HTTP method.
    pub method: Method,
    /// Url, without the query.
    pub url: String,
    /// The payload, sent as the query parameter `q`.
    pub q: String,
    /// All headers.
    pub headers: Vec<(String, String)>,
    /// Files, sent as multipart parts where there are any.
    pub files: Vec<Vec<u8>>,
}

/// The request is the one that a unary call or a batch sends.
pub open spec fn planned_fetch(
    client: ClientView,
    q: Seq<char>,
    opts: CallOpts,
    request: HttpRequest,
) -> bool {
    &&& request.method == (match opts.method {
        Some(m) => m,
        None => if opts.files@.len() > 0 {
            Method::Post
        } else {
            Method::Get
        },
    })
    &&& request.url@ == (match opts.url {
        Some(url) => url@,
        None => client.base_url,
    })
    &&& request.q@ == q
    &&& header_views(request.headers@) == merged(client.headers, header_views(opts.headers@))
    &&& views::each(request.files@) == views::each(opts.files@)
}

impl Client {
    /// Starts a client with this base url.
    pub fn builder(url: String) -> (builder: Builder)
        ensures
            builder@ == (ClientView {
                base_url: url@,
                headers: Seq::empty(),
                stream_url: None,
                ws_url: None,
                accept_invalid_certs: false,
            }),
    {
        let client = Client {
            base_url: url,
            headers: Vec::new(),
            stream_url: None,
            ws_url: None,
            accept_invalid_certs: false,
        };
        assert(header_views(client.headers@) =~= Seq::empty());
        Builder { client }
    }

    /// A client with default options.
    pub fn new(url: String) -> (client: Client)
        ensures
            client@ == (ClientView {
                base_url: url@,
                headers: Seq::empty(),
                stream_url: None,
                ws_url: None,
                accept_invalid_certs: false,
            }),
    {
        Client::builder(url).build()
    }

    /// Replaces the base headers.
    pub fn set_headers(&mut self, headers: Vec<(String, String)>)
        ensures
            final(self)@ == (ClientView { headers: header_views(headers@), ..old(self)@ }),
    {
        self.headers = headers;
    }

    /// The base headers, to be updated in place.
    pub fn update_headers(&mut self) -> (headers: &mut Vec<(String, String)>)
        ensures
            header_views(headers@) == old(self)@.headers,
            final(self)@ == (ClientView {
                headers: header_views(final(headers)@),
                ..old(self)@
            }),
    {
        &mut self.headers
    }

    /// Whether websocket certificates are left unverified.
    pub fn accept_invalid_certs(&self) -> (accept: bool)
        ensures
            accept == self@.accept_invalid_certs,
    {
        self.accept_invalid_certs
    }

    /// The base headers with `extra` set over them; the base stays as it is.
    pub fn merged_headers(&self, extra: &Vec<(String, String)>) -> (headers: Vec<(String, String)>)
        ensures
            header_views(headers@) == merged(self@.headers, header_views(extra@)),
    {
        let ghost all = header_views(extra@);
        let mut headers: Vec<(String, String)> = Vec::new();
        let mut i: usize = 0;
        while i < self.headers.len()
            invariant
                i <= self.headers@.len(),
                headers@.len() == i,
                forall|j: int|
                    0 <= j < i ==> (#[trigger] headers@[j]).0@ == self.headers@[j].0@
                        && headers@[j].1@ == self.headers@[j].1@,
            decreases self.headers@.len() - i,
        {
            headers.push((self.headers[i].0.clone(), self.headers[i].1.clone()));
            i = i + 1;
        }
        assert(header_views(headers@) =~= self@.headers);
        let mut k: usize = 0;
        assert(all.take(0) =~= Seq::empty());
        while k < extra.len()
            invariant
                k <= extra@.len(),
                all == header_views(extra@),
                header_views(headers@) == merged(self@.headers, all.take(k as int)),
            decreases extra@.len() - k,
        {
            assert(all.take(k + 1).drop_last() =~= all.take(k as int));
            assert(all.take(k + 1).last() == (extra@[k as int].0@, extra@[k as int].1@));
            set_header(&mut headers, &extra[k].0, &extra[k].1);
            k = k + 1;
        }
        assert(all.take(k as int) =~= all);
        headers
    }

    /// What a unary call or a batch sends: `GET`, or `POST` with files, unless a
    /// method is given; to the base url, unless another is given.
    pub fn plan_fetch(&self, q: String, opts: &CallOpts) -> (request: HttpRequest)
        ensures
            planned_fetch(self@, q@, *opts, request),
    {
        let method = match opts.method {
            Some(m) => m,
            None => if opts.files.len() > 0 {
                Method::Post
            } else {
                Method::Get
            },
        };
        let headers = self.merged_headers(&opts.headers);
        let url = match &opts.url {
            Some(url) => url.clone(),
            None => self.base_url.clone(),
        };
        let mut files: Vec<Vec<u8>> = Vec::new();
        let mut i: usize = 0;
        while i < opts.files.len()
            invariant
                i <= opts.files@.len(),
                views::each(files@) == views::each(opts.files@).take(i as int),
            decreases opts.files@.len() - i,
        {
            let copy = opts.files[i].clone();
            assert(copy@ =~= opts.files@[i as int]@);
            let ghost before = views::each(files@);
            files.push(copy);
            assert(views::each(files@) =~= before.push(copy@));
            i = i + 1;
            assert(views::each(files@) =~= views::each(opts.files@).take(i as int));
        }
        assert(views::each(files@) =~= views::each(opts.files@));
        HttpRequest { method, url, q, headers, files }
    }

    /// What a streaming call sends: `POST`, unless a method is given; to the
    /// given url, else the stream url, else the base url.
    pub fn plan_stream(&self, q: String, opts: &CallOpts) -> (request: HttpRequest)
        ensures
            request.method == (match opts.method {
                Some(m) => m,
                None => Method::Post,
            }),
            request.url@ == (match (views::optional(opts.url), self@.stream_url) {
                (Some(url), _) => url,
                (None, Some(url)) => url,
                (None, None) => self@.base_url,
            }),
            request.q@ == q@,
            header_views(request.headers@) == merged(
                self@.headers,
                header_views(opts.headers@),
            ),
            request.files@.len() == 0,
    {
        let method = match opts.method {
            Some(m) => m,
            None => Method::Post,
        };
        let headers = self.merged_headers(&opts.headers);
        let url = match &opts.url {
            Some(url) => url.clone(),
            None => match &self.stream_url {
                Some(url) => url.clone(),
                None => self.base_url.clone(),
            },
        };
        HttpRequest { method, url, q, headers, files: Vec::new() }
    }

    /// Starts a request of several actions, to be sent by this client.
    #[must_use]
    pub fn batch(&self) -> (batch: Batch<'_>)
        ensures
            batch.sender() == *self,
            batch.calls() == Seq::<(Seq<char>, JsonView)>::empty(),
            batch.call_opts().is_plain(),
            batch.failure() is None,
    {
        let batch = Batch { client: self, calls: Vec::new(), opts: CallOpts::new(), error: None };
        assert(batch.calls() =~= Seq::empty());
        batch
    }

    /// Where a websocket connects to: the websocket url, else the given url,
    /// else the base url, as `ws` or `wss`.
    pub fn plan_connect(&self, opts: &CallOpts) -> (url: String)
        ensures
            url@ == ws::websocket_url(
                match (self@.ws_url, opts.url) {
                    (Some(url), _) => url,
                    (None, Some(url)) => url@,
                    (None, None) => self@.base_url,
                },
            ),
    {
        match &self.ws_url {
            Some(url) => ws::to_ws_url(url.as_str()),
            None => match &opts.url {
                Some(url) => ws::to_ws_url(url.as_str()),
                None => ws::to_ws_url(self.base_url.as_str()),
            },
        }
    }
}

fn set_header(headers: &mut Vec<(String, String)>, name: &String, value: &String)
    ensures
        header_views(final(headers)@) == with_header(header_views(old(headers)@), name@, value@),
{
    let ghost all = header_views(headers@);
    let mut i: usize = 0;
    proof {
        lemma_header_position(all, name@);
    }
    while i < headers.len()
        invariant
            i <= headers@.len(),
            all == header_views(headers@),
            headers@ == old(headers)@,
            forall|j: int|
                0 <= j < i ==> !text::same_ignoring_case((#[trigger] all[j]).0, name@),
            match header_position(all, name@) {
                Some(p) => {
                    &&& 0 <= p < all.len()
                    &&& text::same_ignoring_case(all[p].0, name@)
                    &&& forall|j: int|
                        0 <= j < p ==> !text::same_ignoring_case((#[trigger] all[j]).0, name@)
                },
                None => forall|j: int|
                    0 <= j < all.len() ==> !text::same_ignoring_case(
                        (#[trigger] all[j]).0,
                        name@,
                    ),
            },
        decreases headers@.len() - i,
    {
        assert(all[i as int].0 == headers@[i as int].0@);
        if eq_ignore_case(headers[i].0.as_str(), name.as_str()) {
            let kept = headers[i].0.clone();
            headers.set(i, (kept, value.clone()));
            assert(header_position(all, name@) == Some(i as int));
            assert(header_views(headers@) =~= with_header(all, name@, value@));
            return ;
        }
        i = i + 1;
    }
    headers.push((name.clone(), value.clone()));
    assert(header_position(all, name@) is None);
    assert(header_views(headers@) =~= with_header(all, name@, value@));
}

/// The payload `{action: params}` of a call.
pub open spec fn call_payload(action: Seq<char>, params: JsonView) -> JsonView {
    JsonView::Object(map![action => params])
}

/// Encodes `{action: params}` as the query value of a call.
pub fn encode_query(action: &str, params: Json) -> (q: String)
    ensures
        q@ == crate::json::text_of_json(call_payload(action@, params@)),
{
    Json::object1(action, params).render()
}

/// The result of a unary call, read from its response: the envelope under the
/// action's name. A response that is no object, or lacks the action, is missing
/// it.
pub fn read_unary(
    response: &Json,
    action: &str,
) -> (result: Result<ActionResult<Option<Json>>, TransportError>)
    ensures
        match response@.member(action@) {
            None => result matches Err(TransportError::MissingAction(a)) && a@ == action@,
            Some(entry) => result::is_envelope_read(entry, result),
        },
{
    match response.get(action) {
        None => Err(TransportError::MissingAction(action.to_owned())),
        Some(entry) => decode_envelope(entry),
    }
}

/// A multi-action request: several calls, sent in one round trip by the client
/// that started it.
pub struct Batch<'a> {
    client: &'a Client,
    calls: Vec<(String, Json)>,
    opts: CallOpts,
    error: Option<String>,
}

/// What queued calls stand for.
pub open spec fn call_views(calls: Seq<(String, Json)>) -> Seq<(Seq<char>, JsonView)> {
    calls.map_values(|c: (String, Json)| (c.0@, c.1@))
}

/// The payload of a batch: `[[action, params], ...]`, in order.
pub open spec fn batch_payload(calls: Seq<(Seq<char>, JsonView)>) -> JsonView {
    JsonView::Array(
        calls.map_values(
            |c: (Seq<char>, JsonView)| JsonView::Array(seq![JsonView::Text(c.0), c.1]),
        ),
    )
}

impl<'a> Batch<'a> {
    /// The client that sends the request.
    pub closed spec fn sender(self) -> Client {
        *self.client
    }

    /// The queued calls, in order.
    pub closed spec fn calls(self) -> Seq<(Seq<char>, JsonView)> {
        call_views(self.calls@)
    }

    /// The options of the request.
    pub closed spec fn call_opts(self) -> CallOpts {
        self.opts
    }

    /// The message of the first failure to encode parameters.
    pub closed spec fn failure(self) -> Option<Seq<char>> {
        views::optional(self.error)
    }

    /// Adds a call. The same action may come more than once, and the order is
    /// kept. After parameters that could not be encoded nothing more is added.
    #[must_use]
    pub fn add(self, action: String, params: Result<Json, String>) -> (batch: Self)
        ensures
            batch.sender() == self.sender(),
            batch.call_opts() == self.call_opts(),
            self.failure() is Some ==> batch.calls() == self.calls() && batch.failure()
                == self.failure(),
            self.failure() is None ==> match params {
                Ok(p) => batch.calls() == self.calls().push((action@, p@))
                    && batch.failure() is None,
                Err(message) => batch.calls() == self.calls() && batch.failure() == Some(
                    message@,
                ),
            },
    {
        let mut batch = self;
        if batch.error.is_none() {
            match params {
                Ok(p) => {
                    batch.calls.push((action, p));
                    assert(batch.calls() =~= self.calls().push((action@, p@)));
                },
                Err(message) => {
                    batch.error = Some(message);
                },
            }
        }
        batch
    }

    /// Applies options to the whole batch.
    #[must_use]
    pub fn options(self, opts: CallOpts) -> (batch: Self)
        ensures
            batch.sender() == self.sender(),
            batch.calls() == self.calls(),
            batch.failure() == self.failure(),
            batch.call_opts() == opts,
    {
        Batch { client: self.client, calls: self.calls, opts, error: self.error }
    }

    /// The payload of the batch, or the first failure to encode parameters.
    pub fn payload(&self) -> (payload: Result<Json, TransportError>)
        ensures
            match (self.failure(), payload) {
                (None, Ok(p)) => p@ == batch_payload(self.calls()),
                (Some(message), Err(TransportError::Encode(e))) => e@ == message,
                _ => false,
            },
    {
        if let Some(message) = &self.error {
            return Err(TransportError::Encode(message.clone()));
        }
        let mut items: Vec<Json> = Vec::new();
        let mut i: usize = 0;
        while i < self.calls.len()
            invariant
                i <= self.calls@.len(),
                items@.len() == i,
                forall|j: int|
                    0 <= j < i ==> (#[trigger] items@[j])@ == JsonView::Array(
                        seq![JsonView::Text(self.calls@[j].0@), self.calls@[j].1@],
                    ),
            decreases self.calls@.len() - i,
        {
            let mut pair: Vec<Json> = Vec::new();
            pair.push(Json::text(self.calls[i].0.as_str()));
            pair.push(self.calls[i].1.clone());
            assert(views::each(pair@) =~= seq![
                JsonView::Text(self.calls@[i as int].0@),
                self.calls@[i as int].1@,
            ]);
            items.push(Json::array(pair));
            i = i + 1;
        }
        assert(views::each(items@) =~= batch_payload(self.calls())->Array_0);
        Ok(Json::array(items))
    }

    /// What the batch sends through its client.
    pub fn plan(&self) -> (request: Result<HttpRequest, TransportError>)
        ensures
            match (self.failure(), request) {
                (None, Ok(r)) => planned_fetch(
                    self.sender()@,
                    crate::json::text_of_json(batch_payload(self.calls())),
                    self.call_opts(),
                    r,
                ),
                (Some(message), Err(TransportError::Encode(e))) => e@ == message,
                _ => false,
            },
    {
        match self.payload() {
            Ok(payload) => Ok(self.client.plan_fetch(payload.render(), &self.opts)),
            Err(e) => Err(e),
        }
    }

    /// The results, read from the response: it must be an array.
    pub fn read(self, response: Json) -> (results: Result<BatchResults, TransportError>)
        ensures
            match (response@.elements(), results) {
                (Some(envelopes), Ok(r)) => r.envelopes() == envelopes && r.actions()
                    == self.calls().map_values(|c: (Seq<char>, JsonView)| c.0),
                (None, Err(TransportError::UnexpectedResponse(what))) => what@
                    == "batch expected an array response"@,
                _ => false,
            },
    {
        let ghost queued = self.calls();
        let envelopes = match response {
            Json::Array(items) => {
                assert(response@->Array_0 =~= views::each(items@));
                items
            },
            _ => {
                return Err(
                    TransportError::UnexpectedResponse(
                        "batch expected an array response".to_owned(),
                    ),
                );
            },
        };
        let mut actions: Vec<String> = Vec::new();
        let mut i: usize = 0;
        while i < self.calls.len()
            invariant
                i <= self.calls@.len(),
                actions@.len() == i,
                forall|j: int| 0 <= j < i ==> (#[trigger] actions@[j])@ == self.calls@[j].0@,
            decreases self.calls@.len() - i,
        {
            actions.push(self.calls[i].0.clone());
            i = i + 1;
        }
        let results = BatchResults { actions, envelopes };
        assert(results.actions() =~= queued.map_values(|c: (Seq<char>, JsonView)| c.0));
        Ok(results)
    }
}

/// The ordered results of a [`Batch`].
pub struct BatchResults {
    actions: Vec<String>,
    envelopes: Vec<Json>,
}

impl BatchResults {
    /// The actions, in the order in which they were added.
    pub closed spec fn actions(self) -> Seq<Seq<char>> {
        views::each(self.actions@)
    }

    /// The envelopes, in the order of the response.
    pub closed spec fn envelopes(self) -> Seq<JsonView> {
        views::each(self.envelopes@)
    }

    /// Number of results.
    #[must_use]
    pub fn len(&self) -> (count: usize)
        ensures
            count == self.envelopes().len(),
    {
        self.envelopes.len()
    }

    /// Whether the batch returned no results.
    #[must_use]
    pub fn is_empty(&self) -> (empty: bool)
        ensures
            empty == (self.envelopes().len() == 0),
    {
        self.envelopes.len() == 0
    }

    /// The action name at `index`.
    #[must_use]
    pub fn action(&self, index: usize) -> (action: Option<&str>)
        ensures
            match action {
                Some(a) => index < self.actions().len() && a@ == self.actions()[index as int],
                None => index >= self.actions().len(),
            },
    {
        if index < self.actions.len() {
            Some(self.actions[index].as_str())
        } else {
            None
        }
    }

    /// The result at `index`.
    pub fn get(&self, index: usize) -> (result: Result<ActionResult<Option<Json>>, TransportError>)
        ensures
            if index >= self.envelopes().len() {
                result matches Err(TransportError::IndexOutOfRange(i)) && i == index
            } else {
                result::is_envelope_read(self.envelopes()[index as int], result)
            },
    {
        if index >= self.envelopes.len() {
            return Err(TransportError::IndexOutOfRange(index));
        }
        decode_envelope(&self.envelopes[index])
    }
}

/// A call goes where its options say, and otherwise where the client says: with the
/// given method, or else `POST` exactly where there are files and `GET` where there are
/// none; with its payload and its files; and with every header of the call over the
/// base headers.
pub proof fn a_call_goes_where_its_options_say(
    client: ClientView,
    q: Seq<char>,
    opts: CallOpts,
    request: HttpRequest,
    name: Seq<char>,
)
    requires
        planned_fetch(client, q, opts, request),
    ensures
        opts.method matches Some(method) ==> request.method == method,
        opts.method is None && opts.files@.len() == 0 ==> request.method is Get,
        opts.method is None && opts.files@.len() > 0 ==> request.method is Post,
        opts.url matches Some(url) ==> request.url@ == url@,
        opts.url is None ==> request.url@ == client.base_url,
        request.q@ == q,
        request.files@.len() == opts.files@.len(),
        forall|i: int|
            0 <= i < opts.files@.len() ==> (#[trigger] request.files@[i])@ == opts.files@[i]@,
        header_value(header_views(request.headers@), name) == (match last_value(
            header_views(opts.headers@),
            name,
        ) {
            Some(value) => Some(value),
            None => header_value(client.headers, name),
        }),
{
    call_headers_win(client.headers, header_views(opts.headers@), name);
    assert(views::each(request.files@).len() == views::each(opts.files@).len());
    assert forall|i: int| 0 <= i < opts.files@.len() implies (#[trigger] request.files@[i])@
        == opts.files@[i]@ by {
        assert(views::each(request.files@)[i] == views::each(opts.files@)[i]);
    }
}

/// The payload of a call names its action alone, with its parameters.
pub proof fn a_payload_names_its_action(action: Seq<char>, params: JsonView, other: Seq<char>)
    ensures
        call_payload(action, params).member(action) == Some(params),
        other != action ==> call_payload(action, params).member(other) is None,
{
}

/// The payload of a batch lists every call in order, each with its action and its
/// parameters.
pub proof fn a_batch_lists_its_calls(calls: Seq<(Seq<char>, JsonView)>, i: int)
    ensures
        batch_payload(calls).elements() is Some,
        batch_payload(calls).elements()->0.len() == calls.len(),
        0 <= i < calls.len() ==> batch_payload(calls).elements()->0[i].element(0) == Some(
            JsonView::Text(calls[i].0),
        ) && batch_payload(calls).elements()->0[i].element(1) == Some(calls[i].1)
            && batch_payload(calls).elements()->0[i].element(2) is None,
{
}

/// A transport error tells what it is about.
pub proof fn a_transport_error_tells_what_it_is_about(error: TransportError)
    ensures
        match error {
            TransportError::Http(e) => text::holds_text(error.shown(), e@),
            TransportError::Encode(e) => text::holds_text(error.shown(), e@),
            TransportError::Decode(e) => text::holds_text(error.shown(), e@),
            TransportError::MissingAction(action) => text::holds_text(error.shown(), action@),
            TransportError::UnexpectedResponse(what) => text::holds_text(error.shown(), what@),
            TransportError::IndexOutOfRange(index) => text::holds_text(
                error.shown(),
                text::decimal(index as nat),
            ),
            TransportError::WebSocket(e) => text::holds_text(error.shown(), e@),
            TransportError::Closed => error.shown() == "connection closed"@,
        },
{
    let none = Seq::<char>::empty();
    match error {
        TransportError::Http(e) => text::a_text_holds_its_parts(
            "http request failed: "@,
            e@,
            none,
        ),
        TransportError::Encode(e) => text::a_text_holds_its_parts(
            "failed to encode parameters: "@,
            e@,
            none,
        ),
        TransportError::Decode(e) => text::a_text_holds_its_parts(
            "failed to decode response: "@,
            e@,
            none,
        ),
        TransportError::MissingAction(action) => text::a_text_holds_its_parts(
            "response missing result for action `"@,
            action@,
            "`"@,
        ),
        TransportError::UnexpectedResponse(what) => text::a_text_holds_its_parts(
            "unexpected response: "@,
            what@,
            none,
        ),
        TransportError::IndexOutOfRange(index) => text::a_text_holds_its_parts(
            "no result at index "@,
            text::decimal(index as nat),
            none,
        ),
        TransportError::WebSocket(e) => text::a_text_holds_its_parts(
            "websocket error: "@,
            e@,
            none,
        ),
        TransportError::Closed => {},
    }
}

} // verus!
