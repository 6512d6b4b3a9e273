//! Error types.
//!
//! [`ProviderError`] is what a provider returns, [`ToolError`] what a tool body
//! returns, and [`AgentError`] the toolkit's top-level error.

use crate::retry;
use crate::text;
use crate::text::{debug_text, decimal_text};
use std::time::Duration;
use vstd::prelude::*;

verus! {

/// An error returned by a provider.
///
/// There is no derived `Debug`: [`ProviderError::debug_text`] shows a decode
/// body only up to its first characters.
pub enum ProviderError {
    /// Network or transport failure talking to the provider.
    Transport(String),
    /// The response could not be decoded into the expected shape.
    Decode {
        /// Decoder error message.
        err: String,
        /// Raw response body, kept for debugging.
        body: String,
    },
    /// The provider returned an error status.
    Api {
        /// HTTP status code.
        status: u16,
        /// Provider error kind.
        kind: String,
        /// Message extracted from the provider's error object, never the raw body.
        message: String,
        /// Delay that the server asked for before a retry.
        retry_after: Option<Duration>,
    },
    /// The request was malformed before sending.
    InvalidArgument(String),
    /// The request was cancelled.
    Cancelled,
}

/// What a [`ProviderError`] stands for.
#[verifier::ext_equal]
pub enum ProviderErrorView {
    /// Network or transport failure talking to the provider.
    Transport(Seq<char>),
    /// The response could not be decoded into the expected shape.
    Decode {
        /// Decoder error message.
        err: Seq<char>,
        /// Raw response body, kept for debugging.
        body: Seq<char>,
    },
    /// The provider returned an error status.
    Api {
        /// HTTP status code.
        status: u16,
        /// Provider error kind.
        kind: Seq<char>,
        /// Message extracted from the provider's error object, never the raw body.
        message: Seq<char>,
        /// Delay that the server asked for before a retry.
        retry_after: Option<Duration>,
    },
    /// The request was malformed before sending.
    InvalidArgument(Seq<char>),
    /// The request was cancelled.
    Cancelled,
}

impl View for ProviderError {
    type V = ProviderErrorView;

    open spec fn view(&self) -> ProviderErrorView {
        match *self {
            ProviderError::Transport(x) => ProviderErrorView::Transport(x@),
            ProviderError::Decode { err, body } => ProviderErrorView::Decode {
                err: err@,
                body: body@,
            },
            ProviderError::Api { status, kind, message, retry_after } => ProviderErrorView::Api {
                status,
                kind: kind@,
                message: message@,
                retry_after,
            },
            ProviderError::InvalidArgument(x) => ProviderErrorView::InvalidArgument(x@),
            ProviderError::Cancelled => ProviderErrorView::Cancelled,
        }
    }
}

impl Clone for ProviderError {
    fn clone(&self) -> (copy: Self)
        ensures
            copy@ == self@,
    {
        match self {
            ProviderError::Transport(x) => ProviderError::Transport(x.clone()),
            ProviderError::Decode { err, body } => ProviderError::Decode {
                err: err.clone(),
                body: body.clone(),
            },
            ProviderError::Api { status, kind, message, retry_after } => ProviderError::Api {
                status: *status,
                kind: kind.clone(),
                message: message.clone(),
                retry_after: *retry_after,
            },
            ProviderError::InvalidArgument(x) => ProviderError::InvalidArgument(x.clone()),
            ProviderError::Cancelled => ProviderError::Cancelled,
        }
    }
}

/// How many bytes of a decode body are shown by [`ProviderError::debug_text`],
/// at most.
pub const DECODE_BODY_DEBUG_LIMIT: usize = 64;

/// The number of bytes of a text in UTF-8.
pub open spec fn byte_len(text: Seq<char>) -> nat {
    vstd::utf8::encode_utf8(text).len()
}

/// The start of `body` that a debug text shows: the longest one, of whole
/// characters, whose bytes fit the limit.
pub open spec fn shown_prefix(body: Seq<char>) -> Seq<char>
    decreases body.len(),
{
    if body.len() == 0 || byte_len(body) <= DECODE_BODY_DEBUG_LIMIT {
        body
    } else {
        shown_prefix(body.drop_last())
    }
}

/// Every character takes a byte at least.
proof fn lemma_byte_len(text: Seq<char>)
    ensures
        byte_len(text) >= text.len(),
        text.len() == 0 ==> byte_len(text) == 0,
    decreases text.len(),
{
    if text.len() > 0 {
        lemma_byte_len(text.drop_first());
        vstd::utf8::char_is_scalar(text[0]);
    }
}

/// Cutting off characters that do not fit leaves the shown start as it is.
proof fn lemma_shown_prefix(body: Seq<char>, k: int)
    requires
        0 <= k <= body.len(),
        forall|j: int|
            k < j <= body.len() ==> byte_len(#[trigger] body.take(j)) > DECODE_BODY_DEBUG_LIMIT,
    ensures
        shown_prefix(body) == shown_prefix(body.take(k)),
    decreases body.len(),
{
    if k == body.len() {
        assert(body.take(k) =~= body);
    } else {
        assert(body.take(body.len() as int) =~= body);
        let shorter = body.drop_last();
        assert forall|j: int| k < j <= shorter.len() implies byte_len(#[trigger] shorter.take(j))
            > DECODE_BODY_DEBUG_LIMIT by {
            assert(shorter.take(j) =~= body.take(j));
        }
        lemma_shown_prefix(shorter, k);
        assert(shorter.take(k) =~= body.take(k));
    }
}

fn prefix_within_limit(body: &str) -> (prefix: &str)
    ensures
        prefix@ == shown_prefix(body@),
{
    let count: usize = body.unicode_len();
    let mut end: usize = if count > DECODE_BODY_DEBUG_LIMIT {
        DECODE_BODY_DEBUG_LIMIT
    } else {
        count
    };
    proof {
        assert forall|j: int| end < j <= body@.len() implies byte_len(#[trigger] body@.take(j))
            > DECODE_BODY_DEBUG_LIMIT by {
            lemma_byte_len(body@.take(j));
        }
    }
    let mut prefix = body.substring_char(0, end);
    assert(prefix@ =~= body@.take(end as int));
    while end > 0 && prefix.as_bytes().len() > DECODE_BODY_DEBUG_LIMIT
        invariant
            end <= body@.len(),
            prefix@ == body@.take(end as int),
            forall|j: int|
                end < j <= body@.len() ==> byte_len(#[trigger] body@.take(j))
                    > DECODE_BODY_DEBUG_LIMIT,
        decreases end,
    {
        end = end - 1;
        prefix = body.substring_char(0, end);
        assert(prefix@ =~= body@.take(end as int));
    }
    proof {
        lemma_shown_prefix(body@, end as int);
    }
    prefix
}

/// What `{:?}` prints for an optional delay.
pub open spec fn shown_delay(delay: Option<Duration>) -> Seq<char> {
    match delay {
        Some(d) => "Some("@ + retry::duration_shown(d) + ")"@,
        None => "None"@,
    }
}

impl ProviderErrorView {
    /// The message for a reader.
    pub open spec fn shown(self) -> Seq<char> {
        match self {
            ProviderErrorView::Transport(message) => "transport error: "@ + message,
            ProviderErrorView::Decode { err, body } => "failed to decode provider response: "@
                + err,
            ProviderErrorView::Api { status, kind, message, retry_after } => "provider error "@
                + text::decimal(status as nat) + " ("@ + kind + "): "@ + message,
            ProviderErrorView::InvalidArgument(message) => "invalid argument: "@ + message,
            ProviderErrorView::Cancelled => "request cancelled"@,
        }
    }

    /// The form for logs: a decode body by its length and its start alone.
    pub open spec fn debug_shown(self) -> Seq<char> {
        match self {
            ProviderErrorView::Transport(message) => "Transport("@ + text::quoted(message) + ")"@,
            ProviderErrorView::Decode { err, body } => "Decode { err: "@ + text::quoted(err)
                + ", body_len: "@ + text::decimal(byte_len(body)) + ", body_prefix: "@
                + text::quoted(shown_prefix(body)) + " }"@,
            ProviderErrorView::Api { status, kind, message, retry_after } => "Api { status: "@
                + text::decimal(status as nat) + ", kind: "@ + text::quoted(kind) + ", message: "@
                + text::quoted(message) + ", retry_after: "@ + shown_delay(retry_after) + " }"@,
            ProviderErrorView::InvalidArgument(message) => "InvalidArgument("@ + text::quoted(
                message,
            ) + ")"@,
            ProviderErrorView::Cancelled => "Cancelled"@,
        }
    }
}

impl ProviderError {
    /// The message for a reader.
    pub fn to_text(&self) -> (shown: String)
        ensures
            shown@ == self@.shown(),
    {
        match self {
            ProviderError::Transport(message) => {
                "transport error: ".to_owned().concat(message.as_str())
            },
            ProviderError::Decode { err, body: _ } => {
                "failed to decode provider response: ".to_owned().concat(err.as_str())
            },
            ProviderError::Api { status, kind, message, retry_after: _ } => {
                let mut shown = "provider error ".to_owned();
                shown.append(decimal_text(*status as u64).as_str());
                shown.append(" (");
                shown.append(kind.as_str());
                shown.append("): ");
                shown.append(message.as_str());
                shown
            },
            ProviderError::InvalidArgument(message) => {
                "invalid argument: ".to_owned().concat(message.as_str())
            },
            ProviderError::Cancelled => "request cancelled".to_owned(),
        }
    }

    /// The form for logs and panics. A decode body may echo parts of the
    /// request, so it is shown by its length and its first
    /// [`DECODE_BODY_DEBUG_LIMIT`] bytes alone, cut between two characters.
    pub fn debug_text(&self) -> (shown: String)
        ensures
            shown@ == self@.debug_shown(),
    {
        match self {
            ProviderError::Transport(message) => {
                let mut shown = "Transport(".to_owned();
                shown.append(debug_text(message.as_str()).as_str());
                shown.append(")");
                shown
            },
            ProviderError::Decode { err, body } => {
                let length: usize = body.as_str().as_bytes().len();
                let prefix = prefix_within_limit(body.as_str());
                let mut shown = "Decode { err: ".to_owned();
                shown.append(debug_text(err.as_str()).as_str());
                shown.append(", body_len: ");
                shown.append(decimal_text(length as u64).as_str());
                shown.append(", body_prefix: ");
                shown.append(debug_text(prefix).as_str());
                shown.append(" }");
                shown
            },
            ProviderError::Api { status, kind, message, retry_after } => {
                let mut shown = "Api { status: ".to_owned();
                shown.append(decimal_text(*status as u64).as_str());
                shown.append(", kind: ");
                shown.append(debug_text(kind.as_str()).as_str());
                shown.append(", message: ");
                shown.append(debug_text(message.as_str()).as_str());
                shown.append(", retry_after: ");
                match retry_after {
                    Some(delay) => {
                        let mut part = "Some(".to_owned();
                        part.append(retry::duration_debug(*delay).as_str());
                        part.append(")");
                        shown.append(part.as_str());
                    },
                    None => {
                        shown.append("None");
                    },
                }
                shown.append(" }");
                shown
            },
            ProviderError::InvalidArgument(message) => {
                let mut shown = "InvalidArgument(".to_owned();
                shown.append(debug_text(message.as_str()).as_str());
                shown.append(")");
                shown
            },
            ProviderError::Cancelled => "Cancelled".to_owned(),
        }
    }
}

/// The log form shows a start of the decode body, and no more of it than the
/// limit.
pub proof fn a_decode_body_is_shown_up_to_the_limit(body: Seq<char>)
    ensures
        byte_len(shown_prefix(body)) <= DECODE_BODY_DEBUG_LIMIT,
        shown_prefix(body).is_prefix_of(body),
        byte_len(body) <= DECODE_BODY_DEBUG_LIMIT ==> shown_prefix(body) == body,
    decreases body.len(),
{
    lemma_byte_len(body);
    if body.len() > 0 && byte_len(body) > DECODE_BODY_DEBUG_LIMIT {
        a_decode_body_is_shown_up_to_the_limit(body.drop_last());
    }
}

/// The log form of a decode error tells two bodies apart only by their length
/// in bytes and their first characters: nothing behind those is shown.
pub proof fn debug_text_hides_the_rest_of_a_decode_body(
    err: Seq<char>,
    body: Seq<char>,
    other: Seq<char>,
)
    requires
        shown_prefix(body) == shown_prefix(other),
        byte_len(body) == byte_len(other),
    ensures
        (ProviderErrorView::Decode { err, body }).debug_shown() == (ProviderErrorView::Decode {
            err,
            body: other,
        }).debug_shown(),
{
}

/// The reader's message of a decode error does not depend on the body at all.
pub proof fn shown_text_leaves_out_a_decode_body(
    err: Seq<char>,
    body: Seq<char>,
    other: Seq<char>,
)
    ensures
        (ProviderErrorView::Decode { err, body }).shown() == (ProviderErrorView::Decode {
            err,
            body: other,
        }).shown(),
{
}

/// An error returned from a tool body. It goes back to the model as a failed
/// tool result, so the model may retry.
#[derive(Debug)]
pub struct ToolError {
    message: String,
}

impl View for ToolError {
    type V = Seq<char>;

    closed spec fn view(&self) -> Seq<char> {
        self.message@
    }
}

impl ToolError {
    /// Builds a tool error from a message.
    pub fn new(message: String) -> (error: Self)
        ensures
            error@ == message@,
    {
        ToolError { message }
    }

    /// The error message (sent to the model as the tool result).
    #[must_use]
    pub fn message(&self) -> (message: &str)
        ensures
            message@ == self@,
    {
        self.message.as_str()
    }

    /// The message for a reader.
    pub fn to_text(&self) -> (shown: String)
        ensures
            shown@ == self@,
    {
        self.message.clone()
    }
}

/// The toolkit's top-level error.
pub enum AgentError {
    /// A provider call failed.
    Provider(ProviderError),
    /// A tool failed in a way that aborts the loop.
    Tool(ToolError),
    /// Tool arguments failed validation.
    Schema(String),
    /// An MCP transport or protocol error.
    Mcp(String),
    /// A skill could not be loaded.
    Skill(String),
    /// A host context failure.
    Context(String),
}

impl AgentError {
    /// The message that a reader sees.
    pub open spec fn shown(self) -> Seq<char> {
        match self {
            AgentError::Provider(e) => e@.shown(),
            AgentError::Tool(e) => "tool error: "@ + e@,
            AgentError::Schema(message) => "invalid tool arguments: "@ + message@,
            AgentError::Mcp(message) => "mcp error: "@ + message@,
            AgentError::Skill(message) => "skill error: "@ + message@,
            AgentError::Context(message) => "context error: "@ + message@,
        }
    }

    /// Wraps the text of a host context (db or store) failure.
    pub fn context(e: String) -> (error: Self)
        ensures
            error == AgentError::Context(e),
    {
        AgentError::Context(e)
    }

    /// The message for a reader.
    pub fn to_text(&self) -> (shown: String)
        ensures
            shown@ == self.shown(),
    {
        match self {
            AgentError::Provider(e) => e.to_text(),
            AgentError::Tool(e) => "tool error: ".to_owned().concat(e.message()),
            AgentError::Schema(message) => {
                "invalid tool arguments: ".to_owned().concat(message.as_str())
            },
            AgentError::Mcp(message) => "mcp error: ".to_owned().concat(message.as_str()),
            AgentError::Skill(message) => "skill error: ".to_owned().concat(message.as_str()),
            AgentError::Context(message) => "context error: ".to_owned().concat(message.as_str()),
        }
    }
}

impl From<ProviderError> for AgentError {
    fn from(e: ProviderError) -> (error: Self) {
        AgentError::Provider(e)
    }
}

impl vstd::std_specs::convert::FromSpecImpl<ProviderError> for AgentError {
    open spec fn obeys_from_spec() -> bool {
        true
    }

    open spec fn from_spec(e: ProviderError) -> Self {
        AgentError::Provider(e)
    }
}

/// A message for a reader tells what happened: the message that came with the error,
/// and for an error response its status and its kind as well.
pub proof fn an_error_tells_what_happened(
    message: Seq<char>,
    kind: Seq<char>,
    status: u16,
    retry_after: Option<Duration>,
    body: Seq<char>,
)
    ensures
        text::holds_text((ProviderErrorView::Transport(message)).shown(), message),
        text::holds_text((ProviderErrorView::Decode { err: message, body }).shown(), message),
        text::holds_text((ProviderErrorView::InvalidArgument(message)).shown(), message),
        ({
            let shown = (ProviderErrorView::Api { status, kind, message, retry_after }).shown();
            &&& text::holds_text(shown, message)
            &&& text::holds_text(shown, kind)
            &&& text::holds_text(shown, text::decimal(status as nat))
        }),
{
    let none = Seq::<char>::empty();
    text::a_text_holds_its_parts("transport error: "@, message, none);
    text::a_text_holds_its_parts("failed to decode provider response: "@, message, none);
    text::a_text_holds_its_parts("invalid argument: "@, message, none);
    let digits = text::decimal(status as nat);
    let parts = seq!["provider error "@, digits, " ("@, kind, "): "@, message];
    reveal_with_fuel(text::first_parts, 6);
    text::a_run_of_parts_stands(parts, 1, 2, 6);
    text::a_run_of_parts_stands(parts, 3, 4, 6);
    text::a_run_of_parts_stands(parts, 5, 6, 6);
}

/// An error of the toolkit tells the message that came with it, and errors of
/// different sources are told apart.
pub proof fn an_agent_error_tells_its_message(error: AgentError)
    ensures
        match error {
            AgentError::Provider(e) => error.shown() == e@.shown(),
            AgentError::Tool(e) => error.shown() == "tool error: "@ + e@,
            AgentError::Schema(message) => error.shown() == "invalid tool arguments: "@ + message@,
            AgentError::Mcp(message) => error.shown() == "mcp error: "@ + message@,
            AgentError::Skill(message) => error.shown() == "skill error: "@ + message@,
            AgentError::Context(message) => error.shown() == "context error: "@ + message@,
        },
{
}

/// The log form tells what happened too: the message as the standard library quotes
/// it, and for an error response its status, its kind and the delay it asks for.
pub proof fn a_log_form_tells_what_happened(
    message: Seq<char>,
    kind: Seq<char>,
    status: u16,
    retry_after: Option<Duration>,
    body: Seq<char>,
)
    ensures
        text::holds_text(
            (ProviderErrorView::Transport(message)).debug_shown(),
            text::quoted(message),
        ),
        text::holds_text(
            (ProviderErrorView::InvalidArgument(message)).debug_shown(),
            text::quoted(message),
        ),
        ({
            let shown = (ProviderErrorView::Decode { err: message, body }).debug_shown();
            &&& text::holds_text(shown, text::quoted(message))
            &&& text::holds_text(shown, text::decimal(byte_len(body)))
            &&& byte_len(body) <= 64 ==> text::holds_text(shown, text::quoted(body))
        }),
        ({
            let shown =
                (ProviderErrorView::Api { status, kind, message, retry_after }).debug_shown();
            &&& text::holds_text(shown, text::quoted(message))
            &&& text::holds_text(shown, text::quoted(kind))
            &&& text::holds_text(shown, text::decimal(status as nat))
            &&& retry_after matches Some(delay) ==> text::holds_text(
                shown,
                retry::duration_shown(delay),
            )
        }),
{
    let q = text::quoted(message);
    text::a_text_holds_its_parts("Transport("@, q, ")"@);
    text::a_text_holds_its_parts("InvalidArgument("@, q, ")"@);
    a_decode_body_is_shown_up_to_the_limit(body);
    reveal_with_fuel(text::first_parts, 9);
    let decode = seq![
        "Decode { err: "@,
        q,
        ", body_len: "@,
        text::decimal(byte_len(body)),
        ", body_prefix: "@,
        text::quoted(shown_prefix(body)),
        " }"@,
    ];
    text::a_run_of_parts_stands(decode, 1, 2, 7);
    text::a_run_of_parts_stands(decode, 3, 4, 7);
    text::a_run_of_parts_stands(decode, 5, 6, 7);
    let api = seq![
        "Api { status: "@,
        text::decimal(status as nat),
        ", kind: "@,
        text::quoted(kind),
        ", message: "@,
        q,
        ", retry_after: "@,
        shown_delay(retry_after),
        " }"@,
    ];
    text::a_run_of_parts_stands(api, 1, 2, 9);
    text::a_run_of_parts_stands(api, 3, 4, 9);
    text::a_run_of_parts_stands(api, 5, 6, 9);
    text::a_run_of_parts_stands(api, 7, 8, 9);
    if let Some(delay) = retry_after {
        text::a_text_holds_its_parts("Some("@, retry::duration_shown(delay), ")"@);
        text::holding_goes_through(
            (ProviderErrorView::Api { status, kind, message, retry_after }).debug_shown(),
            shown_delay(retry_after),
            retry::duration_shown(delay),
        );
    }
}

} // verus!
