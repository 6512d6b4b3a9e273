//! The provider abstraction: requests, responses and streaming events.
//!
//! Each provider maps its own wire format in and out of these, accumulating
//! streamed tool-call fragments so that a [`StreamEvent::ToolCall`] is only
//! emitted whole.

pub mod claude;
pub mod openai;

use crate::cache::{CacheStrategy, CacheStrategyView};
use crate::error::{ProviderError, ProviderErrorView};
use crate::json::{Json, JsonView, Members};
use crate::message::{
    AssistantContent, AssistantContentView, Message, MessageView, SystemPrompt, SystemPromptView,
};
use crate::text;
use crate::usage::Usage;
use crate::views;
use std::time::Duration;
use vstd::prelude::*;

verus! {

/// A tool definition as sent to the provider.
#[derive(Debug, PartialEq, Eq)]
pub struct ToolDef {
    /// Tool name, unique within a request.
    pub name: String,
    /// Description by which the model decides when to call it.
    pub description: String,
    /// JSON Schema object describing the arguments.
    pub parameters: Json,
    /// Ask for strict schema adherence where the provider supports it.
    pub strict: bool,
    /// Put a prompt-cache breakpoint after this tool.
    pub cache: bool,
}

/// What a [`ToolDef`] stands for.
#[verifier::ext_equal]
pub struct ToolDefView {
    /// Tool name, unique within a request.
    pub name: Seq<char>,
    /// Description by which the model decides when to call it.
    pub description: Seq<char>,
    /// JSON Schema object describing the arguments.
    pub parameters: JsonView,
    /// Ask for strict schema adherence where the provider supports it.
    pub strict: bool,
    /// Put a prompt-cache breakpoint after this tool.
    pub cache: bool,
}

impl View for ToolDef {
    type V = ToolDefView;

    open spec fn view(&self) -> ToolDefView {
        ToolDefView {
            name: self.name@,
            description: self.description@,
            parameters: self.parameters@,
            strict: self.strict,
            cache: self.cache,
        }
    }
}

impl Clone for ToolDef {
    fn clone(&self) -> (copy: Self)
        ensures
            copy@ == self@,
    {
        let copy = ToolDef {
            name: self.name.clone(),
            description: self.description.clone(),
            parameters: self.parameters.clone(),
            strict: self.strict,
            cache: self.cache,
        };
        copy
    }
}

/// Whether and how the model may call tools.
#[derive(Debug, PartialEq, Eq)]
pub enum ToolChoice {
    /// The model decides freely.
    Auto,
    /// The model must call at least one tool.
    Any,
    /// The model must call exactly one tool.
    Required,
    /// The model may not call tools.
    Disabled,
    /// Force a specific tool by name.
    Tool(String),
}

/// What a [`ToolChoice`] stands for.
#[verifier::ext_equal]
pub enum ToolChoiceView {
    /// The model decides freely.
    Auto,
    /// The model must call at least one tool.
    Any,
    /// The model must call exactly one tool.
    Required,
    /// The model may not call tools.
    Disabled,
    /// Force a specific tool by name.
    Tool(Seq<char>),
}

impl View for ToolChoice {
    type V = ToolChoiceView;

    open spec fn view(&self) -> ToolChoiceView {
        match *self {
            ToolChoice::Auto => ToolChoiceView::Auto,
            ToolChoice::Any => ToolChoiceView::Any,
            ToolChoice::Required => ToolChoiceView::Required,
            ToolChoice::Disabled => ToolChoiceView::Disabled,
            ToolChoice::Tool(x) => ToolChoiceView::Tool(x@),
        }
    }
}

impl Clone for ToolChoice {
    fn clone(&self) -> (copy: Self)
        ensures
            copy@ == self@,
    {
        match self {
            ToolChoice::Auto => ToolChoice::Auto,
            ToolChoice::Any => ToolChoice::Any,
            ToolChoice::Required => ToolChoice::Required,
            ToolChoice::Disabled => ToolChoice::Disabled,
            ToolChoice::Tool(x) => ToolChoice::Tool(x.clone()),
        }
    }
}

/// Extended-thinking configuration.
#[derive(Debug, Clone, Copy, PartialEq, Eq, Structural)]
pub enum ThinkingConfig {
    /// No extended thinking.
    Off,
    /// Enabled with a provider-chosen budget.
    Adaptive,
    /// Enabled with an explicit token budget.
    Budget(u32),
}

/// Why generation stopped.
#[derive(Debug, PartialEq, Eq)]
pub enum StopReason {
    /// Natural end of the assistant turn.
    EndTurn,
    /// Hit the token limit.
    MaxTokens,
    /// Emitted one of the configured stop sequences.
    StopSequence(String),
    /// The model produced tool calls and waits for results.
    ToolUse,
    /// The model refused on policy grounds.
    Refusal,
    /// A long turn was paused and should be resumed.
    Pause,
    /// An unrecognised value, kept as it came.
    Other(String),
}

/// What a [`StopReason`] stands for.
#[verifier::ext_equal]
pub enum StopReasonView {
    /// Natural end of the assistant turn.
    EndTurn,
    /// Hit the token limit.
    MaxTokens,
    /// Emitted one of the configured stop sequences.
    StopSequence(Seq<char>),
    /// The model produced tool calls and waits for results.
    ToolUse,
    /// The model refused on policy grounds.
    Refusal,
    /// A long turn was paused and should be resumed.
    Pause,
    /// An unrecognised value, kept as it came.
    Other(Seq<char>),
}

impl View for StopReason {
    type V = StopReasonView;

    open spec fn view(&self) -> StopReasonView {
        match *self {
            StopReason::EndTurn => StopReasonView::EndTurn,
            StopReason::MaxTokens => StopReasonView::MaxTokens,
            StopReason::StopSequence(x) => StopReasonView::StopSequence(x@),
            StopReason::ToolUse => StopReasonView::ToolUse,
            StopReason::Refusal => StopReasonView::Refusal,
            StopReason::Pause => StopReasonView::Pause,
            StopReason::Other(x) => StopReasonView::Other(x@),
        }
    }
}

impl Clone for StopReason {
    fn clone(&self) -> (copy: Self)
        ensures
            copy@ == self@,
    {
        match self {
            StopReason::EndTurn => StopReason::EndTurn,
            StopReason::MaxTokens => StopReason::MaxTokens,
            StopReason::StopSequence(x) => StopReason::StopSequence(x.clone()),
            StopReason::ToolUse => StopReason::ToolUse,
            StopReason::Refusal => StopReason::Refusal,
            StopReason::Pause => StopReason::Pause,
            StopReason::Other(x) => StopReason::Other(x.clone()),
        }
    }
}

/// A request to a provider.
#[derive(Debug, PartialEq, Eq)]
pub struct ChatRequest {
    /// Model id.
    pub model: String,
    /// Optional system prompt.
    pub system: Option<SystemPrompt>,
    /// Conversation history.
    pub messages: Vec<Message>,
    /// Tools available this turn.
    pub tools: Vec<ToolDef>,
    /// Tool-choice policy.
    pub tool_choice: ToolChoice,
    /// Maximum tokens to generate.
    pub max_tokens: u32,
    /// Sampling temperature as a JSON number, if overriding the default.
    pub temperature: Option<Json>,
    /// Stop sequences.
    pub stop_sequences: Vec<String>,
    /// Extended-thinking configuration.
    pub thinking: ThinkingConfig,
    /// Prompt-cache strategy.
    pub cache: CacheStrategy,
    /// Cache-routing key of this conversation.
    pub cache_key: Option<String>,
    /// Raw members merged into the request body.
    pub extra: Members,
}

/// What a [`ChatRequest`] stands for.
#[verifier::ext_equal]
pub struct ChatRequestView {
    /// Model id.
    pub model: Seq<char>,
    /// Optional system prompt.
    pub system: Option<SystemPromptView>,
    /// Conversation history.
    pub messages: Seq<MessageView>,
    /// Tools available this turn.
    pub tools: Seq<ToolDefView>,
    /// Tool-choice policy.
    pub tool_choice: ToolChoiceView,
    /// Maximum tokens to generate.
    pub max_tokens: u32,
    /// Sampling temperature as a JSON number, if overriding the default.
    pub temperature: Option<JsonView>,
    /// Stop sequences.
    pub stop_sequences: Seq<Seq<char>>,
    /// Extended-thinking configuration.
    pub thinking: ThinkingConfig,
    /// Prompt-cache strategy.
    pub cache: CacheStrategyView,
    /// Cache-routing key of this conversation.
    pub cache_key: Option<Seq<char>>,
    /// Raw members merged into the request body.
    pub extra: Map<Seq<char>, JsonView>,
}

impl View for ChatRequest {
    type V = ChatRequestView;

    open spec fn view(&self) -> ChatRequestView {
        ChatRequestView {
            model: self.model@,
            system: views::optional(self.system),
            messages: views::each(self.messages@),
            tools: views::each(self.tools@),
            tool_choice: self.tool_choice@,
            max_tokens: self.max_tokens,
            temperature: views::optional(self.temperature),
            stop_sequences: views::each(self.stop_sequences@),
            thinking: self.thinking,
            cache: self.cache@,
            cache_key: views::optional(self.cache_key),
            extra: self.extra@,
        }
    }
}

impl Clone for ChatRequest {
    fn clone(&self) -> (copy: Self)
        ensures
            copy@ == self@,
    {
        let copy = ChatRequest {
            model: self.model.clone(),
            system: self.system.clone(),
            messages: self.messages.clone(),
            tools: self.tools.clone(),
            tool_choice: self.tool_choice.clone(),
            max_tokens: self.max_tokens,
            temperature: self.temperature.clone(),
            stop_sequences: self.stop_sequences.clone(),
            thinking: self.thinking,
            cache: self.cache.clone(),
            cache_key: self.cache_key.clone(),
            extra: self.extra.clone(),
        };
        assert(copy@.messages =~= self@.messages);
        assert(copy@.tools =~= self@.tools);
        assert(copy@.stop_sequences =~= self@.stop_sequences);
        copy
    }
}

/// A non-streamed provider response.
#[derive(Debug)]
pub struct ChatResponse {
    /// Assistant output blocks.
    pub content: Vec<AssistantContent>,
    /// Why generation stopped.
    pub stop: StopReason,
    /// Token usage for this request.
    pub usage: Usage,
}

/// What a [`ChatResponse`] stands for.
#[verifier::ext_equal]
pub struct ChatResponseView {
    /// Assistant output blocks.
    pub content: Seq<AssistantContentView>,
    /// Why generation stopped.
    pub stop: StopReasonView,
    /// Token usage for this request.
    pub usage: Usage,
}

impl View for ChatResponse {
    type V = ChatResponseView;

    open spec fn view(&self) -> ChatResponseView {
        ChatResponseView {
            content: views::each(self.content@),
            stop: self.stop@,
            usage: self.usage,
        }
    }
}

impl Clone for ChatResponse {
    fn clone(&self) -> (copy: Self)
        ensures
            copy@ == self@,
    {
        let copy = ChatResponse {
            content: self.content.clone(),
            stop: self.stop.clone(),
            usage: self.usage,
        };
        assert(copy@.content =~= self@.content);
        copy
    }
}

/// A normalised streaming event.
#[derive(Debug, PartialEq, Eq)]
pub enum StreamEvent {
    /// Stream opened.
    Start {
        /// Usage known at the start.
        usage: Usage,
    },
    /// A chunk of assistant text.
    TextDelta(String),
    /// A chunk of reasoning text.
    ReasoningDelta(String),
    /// A chunk of a reasoning integrity signature.
    SignatureDelta(String),
    /// A complete tool call.
    ToolCall {
        /// Tool-call id.
        id: String,
        /// Tool name.
        name: String,
        /// Argument text as the model emitted it, not yet parsed.
        arguments: String,
    },
    /// Stream finished.
    End {
        /// Why generation stopped.
        stop: StopReason,
        /// Final usage for the request.
        usage: Usage,
    },
}

/// What a [`StreamEvent`] stands for.
#[verifier::ext_equal]
pub enum StreamEventView {
    /// Stream opened.
    Start {
        /// Usage known at the start.
        usage: Usage,
    },
    /// A chunk of assistant text.
    TextDelta(Seq<char>),
    /// A chunk of reasoning text.
    ReasoningDelta(Seq<char>),
    /// A chunk of a reasoning integrity signature.
    SignatureDelta(Seq<char>),
    /// A complete tool call.
    ToolCall {
        /// Tool-call id.
        id: Seq<char>,
        /// Tool name.
        name: Seq<char>,
        /// Argument text as the model emitted it, not yet parsed.
        arguments: Seq<char>,
    },
    /// Stream finished.
    End {
        /// Why generation stopped.
        stop: StopReasonView,
        /// Final usage for the request.
        usage: Usage,
    },
}

impl View for StreamEvent {
    type V = StreamEventView;

    open spec fn view(&self) -> StreamEventView {
        match *self {
            StreamEvent::Start { usage } => StreamEventView::Start {
                usage,
            },
            StreamEvent::TextDelta(x) => StreamEventView::TextDelta(x@),
            StreamEvent::ReasoningDelta(x) => StreamEventView::ReasoningDelta(x@),
            StreamEvent::SignatureDelta(x) => StreamEventView::SignatureDelta(x@),
            StreamEvent::ToolCall { id, name, arguments } => StreamEventView::ToolCall {
                id: id@,
                name: name@,
                arguments: arguments@,
            },
            StreamEvent::End { stop, usage } => StreamEventView::End {
                stop: stop@,
                usage,
            },
        }
    }
}

impl Clone for StreamEvent {
    fn clone(&self) -> (copy: Self)
        ensures
            copy@ == self@,
    {
        match self {
            StreamEvent::Start { usage } => StreamEvent::Start {
                usage: *usage,
            },
            StreamEvent::TextDelta(x) => StreamEvent::TextDelta(x.clone()),
            StreamEvent::ReasoningDelta(x) => StreamEvent::ReasoningDelta(x.clone()),
            StreamEvent::SignatureDelta(x) => StreamEvent::SignatureDelta(x.clone()),
            StreamEvent::ToolCall { id, name, arguments } => StreamEvent::ToolCall {
                id: id.clone(),
                name: name.clone(),
                arguments: arguments.clone(),
            },
            StreamEvent::End { stop, usage } => StreamEvent::End {
                stop: stop.clone(),
                usage: *usage,
            },
        }
    }
}

impl ToolDef {
    /// A minimal tool definition (non-strict, uncached).
    pub fn new(name: String, description: String, parameters: Json) -> (def: Self)
        ensures
            def == (ToolDef { name, description, parameters, strict: false, cache: false }),
    {
        ToolDef { name, description, parameters, strict: false, cache: false }
    }
}

impl Default for ToolChoice {
    fn default() -> (choice: Self)
        ensures
            choice == ToolChoice::Auto,
    {
        ToolChoice::Auto
    }
}

impl Default for ThinkingConfig {
    fn default() -> (config: Self)
        ensures
            config == ThinkingConfig::Off,
    {
        ThinkingConfig::Off
    }
}

impl Default for StopReason {
    fn default() -> (reason: Self)
        ensures
            reason == StopReason::EndTurn,
    {
        StopReason::EndTurn
    }
}

impl ChatRequestView {
    /// The request for `model` with nothing else set.
    pub open spec fn plain(model: Seq<char>) -> ChatRequestView {
        ChatRequestView {
            model,
            system: None,
            messages: Seq::empty(),
            tools: Seq::empty(),
            tool_choice: ToolChoiceView::Auto,
            max_tokens: 4096,
            temperature: None,
            stop_sequences: Seq::empty(),
            thinking: ThinkingConfig::Off,
            cache: CacheStrategyView::Auto,
            cache_key: None,
            extra: Map::empty(),
        }
    }
}

impl ChatRequest {
    /// A request for `model` with sensible defaults: 4096 tokens at most, the
    /// model decides on tools, caching is automatic.
    pub fn new(model: String) -> (request: Self)
        ensures
            request@ == ChatRequestView::plain(model@),
    {
        let request = ChatRequest {
            model,
            system: None,
            messages: Vec::new(),
            tools: Vec::new(),
            tool_choice: ToolChoice::Auto,
            max_tokens: 4096,
            temperature: None,
            stop_sequences: Vec::new(),
            thinking: ThinkingConfig::Off,
            cache: CacheStrategy::Auto,
            cache_key: None,
            extra: Members::new(),
        };
        assert(request@ =~= ChatRequestView::plain(model@));
        request
    }
}

/// What the `base64` crate's standard engine (padded, standard alphabet)
/// encodes bytes to.
pub uninterp spec fn base64_text(bytes: Seq<u8>) -> Seq<char>;

/// `base64::engine::general_purpose::STANDARD`'s `encode`.
#[verifier::external_body]
pub(crate) fn base64_encode(bytes: &[u8]) -> (encoded: String)
    ensures
        encoded@ == base64_text(bytes@),
{
    base64::Engine::encode(&base64::engine::general_purpose::STANDARD, bytes)
}

/// The error that an error response stands for: its structured kind and
/// message, and nothing else of the body. `parsed` is the body, where it is
/// JSON.
pub open spec fn api_error_view(
    status: u16,
    parsed: Option<JsonView>,
    retry_after: Option<Duration>,
) -> ProviderErrorView {
    let kind = match error_member(parsed, "type"@) {
        Some(kind) => kind,
        None => "api_error"@,
    };
    ProviderErrorView::Api {
        status,
        kind,
        message: match error_member(parsed, "message"@) {
            Some(message) => message,
            None => "provider error: "@ + text::decimal(status as nat) + " "@ + kind,
        },
        retry_after,
    }
}

/// A string of the error object of a body.
pub open spec fn error_member(parsed: Option<JsonView>, key: Seq<char>) -> Option<Seq<char>> {
    match parsed {
        Some(body) => match body.member("error"@) {
            Some(error) => error.text_at(key),
            None => None,
        },
        None => None,
    }
}

/// The value that a text holds, where it is JSON.
pub open spec fn read_json(text: Seq<char>) -> Option<JsonView> {
    match crate::json::json_of_text(text) {
        Ok(value) => Some(value),
        Err(_) => None,
    }
}

/// Builds the error for an error response whose body reads as `parsed`.
pub fn api_error_of(
    status: u16,
    parsed: Option<&Json>,
    retry_after: Option<Duration>,
) -> (error: ProviderError)
    ensures
        error@ == api_error_view(status, crate::json::json_option(parsed), retry_after),
{
    let error = match parsed {
        Some(body) => body.get("error"),
        None => None,
    };
    let kind = match error {
        Some(e) => match e.str_at("type") {
            Some(kind) => kind.to_owned(),
            None => "api_error".to_owned(),
        },
        None => "api_error".to_owned(),
    };
    let stated = match error {
        Some(e) => e.str_at("message"),
        None => None,
    };
    let message = match stated {
        Some(message) => message.to_owned(),
        None => {
            let mut message = "provider error: ".to_owned();
            message.append(text::decimal_text(status as u64).as_str());
            message.append(" ");
            message.append(kind.as_str());
            message
        },
    };
    ProviderError::Api { status, kind, message, retry_after }
}

/// Builds the error for an error response. The raw body is never kept, since it
/// can echo parts of the request.
pub fn api_error(status: u16, body: &str, retry_after: Option<Duration>) -> (error: ProviderError)
    ensures
        error@ == api_error_view(status, read_json(body@), retry_after),
{
    match Json::parse(body) {
        Ok(parsed) => api_error_of(status, Some(&parsed), retry_after),
        Err(_) => api_error_of(status, None, retry_after),
    }
}

/// Two error bodies with the same structured kind and message give the same
/// error: nothing else of a body is ever shown.
pub proof fn an_api_error_shows_nothing_else_of_a_body(
    status: u16,
    body: Seq<char>,
    other: Seq<char>,
    retry_after: Option<Duration>,
)
    requires
        error_member(read_json(body), "type"@) == error_member(read_json(other), "type"@),
        error_member(read_json(body), "message"@) == error_member(read_json(other), "message"@),
    ensures
        api_error_view(status, read_json(body), retry_after) == api_error_view(
            status,
            read_json(other),
            retry_after,
        ),
{
}

/// The number that decimal digits stand for; `None` where one is no digit.
pub open spec fn digits_value(digits: Seq<char>) -> Option<nat>
    decreases digits.len(),
{
    if digits.len() == 0 {
        Some(0)
    } else {
        match digits_value(digits.drop_last()) {
            Some(high) => if '0' <= digits.last() && digits.last() <= '9' {
                Some(high * 10 + (digits.last() as nat - '0' as nat) as nat)
            } else {
                None
            },
            None => None,
        }
    }
}

/// The `u64` that a text stands for: decimal digits, with an optional `+`
/// before them.
pub open spec fn u64_of(number: Seq<char>) -> Option<u64> {
    let digits = if number.len() > 0 && number[0] == '+' {
        number.drop_first()
    } else {
        number
    };
    match digits_value(digits) {
        Some(n) => if digits.len() > 0 && n <= u64::MAX {
            Some(n as u64)
        } else {
            None
        },
        None => None,
    }
}

/// Reads a `u64` from text.
pub fn parse_u64(number: &str) -> (value: Option<u64>)
    ensures
        value == u64_of(number@),
{
    let chars = text::chars_of(number);
    let start: usize = if chars.len() > 0 && chars[0] == '+' {
        1
    } else {
        0
    };
    let ghost digits = chars@.skip(start as int);
    proof {
        if start == 1 {
            assert(digits =~= number@.drop_first());
        } else {
            assert(digits =~= number@);
        }
    }
    if start == chars.len() {
        return None;
    }
    let mut total: u64 = 0;
    let mut i: usize = start;
    assert(digits.take(0) =~= Seq::empty());
    while i < chars.len()
        invariant
            start <= i <= chars@.len(),
            start < chars@.len(),
            digits == chars@.skip(start as int),
            digits_value(digits.take(i - start)) == Some(total as nat),
            u64_of(number@) == (match digits_value(digits) {
                Some(n) => if n <= u64::MAX {
                    Some(n as u64)
                } else {
                    None
                },
                None => None,
            }),
        decreases chars@.len() - i,
    {
        let c = chars[i];
        proof {
            assert(digits.take(i - start + 1).drop_last() =~= digits.take(i - start));
            assert(digits.take(i - start + 1).last() == c);
        }
        if c < '0' || c > '9' {
            proof {
                lemma_no_value(digits, i - start + 1);
            }
            return None;
        }
        let code: u32 = c as u32;
        assert(48 <= code <= 57);
        let d: u64 = (code - 48) as u64;
        proof {
            assert(digits_value(digits.take(i - start + 1)) == Some((total * 10 + d) as nat));
        }
        if total > (u64::MAX - d) / 10 {
            proof {
                lemma_value_grows(digits, i - start + 1);
                assert(total * 10 + d > u64::MAX);
            }
            return None;
        }
        total = total * 10 + d;
        i = i + 1;
    }
    assert(digits.take(i - start) =~= digits);
    Some(total)
}

/// A prefix without a value leaves the whole without one.
proof fn lemma_no_value(digits: Seq<char>, n: int)
    requires
        0 <= n <= digits.len(),
        digits_value(digits.take(n)) is None,
    ensures
        digits_value(digits) is None,
    decreases digits.len(),
{
    if n < digits.len() {
        assert(digits.drop_last().take(n) =~= digits.take(n));
        lemma_no_value(digits.drop_last(), n);
    } else {
        assert(digits.take(n) =~= digits);
    }
}

/// More digits never make a number smaller.
proof fn lemma_value_grows(digits: Seq<char>, n: int)
    requires
        0 <= n <= digits.len(),
        digits_value(digits.take(n)) is Some,
    ensures
        digits_value(digits) matches Some(v) ==> v >= digits_value(digits.take(n))->0,
    decreases digits.len(),
{
    if n < digits.len() {
        assert(digits.drop_last().take(n) =~= digits.take(n));
        lemma_value_grows(digits.drop_last(), n);
    } else {
        assert(digits.take(n) =~= digits);
    }
}

/// Reads the value of a `Retry-After` header: a number of seconds. An absent
/// header, an HTTP date and anything else give `None`.
pub fn parse_retry_after(value: Option<&str>) -> (delay: Option<Duration>)
    ensures
        match value {
            None => delay is None,
            Some(v) => match u64_of(text::trimmed(v@)) {
                None => delay is None,
                Some(secs) => delay is Some && crate::retry::nanos(delay->0) == secs
                    * 1_000_000_000,
            },
        },
{
    match value {
        None => None,
        Some(v) => match parse_u64(text::trim(v).as_str()) {
            Some(secs) => Some(Duration::from_secs(secs)),
            None => None,
        },
    }
}

/// The request's model id when it has one, else the handle's own.
pub open spec fn picked_model(bound: Seq<char>, requested: Seq<char>) -> Seq<char> {
    if requested.len() == 0 {
        bound
    } else {
        requested
    }
}

/// The request's model id when it has one, else the handle's own.
pub fn pick_model(bound: &str, request: &ChatRequest) -> (model: String)
    ensures
        model@ == picked_model(bound@, request@.model),
{
    if request.model.as_str().is_empty() {
        bound.to_owned()
    } else {
        request.model.clone()
    }
}

/// A status that reports success.
pub open spec fn is_success(status: u16) -> bool {
    200 <= status < 300
}

/// The body of a response as JSON: an error for an error status, and for a body
/// that is no JSON.
pub open spec fn response_body(
    status: u16,
    body: Seq<char>,
    retry_after: Option<Duration>,
) -> Result<JsonView, ProviderErrorView> {
    if !is_success(status) {
        Err(api_error_view(status, read_json(body), retry_after))
    } else {
        match crate::json::json_of_text(body) {
            Ok(value) => Ok(value),
            Err(err) => Err(ProviderErrorView::Decode { err, body }),
        }
    }
}

/// Reads the body of a response.
pub fn read_body(
    status: u16,
    body: &str,
    retry_after: Option<Duration>,
) -> (value: Result<Json, ProviderError>)
    ensures
        response_body(status, body@, retry_after) == (match value {
            Ok(v) => Ok::<JsonView, ProviderErrorView>(v@),
            Err(e) => Err(e@),
        }),
{
    if status < 200 || status >= 300 {
        return Err(api_error(status, body, retry_after));
    }
    match Json::parse(body) {
        Ok(value) => Ok(value),
        Err(err) => Err(ProviderError::Decode { err, body: body.to_owned() }),
    }
}

/// A token count, or zero where there is none.
pub open spec fn count_or_zero(n: Option<u64>) -> u64 {
    match n {
        Some(n) => n,
        None => 0,
    }
}

pub(crate) fn or_zero(n: Option<u64>) -> (count: u64)
    ensures
        count == count_or_zero(n),
{
    match n {
        Some(n) => n,
        None => 0,
    }
}

/// The whole argument text of a call: an empty one means "no arguments".
pub open spec fn whole_arguments(arguments: Seq<char>) -> Seq<char> {
    if text::trimmed(arguments).len() == 0 {
        "{}"@
    } else {
        arguments
    }
}

/// The whole argument text of a call.
pub(crate) fn complete_arguments(arguments: String) -> (whole: String)
    ensures
        whole@ == whole_arguments(arguments@),
{
    if text::trim(arguments.as_str()).as_str().is_empty() {
        "{}".to_owned()
    } else {
        arguments
    }
}

/// The arguments of a call are passed on as they came, unless they are blank: then
/// the call has none.
pub proof fn arguments_are_passed_on(arguments: Seq<char>)
    ensures
        (exists|i: int|
            0 <= i < arguments.len() && !text::white_space(#[trigger] arguments[i]))
            ==> whole_arguments(arguments) == arguments,
        (forall|i: int| 0 <= i < arguments.len() ==> text::white_space(#[trigger] arguments[i]))
            ==> whole_arguments(arguments) == "{}"@,
{
    text::trimming_takes_white_space_alone(arguments);
}

/// An error response becomes an error of its status: with the kind and the message
/// that its error object states, and with the delay that the headers asked for. What
/// the object does not state is filled in from the status and the kind.
pub proof fn an_api_error_tells_what_the_body_states(
    status: u16,
    parsed: Option<JsonView>,
    error: JsonView,
    retry_after: Option<Duration>,
)
    ensures
        api_error_view(status, parsed, retry_after) is Api,
        api_error_view(status, parsed, retry_after)->status == status,
        api_error_view(status, parsed, retry_after)->retry_after == retry_after,
        (parsed matches Some(body) && body.member("error"@) == Some(error)) ==> {
            let shown = api_error_view(status, parsed, retry_after);
            &&& error.text_at("type"@) matches Some(kind) ==> shown->kind == kind
            &&& error.text_at("type"@) is None ==> shown->kind == "api_error"@
            &&& error.text_at("message"@) matches Some(message) ==> shown->message == message
            &&& error.text_at("message"@) is None ==> text::holds_text(shown->message, shown->kind)
                && text::holds_text(shown->message, text::decimal(status as nat))
        },
        (parsed matches Some(body) ==> body.member("error"@) is None) ==> {
            let shown = api_error_view(status, parsed, retry_after);
            &&& shown->kind == "api_error"@
            &&& text::holds_text(shown->message, text::decimal(status as nat))
        },
{
    let kind = api_error_view(status, parsed, retry_after)->kind;
    let digits = text::decimal(status as nat);
    let parts = seq!["provider error: "@, digits, " "@, kind];
    reveal_with_fuel(text::first_parts, 4);
    text::a_run_of_parts_stands(parts, 1, 2, 4);
    text::a_run_of_parts_stands(parts, 3, 4, 4);
}

/// A response is read exactly where its status reports success, and what is read is
/// what its text holds. Any other status gives an error of that status.
pub proof fn a_response_is_read_on_success_alone(
    status: u16,
    body: Seq<char>,
    retry_after: Option<Duration>,
)
    ensures
        response_body(status, body, retry_after) is Ok ==> 200 <= status <= 299,
        200 <= status <= 299 ==> match crate::json::json_of_text(body) {
            Ok(value) => response_body(status, body, retry_after) == Ok::<
                JsonView,
                ProviderErrorView,
            >(value),
            Err(err) => response_body(status, body, retry_after) == Err::<
                JsonView,
                ProviderErrorView,
            >(ProviderErrorView::Decode { err, body }),
        },
        status < 200 || status > 299 ==> response_body(status, body, retry_after) == Err::<
            JsonView,
            ProviderErrorView,
        >(api_error_view(status, read_json(body), retry_after)),
        crate::json::json_of_text(body) matches Ok(value) ==> read_json(body) == Some(value),
        crate::json::json_of_text(body) is Err ==> read_json(body) is None,
{
}

/// A number written in decimal reads back as that number, with or without a sign
/// before it, unless it is too large.
pub proof fn a_written_number_reads_back(n: nat)
    ensures
        digits_value(text::decimal(n)) == Some(n),
        text::decimal(n).len() > 0,
        n <= u64::MAX ==> u64_of(text::decimal(n)) == Some(n as u64),
        n <= u64::MAX ==> u64_of(seq!['+'] + text::decimal(n)) == Some(n as u64),
        n > u64::MAX ==> u64_of(text::decimal(n)) is None,
{
    lemma_decimal_reads_back(n);
    assert((seq!['+'] + text::decimal(n)).drop_first() =~= text::decimal(n));
}

proof fn lemma_decimal_reads_back(n: nat)
    ensures
        digits_value(text::decimal(n)) == Some(n),
        text::decimal(n).len() > 0,
        '0' <= text::decimal(n)[0] <= '9',
    decreases n,
{
    reveal_with_fuel(digits_value, 2);
    if n < 10 {
        assert(seq![text::digit(n)].drop_last() =~= Seq::<char>::empty());
    } else {
        lemma_decimal_reads_back(n / 10);
        assert(text::decimal(n).drop_last() =~= text::decimal(n / 10));
    }
}

/// Only decimal digits are a number: anything else in the text, but for one sign at
/// its start, leaves none, and so does a text without digits.
pub proof fn only_digits_are_a_number(number: Seq<char>, i: int)
    ensures
        number.len() == 0 ==> u64_of(number) is None,
        number == seq!['+'] ==> u64_of(number) is None,
        (0 <= i < number.len() && !('0' <= number[i] <= '9') && !(i == 0 && number[0] == '+'))
            ==> u64_of(number) is None,
{
    if 0 <= i < number.len() && !('0' <= number[i] <= '9') && !(i == 0 && number[0] == '+') {
        if number[0] == '+' {
            lemma_no_digit(number.drop_first(), i - 1);
        } else {
            lemma_no_digit(number, i);
        }
    }
}

proof fn lemma_no_digit(digits: Seq<char>, i: int)
    requires
        0 <= i < digits.len(),
        !('0' <= digits[i] <= '9'),
    ensures
        digits_value(digits) is None,
    decreases digits.len(),
{
    if i < digits.len() - 1 {
        lemma_no_digit(digits.drop_last(), i);
    }
}

/// A request names its model; one that names none goes to the model of the handle.
pub proof fn a_request_goes_to_the_model_it_names(bound: Seq<char>, requested: Seq<char>)
    ensures
        requested.len() > 0 ==> picked_model(bound, requested) == requested,
        requested.len() == 0 ==> picked_model(bound, requested) == bound,
{
}

/// A new request holds nothing but its model, and the documented defaults.
pub proof fn a_plain_request_asks_for_nothing_else(model: Seq<char>)
    ensures
        ({
            let plain = ChatRequestView::plain(model);
            &&& plain.model == model
            &&& plain.system is None
            &&& plain.messages.len() == 0
            &&& plain.tools.len() == 0
            &&& plain.tool_choice is Auto
            &&& plain.max_tokens == 4096
            &&& plain.temperature is None
            &&& plain.stop_sequences.len() == 0
            &&& plain.thinking is Off
            &&& plain.cache is Auto
            &&& plain.cache_key is None
            &&& plain.extra == Map::<Seq<char>, JsonView>::empty()
        }),
{
}

} // verus!
