//! The OpenAI Chat Completions wire format.
//!
//! Tool results become separate `role: "tool"` messages; assistant tool calls
//! carry their arguments as JSON text. A stream sends tool calls in fragments by
//! index; they are joined and emitted whole at its end.

use crate::collections;
use crate::error::{ProviderError, ProviderErrorView};
use crate::json::{text_or_empty, Json, JsonView, Members};
use crate::message::{
    AssistantContent, AssistantContentView, ImageSource, ImageSourceView, Message, MessageView,
    SystemPrompt, SystemPromptView, ToolResultPart, ToolResultPartView, UserContent,
    UserContentView,
};
use crate::provider;
use crate::provider::{
    base64_encode, complete_arguments, or_zero, ChatRequest, ChatRequestView, ChatResponse,
    ChatResponseView, StopReason, StopReasonView, StreamEvent, StreamEventView, ToolChoice,
    ToolChoiceView, ToolDef, ToolDefView,
};
use crate::text;
use crate::text::{chars_of, decode_lossy, join, strip_prefix, text_between, trim};
use crate::usage::Usage;
use crate::views;
use std::time::Duration;
use vstd::prelude::*;

verus! {

/// The text that stands for a part of a tool result.
pub open spec fn part_text(part: ToolResultPartView) -> Seq<char> {
    match part {
        ToolResultPartView::Text(text) => text,
        ToolResultPartView::Image(_) => "[image]"@,
    }
}

/// The text of a tool result: its parts, one per line.
pub open spec fn result_text(parts: Seq<ToolResultPartView>) -> Seq<char> {
    text::joined(parts.map_values(|p: ToolResultPartView| part_text(p)), "\n"@)
}

/// Renders a tool result as text, one part per line.
pub fn tool_result_text(content: &Vec<ToolResultPart>) -> (shown: String)
    ensures
        shown@ == result_text(views::each(content@)),
{
    let mut parts: Vec<String> = Vec::new();
    let mut i: usize = 0;
    while i < content.len()
        invariant
            i <= content@.len(),
            parts@.len() == i,
            forall|j: int| 0 <= j < i ==> (#[trigger] parts@[j])@ == part_text(content@[j]@),
        decreases content@.len() - i,
    {
        let part = match &content[i] {
            ToolResultPart::Text(t) => t.clone(),
            ToolResultPart::Image(_) => "[image]".to_owned(),
        };
        parts.push(part);
        i = i + 1;
    }
    assert(views::each(parts@) =~= views::each(content@).map_values(
        |p: ToolResultPartView| part_text(p),
    ));
    join(&parts, "\n")
}

/// The content part for an image.
pub open spec fn image_part(image: ImageSourceView) -> JsonView {
    match image {
        ImageSourceView::Url { url } => url_part(url),
        ImageSourceView::Base64 { media_type, data } => url_part(
            "data:"@ + media_type + ";base64,"@ + provider::base64_text(data),
        ),
        ImageSourceView::FileId { file_id } => JsonView::Object(
            map!["type"@ => JsonView::Text("input_image"@), "file_id"@ => JsonView::Text(file_id)],
        ),
    }
}

/// The content part for an image at a URL.
pub open spec fn url_part(url: Seq<char>) -> JsonView {
    JsonView::Object(
        map![
            "type"@ => JsonView::Text("image_url"@),
            "image_url"@ => JsonView::Object(map!["url"@ => JsonView::Text(url)]),
        ],
    )
}

fn map_url(url: &str) -> (json: Json)
    ensures
        json@ == url_part(url@),
{
    Json::object2(
        "type",
        Json::text("image_url"),
        "image_url",
        Json::object1("url", Json::text(url)),
    )
}

/// Maps an image to a content part.
fn map_image_block(image: &ImageSource) -> (json: Json)
    ensures
        json@ == image_part(image@),
{
    match image {
        ImageSource::Url { url } => map_url(url.as_str()),
        ImageSource::Base64 { media_type, data } => {
            let mut uri = "data:".to_owned();
            uri.append(media_type.as_str());
            uri.append(";base64,");
            uri.append(base64_encode(data.as_slice()).as_str());
            map_url(uri.as_str())
        },
        ImageSource::FileId { file_id } => Json::object2(
            "type",
            Json::text("input_image"),
            "file_id",
            Json::text(file_id.as_str()),
        ),
    }
}

/// The messages for the tool results of a user turn, in order.
pub open spec fn tool_messages(parts: Seq<UserContentView>) -> Seq<JsonView>
    decreases parts.len(),
{
    if parts.len() == 0 {
        Seq::empty()
    } else {
        let before = tool_messages(parts.drop_last());
        match parts.last() {
            UserContentView::ToolResult { id, content, is_error } => before.push(
                JsonView::Object(
                    map![
                        "role"@ => JsonView::Text("tool"@),
                        "tool_call_id"@ => JsonView::Text(id),
                        "content"@ => JsonView::Text(result_text(content)),
                    ],
                ),
            ),
            _ => before,
        }
    }
}

/// Whether a user turn holds an image.
pub open spec fn has_image(parts: Seq<UserContentView>) -> bool {
    exists|i: int| 0 <= i < parts.len() && #[trigger] parts[i] is Image
}

/// The content parts of a user turn: its texts and images, in order.
pub open spec fn content_parts(parts: Seq<UserContentView>) -> Seq<JsonView>
    decreases parts.len(),
{
    if parts.len() == 0 {
        Seq::empty()
    } else {
        let before = content_parts(parts.drop_last());
        match parts.last() {
            UserContentView::Text(t) => before.push(
                JsonView::Object(
                    map!["type"@ => JsonView::Text("text"@), "text"@ => JsonView::Text(t)],
                ),
            ),
            UserContentView::Image(image) => before.push(image_part(image)),
            UserContentView::ToolResult { .. } => before,
        }
    }
}

/// The texts of a user turn, in order.
pub open spec fn user_texts(parts: Seq<UserContentView>) -> Seq<Seq<char>>
    decreases parts.len(),
{
    if parts.len() == 0 {
        Seq::empty()
    } else {
        let before = user_texts(parts.drop_last());
        match parts.last() {
            UserContentView::Text(t) => before.push(t),
            _ => before,
        }
    }
}

/// A user message with this content.
pub open spec fn user_message(content: JsonView) -> JsonView {
    JsonView::Object(map!["role"@ => JsonView::Text("user"@), "content"@ => content])
}

/// The messages for a user turn: one per tool result, then one for the rest,
/// if there is any. The rest is a list of parts where it holds an image, and
/// the joined text otherwise.
pub open spec fn user_messages(parts: Seq<UserContentView>) -> Seq<JsonView> {
    let shown = text::joined(user_texts(parts), "\n"@);
    if has_image(parts) {
        tool_messages(parts).push(user_message(JsonView::Array(content_parts(parts))))
    } else if shown.len() > 0 {
        tool_messages(parts).push(user_message(JsonView::Text(shown)))
    } else {
        tool_messages(parts)
    }
}

fn push_tool_messages(parts: &Vec<UserContent>, out: &mut Vec<Json>)
    ensures
        views::each(final(out)@) == views::each(old(out)@) + tool_messages(views::each(parts@)),
{
    let ghost start = views::each(out@);
    let ghost all = views::each(parts@);
    let mut i: usize = 0;
    assert(start + tool_messages(all.take(0)) =~= start);
    while i < parts.len()
        invariant
            i <= parts@.len(),
            all == views::each(parts@),
            views::each(out@) == start + tool_messages(all.take(i as int)),
        decreases parts@.len() - i,
    {
        let ghost before = out@;
        assert(all.take(i + 1).drop_last() =~= all.take(i as int));
        match &parts[i] {
            UserContent::ToolResult { id, content, is_error: _ } => {
                out.push(
                    Json::object3(
                        "role",
                        Json::text("tool"),
                        "tool_call_id",
                        Json::text(id.as_str()),
                        "content",
                        Json::Text(tool_result_text(content)),
                    ),
                );
                assert(views::each(out@) =~= views::each(before).push(out@.last()@));
                assert(views::each(out@) =~= start + tool_messages(all.take(i + 1)));
            },
            _ => {},
        }
        i = i + 1;
    }
    assert(all.take(i as int) =~= all);
}

fn map_content_parts(parts: &Vec<UserContent>) -> (items: Vec<Json>)
    ensures
        views::each(items@) == content_parts(views::each(parts@)),
{
    let ghost all = views::each(parts@);
    let mut items: Vec<Json> = Vec::new();
    let mut i: usize = 0;
    assert(views::each(items@) =~= content_parts(all.take(0)));
    while i < parts.len()
        invariant
            i <= parts@.len(),
            all == views::each(parts@),
            views::each(items@) == content_parts(all.take(i as int)),
        decreases parts@.len() - i,
    {
        let ghost before = items@;
        assert(all.take(i + 1).drop_last() =~= all.take(i as int));
        match &parts[i] {
            UserContent::Text(t) => {
                items.push(
                    Json::object2("type", Json::text("text"), "text", Json::text(t.as_str())),
                );
                assert(views::each(items@) =~= views::each(before).push(items@.last()@));
            },
            UserContent::Image(image) => {
                items.push(map_image_block(image));
                assert(views::each(items@) =~= views::each(before).push(items@.last()@));
            },
            UserContent::ToolResult { .. } => {},
        }
        i = i + 1;
    }
    assert(all.take(i as int) =~= all);
    items
}

fn collect_texts(parts: &Vec<UserContent>) -> (found: Vec<String>)
    ensures
        views::each(found@) == user_texts(views::each(parts@)),
{
    let ghost all = views::each(parts@);
    let mut found: Vec<String> = Vec::new();
    let mut i: usize = 0;
    assert(views::each(found@) =~= user_texts(all.take(0)));
    while i < parts.len()
        invariant
            i <= parts@.len(),
            all == views::each(parts@),
            views::each(found@) == user_texts(all.take(i as int)),
        decreases parts@.len() - i,
    {
        let ghost before = found@;
        assert(all.take(i + 1).drop_last() =~= all.take(i as int));
        match &parts[i] {
            UserContent::Text(t) => {
                found.push(t.clone());
                assert(views::each(found@) =~= views::each(before).push(found@.last()@));
            },
            _ => {},
        }
        i = i + 1;
    }
    assert(all.take(i as int) =~= all);
    found
}

fn holds_image(parts: &Vec<UserContent>) -> (found: bool)
    ensures
        found == has_image(views::each(parts@)),
{
    let ghost all = views::each(parts@);
    let mut i: usize = 0;
    while i < parts.len()
        invariant
            i <= parts@.len(),
            all == views::each(parts@),
            forall|j: int| 0 <= j < i ==> !(#[trigger] all[j] is Image),
        decreases parts@.len() - i,
    {
        assert(all[i as int] == parts@[i as int]@);
        match &parts[i] {
            UserContent::Image(_) => {
                return true;
            },
            _ => {},
        }
        i = i + 1;
    }
    false
}

/// Appends the messages for a user turn.
pub fn map_user_parts(parts: &Vec<UserContent>, out: &mut Vec<Json>)
    ensures
        views::each(final(out)@) == views::each(old(out)@) + user_messages(views::each(parts@)),
{
    let ghost start = views::each(out@);
    let ghost all = views::each(parts@);
    push_tool_messages(parts, out);
    let ghost before = out@;
    if holds_image(parts) {
        let content = Json::array(map_content_parts(parts));
        out.push(Json::object2("role", Json::text("user"), "content", content));
        assert(views::each(out@) =~= views::each(before).push(out@.last()@));
        assert(views::each(out@) =~= start + user_messages(all));
    } else {
        let found = collect_texts(parts);
        let shown = join(&found, "\n");
        if !shown.as_str().is_empty() {
            out.push(Json::object2("role", Json::text("user"), "content", Json::Text(shown)));
            assert(views::each(out@) =~= views::each(before).push(out@.last()@));
            assert(views::each(out@) =~= start + user_messages(all));
        }
    }
}

/// The text of an assistant turn: its text blocks one after the other.
pub open spec fn assistant_text(parts: Seq<AssistantContentView>) -> Seq<char>
    decreases parts.len(),
{
    if parts.len() == 0 {
        Seq::empty()
    } else {
        match parts.last() {
            AssistantContentView::Text(t) => assistant_text(parts.drop_last()) + t,
            _ => assistant_text(parts.drop_last()),
        }
    }
}

/// The tool calls of an assistant turn, in order, with their arguments as JSON
/// text.
pub open spec fn assistant_calls(parts: Seq<AssistantContentView>) -> Seq<JsonView>
    decreases parts.len(),
{
    if parts.len() == 0 {
        Seq::empty()
    } else {
        let before = assistant_calls(parts.drop_last());
        match parts.last() {
            AssistantContentView::ToolUse { id, name, input } => before.push(
                call_json(id, name, crate::json::text_of_json(input)),
            ),
            _ => before,
        }
    }
}

/// A tool call in the wire format.
pub open spec fn call_json(id: Seq<char>, name: Seq<char>, arguments: Seq<char>) -> JsonView {
    JsonView::Object(
        map![
            "id"@ => JsonView::Text(id),
            "type"@ => JsonView::Text("function"@),
            "function"@ => JsonView::Object(
                map!["name"@ => JsonView::Text(name), "arguments"@ => JsonView::Text(arguments)],
            ),
        ],
    )
}

/// The message for an assistant turn. Reasoning is left out.
pub open spec fn assistant_message(parts: Seq<AssistantContentView>) -> JsonView {
    let shown = assistant_text(parts);
    let calls = assistant_calls(parts);
    let bare = map![
        "role"@ => JsonView::Text("assistant"@),
        "content"@ => if shown.len() == 0 {
            JsonView::Null
        } else {
            JsonView::Text(shown)
        },
    ];
    JsonView::Object(
        if calls.len() > 0 {
            bare.insert("tool_calls"@, JsonView::Array(calls))
        } else {
            bare
        },
    )
}

/// Maps an assistant turn.
fn map_assistant(parts: &Vec<AssistantContent>) -> (json: Json)
    ensures
        json@ == assistant_message(views::each(parts@)),
{
    let ghost all = views::each(parts@);
    let mut shown = String::new();
    let mut calls: Vec<Json> = Vec::new();
    let mut i: usize = 0;
    assert(shown@ =~= assistant_text(all.take(0)));
    assert(views::each(calls@) =~= assistant_calls(all.take(0)));
    while i < parts.len()
        invariant
            i <= parts@.len(),
            all == views::each(parts@),
            shown@ == assistant_text(all.take(i as int)),
            views::each(calls@) == assistant_calls(all.take(i as int)),
        decreases parts@.len() - i,
    {
        let ghost before = calls@;
        assert(all.take(i + 1).drop_last() =~= all.take(i as int));
        match &parts[i] {
            AssistantContent::Text(t) => {
                shown.append(t.as_str());
            },
            AssistantContent::ToolUse { id, name, input } => {
                calls.push(
                    Json::object3(
                        "id",
                        Json::text(id.as_str()),
                        "type",
                        Json::text("function"),
                        "function",
                        Json::object2(
                            "name",
                            Json::text(name.as_str()),
                            "arguments",
                            Json::Text(input.render()),
                        ),
                    ),
                );
                assert(views::each(calls@) =~= views::each(before).push(calls@.last()@));
            },
            AssistantContent::Thinking(_) => {},
        }
        i = i + 1;
    }
    assert(all.take(i as int) =~= all);
    let mut message = Members::new();
    message.put("role", Json::text("assistant"));
    let content = if shown.as_str().is_empty() {
        Json::Null
    } else {
        Json::Text(shown)
    };
    message.put("content", content);
    if calls.len() > 0 {
        message.put("tool_calls", Json::array(calls));
    }
    message.into_json()
}

/// The messages for a conversation.
pub open spec fn turn_messages(messages: Seq<MessageView>) -> Seq<JsonView>
    decreases messages.len(),
{
    if messages.len() == 0 {
        Seq::empty()
    } else {
        let before = turn_messages(messages.drop_last());
        match messages.last() {
            MessageView::User(parts) => before + user_messages(parts),
            MessageView::Assistant(parts) => before.push(assistant_message(parts)),
        }
    }
}

/// The messages of a request: the system prompt first, if there is one.
pub open spec fn all_messages(
    system: Option<SystemPromptView>,
    messages: Seq<MessageView>,
) -> Seq<JsonView> {
    match system {
        Some(prompt) => seq![
            JsonView::Object(
                map![
                    "role"@ => JsonView::Text("system"@),
                    "content"@ => JsonView::Text(prompt.text),
                ],
            ),
        ] + turn_messages(messages),
        None => turn_messages(messages),
    }
}

fn map_messages(system: &Option<SystemPrompt>, messages: &Vec<Message>) -> (out: Vec<Json>)
    ensures
        views::each(out@) == all_messages(views::optional(*system), views::each(messages@)),
{
    let ghost all = views::each(messages@);
    let mut out: Vec<Json> = Vec::new();
    match system {
        Some(prompt) => {
            out.push(
                Json::object2(
                    "role",
                    Json::text("system"),
                    "content",
                    Json::text(prompt.text.as_str()),
                ),
            );
            assert(views::each(out@) =~= seq![out@[0]@]);
        },
        None => {
            assert(views::each(out@) =~= Seq::empty());
        },
    }
    let ghost head = views::each(out@);
    let mut i: usize = 0;
    assert(head + turn_messages(all.take(0)) =~= head);
    while i < messages.len()
        invariant
            i <= messages@.len(),
            all == views::each(messages@),
            views::each(out@) == head + turn_messages(all.take(i as int)),
        decreases messages@.len() - i,
    {
        let ghost before = out@;
        assert(all.take(i + 1).drop_last() =~= all.take(i as int));
        match &messages[i] {
            Message::User(parts) => {
                map_user_parts(parts, &mut out);
            },
            Message::Assistant(parts) => {
                out.push(map_assistant(parts));
                assert(views::each(out@) =~= views::each(before).push(out@.last()@));
            },
        }
        assert(views::each(out@) =~= head + turn_messages(all.take(i + 1)));
        i = i + 1;
    }
    assert(all.take(i as int) =~= all);
    assert(views::each(out@) =~= all_messages(views::optional(*system), all));
    out
}

/// A tool definition in the wire format.
pub open spec fn tool_json(tool: ToolDefView) -> JsonView {
    let bare = map![
        "name"@ => JsonView::Text(tool.name),
        "description"@ => JsonView::Text(tool.description),
        "parameters"@ => tool.parameters,
    ];
    JsonView::Object(
        map![
            "type"@ => JsonView::Text("function"@),
            "function"@ => JsonView::Object(
                if tool.strict {
                    bare.insert("strict"@, JsonView::Bool(true))
                } else {
                    bare
                },
            ),
        ],
    )
}

/// The tool definitions in the wire format.
pub open spec fn tools_json(tools: Seq<ToolDefView>) -> Seq<JsonView> {
    tools.map_values(|t: ToolDefView| tool_json(t))
}

fn map_tools(tools: &Vec<ToolDef>) -> (items: Vec<Json>)
    ensures
        views::each(items@) == tools_json(views::each(tools@)),
{
    let mut items: Vec<Json> = Vec::new();
    let mut i: usize = 0;
    while i < tools.len()
        invariant
            i <= tools@.len(),
            items@.len() == i,
            forall|j: int| 0 <= j < i ==> (#[trigger] items@[j])@ == tool_json(tools@[j]@),
        decreases tools@.len() - i,
    {
        let tool = &tools[i];
        let mut function = Members::new();
        function.put("name", Json::text(tool.name.as_str()));
        function.put("description", Json::text(tool.description.as_str()));
        function.put("parameters", tool.parameters.clone());
        if tool.strict {
            function.put("strict", Json::Bool(true));
        }
        items.push(
            Json::object2("type", Json::text("function"), "function", function.into_json()),
        );
        i = i + 1;
    }
    assert(views::each(items@) =~= tools_json(views::each(tools@)));
    items
}

/// The tool-choice policy in the wire format.
pub open spec fn tool_choice_json(choice: ToolChoiceView) -> JsonView {
    match choice {
        ToolChoiceView::Auto => JsonView::Text("auto"@),
        ToolChoiceView::Any => JsonView::Text("required"@),
        ToolChoiceView::Required => JsonView::Text("required"@),
        ToolChoiceView::Disabled => JsonView::Text("none"@),
        ToolChoiceView::Tool(name) => JsonView::Object(
            map![
                "type"@ => JsonView::Text("function"@),
                "function"@ => JsonView::Object(map!["name"@ => JsonView::Text(name)]),
            ],
        ),
    }
}

fn map_tool_choice(choice: &ToolChoice) -> (json: Json)
    ensures
        json@ == tool_choice_json(choice@),
{
    match choice {
        ToolChoice::Auto => Json::text("auto"),
        ToolChoice::Any => Json::text("required"),
        ToolChoice::Required => Json::text("required"),
        ToolChoice::Disabled => Json::text("none"),
        ToolChoice::Tool(name) => Json::object2(
            "type",
            Json::text("function"),
            "function",
            Json::object1("name", Json::text(name.as_str())),
        ),
    }
}

/// The members of a request body.
pub open spec fn body_members(
    model: Seq<char>,
    req: ChatRequestView,
    stream: bool,
) -> Map<Seq<char>, JsonView> {
    let core = map![
        "model"@ => JsonView::Text(model),
        "max_completion_tokens"@ => JsonView::Unsigned(req.max_tokens as u64),
        "messages"@ => JsonView::Array(all_messages(req.system, req.messages)),
    ];
    let with_tools = if req.tools.len() > 0 {
        core.insert("tools"@, JsonView::Array(tools_json(req.tools))).insert(
            "tool_choice"@,
            tool_choice_json(req.tool_choice),
        )
    } else {
        core
    };
    let with_temperature = match req.temperature {
        Some(t) => with_tools.insert("temperature"@, t),
        None => with_tools,
    };
    let with_stops = if req.stop_sequences.len() > 0 {
        with_temperature.insert(
            "stop"@,
            JsonView::Array(crate::json::text_views(req.stop_sequences)),
        )
    } else {
        with_temperature
    };
    let with_key = match req.cache_key {
        Some(key) => with_stops.insert("prompt_cache_key"@, JsonView::Text(key)),
        None => with_stops,
    };
    let with_stream = if stream {
        with_key.insert("stream"@, JsonView::Bool(true)).insert(
            "stream_options"@,
            JsonView::Object(map!["include_usage"@ => JsonView::Bool(true)]),
        )
    } else {
        with_key
    };
    with_stream.union_prefer_right(req.extra)
}

/// Builds the request body for `model`.
pub fn build_body(model: &str, req: &ChatRequest, stream: bool) -> (body: Json)
    ensures
        body@ == JsonView::Object(body_members(model@, req@, stream)),
{
    let mut body = Members::new();
    body.put("model", Json::text(model));
    body.put("max_completion_tokens", Json::unsigned(req.max_tokens as u64));
    body.put("messages", Json::array(map_messages(&req.system, &req.messages)));
    if req.tools.len() > 0 {
        body.put("tools", Json::array(map_tools(&req.tools)));
        body.put("tool_choice", map_tool_choice(&req.tool_choice));
    }
    match &req.temperature {
        Some(t) => body.put("temperature", t.clone()),
        None => {},
    }
    if req.stop_sequences.len() > 0 {
        body.put("stop", Json::texts(&req.stop_sequences));
    }
    match &req.cache_key {
        Some(key) => body.put("prompt_cache_key", Json::text(key.as_str())),
        None => {},
    }
    if stream {
        body.put("stream", Json::Bool(true));
        body.put("stream_options", Json::object1("include_usage", Json::Bool(true)));
    }
    body.put_all(&req.extra);
    body.into_json()
}

/// Builds the (non-streaming) request body for the request's own model.
#[must_use]
pub fn build_request_body(req: &ChatRequest) -> (body: Json)
    ensures
        body@ == JsonView::Object(body_members(req@.model, req@, false)),
{
    build_body(req.model.as_str(), req, false)
}

/// The stop reason for a wire value.
pub open spec fn finish_reason_of(reason: Seq<char>) -> StopReasonView {
    if reason == "stop"@ {
        StopReasonView::EndTurn
    } else if reason == "length"@ {
        StopReasonView::MaxTokens
    } else if reason == "tool_calls"@ || reason == "function_call"@ {
        StopReasonView::ToolUse
    } else if reason == "content_filter"@ {
        StopReasonView::Refusal
    } else {
        StopReasonView::Other(reason)
    }
}

/// Maps a wire finish reason; an unknown one is kept as it came.
pub fn map_finish_reason(reason: &str) -> (stop: StopReason)
    ensures
        stop@ == finish_reason_of(reason@),
{
    if *reason == *"stop" {
        StopReason::EndTurn
    } else if *reason == *"length" {
        StopReason::MaxTokens
    } else if *reason == *"tool_calls" || *reason == *"function_call" {
        StopReason::ToolUse
    } else if *reason == *"content_filter" {
        StopReason::Refusal
    } else {
        StopReason::Other(reason.to_owned())
    }
}

/// A token count two levels down, or zero where there is none.
pub open spec fn detail_count(usage: JsonView, outer: Seq<char>, inner: Seq<char>) -> u64 {
    match usage.member(outer) {
        Some(details) => provider::count_or_zero(details.unsigned_at(inner)),
        None => 0,
    }
}

/// The usage that a wire usage object reports; a missing count is zero, and
/// there is no count of cache writes.
pub open spec fn usage_of(usage: JsonView) -> Usage {
    Usage {
        input_tokens: provider::count_or_zero(usage.unsigned_at("prompt_tokens"@)),
        output_tokens: provider::count_or_zero(usage.unsigned_at("completion_tokens"@)),
        cache_create_tokens: 0,
        cache_read_tokens: detail_count(usage, "prompt_tokens_details"@, "cached_tokens"@),
        reasoning_tokens: detail_count(
            usage,
            "completion_tokens_details"@,
            "reasoning_tokens"@,
        ),
    }
}

/// Reads a wire usage object.
pub fn map_usage(usage: &Json) -> (tally: Usage)
    ensures
        tally == usage_of(usage@),
{
    Usage {
        input_tokens: or_zero(usage.u64_at("prompt_tokens")),
        output_tokens: or_zero(usage.u64_at("completion_tokens")),
        cache_create_tokens: 0,
        cache_read_tokens: match usage.get("prompt_tokens_details") {
            Some(details) => or_zero(details.u64_at("cached_tokens")),
            None => 0,
        },
        reasoning_tokens: match usage.get("completion_tokens_details") {
            Some(details) => or_zero(details.u64_at("reasoning_tokens")),
            None => 0,
        },
    }
}

/// The tool call that a wire call stands for. Arguments that are no JSON are
/// read as no arguments.
pub open spec fn tool_call_of(call: JsonView) -> Option<AssistantContentView> {
    match call.member("function"@) {
        None => None,
        Some(function) => {
            let arguments = match function.text_at("arguments"@) {
                Some(a) => a,
                None => "{}"@,
            };
            Some(
                AssistantContentView::ToolUse {
                    id: JsonView::text_or_empty(call.text_at("id"@)),
                    name: JsonView::text_or_empty(function.text_at("name"@)),
                    input: match crate::json::json_of_text(arguments) {
                        Ok(input) => input,
                        Err(_) => JsonView::Object(Map::empty()),
                    },
                },
            )
        },
    }
}

/// Reads one tool call of a response.
pub fn parse_tool_call(call: &Json) -> (content: Option<AssistantContent>)
    ensures
        views::optional(content) == tool_call_of(call@),
{
    let function = match call.get("function") {
        Some(function) => function,
        None => {
            return None;
        },
    };
    let arguments = match function.str_at("arguments") {
        Some(a) => a,
        None => "{}",
    };
    Some(
        AssistantContent::ToolUse {
            id: text_or_empty(call.str_at("id")),
            name: text_or_empty(function.str_at("name")),
            input: match Json::parse(arguments) {
                Ok(input) => input,
                Err(_) => Json::empty_object(),
            },
        },
    )
}

/// The tool calls that wire calls stand for, in order.
pub open spec fn tool_calls_of(calls: Seq<JsonView>) -> Seq<AssistantContentView>
    decreases calls.len(),
{
    if calls.len() == 0 {
        Seq::empty()
    } else {
        match tool_call_of(calls.last()) {
            Some(content) => tool_calls_of(calls.drop_last()).push(content),
            None => tool_calls_of(calls.drop_last()),
        }
    }
}

/// The text of a response message, where it has some.
pub open spec fn text_content(message: Option<JsonView>) -> Seq<AssistantContentView> {
    match message {
        Some(m) => match m.text_at("content"@) {
            Some(t) => if t.len() > 0 {
                seq![AssistantContentView::Text(t)]
            } else {
                Seq::empty()
            },
            None => Seq::empty(),
        },
        None => Seq::empty(),
    }
}

/// The tool calls of a response message.
pub open spec fn call_content(message: Option<JsonView>) -> Seq<AssistantContentView> {
    match message {
        Some(m) => match m.elements_at("tool_calls"@) {
            Some(calls) => tool_calls_of(calls),
            None => Seq::empty(),
        },
        None => Seq::empty(),
    }
}

/// The first choice of a response or of a streamed chunk.
pub open spec fn first_choice(value: JsonView) -> Option<JsonView> {
    match value.member("choices"@) {
        Some(choices) => choices.element(0),
        None => None,
    }
}

fn choice_of(value: &Json) -> (choice: Option<&Json>)
    ensures
        crate::json::json_option(choice) == first_choice(value@),
{
    match value.get("choices") {
        Some(choices) => choices.at(0),
        None => None,
    }
}

/// The response that a wire response stands for. Missing fields are read as
/// empty.
pub open spec fn response_of(value: JsonView) -> ChatResponseView {
    let choice = first_choice(value);
    let message = match choice {
        Some(c) => c.member("message"@),
        None => None,
    };
    ChatResponseView {
        content: text_content(message) + call_content(message),
        stop: match choice {
            Some(c) => match c.text_at("finish_reason"@) {
                Some(reason) => finish_reason_of(reason),
                None => StopReasonView::EndTurn,
            },
            None => StopReasonView::EndTurn,
        },
        usage: match value.member("usage"@) {
            Some(usage) => usage_of(usage),
            None => Usage::nothing(),
        },
    }
}

/// Reads a (non-streamed) response.
pub fn parse_response(value: &Json) -> (response: ChatResponse)
    ensures
        response@ == response_of(value@),
{
    let choice = choice_of(value);
    let message = match choice {
        Some(c) => c.get("message"),
        None => None,
    };
    let ghost from = crate::json::json_option(message);
    let mut content: Vec<AssistantContent> = Vec::new();
    assert(views::each(content@) =~= Seq::empty());
    match message {
        Some(m) => {
            match m.str_at("content") {
                Some(t) => if !t.is_empty() {
                    content.push(AssistantContent::Text(t.to_owned()));
                },
                None => {},
            }
            assert(views::each(content@) =~= text_content(from));
            match m.array_at("tool_calls") {
                Some(calls) => {
                    push_tool_calls(calls, &mut content);
                },
                None => {},
            }
        },
        None => {},
    }
    assert(views::each(content@) =~= text_content(from) + call_content(from));
    let stop = match choice {
        Some(c) => match c.str_at("finish_reason") {
            Some(reason) => map_finish_reason(reason),
            None => StopReason::EndTurn,
        },
        None => StopReason::EndTurn,
    };
    let usage = match value.get("usage") {
        Some(usage) => map_usage(usage),
        None => Usage::zero(),
    };
    ChatResponse { content, stop, usage }
}

fn push_tool_calls(calls: &Vec<Json>, content: &mut Vec<AssistantContent>)
    ensures
        views::each(final(content)@) == views::each(old(content)@) + tool_calls_of(
            views::each(calls@),
        ),
{
    let ghost start = views::each(content@);
    let ghost all = views::each(calls@);
    let mut i: usize = 0;
    assert(start + tool_calls_of(all.take(0)) =~= start);
    while i < calls.len()
        invariant
            i <= calls@.len(),
            all == views::each(calls@),
            views::each(content@) == start + tool_calls_of(all.take(i as int)),
        decreases calls@.len() - i,
    {
        let ghost before = content@;
        assert(all.take(i + 1).drop_last() =~= all.take(i as int));
        match parse_tool_call(&calls[i]) {
            Some(block) => {
                content.push(block);
                assert(views::each(content@) =~= views::each(before).push(block@));
                assert(views::each(content@) =~= start + tool_calls_of(all.take(i + 1)));
            },
            None => {},
        }
        i = i + 1;
    }
    assert(all.take(i as int) =~= all);
}

/// A tool call whose fragments are still arriving.
pub struct ToolBuf {
    /// Call id.
    pub id: String,
    /// Tool name.
    pub name: String,
    /// Argument text so far.
    pub args: String,
}

/// What a [`ToolBuf`] stands for.
#[verifier::ext_equal]
pub struct ToolBufView {
    /// Call id.
    pub id: Seq<char>,
    /// Tool name.
    pub name: Seq<char>,
    /// Argument text so far.
    pub args: Seq<char>,
}

impl View for ToolBuf {
    type V = ToolBufView;

    open spec fn view(&self) -> ToolBufView {
        ToolBufView { id: self.id@, name: self.name@, args: self.args@ }
    }
}

/// What a map of open tool calls holds, in insertion order.
pub uninterp spec fn ordered(map: indexmap::IndexMap<u64, ToolBuf>) -> Seq<(u64, ToolBuf)>;

/// `indexmap::IndexMap::new`.
#[verifier::external_body]
fn new_map() -> (map: indexmap::IndexMap<u64, ToolBuf>)
    ensures
        ordered(map).len() == 0,
{
    indexmap::IndexMap::new()
}

/// `indexmap::IndexMap::entry` with `Entry::or_insert`: the entry of a key, to
/// change in place. A key that is not there gets `fallback`, after all others.
#[verifier::external_body]
fn entry_or_insert(
    map: &mut indexmap::IndexMap<u64, ToolBuf>,
    key: u64,
    fallback: ToolBuf,
) -> (buf: &mut ToolBuf)
    ensures
        match collections::position(ordered(*old(map)), key) {
            Some(i) => {
                &&& *buf == ordered(*old(map))[i].1
                &&& ordered(*final(map)) == ordered(*old(map)).update(i, (key, *final(buf)))
            },
            None => {
                &&& *buf == fallback
                &&& ordered(*final(map)) == ordered(*old(map)).push((key, *final(buf)))
            },
        },
{
    map.entry(key).or_insert(fallback)
}

/// `indexmap::IndexMap`'s `into_iter`: the entries in insertion order.
#[verifier::external_body]
fn entries_of(map: indexmap::IndexMap<u64, ToolBuf>) -> (entries: Vec<(u64, ToolBuf)>)
    ensures
        entries@ == ordered(map),
{
    map.into_iter().collect()
}

/// The streaming accumulator: joins the fragments of tool calls.
pub struct Accum {
    usage: Usage,
    tools: indexmap::IndexMap<u64, ToolBuf>,
    stop: Option<StopReason>,
}

/// What an [`Accum`] stands for.
#[verifier::ext_equal]
pub struct AccumView {
    /// Usage so far.
    pub usage: Usage,
    /// Tool calls by index, in the order in which they were opened.
    pub tools: Seq<(u64, ToolBufView)>,
    /// The stop reason, once known.
    pub stop: Option<StopReasonView>,
}

/// What the entries of a map of open tool calls stand for.
pub open spec fn entry_views(entries: Seq<(u64, ToolBuf)>) -> Seq<(u64, ToolBufView)> {
    entries.map_values(|e: (u64, ToolBuf)| (e.0, e.1@))
}

proof fn lemma_position_of_views(entries: Seq<(u64, ToolBuf)>, key: u64)
    ensures
        collections::position(entry_views(entries), key) == collections::position(entries, key),
    decreases entries.len(),
{
    if entries.len() > 0 && entries[0].0 != key {
        lemma_position_of_views(entries.drop_first(), key);
        assert(entry_views(entries).drop_first() =~= entry_views(entries.drop_first()));
    }
}

impl View for Accum {
    type V = AccumView;

    closed spec fn view(&self) -> AccumView {
        AccumView {
            usage: self.usage,
            tools: entry_views(ordered(self.tools)),
            stop: views::optional(self.stop),
        }
    }
}

impl AccumView {
    /// The accumulator before the first chunk.
    pub open spec fn start() -> AccumView {
        AccumView { usage: Usage::nothing(), tools: Seq::empty(), stop: None }
    }
}

/// The open tool calls after one more fragment. A fragment with a new index
/// opens a call; an id replaces the one before, name and arguments are joined.
pub open spec fn on_fragment(
    tools: Seq<(u64, ToolBufView)>,
    call: JsonView,
) -> Seq<(u64, ToolBufView)> {
    let index = provider::count_or_zero(call.unsigned_at("index"@));
    match collections::position(tools, index) {
        Some(i) => tools.update(i, (index, joined_call(tools[i].1, call))),
        None => tools.push(
            (
                index,
                joined_call(
                    ToolBufView { id: Seq::empty(), name: Seq::empty(), args: Seq::empty() },
                    call,
                ),
            ),
        ),
    }
}

/// A tool call with a fragment added.
pub open spec fn joined_call(buf: ToolBufView, call: JsonView) -> ToolBufView {
    let function = call.member("function"@);
    ToolBufView {
        id: match call.text_at("id"@) {
            Some(id) => id,
            None => buf.id,
        },
        name: match function {
            Some(f) => buf.name + JsonView::text_or_empty(f.text_at("name"@)),
            None => buf.name,
        },
        args: match function {
            Some(f) => buf.args + JsonView::text_or_empty(f.text_at("arguments"@)),
            None => buf.args,
        },
    }
}

/// The open tool calls after several fragments.
pub open spec fn on_fragments(
    tools: Seq<(u64, ToolBufView)>,
    calls: Seq<JsonView>,
) -> Seq<(u64, ToolBufView)>
    decreases calls.len(),
{
    if calls.len() == 0 {
        tools
    } else {
        on_fragment(on_fragments(tools, calls.drop_last()), calls.last())
    }
}

/// What one chunk does to the accumulator, and what it emits.
pub open spec fn on_chunk(accum: AccumView, event: JsonView) -> (AccumView, Seq<StreamEventView>) {
    let counted = match event.member("usage"@) {
        Some(u) => if u == JsonView::Null {
            accum
        } else {
            AccumView { usage: usage_of(u), ..accum }
        },
        None => accum,
    };
    match first_choice(event) {
        None => (counted, Seq::empty()),
        Some(choice) => {
            let stopped = match choice.text_at("finish_reason"@) {
                Some(reason) => AccumView { stop: Some(finish_reason_of(reason)), ..counted },
                None => counted,
            };
            match choice.member("delta"@) {
                None => (stopped, Seq::empty()),
                Some(delta) => (
                    match delta.elements_at("tool_calls"@) {
                        Some(calls) => AccumView {
                            tools: on_fragments(stopped.tools, calls),
                            ..stopped
                        },
                        None => stopped,
                    },
                    match delta.text_at("content"@) {
                        Some(t) => if t.len() > 0 {
                            seq![StreamEventView::TextDelta(t)]
                        } else {
                            Seq::empty()
                        },
                        None => Seq::empty(),
                    },
                ),
            }
        },
    }
}

/// The tool calls to emit, in the order in which they were opened.
pub open spec fn whole_calls(tools: Seq<(u64, ToolBufView)>) -> Seq<StreamEventView> {
    tools.map_values(
        |e: (u64, ToolBufView)|
            StreamEventView::ToolCall {
                id: e.1.id,
                name: e.1.name,
                arguments: provider::whole_arguments(e.1.args),
            },
    )
}

/// What the end of the stream emits: every tool call whole, then the end.
pub open spec fn final_events(accum: AccumView) -> Seq<StreamEventView> {
    whole_calls(accum.tools).push(
        StreamEventView::End {
            stop: match accum.stop {
                Some(stop) => stop,
                None => StopReasonView::EndTurn,
            },
            usage: accum.usage,
        },
    )
}

impl Accum {
    /// An accumulator before the first chunk.
    pub fn new() -> (accum: Accum)
        ensures
            accum@ == AccumView::start(),
    {
        let accum = Accum { usage: Usage::zero(), tools: new_map(), stop: None };
        assert(accum@.tools =~= Seq::empty());
        accum
    }

    /// Feeds one chunk, and returns what it emits at once.
    pub fn push(&mut self, event: &Json) -> (events: Vec<StreamEvent>)
        ensures
            on_chunk(old(self)@, event@) == (final(self)@, views::each(events@)),
    {
        let mut events: Vec<StreamEvent> = Vec::new();
        assert(views::each(events@) =~= Seq::empty());
        match event.get("usage") {
            Some(u) => if !u.is_null() {
                self.usage = map_usage(u);
            },
            None => {},
        }
        let choice = match choice_of(event) {
            Some(choice) => choice,
            None => {
                return events;
            },
        };
        match choice.str_at("finish_reason") {
            Some(reason) => {
                self.stop = Some(map_finish_reason(reason));
            },
            None => {},
        }
        let delta = match choice.get("delta") {
            Some(delta) => delta,
            None => {
                return events;
            },
        };
        match delta.str_at("content") {
            Some(t) => if !t.is_empty() {
                events.push(StreamEvent::TextDelta(t.to_owned()));
                assert(views::each(events@) =~= seq![StreamEventView::TextDelta(t@)]);
            },
            None => {},
        }
        match delta.array_at("tool_calls") {
            Some(calls) => {
                self.add_fragments(calls);
            },
            None => {},
        }
        events
    }

    fn add_fragments(&mut self, calls: &Vec<Json>)
        ensures
            final(self)@ == (AccumView {
                tools: on_fragments(old(self)@.tools, views::each(calls@)),
                ..old(self)@
            }),
    {
        let ghost start = self@;
        let ghost all = views::each(calls@);
        let mut i: usize = 0;
        assert(all.take(0) =~= Seq::empty());
        while i < calls.len()
            invariant
                i <= calls@.len(),
                all == views::each(calls@),
                self@ == (AccumView {
                    tools: on_fragments(start.tools, all.take(i as int)),
                    ..start
                }),
            decreases calls@.len() - i,
        {
            assert(all.take(i + 1).drop_last() =~= all.take(i as int));
            assert(all.take(i + 1).last() == calls@[i as int]@);
            self.add_fragment(&calls[i]);
            i = i + 1;
        }
        assert(all.take(i as int) =~= all);
    }

    fn add_fragment(&mut self, call: &Json)
        ensures
            final(self)@ == (AccumView {
                tools: on_fragment(old(self)@.tools, call@),
                ..old(self)@
            }),
    {
        let ghost before = ordered(self.tools);
        let index: u64 = or_zero(call.u64_at("index"));
        proof {
            lemma_position_of_views(before, index);
            collections::lemma_position(before, index);
        }
        let fallback = ToolBuf { id: String::new(), name: String::new(), args: String::new() };
        let ghost empty = fallback@;
        assert(empty.id =~= Seq::empty() && empty.name =~= Seq::empty() && empty.args
            =~= Seq::empty());
        let buf = entry_or_insert(&mut self.tools, index, fallback);
        let ghost opened = buf@;
        match call.str_at("id") {
            Some(id) => {
                buf.id = id.to_owned();
            },
            None => {},
        }
        match call.get("function") {
            Some(function) => {
                match function.str_at("name") {
                    Some(name) => {
                        buf.name.append(name);
                    },
                    None => {},
                }
                match function.str_at("arguments") {
                    Some(args) => {
                        buf.args.append(args);
                    },
                    None => {},
                }
            },
            None => {},
        }
        assert(buf@ =~= joined_call(opened, call@));
        proof {
            assert(self@.tools =~= on_fragment(entry_views(before), call@));
        }
    }

    /// Emits the joined tool calls and the end of the stream.
    pub fn finish(&mut self) -> (events: Vec<StreamEvent>)
        ensures
            views::each(events@) == final_events(old(self)@),
            final(self)@ == (AccumView { tools: Seq::empty(), stop: None, ..old(self)@ }),
    {
        let ghost start = self@;
        let mut taken = new_map();
        std::mem::swap(&mut taken, &mut self.tools);
        assert(self@.tools =~= Seq::empty());
        let entries = entries_of(taken);
        let ghost all = entries@;
        let mut events: Vec<StreamEvent> = Vec::new();
        for entry in it: entries
            invariant
                it.seq() == all,
                entry_views(all) == start.tools,
                events@.len() == it.index(),
                forall|j: int|
                    0 <= j < events@.len() ==> (#[trigger] events@[j])@ == whole_calls(
                        start.tools,
                    )[j],
        {
            let buf = entry.1;
            assert(start.tools[it.index()] == (entry.0, buf@));
            let arguments = complete_arguments(buf.args);
            events.push(StreamEvent::ToolCall { id: buf.id, name: buf.name, arguments });
        }
        let stop = match self.stop.take() {
            Some(stop) => stop,
            None => StopReason::EndTurn,
        };
        events.push(StreamEvent::End { stop, usage: self.usage });
        assert(views::each(events@) =~= final_events(start));
        events
    }
}

/// The data of an event line: what follows `data:`, without the white space
/// around it. `None` for another line, and for one without data.
pub open spec fn data_of(line: Seq<char>) -> Option<Seq<char>> {
    let kept = text::trimmed(line);
    if "data:"@.is_prefix_of(kept) {
        let data = text::trimmed(kept.skip("data:"@.len() as int));
        if data.len() == 0 {
            None
        } else {
            Some(data)
        }
    } else {
        None
    }
}

fn line_data(line: &str) -> (data: Option<String>)
    ensures
        views::optional(data) == data_of(line@),
{
    let kept = trim(line);
    match strip_prefix(kept.as_str(), "data:") {
        Some(rest) => {
            assert(kept@.skip("data:"@.len() as int) =~= rest@);
            assert(kept@.take("data:"@.len() as int) =~= "data:"@);
            let data = trim(rest.as_str());
            if data.as_str().is_empty() {
                None
            } else {
                Some(data)
            }
        },
        None => None,
    }
}

/// The state of a streamed response between lines.
#[verifier::ext_equal]
pub struct Reading {
    /// The accumulator.
    pub accum: AccumView,
    /// Whether the start of the stream has been emitted.
    pub started: bool,
    /// Whether the stream has ended.
    pub done: bool,
}

/// The reading once the stream has ended.
pub open spec fn ended(reading: Reading) -> Reading {
    Reading {
        accum: AccumView { tools: Seq::empty(), stop: None, ..reading.accum },
        done: true,
        ..reading
    }
}

/// What one line of a stream does. `[DONE]` ends the stream; other data, read
/// as JSON, is a chunk, before the first of which the start is emitted; data
/// that is no JSON does nothing.
pub open spec fn on_line(reading: Reading, line: Seq<char>) -> (Reading, Seq<StreamEventView>) {
    match data_of(line) {
        None => (reading, Seq::empty()),
        Some(data) => if data == "[DONE]"@ {
            (ended(reading), final_events(reading.accum))
        } else {
            match crate::json::json_of_text(data) {
                Err(_) => (reading, Seq::empty()),
                Ok(event) => {
                    let (accum, events) = on_chunk(reading.accum, event);
                    (
                        Reading { accum, started: true, ..reading },
                        if reading.started {
                            events
                        } else {
                            seq![StreamEventView::Start { usage: Usage::nothing() }] + events
                        },
                    )
                },
            }
        },
    }
}

/// The result of reading text line by line.
#[verifier::ext_equal]
pub struct Consumed {
    /// The reading afterwards.
    pub reading: Reading,
    /// What was emitted.
    pub events: Seq<StreamEventView>,
    /// The start of a line whose end has not come yet.
    pub rest: Seq<char>,
}

/// Reads every whole line of `text`, up to the end of the stream.
pub open spec fn consume(reading: Reading, text: Seq<char>) -> Consumed
    decreases text.len(),
{
    let end = text::line_len(text) as int;
    if end < text.len() && !reading.done {
        let (next, events) = on_line(reading, text.take(end));
        let more = consume(next, text.skip(end + 1));
        Consumed { events: events + more.events, ..more }
    } else {
        Consumed { reading, events: Seq::empty(), rest: text }
    }
}

/// The state of a streamed response, fed with the chunks of its body.
pub struct OpenAiStream {
    buf: String,
    accum: Accum,
    started: bool,
    done: bool,
}

/// What an [`OpenAiStream`] stands for.
#[verifier::ext_equal]
pub struct OpenAiStreamView {
    /// The start of a line whose end has not come yet.
    pub pending: Seq<char>,
    /// The reading so far.
    pub reading: Reading,
}

impl View for OpenAiStream {
    type V = OpenAiStreamView;

    closed spec fn view(&self) -> OpenAiStreamView {
        OpenAiStreamView {
            pending: self.buf@,
            reading: Reading { accum: self.accum@, started: self.started, done: self.done },
        }
    }
}

impl OpenAiStream {
    /// The state before the first chunk.
    pub fn new() -> (stream: OpenAiStream)
        ensures
            stream@ == (OpenAiStreamView {
                pending: Seq::empty(),
                reading: Reading { accum: AccumView::start(), started: false, done: false },
            }),
    {
        let stream = OpenAiStream {
            buf: String::new(),
            accum: Accum::new(),
            started: false,
            done: false,
        };
        assert(stream.buf@ =~= Seq::empty());
        stream
    }

    /// Whether the stream has ended.
    pub fn is_done(&self) -> (done: bool)
        ensures
            done == self@.reading.done,
    {
        self.done
    }

    /// Feeds one chunk of the body, and returns the events to emit.
    pub fn push_chunk(&mut self, chunk: &[u8]) -> (events: Vec<StreamEvent>)
        ensures
            ({
                let whole = old(self)@.pending + text::utf8_lossy(chunk@);
                let read = consume(old(self)@.reading, whole);
                &&& views::each(events@) == read.events
                &&& final(self)@ == (OpenAiStreamView { pending: read.rest, reading: read.reading })
            }),
    {
        let decoded = decode_lossy(chunk);
        self.push_text(decoded.as_str())
    }

    /// Feeds text of the body, and returns the events to emit.
    pub fn push_text(&mut self, text: &str) -> (events: Vec<StreamEvent>)
        ensures
            ({
                let read = consume(old(self)@.reading, old(self)@.pending + text@);
                &&& views::each(events@) == read.events
                &&& final(self)@ == (OpenAiStreamView { pending: read.rest, reading: read.reading })
            }),
    {
        let ghost start = self@.reading;
        self.buf.append(text);
        let ghost all = self.buf@;
        let mut events: Vec<StreamEvent> = Vec::new();
        assert(views::each(events@) =~= Seq::empty());
        let chars = chars_of(self.buf.as_str());
        let mut from: usize = 0;
        let mut to: usize = 0;
        assert(all.skip(0) =~= all);
        while to < chars.len() && !self.done
            invariant
                chars@ == all,
                from <= to <= all.len(),
                self.done ==> from == to,
                forall|j: int| from <= j < to ==> all[j] != '\n',
                ({
                    let read = consume(start, all);
                    let more = consume(self@.reading, all.skip(from as int));
                    &&& read.events == views::each(events@) + more.events
                    &&& read.reading == more.reading
                    &&& read.rest == more.rest
                }),
            decreases all.len() - to,
        {
            if chars[to] == '\n' {
                let line = text_between(&chars, from, to);
                let ghost tail = all.skip(from as int);
                let ghost before = self@.reading;
                let ghost emitted = views::each(events@);
                proof {
                    text::lemma_line_len(tail, to - from);
                    assert(tail.take(to - from) =~= line@);
                    assert(tail.skip(to - from + 1) =~= all.skip(to + 1));
                }
                let mut new = self.read_line(line.as_str());
                let ghost added = new@;
                events.append(&mut new);
                proof {
                    let more = consume(self@.reading, all.skip(to + 1));
                    assert(views::each(events@) =~= emitted + views::each(added));
                    assert(emitted + (views::each(added) + more.events) =~= (emitted
                        + views::each(added)) + more.events);
                }
                to = to + 1;
                from = to;
            } else {
                to = to + 1;
            }
        }
        proof {
            let tail = all.skip(from as int);
            if !self.done {
                text::lemma_line_len(tail, tail.len() as int);
            }
            assert(views::each(events@) + Seq::<StreamEventView>::empty() =~= views::each(
                events@,
            ));
        }
        self.buf = text_between(&chars, from, chars.len());
        assert(self.buf@ =~= all.skip(from as int));
        events
    }

    fn read_line(&mut self, line: &str) -> (events: Vec<StreamEvent>)
        ensures
            on_line(old(self)@.reading, line@) == (final(self)@.reading, views::each(events@)),
            final(self).buf == old(self).buf,
    {
        let none: Vec<StreamEvent> = Vec::new();
        assert(views::each(none@) =~= Seq::empty());
        let data = match line_data(line) {
            Some(data) => data,
            None => {
                return none;
            },
        };
        if *data.as_str() == *"[DONE]" {
            self.done = true;
            return self.accum.finish();
        }
        match Json::parse(data.as_str()) {
            Ok(event) => {
                let mut events: Vec<StreamEvent> = Vec::new();
                if !self.started {
                    self.started = true;
                    events.push(StreamEvent::Start { usage: Usage::zero() });
                }
                let ghost first = events@;
                let mut new = self.accum.push(&event);
                let ghost added = new@;
                events.append(&mut new);
                assert(views::each(events@) =~= views::each(first) + views::each(added));
                proof {
                    if first.len() == 0 {
                        assert(views::each(events@) =~= views::each(added));
                    } else {
                        assert(views::each(first) =~= seq![
                            StreamEventView::Start { usage: Usage::nothing() },
                        ]);
                    }
                }
                events
            },
            Err(_) => none,
        }
    }

    /// The end of the body: what is left is emitted, unless the stream has
    /// already ended.
    pub fn end_of_body(&mut self) -> (events: Vec<StreamEvent>)
        ensures
            old(self)@.reading.done ==> views::each(events@).len() == 0 && final(self)@ == old(
                self,
            )@,
            !old(self)@.reading.done ==> views::each(events@) == final_events(
                old(self)@.reading.accum,
            ) && final(self)@.reading == ended(old(self)@.reading) && final(self)@.pending == old(
                self,
            )@.pending,
    {
        if self.done {
            return Vec::new();
        }
        self.done = true;
        self.accum.finish()
    }
}

/// Where the body is cut into chunks does not matter: two chunks give the
/// events and the state that their concatenation gives.
pub proof fn chunk_boundaries_do_not_matter(reading: Reading, a: Seq<char>, b: Seq<char>)
    ensures
        ({
            let first = consume(reading, a);
            let second = consume(first.reading, first.rest + b);
            consume(reading, a + b) == (Consumed {
                events: first.events + second.events,
                ..second
            })
        }),
    decreases a.len(),
{
    let first = consume(reading, a);
    let second = consume(first.reading, first.rest + b);
    let end = text::line_len(a) as int;
    text::lemma_line_len_bound(a);
    if end < a.len() && !reading.done {
        let (next, events) = on_line(reading, a.take(end));
        text::lemma_line_len(a + b, end);
        assert((a + b).take(end) =~= a.take(end));
        assert((a + b).skip(end + 1) =~= a.skip(end + 1) + b);
        chunk_boundaries_do_not_matter(next, a.skip(end + 1), b);
        let more = consume(next, a.skip(end + 1));
        assert(events + (more.events + second.events) =~= (events + more.events) + second.events);
    } else {
        assert(Seq::<StreamEventView>::empty() + second.events =~= second.events);
    }
}

/// A stream starts at most once: the start comes before the first chunk and
/// never again, and a chunk itself emits none.
pub proof fn a_stream_starts_once(reading: Reading, line: Seq<char>, i: int)
    requires
        0 <= i < on_line(reading, line).1.len(),
        on_line(reading, line).1[i] is Start,
    ensures
        !reading.started,
        i == 0,
        on_line(reading, line).0.started,
{
}

/// A finished stream ends with exactly one end event, after one whole call for
/// each index that was opened, in that order.
pub proof fn a_stream_ends_once(accum: AccumView, i: int)
    requires
        0 <= i < final_events(accum).len(),
    ensures
        final_events(accum).len() == accum.tools.len() + 1,
        (final_events(accum)[i] is End) == (i == accum.tools.len()),
{
}

/// The default endpoint.
pub const DEFAULT_BASE_URL: &'static str = "https://api.openai.com";

/// Access to the OpenAI API: a key and an endpoint.
#[derive(Clone)]
pub struct OpenAiClient {
    api_key: String,
    base_url: String,
}

impl OpenAiClient {
    /// The key.
    pub closed spec fn key(self) -> Seq<char> {
        self.api_key@
    }

    /// The endpoint.
    pub closed spec fn base(self) -> Seq<char> {
        self.base_url@
    }

    /// A client for the given API key, at the default endpoint.
    #[must_use]
    pub fn new(api_key: String) -> (client: Self)
        ensures
            client.key() == api_key@,
            client.base() == DEFAULT_BASE_URL@,
    {
        OpenAiClient { api_key, base_url: DEFAULT_BASE_URL.to_owned() }
    }

    /// A client for the key that the environment gave.
    pub fn from_env(key: Option<String>) -> (client: Result<Self, ProviderError>)
        ensures
            match (key, client) {
                (Some(k), Ok(c)) => c.key() == k@ && c.base() == DEFAULT_BASE_URL@,
                (None, Err(e)) => e@ == ProviderErrorView::InvalidArgument(
                    "OPENAI_API_KEY is not set"@,
                ),
                _ => false,
            },
    {
        match key {
            Some(k) => Ok(OpenAiClient::new(k)),
            None => Err(ProviderError::InvalidArgument("OPENAI_API_KEY is not set".to_owned())),
        }
    }

    /// The same client at another, compatible endpoint.
    #[must_use]
    pub fn with_base_url(self, base_url: String) -> (client: Self)
        ensures
            client.key() == self.key(),
            client.base() == base_url@,
    {
        OpenAiClient { api_key: self.api_key, base_url }
    }

    /// A handle on one model.
    #[must_use]
    pub fn model(&self, model: String) -> (handle: OpenAiModel)
        ensures
            handle.client().key() == self.key(),
            handle.client().base() == self.base(),
            handle.id() == model@,
    {
        OpenAiModel {
            client: OpenAiClient { api_key: self.api_key.clone(), base_url: self.base_url.clone() },
            model,
        }
    }
}

/// A specific OpenAI model.
#[derive(Clone)]
pub struct OpenAiModel {
    client: OpenAiClient,
    model: String,
}

impl OpenAiModel {
    /// The client behind this handle.
    pub closed spec fn client(self) -> OpenAiClient {
        self.client
    }

    /// The model id.
    pub closed spec fn id(self) -> Seq<char> {
        self.model@
    }

    /// The model id that this handle serves.
    pub fn model_id(&self) -> (id: &str)
        ensures
            id@ == self.id(),
    {
        self.model.as_str()
    }

    /// The URL that requests go to.
    pub fn completions_url(&self) -> (url: String)
        ensures
            url@ == self.client().base() + "/v1/chat/completions"@,
    {
        self.client.base_url.clone().concat("/v1/chat/completions")
    }

    /// The key, for the authorisation header.
    pub fn api_key(&self) -> (key: &str)
        ensures
            key@ == self.client().key(),
    {
        self.client.api_key.as_str()
    }

    /// The body for a request to this model.
    pub fn request_body(&self, request: &ChatRequest, stream: bool) -> (body: Json)
        ensures
            body@ == JsonView::Object(
                body_members(
                    provider::picked_model(self.id(), request@.model),
                    request@,
                    stream,
                ),
            ),
    {
        let model = provider::pick_model(self.model.as_str(), request);
        build_body(model.as_str(), request, stream)
    }

    /// Reads a (non-streamed) response, given its status, its body and the
    /// delay that its headers ask for.
    pub fn read_response(
        &self,
        status: u16,
        body: &str,
        retry_after: Option<Duration>,
    ) -> (response: Result<ChatResponse, ProviderError>)
        ensures
            match (provider::response_body(status, body@, retry_after), response) {
                (Ok(value), Ok(r)) => r@ == response_of(value),
                (Err(error), Err(e)) => e@ == error,
                _ => false,
            },
    {
        match provider::read_body(status, body, retry_after) {
            Ok(value) => Ok(parse_response(&value)),
            Err(e) => Err(e),
        }
    }
}

proof fn lemma_body_keys_differ()
    ensures
        "model"@ != "max_completion_tokens"@,
        "model"@ != "messages"@,
        "model"@ != "tools"@,
        "model"@ != "tool_choice"@,
        "model"@ != "temperature"@,
        "model"@ != "stop"@,
        "model"@ != "prompt_cache_key"@,
        "model"@ != "stream"@,
        "model"@ != "stream_options"@,
        "max_completion_tokens"@ != "messages"@,
        "max_completion_tokens"@ != "tools"@,
        "max_completion_tokens"@ != "tool_choice"@,
        "max_completion_tokens"@ != "temperature"@,
        "max_completion_tokens"@ != "stop"@,
        "max_completion_tokens"@ != "prompt_cache_key"@,
        "max_completion_tokens"@ != "stream"@,
        "max_completion_tokens"@ != "stream_options"@,
        "messages"@ != "tools"@,
        "messages"@ != "tool_choice"@,
        "messages"@ != "temperature"@,
        "messages"@ != "stop"@,
        "messages"@ != "prompt_cache_key"@,
        "messages"@ != "stream"@,
        "messages"@ != "stream_options"@,
        "tools"@ != "tool_choice"@,
        "tools"@ != "temperature"@,
        "tools"@ != "stop"@,
        "tools"@ != "prompt_cache_key"@,
        "tools"@ != "stream"@,
        "tools"@ != "stream_options"@,
        "tool_choice"@ != "temperature"@,
        "tool_choice"@ != "stop"@,
        "tool_choice"@ != "prompt_cache_key"@,
        "tool_choice"@ != "stream"@,
        "tool_choice"@ != "stream_options"@,
        "temperature"@ != "stop"@,
        "temperature"@ != "prompt_cache_key"@,
        "temperature"@ != "stream"@,
        "temperature"@ != "stream_options"@,
        "stop"@ != "prompt_cache_key"@,
        "stop"@ != "stream"@,
        "stop"@ != "stream_options"@,
        "prompt_cache_key"@ != "stream"@,
        "prompt_cache_key"@ != "stream_options"@,
        "stream"@ != "stream_options"@,
{
    reveal_strlit("model");
    reveal_strlit("max_completion_tokens");
    reveal_strlit("messages");
    reveal_strlit("tools");
    reveal_strlit("tool_choice");
    reveal_strlit("temperature");
    reveal_strlit("stop");
    reveal_strlit("prompt_cache_key");
    reveal_strlit("stream");
    reveal_strlit("stream_options");
    assert("model"@.len() == 5);
    assert("max_completion_tokens"@.len() == 21);
    assert("messages"@.len() == 8);
    assert("tools"@.len() == 5);
    assert("tool_choice"@.len() == 11);
    assert("temperature"@.len() == 11);
    assert("stop"@.len() == 4);
    assert("prompt_cache_key"@.len() == 16);
    assert("stream"@.len() == 6);
    assert("stream_options"@.len() == 14);
    assert("model"@[0] != "tools"@[0]);
    assert("tool_choice"@[1] != "temperature"@[1]);
}

proof fn lemma_message_keys_differ()
    ensures
        "role"@ != "content"@,
        "role"@ != "tool_calls"@,
        "role"@ != "tool_call_id"@,
        "content"@ != "tool_calls"@,
        "content"@ != "tool_call_id"@,
        "tool_calls"@ != "tool_call_id"@,
{
    reveal_strlit("role");
    reveal_strlit("content");
    reveal_strlit("tool_calls");
    reveal_strlit("tool_call_id");
    assert("role"@.len() == 4);
    assert("content"@.len() == 7);
    assert("tool_calls"@.len() == 10);
    assert("tool_call_id"@.len() == 12);
}

proof fn lemma_call_keys_differ()
    ensures
        "id"@ != "type"@,
        "id"@ != "function"@,
        "id"@ != "name"@,
        "id"@ != "arguments"@,
        "id"@ != "description"@,
        "id"@ != "parameters"@,
        "id"@ != "strict"@,
        "type"@ != "function"@,
        "type"@ != "name"@,
        "type"@ != "arguments"@,
        "type"@ != "description"@,
        "type"@ != "parameters"@,
        "type"@ != "strict"@,
        "function"@ != "name"@,
        "function"@ != "arguments"@,
        "function"@ != "description"@,
        "function"@ != "parameters"@,
        "function"@ != "strict"@,
        "name"@ != "arguments"@,
        "name"@ != "description"@,
        "name"@ != "parameters"@,
        "name"@ != "strict"@,
        "arguments"@ != "description"@,
        "arguments"@ != "parameters"@,
        "arguments"@ != "strict"@,
        "description"@ != "parameters"@,
        "description"@ != "strict"@,
        "parameters"@ != "strict"@,
{
    reveal_strlit("id");
    reveal_strlit("type");
    reveal_strlit("function");
    reveal_strlit("name");
    reveal_strlit("arguments");
    reveal_strlit("description");
    reveal_strlit("parameters");
    reveal_strlit("strict");
    assert("id"@.len() == 2);
    assert("type"@.len() == 4);
    assert("function"@.len() == 8);
    assert("name"@.len() == 4);
    assert("arguments"@.len() == 9);
    assert("description"@.len() == 11);
    assert("parameters"@.len() == 10);
    assert("strict"@.len() == 6);
    assert("type"@[0] != "name"@[0]);
}


/// The tool-use blocks of a conversation's assistant turns, first to last.
pub open spec fn tool_uses_in(messages: Seq<MessageView>) -> Seq<AssistantContentView>
    decreases messages.len(),
{
    if messages.len() == 0 {
        Seq::empty()
    } else {
        match messages.last() {
            MessageView::Assistant(parts) => tool_uses_in(messages.drop_last()) + parts.filter(
                |p: AssistantContentView| p is ToolUse,
            ),
            _ => tool_uses_in(messages.drop_last()),
        }
    }
}

/// The calls that a list of wire messages names under `tool_calls`, first to last.
pub open spec fn calls_listed(messages: Seq<JsonView>) -> Seq<JsonView>
    decreases messages.len(),
{
    if messages.len() == 0 {
        Seq::empty()
    } else {
        match messages.last().elements_at("tool_calls"@) {
            Some(calls) => calls_listed(messages.drop_last()) + calls,
            None => calls_listed(messages.drop_last()),
        }
    }
}

/// A wire call stands for a tool-use block: its id, its name, and its input as JSON
/// text.
pub open spec fn call_stands_for(call: JsonView, block: AssistantContentView) -> bool {
    match block {
        AssistantContentView::ToolUse { id, name, input } => {
            &&& call.text_at("type"@) == Some("function"@)
            &&& call.text_at("id"@) == Some(id)
            &&& call.member("function"@) matches Some(function)
            &&& function.text_at("name"@) == Some(name)
            &&& function.text_at("arguments"@) == Some(crate::json::text_of_json(input))
        },
        _ => false,
    }
}

/// Wire calls stand for tool-use blocks, one for one and in order.
pub open spec fn calls_stand_for(
    calls: Seq<JsonView>,
    blocks: Seq<AssistantContentView>,
) -> bool {
    &&& calls.len() == blocks.len()
    &&& forall|i: int| 0 <= i < calls.len() ==> call_stands_for(#[trigger] calls[i], blocks[i])
}

proof fn lemma_calls_of_a_turn(parts: Seq<AssistantContentView>)
    ensures
        calls_stand_for(
            assistant_calls(parts),
            parts.filter(|p: AssistantContentView| p is ToolUse),
        ),
    decreases parts.len(),
{
    reveal(Seq::filter);
    lemma_call_keys_differ();
    if parts.len() > 0 {
        lemma_calls_of_a_turn(parts.drop_last());
    }
}

proof fn lemma_listed_split(a: Seq<JsonView>, b: Seq<JsonView>)
    ensures
        calls_listed(a + b) == calls_listed(a) + calls_listed(b),
    decreases b.len(),
{
    if b.len() == 0 {
        assert(a + b =~= a);
        assert(calls_listed(a) + calls_listed(b) =~= calls_listed(a));
    } else {
        assert((a + b).drop_last() =~= a + b.drop_last());
        lemma_listed_split(a, b.drop_last());
        assert(calls_listed(a + b) =~= calls_listed(a) + calls_listed(b));
    }
}

proof fn lemma_tool_messages_list_none(parts: Seq<UserContentView>)
    ensures
        calls_listed(tool_messages(parts)).len() == 0,
    decreases parts.len(),
{
    lemma_message_keys_differ();
    if parts.len() > 0 {
        lemma_tool_messages_list_none(parts.drop_last());
        if parts.last() is ToolResult {
            let before = tool_messages(parts.drop_last());
            assert(tool_messages(parts).drop_last() =~= before);
        }
    }
}

proof fn lemma_user_messages_list_none(parts: Seq<UserContentView>)
    ensures
        calls_listed(user_messages(parts)).len() == 0,
{
    lemma_message_keys_differ();
    lemma_tool_messages_list_none(parts);
    if user_messages(parts).len() > tool_messages(parts).len() {
        assert(user_messages(parts).drop_last() =~= tool_messages(parts));
    }
}

/// Every tool call of the conversation is in the body, and no other: the calls that
/// the messages list are, first to last, the tool-use blocks of the assistant turns,
/// each with its id, its name and its input as JSON text. So a tool message answers
/// a call that an earlier message lists wherever the conversation holds the call.
pub proof fn every_tool_call_is_listed(
    system: Option<SystemPromptView>,
    messages: Seq<MessageView>,
)
    ensures
        calls_stand_for(calls_listed(all_messages(system, messages)), tool_uses_in(messages)),
{
    lemma_message_keys_differ();
    lemma_turns_list_calls(messages);
    if system is Some {
        let turns = turn_messages(messages);
        let head = all_messages(system, messages).take(1);
        assert(all_messages(system, messages) =~= head + turns);
        lemma_listed_split(head, turns);
        assert(head.drop_last() =~= Seq::empty());
        reveal_with_fuel(calls_listed, 2);
        assert(head.last().elements_at("tool_calls"@) is None);
        assert(calls_listed(head) =~= Seq::empty());
        assert(calls_listed(head) + calls_listed(turns) =~= calls_listed(turns));
    }
}

proof fn lemma_turns_list_calls(messages: Seq<MessageView>)
    ensures
        calls_stand_for(calls_listed(turn_messages(messages)), tool_uses_in(messages)),
    decreases messages.len(),
{
    lemma_message_keys_differ();
    if messages.len() > 0 {
        let before = turn_messages(messages.drop_last());
        lemma_turns_list_calls(messages.drop_last());
        match messages.last() {
            MessageView::User(parts) => {
                lemma_user_messages_list_none(parts);
                lemma_listed_split(before, user_messages(parts));
                assert(calls_listed(before) + calls_listed(user_messages(parts)) =~= calls_listed(
                    before,
                ));
            },
            MessageView::Assistant(parts) => {
                lemma_calls_of_a_turn(parts);
                assert(turn_messages(messages).drop_last() =~= before);
                let message = turn_messages(messages).last();
                let calls = assistant_calls(parts);
                if calls.len() > 0 {
                    assert(message.elements_at("tool_calls"@) == Some(calls));
                } else {
                    let none = parts.filter(|p: AssistantContentView| p is ToolUse);
                    assert(message.elements_at("tool_calls"@) is None);
                    assert(tool_uses_in(messages.drop_last()) + none =~= tool_uses_in(
                        messages.drop_last(),
                    ));
                }
            },
        }
    }
}

/// The text blocks of an assistant turn, one after the other.
pub open spec fn spoken(parts: Seq<AssistantContentView>) -> Seq<char>
    decreases parts.len(),
{
    if parts.len() == 0 {
        Seq::empty()
    } else {
        spoken(parts.drop_last()) + (match parts.last() {
            AssistantContentView::Text(t) => t,
            _ => Seq::empty(),
        })
    }
}

proof fn lemma_spoken(parts: Seq<AssistantContentView>)
    ensures
        assistant_text(parts) == spoken(parts),
    decreases parts.len(),
{
    if parts.len() > 0 {
        lemma_spoken(parts.drop_last());
        if !(parts.last() is Text) {
            assert(spoken(parts.drop_last()) + Seq::<char>::empty() =~= spoken(parts.drop_last()));
        }
    }
}

/// The message of an assistant turn is the assistant's, with all text of the turn
/// as its content, or `null` where there is none; it lists calls exactly where the
/// turn has some.
pub proof fn an_assistant_turn_keeps_its_text(parts: Seq<AssistantContentView>)
    ensures
        ({
            let message = assistant_message(parts);
            &&& message.text_at("role"@) == Some("assistant"@)
            &&& message.member("content"@) == Some(
                if spoken(parts).len() == 0 {
                    JsonView::Null
                } else {
                    JsonView::Text(spoken(parts))
                },
            )
            &&& (message.member("tool_calls"@) is Some) == (parts.filter(
                |p: AssistantContentView| p is ToolUse,
            ).len() > 0)
        }),
{
    lemma_message_keys_differ();
    lemma_spoken(parts);
    lemma_calls_of_a_turn(parts);
}
proof fn lemma_part_keys_differ()
    ensures
        "type"@ != "text"@,
        "type"@ != "image_url"@,
        "type"@ != "url"@,
        "type"@ != "file_id"@,
        "text"@ != "image_url"@,
        "text"@ != "url"@,
        "text"@ != "file_id"@,
        "image_url"@ != "url"@,
        "image_url"@ != "file_id"@,
        "url"@ != "file_id"@,
{
    reveal_strlit("type");
    reveal_strlit("text");
    reveal_strlit("image_url");
    reveal_strlit("url");
    reveal_strlit("file_id");
    assert("type"@.len() == 4);
    assert("text"@.len() == 4);
    assert("image_url"@.len() == 9);
    assert("url"@.len() == 3);
    assert("file_id"@.len() == 7);
    assert("type"@[1] != "text"@[1]);
}

proof fn lemma_part_kinds_differ()
    ensures
        "text"@ != "image_url"@,
        "text"@ != "input_image"@,
        "image_url"@ != "input_image"@,
{
    reveal_strlit("text");
    reveal_strlit("image_url");
    reveal_strlit("input_image");
    assert("text"@.len() == 4);
    assert("image_url"@.len() == 9);
    assert("input_image"@.len() == 11);
}


/// The tool results of a conversation's user turns, first to last.
pub open spec fn tool_results_in(messages: Seq<MessageView>) -> Seq<UserContentView>
    decreases messages.len(),
{
    if messages.len() == 0 {
        Seq::empty()
    } else {
        match messages.last() {
            MessageView::User(parts) => tool_results_in(messages.drop_last()) + parts.filter(
                |p: UserContentView| p is ToolResult,
            ),
            _ => tool_results_in(messages.drop_last()),
        }
    }
}

/// The wire messages of a role, in order.
pub open spec fn of_role(messages: Seq<JsonView>, role: Seq<char>) -> Seq<JsonView>
    decreases messages.len(),
{
    if messages.len() == 0 {
        Seq::empty()
    } else {
        let before = of_role(messages.drop_last(), role);
        if messages.last().text_at("role"@) == Some(role) {
            before.push(messages.last())
        } else {
            before
        }
    }
}

/// A tool message answers the call of a tool result: its id, and its parts one per
/// line, an image as a placeholder.
pub open spec fn answers(message: JsonView, result: UserContentView) -> bool {
    match result {
        UserContentView::ToolResult { id, content, is_error } => {
            &&& message.text_at("tool_call_id"@) == Some(id)
            &&& message.text_at("content"@) == Some(
                text::joined(
                    content.map_values(
                        |p: ToolResultPartView|
                            match p {
                                ToolResultPartView::Text(t) => t,
                                ToolResultPartView::Image(_) => "[image]"@,
                            },
                    ),
                    "\n"@,
                ),
            )
        },
        _ => false,
    }
}

/// Tool messages answer tool results, one for one and in order.
pub open spec fn all_answer(messages: Seq<JsonView>, results: Seq<UserContentView>) -> bool {
    &&& messages.len() == results.len()
    &&& forall|i: int| 0 <= i < messages.len() ==> answers(#[trigger] messages[i], results[i])
}

proof fn lemma_roles_differ()
    ensures
        "tool"@ != "user"@,
        "tool"@ != "assistant"@,
        "tool"@ != "system"@,
        "user"@ != "assistant"@,
        "user"@ != "system"@,
        "assistant"@ != "system"@,
{
    reveal_strlit("tool");
    reveal_strlit("user");
    reveal_strlit("assistant");
    reveal_strlit("system");
    assert("tool"@[0] != "user"@[0]);
    assert("tool"@.len() == 4);
    assert("user"@.len() == 4);
    assert("assistant"@.len() == 9);
    assert("system"@.len() == 6);
}

proof fn lemma_role_split(a: Seq<JsonView>, b: Seq<JsonView>, role: Seq<char>)
    ensures
        of_role(a + b, role) == of_role(a, role) + of_role(b, role),
    decreases b.len(),
{
    if b.len() == 0 {
        assert(a + b =~= a);
        assert(of_role(a, role) + of_role(b, role) =~= of_role(a, role));
    } else {
        assert((a + b).drop_last() =~= a + b.drop_last());
        lemma_role_split(a, b.drop_last(), role);
        assert(of_role(a + b, role) =~= of_role(a, role) + of_role(b, role));
    }
}

proof fn lemma_tool_messages_answer(parts: Seq<UserContentView>)
    ensures
        of_role(tool_messages(parts), "tool"@) == tool_messages(parts),
        all_answer(tool_messages(parts), parts.filter(|p: UserContentView| p is ToolResult)),
    decreases parts.len(),
{
    reveal(Seq::filter);
    lemma_message_keys_differ();
    if parts.len() > 0 {
        let before = tool_messages(parts.drop_last());
        lemma_tool_messages_answer(parts.drop_last());
        if let UserContentView::ToolResult { id, content, is_error } = parts.last() {
            assert(tool_messages(parts).drop_last() =~= before);
            assert(content.map_values(|p: ToolResultPartView| part_text(p))
                =~= content.map_values(
                |p: ToolResultPartView|
                    match p {
                        ToolResultPartView::Text(t) => t,
                        ToolResultPartView::Image(_) => "[image]"@,
                    },
            ));
            assert(answers(tool_messages(parts).last(), parts.last()));
        }
    }
}

proof fn lemma_user_messages_answer(parts: Seq<UserContentView>)
    ensures
        of_role(user_messages(parts), "tool"@) == tool_messages(parts),
{
    lemma_message_keys_differ();
    lemma_roles_differ();
    lemma_tool_messages_answer(parts);
    if user_messages(parts).len() > tool_messages(parts).len() {
        assert(user_messages(parts).drop_last() =~= tool_messages(parts));
    }
}

proof fn lemma_turns_answer(messages: Seq<MessageView>)
    ensures
        all_answer(of_role(turn_messages(messages), "tool"@), tool_results_in(messages)),
    decreases messages.len(),
{
    lemma_message_keys_differ();
    lemma_roles_differ();
    if messages.len() > 0 {
        let before = turn_messages(messages.drop_last());
        lemma_turns_answer(messages.drop_last());
        match messages.last() {
            MessageView::User(parts) => {
                lemma_tool_messages_answer(parts);
                lemma_user_messages_answer(parts);
                lemma_role_split(before, user_messages(parts), "tool"@);
            },
            MessageView::Assistant(parts) => {
                assert(turn_messages(messages).drop_last() =~= before);
                assert(turn_messages(messages).last().text_at("role"@) == Some("assistant"@));
            },
        }
    }
}

/// Every tool result of the conversation becomes a tool message, and nothing else
/// does: first to last, with the id of its call and all its text.
pub proof fn every_tool_result_is_sent(
    system: Option<SystemPromptView>,
    messages: Seq<MessageView>,
)
    ensures
        all_answer(of_role(all_messages(system, messages), "tool"@), tool_results_in(messages)),
{
    lemma_message_keys_differ();
    lemma_roles_differ();
    lemma_turns_answer(messages);
    if system is Some {
        let turns = turn_messages(messages);
        let head = all_messages(system, messages).take(1);
        assert(all_messages(system, messages) =~= head + turns);
        lemma_role_split(head, turns, "tool"@);
        assert(head.drop_last() =~= Seq::empty());
        reveal_with_fuel(of_role, 2);
        assert(head.last().text_at("role"@) == Some("system"@));
        assert(of_role(head, "tool"@) =~= Seq::empty());
        assert(of_role(head, "tool"@) + of_role(turns, "tool"@) =~= of_role(turns, "tool"@));
    }
}

/// What a user said is sent as said. A turn without images is the user's message
/// with the texts one per line, or no message where that is empty; one with images
/// is a list with every text and every image, in order. The tool results come
/// before.
pub proof fn what_the_user_said_is_sent(parts: Seq<UserContentView>)
    ensures
        ({
            let results = parts.filter(|p: UserContentView| p is ToolResult);
            let shown = text::joined(
                parts.filter(|p: UserContentView| p is Text).map_values(
                    |p: UserContentView| p->Text_0,
                ),
                "\n"@,
            );
            let others = parts.filter(|p: UserContentView| !(p is ToolResult));
            let messages = user_messages(parts);
            if exists|i: int| 0 <= i < parts.len() && (#[trigger] parts[i]) is Image {
                &&& messages.len() == results.len() + 1
                &&& messages.last().text_at("role"@) == Some("user"@)
                &&& messages.last().elements_at("content"@) matches Some(items)
                &&& items.len() == others.len()
                &&& forall|i: int|
                    0 <= i < items.len() ==> part_stands_for(#[trigger] items[i], others[i])
            } else if shown.len() > 0 {
                &&& messages.len() == results.len() + 1
                &&& messages.last().text_at("role"@) == Some("user"@)
                &&& messages.last().text_at("content"@) == Some(shown)
            } else {
                messages.len() == results.len()
            }
        }),
{
    lemma_message_keys_differ();
    lemma_tool_messages_answer(parts);
    lemma_user_texts(parts);
    lemma_content_parts(parts);
}

/// A content part stands for a text or an image: a text as it is, an image by its
/// address, as a data URI, or by its file.
pub open spec fn part_stands_for(item: JsonView, part: UserContentView) -> bool {
    match part {
        UserContentView::Text(t) => item.text_at("type"@) == Some("text"@) && item.text_at("text"@)
            == Some(t),
        UserContentView::Image(ImageSourceView::Url { url }) => item.text_at("type"@) == Some(
            "image_url"@,
        ) && item.member_in("image_url"@, "url"@) == Some(JsonView::Text(url)),
        UserContentView::Image(ImageSourceView::Base64 { media_type, data }) => item.text_at(
            "type"@,
        ) == Some("image_url"@) && item.member_in("image_url"@, "url"@) == Some(
            JsonView::Text("data:"@ + media_type + ";base64,"@ + provider::base64_text(data)),
        ),
        UserContentView::Image(ImageSourceView::FileId { file_id }) => item.text_at("type"@)
            == Some("input_image"@) && item.text_at("file_id"@) == Some(file_id),
        UserContentView::ToolResult { .. } => false,
    }
}

proof fn lemma_user_texts(parts: Seq<UserContentView>)
    ensures
        user_texts(parts) == parts.filter(|p: UserContentView| p is Text).map_values(
            |p: UserContentView| p->Text_0,
        ),
    decreases parts.len(),
{
    reveal(Seq::filter);
    let texts = parts.filter(|p: UserContentView| p is Text).map_values(
        |p: UserContentView| p->Text_0,
    );
    if parts.len() > 0 {
        lemma_user_texts(parts.drop_last());
        assert(user_texts(parts) =~= texts);
    } else {
        assert(user_texts(parts) =~= texts);
    }
}

proof fn lemma_content_parts(parts: Seq<UserContentView>)
    ensures
        content_parts(parts).len() == parts.filter(
            |p: UserContentView| !(p is ToolResult),
        ).len(),
        forall|i: int|
            0 <= i < content_parts(parts).len() ==> part_stands_for(
                #[trigger] content_parts(parts)[i],
                parts.filter(|p: UserContentView| !(p is ToolResult))[i],
            ),
    decreases parts.len(),
{
    reveal(Seq::filter);
    lemma_part_keys_differ();
    if parts.len() > 0 {
        lemma_content_parts(parts.drop_last());
    }
}

/// The system prompt is sent first, as the system's message, and only where there
/// is one; the conversation follows, turn by turn.
pub proof fn the_system_prompt_comes_first(
    system: Option<SystemPromptView>,
    messages: Seq<MessageView>,
)
    ensures
        match system {
            Some(prompt) => {
                let all = all_messages(system, messages);
                &&& all.len() > 0
                &&& all[0].text_at("role"@) == Some("system"@)
                &&& all[0].text_at("content"@) == Some(prompt.text)
                &&& all.drop_first() == all_messages(None, messages)
            },
            None => of_role(all_messages(system, messages), "system"@).len() == 0,
        },
{
    lemma_message_keys_differ();
    match system {
        Some(prompt) => {
            assert(all_messages(system, messages).drop_first() =~= turn_messages(messages));
        },
        None => {
            lemma_no_system_among_turns(messages);
        },
    }
}

proof fn lemma_no_system_among_turns(messages: Seq<MessageView>)
    ensures
        of_role(turn_messages(messages), "system"@).len() == 0,
    decreases messages.len(),
{
    lemma_message_keys_differ();
    lemma_roles_differ();
    if messages.len() > 0 {
        let before = turn_messages(messages.drop_last());
        lemma_no_system_among_turns(messages.drop_last());
        match messages.last() {
            MessageView::User(parts) => {
                lemma_no_system_in_a_turn(parts);
                lemma_role_split(before, user_messages(parts), "system"@);
            },
            MessageView::Assistant(parts) => {
                assert(turn_messages(messages).drop_last() =~= before);
                assert(turn_messages(messages).last().text_at("role"@) == Some("assistant"@));
            },
        }
    }
}

proof fn lemma_no_system_in_a_turn(parts: Seq<UserContentView>)
    ensures
        of_role(tool_messages(parts), "system"@).len() == 0,
        of_role(user_messages(parts), "system"@).len() == 0,
    decreases parts.len(),
{
    lemma_message_keys_differ();
    lemma_roles_differ();
    if parts.len() > 0 {
        lemma_no_system_in_a_turn(parts.drop_last());
        if parts.last() is ToolResult {
            assert(tool_messages(parts).drop_last() =~= tool_messages(parts.drop_last()));
        }
    }
    if user_messages(parts).len() > tool_messages(parts).len() {
        assert(user_messages(parts).drop_last() =~= tool_messages(parts));
        assert(user_messages(parts).last().text_at("role"@) == Some("user"@));
    } else {
        assert(user_messages(parts) =~= tool_messages(parts));
    }
}

/// A tool is offered under its name, with its description and its parameters, and
/// as strict exactly where it is.
pub open spec fn offers(item: JsonView, tool: ToolDefView) -> bool {
    &&& item.text_at("type"@) == Some("function"@)
    &&& item.member("function"@) matches Some(function)
    &&& function.text_at("name"@) == Some(tool.name)
    &&& function.text_at("description"@) == Some(tool.description)
    &&& function.member("parameters"@) == Some(tool.parameters)
    &&& function.member("strict"@) == (if tool.strict {
        Some(JsonView::Bool(true))
    } else {
        None
    })
}

/// Whether a choice of tools says what the policy says: the model decides, must
/// call one, may call none, or must call the one named.
pub open spec fn chooses(choice: JsonView, policy: ToolChoiceView) -> bool {
    match policy {
        ToolChoiceView::Auto => choice == JsonView::Text("auto"@),
        ToolChoiceView::Any => choice == JsonView::Text("required"@),
        ToolChoiceView::Required => choice == JsonView::Text("required"@),
        ToolChoiceView::Disabled => choice == JsonView::Text("none"@),
        ToolChoiceView::Tool(name) => choice.text_at("type"@) == Some("function"@)
            && choice.member_in("function"@, "name"@) == Some(JsonView::Text(name)),
    }
}

/// A body says what the request says, member by member: the model, the token
/// limit, every tool with the policy, and each optional setting exactly where it is
/// set. What the author adds by hand wins over all of it.
pub proof fn a_body_says_what_the_request_says(
    model: Seq<char>,
    req: ChatRequestView,
    stream: bool,
    key: Seq<char>,
)
    ensures
        ({
            let body = JsonView::Object(body_members(model, req, stream));
            let own = !req.extra.contains_key(key);
            &&& req.extra.contains_key(key) ==> body.member(key) == Some(req.extra[key])
            &&& own && key == "model"@ ==> body.member(key) == Some(JsonView::Text(model))
            &&& own && key == "max_completion_tokens"@ ==> body.member(key) == Some(
                JsonView::Unsigned(req.max_tokens as u64),
            )
            &&& own && key == "messages"@ ==> body.member(key) == Some(
                JsonView::Array(all_messages(req.system, req.messages)),
            )
            &&& own && key == "tools"@ ==> match body.elements_at(key) {
                Some(items) => req.tools.len() > 0 && items.len() == req.tools.len() && forall|
                    i: int,
                | 0 <= i < items.len() ==> offers(#[trigger] items[i], req.tools[i]),
                None => req.tools.len() == 0,
            }
            &&& own && key == "tool_choice"@ ==> match body.member(key) {
                Some(choice) => req.tools.len() > 0 && chooses(choice, req.tool_choice),
                None => req.tools.len() == 0,
            }
            &&& own && key == "temperature"@ ==> body.member(key) == req.temperature
            &&& own && key == "stop"@ ==> match body.elements_at(key) {
                Some(items) => req.stop_sequences.len() > 0 && items.len()
                    == req.stop_sequences.len() && forall|i: int|
                    0 <= i < items.len() ==> #[trigger] items[i] == JsonView::Text(
                        req.stop_sequences[i],
                    ),
                None => req.stop_sequences.len() == 0,
            }
            &&& own && key == "prompt_cache_key"@ ==> body.text_at(key) == req.cache_key
            &&& own && key == "stream"@ ==> body.member(key) == (if stream {
                Some(JsonView::Bool(true))
            } else {
                None
            })
            &&& own && key == "stream_options"@ ==> body.member_in(key, "include_usage"@) == (
            if stream {
                Some(JsonView::Bool(true))
            } else {
                None
            })
        }),
{
    lemma_body_keys_differ();
    lemma_call_keys_differ();
}

proof fn lemma_reasons_differ()
    ensures
        "stop"@ != "length"@,
        "stop"@ != "tool_calls"@,
        "stop"@ != "function_call"@,
        "stop"@ != "content_filter"@,
        "length"@ != "tool_calls"@,
        "length"@ != "function_call"@,
        "length"@ != "content_filter"@,
        "tool_calls"@ != "function_call"@,
        "tool_calls"@ != "content_filter"@,
        "function_call"@ != "content_filter"@,
{
    reveal_strlit("stop");
    reveal_strlit("length");
    reveal_strlit("tool_calls");
    reveal_strlit("function_call");
    reveal_strlit("content_filter");
    assert("stop"@.len() == 4);
    assert("length"@.len() == 6);
    assert("tool_calls"@.len() == 10);
    assert("function_call"@.len() == 13);
    assert("content_filter"@.len() == 14);
}


/// A fragment belongs to the call at an index: it names the index, or names none
/// and the index is the first.
pub open spec fn carries(call: JsonView, index: u64) -> bool {
    match call.unsigned_at("index"@) {
        Some(n) => n == index,
        None => index == 0,
    }
}

/// A text of the function of a fragment, or nothing.
pub open spec fn piece(call: JsonView, key: Seq<char>) -> Seq<char> {
    match call.member("function"@) {
        Some(function) => match function.text_at(key) {
            Some(t) => t,
            None => Seq::empty(),
        },
        None => Seq::empty(),
    }
}

/// The texts of the fragments that belong to an index, one after the other.
pub open spec fn gathered(calls: Seq<JsonView>, index: u64, key: Seq<char>) -> Seq<char>
    decreases calls.len(),
{
    if calls.len() == 0 {
        Seq::empty()
    } else if carries(calls.last(), index) {
        gathered(calls.drop_last(), index, key) + piece(calls.last(), key)
    } else {
        gathered(calls.drop_last(), index, key)
    }
}

/// The last id that a fragment of an index gives.
pub open spec fn last_id(calls: Seq<JsonView>, index: u64) -> Seq<char>
    decreases calls.len(),
{
    if calls.len() == 0 {
        Seq::empty()
    } else if carries(calls.last(), index) && calls.last().text_at("id"@) is Some {
        calls.last().text_at("id"@)->0
    } else {
        last_id(calls.drop_last(), index)
    }
}

/// No two open calls have one index.
pub open spec fn indexes_differ(tools: Seq<(u64, ToolBufView)>) -> bool {
    forall|i: int, j: int|
        0 <= i < j < tools.len() ==> (#[trigger] tools[i]).0 != (#[trigger] tools[j]).0
}

/// A call of the fragment's index is open.
pub open spec fn is_open(tools: Seq<(u64, ToolBufView)>, call: JsonView) -> bool {
    exists|i: int| 0 <= i < tools.len() && carries(call, (#[trigger] tools[i]).0)
}

/// The index occurs among the fragments.
pub open spec fn occurs(calls: Seq<JsonView>, index: u64) -> bool {
    exists|j: int| 0 <= j < calls.len() && carries(#[trigger] calls[j], index)
}

/// A call after a fragment: joined with it where it is the fragment's, and as it was
/// where it is not.
pub open spec fn joined_or_kept(
    before: (u64, ToolBufView),
    after: (u64, ToolBufView),
    call: JsonView,
) -> bool {
    &&& after.0 == before.0
    &&& if carries(call, before.0) {
        &&& after.1.name == before.1.name + piece(call, "name"@)
        &&& after.1.args == before.1.args + piece(call, "arguments"@)
        &&& after.1.id == (match call.text_at("id"@) {
            Some(id) => id,
            None => before.1.id,
        })
    } else {
        after == before
    }
}

/// A call that a fragment opens holds what the fragment holds.
pub open spec fn opened_by(opened: (u64, ToolBufView), call: JsonView) -> bool {
    &&& carries(call, opened.0)
    &&& opened.1.name == piece(call, "name"@)
    &&& opened.1.args == piece(call, "arguments"@)
    &&& opened.1.id == (match call.text_at("id"@) {
        Some(id) => id,
        None => Seq::empty(),
    })
}

/// A fragment goes to the call of its own index and leaves every other call as it
/// was; where no call of that index is open, it opens one, after the others.
pub proof fn a_fragment_changes_its_own_call_alone(
    tools: Seq<(u64, ToolBufView)>,
    call: JsonView,
)
    requires
        indexes_differ(tools),
    ensures
        indexes_differ(on_fragment(tools, call)),
        is_open(tools, call) ==> on_fragment(tools, call).len() == tools.len(),
        !is_open(tools, call) ==> on_fragment(tools, call).len() == tools.len() + 1 && opened_by(
            on_fragment(tools, call).last(),
            call,
        ),
        forall|i: int|
            0 <= i < tools.len() ==> joined_or_kept(
                tools[i],
                #[trigger] on_fragment(tools, call)[i],
                call,
            ),
{
    let index = match call.unsigned_at("index"@) {
        Some(n) => n,
        None => 0u64,
    };
    let after = on_fragment(tools, call);
    let nothing = Seq::<char>::empty();
    collections::lemma_position(tools, index);
    assert(nothing + piece(call, "name"@) =~= piece(call, "name"@));
    assert(nothing + piece(call, "arguments"@) =~= piece(call, "arguments"@));
    match collections::position(tools, index) {
        Some(k) => {
            assert(tools[k].1.name + nothing =~= tools[k].1.name);
            assert(tools[k].1.args + nothing =~= tools[k].1.args);
            assert(carries(call, tools[k].0));
            assert forall|i: int, j: int| 0 <= i < j < after.len() implies (#[trigger] after[i]).0
                != (#[trigger] after[j]).0 by {
                assert(tools[i].0 != tools[j].0);
            }
            assert forall|i: int| 0 <= i < tools.len() implies joined_or_kept(
                tools[i],
                #[trigger] after[i],
                call,
            ) by {
                if i < k {
                    assert(tools[i].0 != tools[k].0);
                } else if i > k {
                    assert(tools[k].0 != tools[i].0);
                }
            }
        },
        None => {
            assert forall|i: int, j: int| 0 <= i < j < after.len() implies (#[trigger] after[i]).0
                != (#[trigger] after[j]).0 by {
                assert(tools[i].0 != index);
                if j < tools.len() {
                    assert(tools[i].0 != tools[j].0);
                }
            }
        },
    }
}

/// An open call is what its fragments gave: the last id, and the names and the
/// arguments of exactly the fragments of its index, each joined in order.
pub open spec fn made_of(entry: (u64, ToolBufView), calls: Seq<JsonView>) -> bool {
    &&& occurs(calls, entry.0)
    &&& entry.1.name == gathered(calls, entry.0, "name"@)
    &&& entry.1.args == gathered(calls, entry.0, "arguments"@)
    &&& entry.1.id == last_id(calls, entry.0)
}

/// The open calls after fragments: one for each index that occurs, made of exactly
/// the fragments of that index. So calls of different indexes never share a text.
pub proof fn fragments_of_one_index_make_one_call(calls: Seq<JsonView>)
    ensures
        indexes_differ(on_fragments(Seq::empty(), calls)),
        forall|i: int|
            0 <= i < on_fragments(Seq::empty(), calls).len() ==> made_of(
                #[trigger] on_fragments(Seq::empty(), calls)[i],
                calls,
            ),
        forall|j: int|
            0 <= j < calls.len() ==> is_open(
                on_fragments(Seq::empty(), calls),
                #[trigger] calls[j],
            ),
    decreases calls.len(),
{
    if calls.len() > 0 {
        let shorter = calls.drop_last();
        let call = calls.last();
        let before = on_fragments(Seq::empty(), shorter);
        let after = on_fragments(Seq::empty(), calls);
        fragments_of_one_index_make_one_call(shorter);
        a_fragment_changes_its_own_call_alone(before, call);
        assert forall|i: int| 0 <= i < after.len() implies made_of(#[trigger] after[i], calls) by {
            if i < before.len() {
                lemma_still_made_of(before[i], after[i], calls);
            } else {
                lemma_newly_made_of(before, after[i], calls);
            }
        }
        assert forall|j: int| 0 <= j < calls.len() implies is_open(after, #[trigger] calls[j]) by {
            if j < shorter.len() {
                assert(is_open(before, shorter[j]));
                let i = choose|i: int|
                    0 <= i < before.len() && carries(shorter[j], (#[trigger] before[i]).0);
                assert(joined_or_kept(before[i], after[i], call));
                assert(carries(calls[j], after[i].0));
            } else if is_open(before, call) {
                let i = choose|i: int|
                    0 <= i < before.len() && carries(call, (#[trigger] before[i]).0);
                assert(joined_or_kept(before[i], after[i], call));
                assert(carries(calls[j], after[i].0));
            } else {
                assert(carries(calls[j], after[after.len() - 1].0));
            }
        }
    }
}

proof fn lemma_still_made_of(
    before: (u64, ToolBufView),
    after: (u64, ToolBufView),
    calls: Seq<JsonView>,
)
    requires
        calls.len() > 0,
        made_of(before, calls.drop_last()),
        joined_or_kept(before, after, calls.last()),
    ensures
        made_of(after, calls),
{
    let shorter = calls.drop_last();
    let j = choose|j: int| 0 <= j < shorter.len() && carries(#[trigger] shorter[j], before.0);
    assert(carries(calls[j], after.0));
}

proof fn lemma_newly_made_of(
    tools: Seq<(u64, ToolBufView)>,
    opened: (u64, ToolBufView),
    calls: Seq<JsonView>,
)
    requires
        calls.len() > 0,
        !is_open(tools, calls.last()),
        opened_by(opened, calls.last()),
        forall|j: int|
            0 <= j < calls.drop_last().len() ==> is_open(tools, #[trigger] calls.drop_last()[j]),
    ensures
        made_of(opened, calls),
{
    let shorter = calls.drop_last();
    assert forall|j: int| 0 <= j < shorter.len() implies !carries(
        #[trigger] shorter[j],
        opened.0,
    ) by {
        assert(is_open(tools, shorter[j]));
        let i = choose|i: int| 0 <= i < tools.len() && carries(shorter[j], (#[trigger] tools[i]).0);
        assert(!carries(calls.last(), tools[i].0));
    }
    lemma_nothing_gathered(shorter, opened.0);
    assert(carries(calls[calls.len() - 1], opened.0));
    assert(Seq::<char>::empty() + piece(calls.last(), "name"@) =~= piece(calls.last(), "name"@));
    assert(Seq::<char>::empty() + piece(calls.last(), "arguments"@) =~= piece(
        calls.last(),
        "arguments"@,
    ));
}

/// Nothing is gathered for an index that does not occur.
proof fn lemma_nothing_gathered(calls: Seq<JsonView>, index: u64)
    requires
        forall|j: int| 0 <= j < calls.len() ==> !carries(#[trigger] calls[j], index),
    ensures
        gathered(calls, index, "name"@) == Seq::<char>::empty(),
        gathered(calls, index, "arguments"@) == Seq::<char>::empty(),
        last_id(calls, index) == Seq::<char>::empty(),
    decreases calls.len(),
{
    if calls.len() > 0 {
        let shorter = calls.drop_last();
        assert forall|j: int| 0 <= j < shorter.len() implies !carries(
            #[trigger] shorter[j],
            index,
        ) by {
            assert(!carries(calls[j], index));
        }
        lemma_nothing_gathered(shorter, index);
        assert(!carries(calls[calls.len() - 1], index));
    }
}

/// Fragments count the same whether they come in one chunk or in two.
pub proof fn fragments_may_come_in_any_chunks(
    tools: Seq<(u64, ToolBufView)>,
    a: Seq<JsonView>,
    b: Seq<JsonView>,
)
    ensures
        on_fragments(on_fragments(tools, a), b) == on_fragments(tools, a + b),
    decreases b.len(),
{
    if b.len() == 0 {
        assert(a + b =~= a);
    } else {
        fragments_may_come_in_any_chunks(tools, a, b.drop_last());
        assert((a + b).drop_last() =~= a + b.drop_last());
        assert((a + b).last() == b.last());
    }
}

/// At the end of the stream every open call is emitted whole, in the order in which
/// it was opened, and then the end, with the stop reason and the usage that came.
pub proof fn every_open_call_is_emitted_whole(accum: AccumView)
    ensures
        ({
            let events = final_events(accum);
            let n = accum.tools.len();
            &&& events.len() == n + 1
            &&& forall|i: int|
                0 <= i < n ==> (#[trigger] events[i]) == (StreamEventView::ToolCall {
                    id: accum.tools[i].1.id,
                    name: accum.tools[i].1.name,
                    arguments: provider::whole_arguments(accum.tools[i].1.args),
                })
            &&& events[n as int] matches StreamEventView::End { stop, usage }
            &&& usage == accum.usage
            &&& accum.stop matches Some(reason) ==> stop == reason
            &&& accum.stop is None ==> stop is EndTurn
        }),
{
}

/// The first choice of a chunk or a response, where it has one.
pub open spec fn choice_in(value: JsonView, choice: JsonView) -> bool {
    value.member("choices"@) matches Some(choices) && choices.element(0) == Some(choice)
}

/// What a chunk does. New text is emitted at once, as it came; fragments of calls
/// are kept; a finish reason and a usage count replace those before; and a chunk
/// without one leaves it as it was.
pub proof fn a_chunk_adds_what_it_carries(accum: AccumView, event: JsonView, choice: JsonView)
    requires
        choice_in(event, choice),
    ensures
        ({
            let (after, events) = on_chunk(accum, event);
            let delta = choice.member("delta"@);
            &&& match delta {
                Some(d) => match d.text_at("content"@) {
                    Some(t) => if t.len() > 0 {
                        events == seq![StreamEventView::TextDelta(t)]
                    } else {
                        events.len() == 0
                    },
                    None => events.len() == 0,
                },
                None => events.len() == 0,
            }
            &&& match choice.text_at("finish_reason"@) {
                Some(reason) => after.stop == Some(finish_reason_of(reason)),
                None => after.stop == accum.stop,
            }
            &&& match event.member("usage"@) {
                Some(u) => after.usage == (if u is Null {
                    accum.usage
                } else {
                    usage_of(u)
                }),
                None => after.usage == accum.usage,
            }
            &&& match delta {
                Some(d) => match d.elements_at("tool_calls"@) {
                    Some(calls) => after.tools == on_fragments(accum.tools, calls),
                    None => after.tools == accum.tools,
                },
                None => after.tools == accum.tools,
            }
        }),
{
}

/// What a finish reason means; one that is not known is kept as it came, so two
/// unknown ones are told apart.
pub proof fn a_finish_reason_keeps_its_meaning(reason: Seq<char>)
    ensures
        reason == "stop"@ ==> finish_reason_of(reason) is EndTurn,
        reason == "length"@ ==> finish_reason_of(reason) is MaxTokens,
        reason == "tool_calls"@ || reason == "function_call"@ ==> finish_reason_of(
            reason,
        ) is ToolUse,
        reason == "content_filter"@ ==> finish_reason_of(reason) is Refusal,
        finish_reason_of(reason) is EndTurn ==> reason == "stop"@,
        finish_reason_of(reason) is MaxTokens ==> reason == "length"@,
        finish_reason_of(reason) is ToolUse ==> reason == "tool_calls"@ || reason
            == "function_call"@,
        finish_reason_of(reason) is Refusal ==> reason == "content_filter"@,
        finish_reason_of(reason) matches StopReasonView::Other(kept) ==> kept == reason,
{
    lemma_reasons_differ();
}

/// The counts of a usage object: those of the prompt and of the completion, and
/// among them the cached and the reasoning tokens; one that is missing is zero.
/// Cache writes are not counted.
pub proof fn usage_is_read_by_name(usage: JsonView, n: u64)
    ensures
        usage.unsigned_at("prompt_tokens"@) == Some(n) ==> usage_of(usage).input_tokens == n,
        usage.unsigned_at("prompt_tokens"@) is None ==> usage_of(usage).input_tokens == 0,
        usage.unsigned_at("completion_tokens"@) == Some(n) ==> usage_of(usage).output_tokens == n,
        usage.unsigned_at("completion_tokens"@) is None ==> usage_of(usage).output_tokens == 0,
        usage.member("prompt_tokens_details"@) matches Some(details) ==> (details.unsigned_at(
            "cached_tokens"@,
        ) == Some(n) ==> usage_of(usage).cache_read_tokens == n),
        usage.member("prompt_tokens_details"@) is None ==> usage_of(usage).cache_read_tokens == 0,
        usage.member("completion_tokens_details"@) matches Some(details) ==> (details.unsigned_at(
            "reasoning_tokens"@,
        ) == Some(n) ==> usage_of(usage).reasoning_tokens == n),
        usage.member("completion_tokens_details"@) is None ==> usage_of(usage).reasoning_tokens
            == 0,
        usage_of(usage).cache_create_tokens == 0,
{
}

/// A call of a response is read as it was sent: by its id, its name, and the value
/// of its argument text; text that is no JSON counts as no arguments.
pub open spec fn call_read_as(call: JsonView, block: AssistantContentView) -> bool {
    &&& block matches AssistantContentView::ToolUse { id, name, input }
    &&& call.member("function"@) matches Some(function)
    &&& call.text_at("id"@) matches Some(sent) ==> id == sent
    &&& function.text_at("name"@) matches Some(sent) ==> name == sent
    &&& function.text_at("arguments"@) matches Some(sent) ==> match crate::json::json_of_text(
        sent,
    ) {
        Ok(value) => input == value,
        Err(_) => input == JsonView::Object(Map::empty()),
    }
}

/// The calls of a response message that name a function, in order.
pub open spec fn sent_calls(message: JsonView) -> Seq<JsonView> {
    match message.elements_at("tool_calls"@) {
        Some(calls) => calls.filter(|c: JsonView| c.member("function"@) is Some),
        None => Seq::empty(),
    }
}

/// How many texts a response message has: one, or none where it is empty.
pub open spec fn sent_texts(message: JsonView) -> int {
    match message.text_at("content"@) {
        Some(t) => if t.len() > 0 {
            1
        } else {
            0
        },
        None => 0,
    }
}

/// A response is read as it was sent: its text, where there is some, before its
/// calls in order; its finish reason and its usage.
pub proof fn a_response_is_read_as_sent(value: JsonView, choice: JsonView, message: JsonView)
    requires
        choice_in(value, choice),
        choice.member("message"@) == Some(message),
    ensures
        ({
            let read = response_of(value);
            &&& read.content.len() == sent_texts(message) + sent_calls(message).len()
            &&& sent_texts(message) == 1 ==> read.content[0] == AssistantContentView::Text(
                message.text_at("content"@)->0,
            )
            &&& forall|i: int|
                0 <= i < sent_calls(message).len() ==> call_read_as(
                    #[trigger] sent_calls(message)[i],
                    read.content[sent_texts(message) + i],
                )
            &&& choice.text_at("finish_reason"@) matches Some(reason) ==> read.stop
                == finish_reason_of(reason)
            &&& choice.text_at("finish_reason"@) is None ==> read.stop is EndTurn
            &&& value.member("usage"@) matches Some(u) ==> read.usage == usage_of(u)
        }),
{
    match message.elements_at("tool_calls"@) {
        Some(calls) => {
            lemma_calls_read(calls);
        },
        None => {},
    }
}

proof fn lemma_calls_read(calls: Seq<JsonView>)
    ensures
        ({
            let kept = calls.filter(|c: JsonView| c.member("function"@) is Some);
            &&& tool_calls_of(calls).len() == kept.len()
            &&& forall|i: int|
                0 <= i < kept.len() ==> call_read_as(
                    #[trigger] kept[i],
                    tool_calls_of(calls)[i],
                )
        }),
    decreases calls.len(),
{
    reveal(Seq::filter);
    if calls.len() > 0 {
        lemma_calls_read(calls.drop_last());
    }
}

/// A call that was written is read back, up to how its input prints.
pub proof fn a_written_call_reads_back(id: Seq<char>, name: Seq<char>, arguments: Seq<char>)
    ensures
        tool_call_of(call_json(id, name, arguments)) matches Some(
            AssistantContentView::ToolUse { id: read_id, name: read_name, input },
        ) && read_id == id && read_name == name && (crate::json::json_of_text(
            arguments,
        ) matches Ok(value) ==> input == value),
{
    lemma_call_keys_differ();
}

/// The data of an event line is what stands behind `data:`, without the white space
/// around it; any other line carries none.
pub proof fn an_event_line_carries_its_data(
    data: Seq<char>,
    before: Seq<char>,
    after: Seq<char>,
    line: Seq<char>,
)
    requires
        text::has_firm_edges(data),
        forall|i: int| 0 <= i < before.len() ==> text::white_space(#[trigger] before[i]),
        forall|i: int| 0 <= i < after.len() ==> text::white_space(#[trigger] after[i]),
    ensures
        data_of("data:"@ + before + data + after) == Some(data),
        !"data:"@.is_prefix_of(text::trimmed(line)) ==> data_of(line) is None,
{
    reveal_strlit("data:");
    let none = Seq::<char>::empty();
    let whole = "data:"@ + before + data + after;
    let core = "data:"@ + before + data;
    assert(core[0] == 'd');
    assert(core.last() == data.last());
    assert(none + core + after =~= whole);
    text::trimming_keeps_the_text(none, core, after);
    assert(core.take(5) =~= "data:"@);
    assert(core.skip(5) =~= before + data + none);
    text::trimming_keeps_the_text(before, data, none);
}

/// An event line is the chunk that its data reads as, `[DONE]` is the end, and any
/// other line does nothing. The start of the stream comes with the first chunk.
pub proof fn a_line_is_the_chunk_it_carries(reading: Reading, line: Seq<char>)
    ensures
        data_of(line) is None ==> on_line(reading, line) == (
            reading,
            Seq::<StreamEventView>::empty(),
        ),
        data_of(line) == Some("[DONE]"@) ==> {
            &&& on_line(reading, line).0.done
            &&& on_line(reading, line).0.accum.tools.len() == 0
            &&& on_line(reading, line).1 == final_events(reading.accum)
        },
        data_of(line) matches Some(data) ==> (data != "[DONE]"@ ==> match
            crate::json::json_of_text(data) {
            Ok(event) => {
                let (next, events) = on_line(reading, line);
                let (accum, chunk) = on_chunk(reading.accum, event);
                &&& next.accum == accum
                &&& next.started
                &&& next.done == reading.done
                &&& reading.started ==> events == chunk
                &&& !reading.started ==> events == seq![
                    StreamEventView::Start { usage: Usage::nothing() },
                ] + chunk
            },
            Err(_) => on_line(reading, line) == (reading, Seq::<StreamEventView>::empty()),
        }),
{
}

/// Lines are read one after the other until the stream ends: each emits its events
/// before those of the rest, and an incomplete one waits.
pub proof fn lines_are_read_one_after_the_other(
    reading: Reading,
    line: Seq<char>,
    more: Seq<char>,
)
    requires
        forall|i: int| 0 <= i < line.len() ==> (#[trigger] line[i]) != '\n',
    ensures
        !reading.done ==> {
            let whole = consume(reading, line + seq!['\n'] + more);
            let rest = consume(on_line(reading, line).0, more);
            &&& whole.events == on_line(reading, line).1 + rest.events
            &&& whole.reading == rest.reading
            &&& whole.rest == rest.rest
        },
        reading.done ==> consume(reading, more).events.len() == 0 && consume(reading, more).reading
            == reading,
        consume(reading, line) == (Consumed { reading, events: Seq::empty(), rest: line }),
{
    let n: int = line.len() as int;
    let whole = line + seq!['\n'] + more;
    assert forall|j: int| 0 <= j < n implies whole[j] != '\n' by {
        assert(whole[j] == line[j]);
    }
    text::lemma_line_len(whole, n);
    text::lemma_line_len(line, n);
    assert(whole.take(n) =~= line);
    assert(whole.skip(n + 1) =~= more);
}

} // verus!
