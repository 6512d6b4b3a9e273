//! The Anthropic Messages wire format.
//!
//! Maps a [`ChatRequest`] to a request body, a response body to a
//! [`ChatResponse`], and the events of a stream to [`StreamEvent`]s.

use crate::cache::{CacheStrategy, CacheStrategyView, CacheTarget};
use crate::error::{ProviderError, ProviderErrorView};
use crate::json::{owned, text_or_empty, Json, JsonView, Members};
use crate::message::{
    AssistantContent, AssistantContentView, ImageSource, ImageSourceView, Message, MessageView,
    SystemPrompt, SystemPromptView, Thinking, ThinkingView, ToolResultPart, ToolResultPartView,
    UserContent, UserContentView,
};
use crate::provider;
use crate::provider::{
    base64_encode, complete_arguments, or_zero, ChatRequest, ChatRequestView, ChatResponse,
    ChatResponseView, StopReason, StopReasonView, StreamEvent, StreamEventView, ThinkingConfig,
    ToolChoice, ToolChoiceView, ToolDef, ToolDefView,
};
use crate::text::{chars_of, debug_text, decode_lossy, strip_prefix, text_between, trim, trim_end};
use crate::usage::Usage;
use crate::views;
use std::time::Duration;
use vstd::prelude::*;

verus! {

/// A `cache_control` breakpoint.
pub open spec fn breakpoint() -> JsonView {
    JsonView::Object(map!["type"@ => JsonView::Text("ephemeral"@)])
}

fn cache_control() -> (json: Json)
    ensures
        json@ == breakpoint(),
{
    Json::object1("type", Json::text("ephemeral"))
}

/// A text block.
pub open spec fn text_block(text: Seq<char>) -> JsonView {
    JsonView::Object(map!["type"@ => JsonView::Text("text"@), "text"@ => JsonView::Text(text)])
}

fn map_text(text: &str) -> (json: Json)
    ensures
        json@ == text_block(text@),
{
    Json::object2("type", Json::text("text"), "text", Json::text(text))
}

/// The source object of an image.
pub open spec fn image_source(image: ImageSourceView) -> JsonView {
    match image {
        ImageSourceView::Url { url } => JsonView::Object(
            map!["type"@ => JsonView::Text("url"@), "url"@ => JsonView::Text(url)],
        ),
        ImageSourceView::Base64 { media_type, data } => JsonView::Object(
            map![
                "type"@ => JsonView::Text("base64"@),
                "media_type"@ => JsonView::Text(media_type),
                "data"@ => JsonView::Text(provider::base64_text(data)),
            ],
        ),
        ImageSourceView::FileId { file_id } => JsonView::Object(
            map!["type"@ => JsonView::Text("file"@), "file_id"@ => JsonView::Text(file_id)],
        ),
    }
}

fn map_image(image: &ImageSource) -> (json: Json)
    ensures
        json@ == image_source(image@),
{
    match image {
        ImageSource::Url { url } => Json::object2(
            "type",
            Json::text("url"),
            "url",
            Json::text(url.as_str()),
        ),
        ImageSource::Base64 { media_type, data } => Json::object3(
            "type",
            Json::text("base64"),
            "media_type",
            Json::text(media_type.as_str()),
            "data",
            Json::Text(base64_encode(data.as_slice())),
        ),
        ImageSource::FileId { file_id } => Json::object2(
            "type",
            Json::text("file"),
            "file_id",
            Json::text(file_id.as_str()),
        ),
    }
}

/// An image block.
pub open spec fn image_block(image: ImageSourceView) -> JsonView {
    JsonView::Object(
        map!["type"@ => JsonView::Text("image"@), "source"@ => image_source(image)],
    )
}

fn map_image_block(image: &ImageSource) -> (json: Json)
    ensures
        json@ == image_block(image@),
{
    Json::object2("type", Json::text("image"), "source", map_image(image))
}

/// The block for a part of a tool result.
pub open spec fn result_part_block(part: ToolResultPartView) -> JsonView {
    match part {
        ToolResultPartView::Text(text) => text_block(text),
        ToolResultPartView::Image(image) => image_block(image),
    }
}

/// The blocks for the parts of a tool result.
pub open spec fn result_part_blocks(parts: Seq<ToolResultPartView>) -> Seq<JsonView> {
    parts.map_values(|p: ToolResultPartView| result_part_block(p))
}

fn map_tool_result_part(part: &ToolResultPart) -> (json: Json)
    ensures
        json@ == result_part_block(part@),
{
    match part {
        ToolResultPart::Text(text) => map_text(text.as_str()),
        ToolResultPart::Image(image) => map_image_block(image),
    }
}

fn map_tool_result_parts(parts: &Vec<ToolResultPart>) -> (items: Vec<Json>)
    ensures
        views::each(items@) == result_part_blocks(views::each(parts@)),
{
    let mut items: Vec<Json> = Vec::new();
    let mut i: usize = 0;
    while i < parts.len()
        invariant
            i <= parts@.len(),
            items@.len() == i,
            forall|j: int|
                0 <= j < i ==> (#[trigger] items@[j])@ == result_part_block(parts@[j]@),
        decreases parts@.len() - i,
    {
        items.push(map_tool_result_part(&parts[i]));
        i = i + 1;
    }
    assert(views::each(items@) =~= result_part_blocks(views::each(parts@)));
    items
}

/// The block for one part of a user turn.
pub open spec fn user_block(part: UserContentView) -> JsonView {
    match part {
        UserContentView::Text(text) => text_block(text),
        UserContentView::Image(image) => image_block(image),
        UserContentView::ToolResult { id, content, is_error } => JsonView::Object(
            map![
                "type"@ => JsonView::Text("tool_result"@),
                "tool_use_id"@ => JsonView::Text(id),
                "is_error"@ => JsonView::Bool(is_error),
                "content"@ => JsonView::Array(result_part_blocks(content)),
            ],
        ),
    }
}

fn map_user_block(part: &UserContent) -> (json: Json)
    ensures
        json@ == user_block(part@),
{
    match part {
        UserContent::Text(text) => map_text(text.as_str()),
        UserContent::Image(image) => map_image_block(image),
        UserContent::ToolResult { id, content, is_error } => Json::object4(
            "type",
            Json::text("tool_result"),
            "tool_use_id",
            Json::text(id.as_str()),
            "is_error",
            Json::Bool(*is_error),
            "content",
            Json::array(map_tool_result_parts(content)),
        ),
    }
}

/// The blocks of those parts of a user turn that are tool results, or of those
/// that are not, in order.
pub open spec fn user_blocks_of(parts: Seq<UserContentView>, results: bool) -> Seq<JsonView> {
    parts.filter(|p: UserContentView| (p is ToolResult) == results).map_values(
        |p: UserContentView| user_block(p),
    )
}

/// The blocks of a user turn: tool results come first.
pub open spec fn user_blocks(parts: Seq<UserContentView>) -> Seq<JsonView> {
    user_blocks_of(parts, true) + user_blocks_of(parts, false)
}

/// One more part adds its block to the side that it belongs to.
proof fn lemma_user_blocks_step(parts: Seq<UserContentView>, i: int, results: bool)
    requires
        0 <= i < parts.len(),
    ensures
        user_blocks_of(parts.take(i + 1), results) == (if (parts[i] is ToolResult) == results {
            user_blocks_of(parts.take(i), results).push(user_block(parts[i]))
        } else {
            user_blocks_of(parts.take(i), results)
        }),
{
    reveal(Seq::filter);
    let longer = parts.take(i + 1);
    let wanted = |p: UserContentView| (p is ToolResult) == results;
    assert(longer.drop_last() =~= parts.take(i));
    assert(longer.last() == parts[i]);
    if (parts[i] is ToolResult) == results {
        assert(longer.filter(wanted) == parts.take(i).filter(wanted).push(parts[i]));
    }
    assert(user_blocks_of(longer, results) =~= (if (parts[i] is ToolResult) == results {
        user_blocks_of(parts.take(i), results).push(user_block(parts[i]))
    } else {
        user_blocks_of(parts.take(i), results)
    }));
}

/// Appends the blocks of the tool results among `parts`, or of the others.
fn push_user_blocks(parts: &Vec<UserContent>, results: bool, blocks: &mut Vec<Json>)
    ensures
        views::each(final(blocks)@) == views::each(old(blocks)@) + user_blocks_of(
            views::each(parts@),
            results,
        ),
{
    let ghost start = views::each(blocks@);
    let ghost all = views::each(parts@);
    let mut i: usize = 0;
    proof {
        reveal(Seq::filter);
        assert(all.take(0) =~= Seq::empty());
        assert(user_blocks_of(all.take(0), results) =~= Seq::empty());
        assert(start + Seq::empty() =~= start);
    }
    while i < parts.len()
        invariant
            i <= parts@.len(),
            all == views::each(parts@),
            views::each(blocks@) == start + user_blocks_of(all.take(i as int), results),
        decreases parts@.len() - i,
    {
        proof {
            lemma_user_blocks_step(all, i as int, results);
        }
        let is_result = match &parts[i] {
            UserContent::ToolResult { .. } => true,
            _ => false,
        };
        if is_result == results {
            let ghost before = blocks@;
            blocks.push(map_user_block(&parts[i]));
            assert(views::each(blocks@) =~= views::each(before).push(user_block(all[i as int])));
        }
        i = i + 1;
    }
    assert(all.take(i as int) =~= all);
}

/// The block for one part of an assistant turn.
pub open spec fn assistant_block(part: AssistantContentView) -> JsonView {
    match part {
        AssistantContentView::Text(text) => text_block(text),
        AssistantContentView::ToolUse { id, name, input } => JsonView::Object(
            map![
                "type"@ => JsonView::Text("tool_use"@),
                "id"@ => JsonView::Text(id),
                "name"@ => JsonView::Text(name),
                "input"@ => input,
            ],
        ),
        AssistantContentView::Thinking(ThinkingView::Visible { text, signature }) => {
            let bare = map![
                "type"@ => JsonView::Text("thinking"@),
                "thinking"@ => JsonView::Text(text),
            ];
            JsonView::Object(
                match signature {
                    Some(s) => bare.insert("signature"@, JsonView::Text(s)),
                    None => bare,
                },
            )
        },
        AssistantContentView::Thinking(ThinkingView::Redacted { data }) => JsonView::Object(
            map!["type"@ => JsonView::Text("redacted_thinking"@), "data"@ => JsonView::Text(data)],
        ),
    }
}

fn map_assistant_block(block: &AssistantContent) -> (json: Json)
    ensures
        json@ == assistant_block(block@),
{
    match block {
        AssistantContent::Text(text) => map_text(text.as_str()),
        AssistantContent::ToolUse { id, name, input } => Json::object4(
            "type",
            Json::text("tool_use"),
            "id",
            Json::text(id.as_str()),
            "name",
            Json::text(name.as_str()),
            "input",
            input.clone(),
        ),
        AssistantContent::Thinking(Thinking::Visible { text, signature }) => {
            let mut members = Members::new();
            members.put("type", Json::text("thinking"));
            members.put("thinking", Json::text(text.as_str()));
            match signature {
                Some(s) => members.put("signature", Json::text(s.as_str())),
                None => {},
            }
            members.into_json()
        },
        AssistantContent::Thinking(Thinking::Redacted { data }) => Json::object2(
            "type",
            Json::text("redacted_thinking"),
            "data",
            Json::text(data.as_str()),
        ),
    }
}

/// The blocks of an assistant turn.
pub open spec fn assistant_blocks(parts: Seq<AssistantContentView>) -> Seq<JsonView> {
    parts.map_values(|p: AssistantContentView| assistant_block(p))
}

/// The blocks of a turn.
pub open spec fn turn_blocks(message: MessageView) -> Seq<JsonView> {
    match message {
        MessageView::User(parts) => user_blocks(parts),
        MessageView::Assistant(parts) => assistant_blocks(parts),
    }
}

fn map_blocks(message: &Message) -> (blocks: Vec<Json>)
    ensures
        views::each(blocks@) == turn_blocks(message@),
{
    let mut blocks: Vec<Json> = Vec::new();
    match message {
        Message::User(parts) => {
            assert(views::each(blocks@) =~= Seq::empty());
            push_user_blocks(parts, true, &mut blocks);
            push_user_blocks(parts, false, &mut blocks);
            assert(views::each(blocks@) =~= turn_blocks(message@));
        },
        Message::Assistant(parts) => {
            let mut i: usize = 0;
            while i < parts.len()
                invariant
                    i <= parts@.len(),
                    blocks@.len() == i,
                    forall|j: int|
                        0 <= j < i ==> (#[trigger] blocks@[j])@ == assistant_block(parts@[j]@),
                decreases parts@.len() - i,
            {
                blocks.push(map_assistant_block(&parts[i]));
                i = i + 1;
            }
            assert(views::each(blocks@) =~= turn_blocks(message@));
        },
    }
    blocks
}

/// The blocks with a breakpoint on the last one.
pub open spec fn marked(blocks: Seq<JsonView>) -> Seq<JsonView> {
    if blocks.len() > 0 {
        blocks.drop_last().push(blocks.last().with_member("cache_control"@, breakpoint()))
    } else {
        blocks
    }
}

/// Attaches a cache breakpoint to the last content block.
fn mark_last_block(blocks: &mut Vec<Json>)
    ensures
        views::each(final(blocks)@) == marked(views::each(old(blocks)@)),
{
    let ghost all = views::each(blocks@);
    match blocks.pop() {
        Some(last) => {
            assert(views::each(blocks@) =~= all.drop_last());
            blocks.push(last.with_member("cache_control", cache_control()));
            assert(views::each(blocks@) =~= marked(all));
        },
        None => {},
    }
}

/// The role of a turn.
pub open spec fn role(message: MessageView) -> Seq<char> {
    match message {
        MessageView::User(_) => "user"@,
        MessageView::Assistant(_) => "assistant"@,
    }
}

/// A turn in the wire format, with or without a breakpoint on its last block.
pub open spec fn turn_json(message: MessageView, cache: bool) -> JsonView {
    let blocks = turn_blocks(message);
    JsonView::Object(
        map![
            "role"@ => JsonView::Text(role(message)),
            "content"@ => JsonView::Array(
                if cache {
                    marked(blocks)
                } else {
                    blocks
                },
            ),
        ],
    )
}

fn map_turn(message: &Message, cache: bool) -> (json: Json)
    ensures
        json@ == turn_json(message@, cache),
{
    let mut blocks = map_blocks(message);
    if cache {
        mark_last_block(&mut blocks);
    }
    let who = match message {
        Message::User(_) => "user",
        Message::Assistant(_) => "assistant",
    };
    Json::object2("role", Json::text(who), "content", Json::array(blocks))
}

/// Maps one turn, without a breakpoint.
pub fn map_message(message: &Message) -> (json: Json)
    ensures
        json@ == turn_json(message@, false),
{
    map_turn(message, false)
}

/// The conversation in the wire format, with a breakpoint on the last block of
/// the turn at `rolling`.
pub open spec fn turns_json(messages: Seq<MessageView>, rolling: Option<usize>) -> Seq<JsonView> {
    Seq::new(
        messages.len(),
        |i: int| turn_json(messages[i], rolling matches Some(r) && r == i),
    )
}

/// Maps the conversation, with a rolling breakpoint on message `rolling`.
fn map_messages(messages: &Vec<Message>, rolling: Option<usize>) -> (items: Vec<Json>)
    ensures
        views::each(items@) == turns_json(views::each(messages@), rolling),
{
    let mut items: Vec<Json> = Vec::new();
    let mut i: usize = 0;
    while i < messages.len()
        invariant
            i <= messages@.len(),
            items@.len() == i,
            forall|j: int|
                0 <= j < i ==> (#[trigger] items@[j])@ == turn_json(
                    messages@[j]@,
                    rolling matches Some(r) && r == j,
                ),
        decreases messages@.len() - i,
    {
        let cache = match rolling {
            Some(r) => r == i,
            None => false,
        };
        items.push(map_turn(&messages[i], cache));
        i = i + 1;
    }
    assert(views::each(items@) =~= turns_json(views::each(messages@), rolling));
    items
}

/// The system prompt in the wire format, with or without a breakpoint.
pub open spec fn system_json(system: SystemPromptView, cache: bool) -> JsonView {
    if cache {
        JsonView::Array(seq![text_block(system.text).with_member("cache_control"@, breakpoint())])
    } else {
        JsonView::Text(system.text)
    }
}

fn map_system(system: &SystemPrompt, cache: bool) -> (json: Json)
    ensures
        json@ == system_json(system@, cache),
{
    if cache {
        let mut blocks: Vec<Json> = Vec::new();
        blocks.push(map_text(system.text.as_str()).with_member("cache_control", cache_control()));
        assert(views::each(blocks@) =~= seq![blocks@[0]@]);
        Json::array(blocks)
    } else {
        Json::text(system.text.as_str())
    }
}

/// A tool definition in the wire format, with or without a breakpoint.
pub open spec fn tool_json(tool: ToolDefView, cache: bool) -> JsonView {
    let bare = map![
        "name"@ => JsonView::Text(tool.name),
        "description"@ => JsonView::Text(tool.description),
        "input_schema"@ => tool.parameters,
    ];
    let with_strict = if tool.strict {
        bare.insert("strict"@, JsonView::Bool(true))
    } else {
        bare
    };
    JsonView::Object(
        if cache {
            with_strict.insert("cache_control"@, breakpoint())
        } else {
            with_strict
        },
    )
}

fn map_tool(tool: &ToolDef, cache: bool) -> (json: Json)
    ensures
        json@ == tool_json(tool@, cache),
{
    let mut members = Members::new();
    members.put("name", Json::text(tool.name.as_str()));
    members.put("description", Json::text(tool.description.as_str()));
    members.put("input_schema", tool.parameters.clone());
    if tool.strict {
        members.put("strict", Json::Bool(true));
    }
    if cache {
        members.put("cache_control", cache_control());
    }
    members.into_json()
}

/// At most this many `cache_control` breakpoints go into one request.
pub const MAX_BREAKPOINTS: usize = 4;

/// How many tools the author marked for caching.
pub open spec fn marked_tools(tools: Seq<ToolDefView>) -> nat
    decreases tools.len(),
{
    if tools.len() == 0 {
        0
    } else {
        marked_tools(tools.drop_last()) + (if tools.last().cache {
            1nat
        } else {
            0nat
        })
    }
}

/// Which of the author's marks on tools are placed: the first ones, as far as
/// the slots reach.
pub open spec fn author_flags(tools: Seq<ToolDefView>) -> Seq<bool> {
    Seq::new(
        tools.len(),
        |i: int| tools[i].cache && marked_tools(tools.take(i)) < MAX_BREAKPOINTS,
    )
}

/// Which tools carry a breakpoint, with or without one after the last.
pub open spec fn tool_flags(tools: Seq<ToolDefView>, cache_last: bool) -> Seq<bool> {
    Seq::new(
        tools.len(),
        |i: int| author_flags(tools)[i] || (cache_last && i == tools.len() - 1),
    )
}

/// The tool definitions in the wire format: with the author's breakpoints, and
/// with or without one after the last.
pub open spec fn tools_json(tools: Seq<ToolDefView>, cache_last: bool) -> Seq<JsonView> {
    Seq::new(tools.len(), |i: int| tool_json(tools[i], tool_flags(tools, cache_last)[i]))
}

/// There are no more marks than tools, and one more tool adds its own.
proof fn lemma_marked_step(tools: Seq<ToolDefView>, i: int)
    requires
        0 <= i < tools.len(),
    ensures
        marked_tools(tools.take(i + 1)) == marked_tools(tools.take(i)) + (if tools[i].cache {
            1nat
        } else {
            0nat
        }),
{
    assert(tools.take(i + 1).drop_last() =~= tools.take(i));
}

fn map_tools(tools: &Vec<ToolDef>, cache_last: bool) -> (items: Vec<Json>)
    ensures
        views::each(items@) == tools_json(views::each(tools@), cache_last),
{
    let ghost all = views::each(tools@);
    let mut items: Vec<Json> = Vec::new();
    let mut marked: usize = 0;
    let mut i: usize = 0;
    assert(all.take(0) =~= Seq::empty());
    while i < tools.len()
        invariant
            i <= tools@.len(),
            all == views::each(tools@),
            items@.len() == i,
            marked == marked_tools(all.take(i as int)),
            marked <= i,
            forall|j: int|
                0 <= j < i ==> (#[trigger] items@[j])@ == tool_json(
                    all[j],
                    tool_flags(all, cache_last)[j],
                ),
        decreases tools@.len() - i,
    {
        proof {
            lemma_marked_step(all, i as int);
        }
        let author = tools[i].cache && marked < MAX_BREAKPOINTS;
        items.push(map_tool(&tools[i], author || (cache_last && i == tools.len() - 1)));
        if tools[i].cache {
            marked = marked + 1;
        }
        i = i + 1;
    }
    assert(views::each(items@) =~= tools_json(all, cache_last));
    items
}

/// The tool-choice policy in the wire format. Parallel tool use stays enabled.
pub open spec fn tool_choice_json(choice: ToolChoiceView) -> JsonView {
    match choice {
        ToolChoiceView::Auto => JsonView::Object(map!["type"@ => JsonView::Text("auto"@)]),
        ToolChoiceView::Any => JsonView::Object(map!["type"@ => JsonView::Text("any"@)]),
        ToolChoiceView::Required => JsonView::Object(map!["type"@ => JsonView::Text("any"@)]),
        ToolChoiceView::Disabled => JsonView::Object(map!["type"@ => JsonView::Text("none"@)]),
        ToolChoiceView::Tool(name) => JsonView::Object(
            map!["type"@ => JsonView::Text("tool"@), "name"@ => JsonView::Text(name)],
        ),
    }
}

fn map_tool_choice(choice: &ToolChoice) -> (json: Json)
    ensures
        json@ == tool_choice_json(choice@),
{
    match choice {
        ToolChoice::Auto => Json::object1("type", Json::text("auto")),
        ToolChoice::Any => Json::object1("type", Json::text("any")),
        ToolChoice::Required => Json::object1("type", Json::text("any")),
        ToolChoice::Disabled => Json::object1("type", Json::text("none")),
        ToolChoice::Tool(name) => Json::object2(
            "type",
            Json::text("tool"),
            "name",
            Json::text(name.as_str()),
        ),
    }
}

/// The cache breakpoints that the strategy asks for, in prefix order: tools,
/// system, messages. They are resolved together with the author's own marks, so
/// that the cap holds across the whole request. A place that the author marked
/// takes one slot, and no second one.
#[derive(Debug, Clone, Copy, PartialEq, Eq, Structural)]
pub struct CachePlan {
    /// A breakpoint after the last tool definition.
    pub cache_last_tool: bool,
    /// A breakpoint after the system prompt.
    pub cache_system: bool,
    /// A breakpoint on the last block of the message at this index.
    pub rolling_message: Option<usize>,
}

/// Whether the author's mark on the system prompt is placed: there is one, and
/// the tools leave a slot.
pub open spec fn author_system(req: ChatRequestView) -> bool {
    req.system matches Some(s) && s.cache && marked_tools(req.tools) < MAX_BREAKPOINTS
}

/// The slots that the author's marks leave.
pub open spec fn slots(req: ChatRequestView) -> int {
    if marked_tools(req.tools) >= MAX_BREAKPOINTS {
        0
    } else {
        MAX_BREAKPOINTS - marked_tools(req.tools) - (if author_system(req) {
            1int
        } else {
            0
        })
    }
}

/// The index of the last user message.
pub open spec fn last_user(messages: Seq<MessageView>) -> Option<usize>
    decreases messages.len(),
{
    if messages.len() == 0 {
        None
    } else if messages.last() is User {
        Some((messages.len() - 1) as usize)
    } else {
        last_user(messages.drop_last())
    }
}

/// The boundary of the previous turn: the user message before the last one.
pub open spec fn previous_turn(messages: Seq<MessageView>) -> Option<usize> {
    match last_user(messages) {
        Some(i) => last_user(messages.take(i as int)),
        None => None,
    }
}

/// The message that a breakpoint target stands for, if any.
pub open spec fn target_message(messages: Seq<MessageView>, target: CacheTarget) -> Option<usize> {
    match target {
        CacheTarget::MessageIndex(i) => if i < messages.len() {
            Some(i)
        } else {
            None
        },
        CacheTarget::LastUserMessage => last_user(messages),
        _ => None,
    }
}

/// The message of the first target that stands for one.
pub open spec fn first_target(
    messages: Seq<MessageView>,
    points: Seq<CacheTarget>,
) -> Option<usize>
    decreases points.len(),
{
    if points.len() == 0 {
        None
    } else {
        match target_message(messages, points[0]) {
            Some(i) => Some(i),
            None => first_target(messages, points.drop_first()),
        }
    }
}

/// Whether the author's mark on the last tool is placed.
pub open spec fn author_last_tool(req: ChatRequestView) -> bool {
    req.tools.len() > 0 && author_flags(req.tools).last()
}

/// The plan that hands the slots out in prefix order to those of the three
/// places that are wanted and not marked yet.
pub open spec fn filled(
    req: ChatRequestView,
    tools: bool,
    system: bool,
    rolling: Option<usize>,
) -> CachePlan {
    let first = tools && (author_last_tool(req) || slots(req) >= 1);
    let after_tools = slots(req) - (if first && !author_last_tool(req) {
        1int
    } else {
        0
    });
    let second = system && (author_system(req) || after_tools >= 1);
    let after_system = after_tools - (if second && !author_system(req) {
        1int
    } else {
        0
    });
    CachePlan {
        cache_last_tool: first,
        cache_system: second,
        rolling_message: if after_system >= 1 {
            rolling
        } else {
            None
        },
    }
}

/// The plan for a request.
pub open spec fn plan_for(req: ChatRequestView) -> CachePlan {
    let has_tools = req.tools.len() > 0;
    let has_system = req.system is Some;
    match req.cache {
        CacheStrategyView::Off => CachePlan {
            cache_last_tool: false,
            cache_system: false,
            rolling_message: None,
        },
        CacheStrategyView::Auto => filled(req, has_tools, has_system, previous_turn(req.messages)),
        CacheStrategyView::Breakpoints { ttl, points } => filled(
            req,
            has_tools && points.contains(CacheTarget::Tools),
            has_system && points.contains(CacheTarget::System),
            first_target(req.messages, points),
        ),
    }
}

/// Takes one slot of the budget, if there is one left.
pub fn take(budget: &mut usize) -> (available: bool)
    ensures
        available == (*old(budget) > 0),
        *final(budget) == (if *old(budget) > 0 {
            *old(budget) - 1
        } else {
            0
        }),
{
    if *budget == 0 {
        false
    } else {
        *budget = *budget - 1;
        true
    }
}

/// How many tools the author marked.
fn count_marked(tools: &Vec<ToolDef>) -> (count: usize)
    ensures
        count == marked_tools(views::each(tools@)),
{
    let ghost all = views::each(tools@);
    let mut count: usize = 0;
    let mut i: usize = 0;
    assert(all.take(0) =~= Seq::empty());
    while i < tools.len()
        invariant
            i <= tools@.len(),
            all == views::each(tools@),
            count == marked_tools(all.take(i as int)),
            count <= i,
        decreases tools@.len() - i,
    {
        proof {
            lemma_marked_step(all, i as int);
        }
        if tools[i].cache {
            count = count + 1;
        }
        i = i + 1;
    }
    assert(all.take(i as int) =~= all);
    count
}

/// The author's marks that are placed, and the slots that they leave.
struct AuthorMarks {
    last_tool: bool,
    system: bool,
    slots: usize,
}

fn author_marks(req: &ChatRequest) -> (marks: AuthorMarks)
    ensures
        marks.last_tool == author_last_tool(req@),
        marks.system == author_system(req@),
        marks.slots == slots(req@),
{
    let count: usize = count_marked(&req.tools);
    let system = count < MAX_BREAKPOINTS && match &req.system {
        Some(s) => s.cache,
        None => false,
    };
    let last_tool = req.tools.len() > 0 && req.tools[req.tools.len() - 1].cache && count
        <= MAX_BREAKPOINTS;
    proof {
        let tools = req@.tools;
        if tools.len() > 0 {
            assert(tools.take(tools.len() - 1) =~= tools.drop_last());
            assert(tools.last() == req.tools@[tools.len() - 1]@);
        }
    }
    let left: usize = if count >= MAX_BREAKPOINTS {
        0
    } else if system {
        MAX_BREAKPOINTS - count - 1
    } else {
        MAX_BREAKPOINTS - count
    };
    AuthorMarks { last_tool, system, slots: left }
}

/// The index of the last user message among the first `end`.
fn last_user_before(messages: &Vec<Message>, end: usize) -> (index: Option<usize>)
    requires
        end <= messages@.len(),
    ensures
        index == last_user(views::each(messages@).take(end as int)),
        index matches Some(i) ==> i < end,
{
    let ghost all = views::each(messages@);
    let mut i: usize = end;
    while i > 0
        invariant
            i <= end <= messages@.len(),
            all == views::each(messages@),
            last_user(all.take(i as int)) == last_user(all.take(end as int)),
        decreases i,
    {
        i = i - 1;
        assert(all.take(i + 1).drop_last() =~= all.take(i as int));
        assert(all.take(i + 1).last() == messages@[i as int]@);
        match &messages[i] {
            Message::User(_) => {
                return Some(i);
            },
            Message::Assistant(_) => {},
        }
    }
    None
}

/// The index of the last user message, if any.
pub fn last_user_message(messages: &Vec<Message>) -> (index: Option<usize>)
    ensures
        index == last_user(views::each(messages@)),
{
    assert(views::each(messages@).take(messages@.len() as int) =~= views::each(messages@));
    last_user_before(messages, messages.len())
}

/// The boundary of the previous turn: the index of the second-to-last user
/// message. `None` with fewer than two user turns.
pub fn previous_turn_boundary(messages: &Vec<Message>) -> (index: Option<usize>)
    ensures
        index == previous_turn(views::each(messages@)),
{
    assert(views::each(messages@).take(messages@.len() as int) =~= views::each(messages@));
    match last_user_before(messages, messages.len()) {
        Some(last) => last_user_before(messages, last),
        None => None,
    }
}

/// Whether `points` holds `target`.
fn wants(points: &Vec<CacheTarget>, target: CacheTarget) -> (found: bool)
    ensures
        found == points@.contains(target),
{
    let mut i: usize = 0;
    while i < points.len()
        invariant
            i <= points@.len(),
            forall|j: int| 0 <= j < i ==> points@[j] != target,
        decreases points@.len() - i,
    {
        if points[i] == target {
            assert(points@[i as int] == target);
            return true;
        }
        i = i + 1;
    }
    false
}

impl CachePlan {
    /// Resolves the breakpoints of `req`, by its strategy and under the cap.
    pub fn resolve(req: &ChatRequest) -> (plan: CachePlan)
        ensures
            plan == plan_for(req@),
    {
        match &req.cache {
            CacheStrategy::Off => CachePlan {
                cache_last_tool: false,
                cache_system: false,
                rolling_message: None,
            },
            CacheStrategy::Auto => CachePlan::auto(req),
            CacheStrategy::Breakpoints { ttl: _, points } => CachePlan::explicit(req, points),
        }
    }

    /// Caches the shared prefix: the tools, the system prompt, and a rolling
    /// breakpoint on the boundary of the previous turn.
    fn auto(req: &ChatRequest) -> (plan: CachePlan)
        ensures
            plan == filled(
                req@,
                req@.tools.len() > 0,
                req@.system is Some,
                previous_turn(req@.messages),
            ),
    {
        let rolling = previous_turn_boundary(&req.messages);
        let author = author_marks(req);
        let mut budget: usize = author.slots;
        let cache_last_tool = req.tools.len() > 0 && (author.last_tool || take(&mut budget));
        let cache_system = req.system.is_some() && (author.system || take(&mut budget));
        let rolling_message = match rolling {
            Some(i) => if take(&mut budget) {
                Some(i)
            } else {
                None
            },
            None => None,
        };
        CachePlan { cache_last_tool, cache_system, rolling_message }
    }

    /// Places breakpoints at exactly the requested targets, in prefix order.
    /// There is one rolling slot: the first target that stands for a message.
    fn explicit(req: &ChatRequest, points: &Vec<CacheTarget>) -> (plan: CachePlan)
        ensures
            plan == filled(
                req@,
                req@.tools.len() > 0 && points@.contains(CacheTarget::Tools),
                req@.system is Some && points@.contains(CacheTarget::System),
                first_target(req@.messages, points@),
            ),
    {
        let author = author_marks(req);
        let mut budget: usize = author.slots;
        let cache_last_tool = req.tools.len() > 0 && wants(points, CacheTarget::Tools) && (
        author.last_tool || take(&mut budget));
        let cache_system = req.system.is_some() && wants(points, CacheTarget::System) && (
        author.system || take(&mut budget));
        let last = last_user_message(&req.messages);
        let mut rolling_message: Option<usize> = None;
        let mut i: usize = 0;
        let mut found = false;
        assert(points@.skip(0) =~= points@);
        while i < points.len() && !found
            invariant
                i <= points@.len(),
                last == last_user(req@.messages),
                req@.messages.len() == req.messages@.len(),
                !found ==> rolling_message is None && first_target(req@.messages, points@)
                    == first_target(req@.messages, points@.skip(i as int)),
                found ==> rolling_message is Some && first_target(req@.messages, points@)
                    == rolling_message,
            decreases points@.len() - i,
        {
            let target: Option<usize> = match &points[i] {
                CacheTarget::MessageIndex(index) => if *index < req.messages.len() {
                    Some(*index)
                } else {
                    None
                },
                CacheTarget::LastUserMessage => last,
                _ => None,
            };
            assert(target == target_message(req@.messages, points@[i as int]));
            assert(points@.skip(i as int).drop_first() =~= points@.skip(i + 1));
            if target.is_some() {
                rolling_message = target;
                found = true;
            }
            i = i + 1;
        }
        if rolling_message.is_some() && !take(&mut budget) {
            rolling_message = None;
        }
        CachePlan { cache_last_tool, cache_system, rolling_message }
    }
}

/// The members of a request body.
pub open spec fn body_members(
    model: Seq<char>,
    req: ChatRequestView,
    stream: bool,
) -> Map<Seq<char>, JsonView> {
    let plan = plan_for(req);
    let core = map![
        "model"@ => JsonView::Text(model),
        "max_tokens"@ => JsonView::Unsigned(req.max_tokens as u64),
        "stream"@ => JsonView::Bool(stream),
        "messages"@ => JsonView::Array(turns_json(req.messages, plan.rolling_message)),
    ];
    let with_system = match req.system {
        Some(system) => core.insert(
            "system"@,
            system_json(system, author_system(req) || plan.cache_system),
        ),
        None => core,
    };
    let with_tools = if req.tools.len() > 0 {
        with_system.insert(
            "tools"@,
            JsonView::Array(tools_json(req.tools, plan.cache_last_tool)),
        ).insert("tool_choice"@, tool_choice_json(req.tool_choice))
    } else {
        with_system
    };
    let with_temperature = match req.temperature {
        Some(t) => with_tools.insert("temperature"@, t),
        None => with_tools,
    };
    let with_stops = if req.stop_sequences.len() > 0 {
        with_temperature.insert(
            "stop_sequences"@,
            JsonView::Array(crate::json::text_views(req.stop_sequences)),
        )
    } else {
        with_temperature
    };
    let with_thinking = match req.thinking {
        ThinkingConfig::Off => with_stops,
        ThinkingConfig::Adaptive => with_stops.insert("thinking"@, thinking_json(2048)),
        ThinkingConfig::Budget(n) => with_stops.insert("thinking"@, thinking_json(n)),
    };
    with_thinking.union_prefer_right(req.extra)
}

/// The thinking configuration with a token budget.
pub open spec fn thinking_json(budget: u32) -> JsonView {
    JsonView::Object(
        map![
            "type"@ => JsonView::Text("enabled"@),
            "budget_tokens"@ => JsonView::Unsigned(budget as u64),
        ],
    )
}

fn map_thinking(budget: u32) -> (json: Json)
    ensures
        json@ == thinking_json(budget),
{
    Json::object2(
        "type",
        Json::text("enabled"),
        "budget_tokens",
        Json::unsigned(budget as u64),
    )
}

/// Builds the request body for `model`.
pub fn build_body(model: &str, req: &ChatRequest, stream: bool) -> (body: Json)
    ensures
        body@ == JsonView::Object(body_members(model@, req@, stream)),
{
    let mut body = Members::new();
    body.put("model", Json::text(model));
    body.put("max_tokens", Json::unsigned(req.max_tokens as u64));
    body.put("stream", Json::Bool(stream));
    let plan = CachePlan::resolve(req);
    body.put("messages", Json::array(map_messages(&req.messages, plan.rolling_message)));
    match &req.system {
        Some(system) => body.put(
            "system",
            map_system(system, author_marks(req).system || plan.cache_system),
        ),
        None => {},
    }
    if req.tools.len() > 0 {
        body.put("tools", Json::array(map_tools(&req.tools, plan.cache_last_tool)));
        body.put("tool_choice", map_tool_choice(&req.tool_choice));
    }
    match &req.temperature {
        Some(t) => body.put("temperature", t.clone()),
        None => {},
    }
    if req.stop_sequences.len() > 0 {
        body.put("stop_sequences", Json::texts(&req.stop_sequences));
    }
    match req.thinking {
        ThinkingConfig::Off => {},
        ThinkingConfig::Adaptive => body.put("thinking", map_thinking(2048)),
        ThinkingConfig::Budget(n) => body.put("thinking", map_thinking(n)),
    }
    body.put_all(&req.extra);
    body.into_json()
}

/// Builds the (non-streaming) request body for the request's own model.
#[must_use]
pub fn build_request_body(req: &ChatRequest) -> (body: Json)
    ensures
        body@ == JsonView::Object(body_members(req@.model, req@, false)),
{
    build_body(req.model.as_str(), req, false)
}

/// How many of these are set.
pub open spec fn count_set(flags: Seq<bool>) -> nat
    decreases flags.len(),
{
    if flags.len() == 0 {
        0
    } else {
        count_set(flags.drop_last()) + (if flags.last() {
            1nat
        } else {
            0nat
        })
    }
}

/// The breakpoints of a request, the author's and those of the strategy,
/// counted over its tools, its system prompt and its messages.
pub open spec fn breakpoints_placed(req: ChatRequestView) -> nat {
    let plan = plan_for(req);
    count_set(tool_flags(req.tools, plan.cache_last_tool)) + (if req.system is Some && (
    author_system(req) || plan.cache_system) {
        1nat
    } else {
        0nat
    }) + (if plan.rolling_message is Some {
        1nat
    } else {
        0nat
    })
}

/// The author's marks are placed up to the cap.
proof fn lemma_author_flags(tools: Seq<ToolDefView>)
    ensures
        count_set(author_flags(tools)) == (if marked_tools(tools) <= MAX_BREAKPOINTS {
            marked_tools(tools)
        } else {
            MAX_BREAKPOINTS as nat
        }),
        tools.len() > 0 ==> author_flags(tools).last() == (tools.last().cache && marked_tools(
            tools.drop_last(),
        ) < MAX_BREAKPOINTS),
    decreases tools.len(),
{
    if tools.len() > 0 {
        let shorter = tools.drop_last();
        lemma_author_flags(shorter);
        assert(tools.take(tools.len() - 1) =~= shorter);
        assert forall|i: int| 0 <= i < shorter.len() implies author_flags(tools)[i]
            == author_flags(shorter)[i] by {
            assert(tools.take(i) =~= shorter.take(i));
        }
        assert(author_flags(tools).drop_last() =~= author_flags(shorter));
    }
}

/// A breakpoint after the last tool adds one where the author placed none.
proof fn lemma_tool_flags(tools: Seq<ToolDefView>, cache_last: bool)
    requires
        cache_last ==> tools.len() > 0,
    ensures
        count_set(tool_flags(tools, cache_last)) == count_set(author_flags(tools)) + (if cache_last
            && !author_flags(tools).last() {
            1nat
        } else {
            0nat
        }),
{
    let author = author_flags(tools);
    let all = tool_flags(tools, cache_last);
    if tools.len() > 0 {
        assert(all.drop_last() =~= author.drop_last());
    } else {
        assert(all =~= author);
    }
}

/// A request carries at most four breakpoints, the author's own included.
pub proof fn a_body_keeps_the_breakpoint_cap(req: ChatRequestView)
    ensures
        breakpoints_placed(req) <= MAX_BREAKPOINTS,
{
    lemma_author_flags(req.tools);
    lemma_tool_flags(req.tools, plan_for(req).cache_last_tool);
}

/// With caching off, a request carries the author's own breakpoints, up to the
/// cap, and no others.
pub proof fn caching_off_adds_no_breakpoint(req: ChatRequestView)
    requires
        req.cache is Off,
    ensures
        breakpoints_placed(req) == ({
            let asked = marked_tools(req.tools) + (if req.system matches Some(s) && s.cache {
                1nat
            } else {
                0nat
            });
            if asked <= MAX_BREAKPOINTS {
                asked
            } else {
                MAX_BREAKPOINTS as nat
            }
        }),
{
    lemma_author_flags(req.tools);
    lemma_tool_flags(req.tools, false);
}

/// Automatic caching marks the tools, the system prompt and the previous turn,
/// whichever there are, as long as the author marked at most one tool besides
/// the last.
pub proof fn automatic_caching_marks_the_shared_prefix(req: ChatRequestView)
    requires
        req.cache is Auto,
        req.tools.len() > 0 ==> marked_tools(req.tools.drop_last()) <= 1,
    ensures
        plan_for(req) == (CachePlan {
            cache_last_tool: req.tools.len() > 0,
            cache_system: req.system is Some,
            rolling_message: previous_turn(req.messages),
        }),
{
    lemma_author_flags(req.tools);
}

/// The blocks that carry a breakpoint.
pub open spec fn block_marks(blocks: Seq<JsonView>) -> nat {
    count_set(blocks.map_values(|b: JsonView| b.member("cache_control"@) is Some))
}

/// The blocks of turns that carry a breakpoint.
pub open spec fn turn_marks(turns: Seq<JsonView>) -> nat
    decreases turns.len(),
{
    if turns.len() == 0 {
        0
    } else {
        turn_marks(turns.drop_last()) + block_marks(items_at(turns.last(), "content"@))
    }
}

/// The elements of the array below a key; none where there is no array.
pub open spec fn items_at(value: JsonView, key: Seq<char>) -> Seq<JsonView> {
    match value.elements_at(key) {
        Some(items) => items,
        None => Seq::empty(),
    }
}

/// The breakpoints that a body carries: on its tools, its system blocks and the
/// content blocks of its messages.
pub open spec fn body_marks(body: JsonView) -> nat {
    block_marks(items_at(body, "tools"@)) + block_marks(items_at(body, "system"@)) + turn_marks(
        items_at(body, "messages"@),
    )
}

proof fn lemma_no_marks(flags: Seq<bool>)
    requires
        forall|i: int| 0 <= i < flags.len() ==> !flags[i],
    ensures
        count_set(flags) == 0,
    decreases flags.len(),
{
    if flags.len() > 0 {
        lemma_no_marks(flags.drop_last());
    }
}

/// Keys that blocks have are not that of a breakpoint.
proof fn lemma_block_keys()
    ensures
        "cache_control"@.len() == 13,
        "type"@.len() == 4,
        "text"@.len() == 4,
        "source"@.len() == 6,
        "tool_use_id"@.len() == 11,
        "is_error"@.len() == 8,
        "content"@.len() == 7,
        "id"@.len() == 2,
        "name"@.len() == 4,
        "input"@.len() == 5,
        "thinking"@.len() == 8,
        "signature"@.len() == 9,
        "data"@.len() == 4,
        "description"@.len() == 11,
        "input_schema"@.len() == 12,
        "strict"@.len() == 6,
        "role"@.len() == 4,
{
    reveal_strlit("cache_control");
    reveal_strlit("type");
    reveal_strlit("text");
    reveal_strlit("source");
    reveal_strlit("tool_use_id");
    reveal_strlit("is_error");
    reveal_strlit("content");
    reveal_strlit("id");
    reveal_strlit("name");
    reveal_strlit("input");
    reveal_strlit("thinking");
    reveal_strlit("signature");
    reveal_strlit("data");
    reveal_strlit("description");
    reveal_strlit("input_schema");
    reveal_strlit("strict");
    reveal_strlit("role");
}

/// A turn carries a breakpoint only where one is put on its last block.
proof fn lemma_turn_marks(message: MessageView, cache: bool)
    ensures
        items_at(turn_json(message, cache), "content"@) == (if cache {
            marked(turn_blocks(message))
        } else {
            turn_blocks(message)
        }),
        block_marks(items_at(turn_json(message, cache), "content"@)) <= (if cache {
            1nat
        } else {
            0nat
        }),
{
    lemma_block_keys();
    let blocks = turn_blocks(message);
    let of_mark = |b: JsonView| b.member("cache_control"@) is Some;
    assert forall|i: int| 0 <= i < blocks.len() implies (#[trigger] blocks[i]).member(
        "cache_control"@,
    ) is None by {
        match message {
            MessageView::User(parts) => {
                let first = parts.filter(|p: UserContentView| (p is ToolResult) == true);
                let second = parts.filter(|p: UserContentView| (p is ToolResult) == false);
                let part = if i < first.len() {
                    first[i]
                } else {
                    second[i - first.len()]
                };
                assert(blocks[i] == user_block(part));
            },
            MessageView::Assistant(parts) => {
                assert(blocks[i] == assistant_block(parts[i]));
            },
        }
    }
    lemma_no_marks(blocks.map_values(of_mark));
    if cache && blocks.len() > 0 {
        lemma_no_marks(blocks.drop_last().map_values(of_mark));
        assert(marked(blocks).map_values(of_mark).drop_last() =~= blocks.drop_last().map_values(
            of_mark,
        ));
    }
}

proof fn lemma_turns_marks(messages: Seq<MessageView>, rolling: Option<usize>, n: int)
    requires
        0 <= n <= messages.len(),
    ensures
        turn_marks(turns_json(messages, rolling).take(n)) <= (if rolling matches Some(r) && r < n {
            1nat
        } else {
            0nat
        }),
    decreases n,
{
    if n > 0 {
        let turns = turns_json(messages, rolling);
        lemma_turns_marks(messages, rolling, n - 1);
        assert(turns.take(n).drop_last() =~= turns.take(n - 1));
        lemma_turn_marks(messages[n - 1], rolling matches Some(r) && r == n - 1);
    }
}

/// The breakpoints in a body are those that the plan counts, and so four at
/// most, where the passthrough members leave the three places alone.
#[verifier::rlimit(40)]
pub proof fn a_body_carries_the_planned_breakpoints(
    model: Seq<char>,
    req: ChatRequestView,
    stream: bool,
)
    requires
        !req.extra.contains_key("tools"@),
        !req.extra.contains_key("system"@),
        !req.extra.contains_key("messages"@),
    ensures
        body_marks(JsonView::Object(body_members(model, req, stream))) <= breakpoints_placed(req),
        body_marks(JsonView::Object(body_members(model, req, stream))) <= MAX_BREAKPOINTS,
{
    let plan = plan_for(req);
    let body = JsonView::Object(body_members(model, req, stream));
    let of_mark = |b: JsonView| b.member("cache_control"@) is Some;
    lemma_block_keys();
    lemma_body_keys();
    let tools = tools_json(req.tools, plan.cache_last_tool);
    assert(tools.map_values(of_mark) =~= tool_flags(req.tools, plan.cache_last_tool));
    let none = Seq::<JsonView>::empty();
    lemma_no_marks(none.map_values(of_mark));
    if req.tools.len() == 0 {
        assert(tools =~= none);
    }
    assert(items_at(body, "tools"@) =~= tools);
    let turns = turns_json(req.messages, plan.rolling_message);
    lemma_turns_marks(req.messages, plan.rolling_message, req.messages.len() as int);
    assert(turns.take(req.messages.len() as int) =~= turns);
    assert(items_at(body, "messages"@) =~= turns);
    let blocks = items_at(body, "system"@);
    if req.system is Some && (author_system(req) || plan.cache_system) {
        assert(blocks.len() == 1);
        assert(blocks.map_values(of_mark).drop_last() =~= none.map_values(of_mark));
    } else {
        assert(blocks =~= none);
    }
    a_body_keeps_the_breakpoint_cap(req);
}

/// The members of a body have names of their own.
proof fn lemma_body_keys()
    ensures
        "tools"@ != "model"@,
        "tools"@ != "max_tokens"@,
        "tools"@ != "stream"@,
        "tools"@ != "tool_choice"@,
        "tools"@ != "temperature"@,
        "tools"@ != "stop_sequences"@,
        "tools"@ != "thinking"@,
        "system"@ != "model"@,
        "system"@ != "max_tokens"@,
        "system"@ != "stream"@,
        "system"@ != "tool_choice"@,
        "system"@ != "temperature"@,
        "system"@ != "stop_sequences"@,
        "system"@ != "thinking"@,
        "messages"@ != "model"@,
        "messages"@ != "max_tokens"@,
        "messages"@ != "stream"@,
        "messages"@ != "tool_choice"@,
        "messages"@ != "temperature"@,
        "messages"@ != "stop_sequences"@,
        "messages"@ != "thinking"@,
        "tools"@ != "system"@,
        "tools"@ != "messages"@,
        "system"@ != "messages"@,
{
    reveal_strlit("tools");
    reveal_strlit("system");
    reveal_strlit("messages");
    reveal_strlit("model");
    reveal_strlit("max_tokens");
    reveal_strlit("stream");
    reveal_strlit("tool_choice");
    reveal_strlit("temperature");
    reveal_strlit("stop_sequences");
    reveal_strlit("thinking");
    assert("tools"@.len() == 5);
    assert("system"@.len() == 6);
    assert("messages"@.len() == 8);
    assert("model"@.len() == 5);
    assert("max_tokens"@.len() == 10);
    assert("stream"@.len() == 6);
    assert("tool_choice"@.len() == 11);
    assert("temperature"@.len() == 11);
    assert("stop_sequences"@.len() == 14);
    assert("thinking"@.len() == 8);
    assert("tools"@[0] == 't' && "model"@[0] == 'm');
    assert("system"@[1] == 'y' && "stream"@[1] == 't');
    assert("messages"@[0] == 'm' && "thinking"@[0] == 't');
}

/// The tools and the system prompt are written the same whatever the
/// conversation holds: the shared prefix stays stable from turn to turn.
pub proof fn the_shared_prefix_is_stable(
    model: Seq<char>,
    req: ChatRequestView,
    later: ChatRequestView,
    stream: bool,
)
    requires
        later == (ChatRequestView {
            messages: later.messages,
            cache_key: later.cache_key,
            ..req
        }),
    ensures
        JsonView::Object(body_members(model, req, stream)).member("tools"@) == JsonView::Object(
            body_members(model, later, stream),
        ).member("tools"@),
        JsonView::Object(body_members(model, req, stream)).member("system"@) == JsonView::Object(
            body_members(model, later, stream),
        ).member("system"@),
{
    reveal_strlit("messages");
    reveal_strlit("tools");
    reveal_strlit("system");
    assert("messages"@.len() == 8 && "tools"@.len() == 5 && "system"@.len() == 6);
    let a = body_members(model, req, stream);
    let b = body_members(model, later, stream);
    assert(plan_for(req).cache_last_tool == plan_for(later).cache_last_tool);
    assert(plan_for(req).cache_system == plan_for(later).cache_system);
    assert(a.contains_key("tools"@) == b.contains_key("tools"@));
    assert(a.contains_key("system"@) == b.contains_key("system"@));
}

proof fn lemma_last_user(messages: Seq<MessageView>)
    requires
        messages.len() <= usize::MAX,
    ensures
        last_user(messages) matches Some(i) ==> i < messages.len() && messages[i as int] is User,
    decreases messages.len(),
{
    if messages.len() > 0 && !(messages.last() is User) {
        lemma_last_user(messages.drop_last());
    }
}

/// Automatic caching leaves the turn in progress out: the rolling breakpoint
/// is on a user message that another one follows.
pub proof fn the_turn_in_progress_is_not_cached(req: ChatRequestView)
    requires
        req.cache is Auto,
        req.messages.len() <= usize::MAX,
    ensures
        plan_for(req).rolling_message matches Some(i) ==> ({
            &&& last_user(req.messages) is Some
            &&& i < last_user(req.messages)->0
            &&& last_user(req.messages)->0 < req.messages.len()
            &&& req.messages[i as int] is User
        }),
{
    lemma_last_user(req.messages);
    if let Some(last) = last_user(req.messages) {
        lemma_last_user(req.messages.take(last as int));
    }
}

/// In a user turn every tool result comes before every other block, and each
/// part of the turn has its block.
pub proof fn tool_results_come_first(parts: Seq<UserContentView>)
    ensures
        user_blocks_of(parts, true).is_prefix_of(user_blocks(parts)),
        user_blocks(parts).len() == parts.len(),
    decreases parts.len(),
{
    let results = user_blocks_of(parts, true);
    assert(results =~= user_blocks(parts).take(results.len() as int));
    if parts.len() > 0 {
        let n = parts.len() - 1;
        tool_results_come_first(parts.drop_last());
        lemma_user_blocks_step(parts, n, true);
        lemma_user_blocks_step(parts, n, false);
        assert(parts.take(n) =~= parts.drop_last());
        assert(parts.take(n + 1) =~= parts);
    } else {
        reveal(Seq::filter);
    }
}

/// The stop reason for a wire value.
pub open spec fn stop_reason_of(reason: Seq<char>, stop_sequence: Option<Seq<char>>) -> StopReasonView {
    if reason == "end_turn"@ {
        StopReasonView::EndTurn
    } else if reason == "max_tokens"@ {
        StopReasonView::MaxTokens
    } else if reason == "stop_sequence"@ {
        StopReasonView::StopSequence(JsonView::text_or_empty(stop_sequence))
    } else if reason == "tool_use"@ {
        StopReasonView::ToolUse
    } else if reason == "refusal"@ {
        StopReasonView::Refusal
    } else if reason == "pause_turn"@ {
        StopReasonView::Pause
    } else {
        StopReasonView::Other(reason)
    }
}

/// Maps a wire stop reason; an unknown one is kept as it came.
pub fn map_stop_reason(reason: &str, stop_sequence: Option<&str>) -> (stop: StopReason)
    ensures
        stop@ == stop_reason_of(reason@, crate::json::text_option(stop_sequence)),
{
    if *reason == *"end_turn" {
        StopReason::EndTurn
    } else if *reason == *"max_tokens" {
        StopReason::MaxTokens
    } else if *reason == *"stop_sequence" {
        StopReason::StopSequence(text_or_empty(stop_sequence))
    } else if *reason == *"tool_use" {
        StopReason::ToolUse
    } else if *reason == *"refusal" {
        StopReason::Refusal
    } else if *reason == *"pause_turn" {
        StopReason::Pause
    } else {
        StopReason::Other(reason.to_owned())
    }
}

/// The usage that a wire usage object reports; a missing count is zero.
pub open spec fn usage_of(usage: JsonView) -> Usage {
    Usage {
        input_tokens: provider::count_or_zero(usage.unsigned_at("input_tokens"@)),
        output_tokens: provider::count_or_zero(usage.unsigned_at("output_tokens"@)),
        cache_create_tokens: provider::count_or_zero(usage.unsigned_at("cache_creation_input_tokens"@)),
        cache_read_tokens: provider::count_or_zero(usage.unsigned_at("cache_read_input_tokens"@)),
        reasoning_tokens: match usage.member("output_tokens_details"@) {
            Some(details) => provider::count_or_zero(details.unsigned_at("thinking_tokens"@)),
            None => 0,
        },
    }
}

/// Reads a wire usage object.
pub fn map_usage(usage: &Json) -> (tally: Usage)
    ensures
        tally == usage_of(usage@),
{
    Usage {
        input_tokens: or_zero(usage.u64_at("input_tokens")),
        output_tokens: or_zero(usage.u64_at("output_tokens")),
        cache_create_tokens: or_zero(usage.u64_at("cache_creation_input_tokens")),
        cache_read_tokens: or_zero(usage.u64_at("cache_read_input_tokens")),
        reasoning_tokens: match usage.get("output_tokens_details") {
            Some(details) => or_zero(details.u64_at("thinking_tokens")),
            None => 0,
        },
    }
}

/// The content block that a wire block stands for; `None` for one of an unknown
/// type, and for a text or tool-use block that lacks what it needs.
pub open spec fn content_of(block: JsonView) -> Option<AssistantContentView> {
    match block.text_at("type"@) {
        None => None,
        Some(kind) => if kind == "text"@ {
            match block.text_at("text"@) {
                Some(text) => Some(AssistantContentView::Text(text)),
                None => None,
            }
        } else if kind == "tool_use"@ {
            match (block.text_at("id"@), block.text_at("name"@)) {
                (Some(id), Some(name)) => Some(
                    AssistantContentView::ToolUse {
                        id,
                        name,
                        input: match block.member("input"@) {
                            Some(input) => input,
                            None => JsonView::Object(Map::empty()),
                        },
                    },
                ),
                _ => None,
            }
        } else if kind == "thinking"@ {
            Some(
                AssistantContentView::Thinking(
                    ThinkingView::Visible {
                        text: JsonView::text_or_empty(block.text_at("thinking"@)),
                        signature: block.text_at("signature"@),
                    },
                ),
            )
        } else if kind == "redacted_thinking"@ {
            Some(
                AssistantContentView::Thinking(
                    ThinkingView::Redacted {
                        data: JsonView::text_or_empty(block.text_at("data"@)),
                    },
                ),
            )
        } else {
            None
        },
    }
}

/// Reads one content block of a response.
pub fn parse_assistant_block(block: &Json) -> (content: Option<AssistantContent>)
    ensures
        views::optional(content) == content_of(block@),
{
    let kind = match block.str_at("type") {
        Some(kind) => kind,
        None => {
            return None;
        },
    };
    if *kind == *"text" {
        match block.str_at("text") {
            Some(text) => Some(AssistantContent::Text(text.to_owned())),
            None => None,
        }
    } else if *kind == *"tool_use" {
        match (block.str_at("id"), block.str_at("name")) {
            (Some(id), Some(name)) => Some(
                AssistantContent::ToolUse {
                    id: id.to_owned(),
                    name: name.to_owned(),
                    input: match block.get("input") {
                        Some(input) => input.clone(),
                        None => Json::empty_object(),
                    },
                },
            ),
            _ => None,
        }
    } else if *kind == *"thinking" {
        Some(
            AssistantContent::Thinking(
                Thinking::Visible {
                    text: text_or_empty(block.str_at("thinking")),
                    signature: owned(block.str_at("signature")),
                },
            ),
        )
    } else if *kind == *"redacted_thinking" {
        Some(
            AssistantContent::Thinking(
                Thinking::Redacted { data: text_or_empty(block.str_at("data")) },
            ),
        )
    } else {
        None
    }
}

/// The content blocks that wire blocks stand for, in order; blocks that stand
/// for none are left out.
pub open spec fn contents_of(blocks: Seq<JsonView>) -> Seq<AssistantContentView>
    decreases blocks.len(),
{
    if blocks.len() == 0 {
        Seq::empty()
    } else {
        match content_of(blocks.last()) {
            Some(content) => contents_of(blocks.drop_last()).push(content),
            None => contents_of(blocks.drop_last()),
        }
    }
}

fn parse_blocks(blocks: &Vec<Json>) -> (contents: Vec<AssistantContent>)
    ensures
        views::each(contents@) == contents_of(views::each(blocks@)),
{
    let ghost all = views::each(blocks@);
    let mut contents: Vec<AssistantContent> = Vec::new();
    let mut i: usize = 0;
    assert(views::each(contents@) =~= contents_of(all.take(0)));
    while i < blocks.len()
        invariant
            i <= blocks@.len(),
            all == views::each(blocks@),
            views::each(contents@) == contents_of(all.take(i as int)),
        decreases blocks@.len() - i,
    {
        let ghost before = contents@;
        assert(all.take(i + 1).drop_last() =~= all.take(i as int));
        match parse_assistant_block(&blocks[i]) {
            Some(content) => {
                contents.push(content);
                assert(views::each(contents@) =~= views::each(before).push(content@));
            },
            None => {},
        }
        i = i + 1;
    }
    assert(all.take(i as int) =~= all);
    contents
}

/// The response that a wire response stands for. Missing fields are read as
/// empty.
pub open spec fn response_of(value: JsonView) -> ChatResponseView {
    ChatResponseView {
        content: match value.elements_at("content"@) {
            Some(blocks) => contents_of(blocks),
            None => Seq::empty(),
        },
        stop: match value.text_at("stop_reason"@) {
            Some(reason) => stop_reason_of(reason, value.text_at("stop_sequence"@)),
            None => StopReasonView::EndTurn,
        },
        usage: match value.member("usage"@) {
            Some(usage) => usage_of(usage),
            None => Usage::nothing(),
        },
    }
}

/// Reads a (non-streamed) response.
pub fn parse_response(value: &Json) -> (response: ChatResponse)
    ensures
        response@ == response_of(value@),
{
    let content: Vec<AssistantContent> = match value.array_at("content") {
        Some(blocks) => parse_blocks(blocks),
        None => {
            let none: Vec<AssistantContent> = Vec::new();
            assert(views::each(none@) =~= Seq::empty());
            none
        },
    };
    let stop = match value.str_at("stop_reason") {
        Some(reason) => map_stop_reason(reason, value.str_at("stop_sequence")),
        None => StopReason::EndTurn,
    };
    let usage = match value.get("usage") {
        Some(usage) => map_usage(usage),
        None => Usage::zero(),
    };
    ChatResponse { content, stop, usage }
}

/// At most this many tool calls may be open in a stream at once.
pub const MAX_INFLIGHT_TOOLS: usize = 64;

/// The arguments of one tool call may hold at most this many bytes.
pub const MAX_TOOL_ARGS: usize = 1_048_576;

/// A tool call whose arguments are still arriving.
pub struct ToolBuf {
    /// Call id.
    pub id: String,
    /// Tool name.
    pub name: String,
    /// Argument text so far.
    pub json: String,
}

/// What a [`ToolBuf`] stands for.
#[verifier::ext_equal]
pub struct ToolBufView {
    /// Call id.
    pub id: Seq<char>,
    /// Tool name.
    pub name: Seq<char>,
    /// Argument text so far.
    pub json: Seq<char>,
}

impl View for ToolBuf {
    type V = ToolBufView;

    open spec fn view(&self) -> ToolBufView {
        ToolBufView { id: self.id@, name: self.name@, json: self.json@ }
    }
}

/// The open tool calls of a stream, by block index.
#[verifier::external_body]
pub struct ToolBuffers {
    map: hashbrown::HashMap<u64, ToolBuf>,
}

/// What a map of open tool calls holds.
pub uninterp spec fn held(buffers: ToolBuffers) -> Map<u64, ToolBuf>;

impl ToolBuffers {
    /// `hashbrown::HashMap::new`.
    #[verifier::external_body]
    fn new() -> (buffers: ToolBuffers)
        ensures
            held(buffers).dom() == Set::<u64>::empty(),
    {
        ToolBuffers { map: hashbrown::HashMap::new() }
    }

    /// `hashbrown::HashMap::contains_key`.
    #[verifier::external_body]
    fn contains_key(&self, index: u64) -> (found: bool)
        ensures
            found == held(*self).contains_key(index),
    {
        self.map.contains_key(&index)
    }

    /// `hashbrown::HashMap::len`.
    #[verifier::external_body]
    fn len(&self) -> (count: usize)
        ensures
            count == held(*self).dom().len(),
    {
        self.map.len()
    }

    /// `hashbrown::HashMap::insert`: sets the entry of a key.
    #[verifier::external_body]
    fn insert(&mut self, index: u64, buf: ToolBuf)
        ensures
            held(*final(self)) == held(*old(self)).insert(index, buf),
    {
        let _ = self.map.insert(index, buf);
    }

    /// `hashbrown::HashMap::remove`: takes the entry of a key out.
    #[verifier::external_body]
    fn remove(&mut self, index: u64) -> (buf: Option<ToolBuf>)
        ensures
            held(*final(self)) == held(*old(self)).remove(index),
            match buf {
                Some(b) => held(*old(self)).contains_key(index) && b == held(*old(self))[index],
                None => !held(*old(self)).contains_key(index),
            },
    {
        self.map.remove(&index)
    }

    /// `hashbrown::HashMap::get_mut`: the entry of a key, to change in place.
    #[verifier::external_body]
    fn get_mut(&mut self, index: u64) -> (buf: Option<&mut ToolBuf>)
        ensures
            match buf {
                Some(b) => {
                    &&& held(*old(self)).contains_key(index)
                    &&& *b == held(*old(self))[index]
                    &&& held(*final(self)) == held(*old(self)).insert(index, *final(b))
                },
                None => {
                    &&& !held(*old(self)).contains_key(index)
                    &&& held(*final(self)) == held(*old(self))
                },
            },
    {
        self.map.get_mut(&index)
    }
}

/// The streaming accumulator: turns the events of a stream into
/// [`StreamEvent`]s, holding back each tool call until it is whole.
pub struct Accum {
    usage: Usage,
    tools: ToolBuffers,
    stop: Option<StopReason>,
}

/// What an [`Accum`] stands for.
#[verifier::ext_equal]
pub struct AccumView {
    /// Usage so far.
    pub usage: Usage,
    /// Open tool calls, by block index.
    pub tools: Map<u64, ToolBufView>,
    /// The stop reason, once known.
    pub stop: Option<StopReasonView>,
}

impl View for Accum {
    type V = AccumView;

    closed spec fn view(&self) -> AccumView {
        AccumView {
            usage: self.usage,
            tools: held(self.tools).map_values(|b: ToolBuf| b@),
            stop: views::optional(self.stop),
        }
    }
}

impl AccumView {
    /// The accumulator before the first event.
    pub open spec fn start() -> AccumView {
        AccumView { usage: Usage::nothing(), tools: Map::empty(), stop: None }
    }

    /// What a stream may have open: few tool calls, none with too many
    /// argument bytes.
    pub open spec fn bounded(self) -> bool {
        &&& self.tools.dom().finite()
        &&& self.tools.dom().len() <= MAX_INFLIGHT_TOOLS
        &&& forall|i: u64| #[trigger]
            self.tools.contains_key(i) ==> crate::error::byte_len(self.tools[i].json)
                <= MAX_TOOL_ARGS
    }
}

/// A decode error with nothing of the body in it.
pub open spec fn refused(err: Seq<char>) -> ProviderErrorView {
    ProviderErrorView::Decode { err, body: Seq::empty() }
}

fn refuse(err: &str) -> (error: ProviderError)
    ensures
        error@ == refused(err@),
{
    ProviderError::Decode { err: err.to_owned(), body: String::new() }
}

/// What one event does to the accumulator, and what it emits.
pub open spec fn on_event(
    accum: AccumView,
    event: JsonView,
) -> (AccumView, Result<Seq<StreamEventView>, ProviderErrorView>) {
    match event.text_at("type"@) {
        None => (accum, Ok(Seq::empty())),
        Some(kind) => if kind == "message_start"@ {
            let usage = match event.member_in("message"@, "usage"@) {
                Some(u) => usage_of(u),
                None => accum.usage,
            };
            (AccumView { usage, ..accum }, Ok(seq![StreamEventView::Start { usage }]))
        } else if kind == "content_block_start"@ {
            on_block_start(accum, event)
        } else if kind == "content_block_delta"@ {
            on_block_delta(accum, event)
        } else if kind == "content_block_stop"@ {
            on_block_stop(accum, event)
        } else if kind == "message_delta"@ {
            (on_message_delta(accum, event), Ok(Seq::empty()))
        } else if kind == "message_stop"@ {
            (
                accum,
                Ok(
                    seq![
                        StreamEventView::End {
                            stop: match accum.stop {
                                Some(stop) => stop,
                                None => StopReasonView::EndTurn,
                            },
                            usage: accum.usage,
                        },
                    ],
                ),
            )
        } else {
            (accum, Ok(Seq::empty()))
        },
    }
}

/// A tool-use block opens a call under its index.
pub open spec fn on_block_start(
    accum: AccumView,
    event: JsonView,
) -> (AccumView, Result<Seq<StreamEventView>, ProviderErrorView>) {
    match (event.member("content_block"@), event.unsigned_at("index"@)) {
        (Some(block), Some(index)) => if block.text_at("type"@) == Some("tool_use"@) {
            if !accum.tools.contains_key(index) && accum.tools.dom().len() >= MAX_INFLIGHT_TOOLS {
                (accum, Err(refused("stream opened more than 64 concurrent tool calls"@)))
            } else {
                let buf = ToolBufView {
                    id: JsonView::text_or_empty(block.text_at("id"@)),
                    name: JsonView::text_or_empty(block.text_at("name"@)),
                    json: Seq::empty(),
                };
                (
                    AccumView { tools: accum.tools.insert(index, buf), ..accum },
                    Ok(Seq::empty()),
                )
            }
        } else {
            (accum, Ok(Seq::empty()))
        },
        _ => (accum, Ok(Seq::empty())),
    }
}

/// A delta is emitted at once, or added to the arguments of its open call.
pub open spec fn on_block_delta(
    accum: AccumView,
    event: JsonView,
) -> (AccumView, Result<Seq<StreamEventView>, ProviderErrorView>) {
    match event.member("delta"@) {
        None => (accum, Ok(Seq::empty())),
        Some(delta) => match delta.text_at("type"@) {
            None => (accum, Ok(Seq::empty())),
            Some(kind) => if kind == "text_delta"@ {
                (
                    accum,
                    Ok(
                        match delta.text_at("text"@) {
                            Some(t) => seq![StreamEventView::TextDelta(t)],
                            None => Seq::empty(),
                        },
                    ),
                )
            } else if kind == "thinking_delta"@ {
                (
                    accum,
                    Ok(
                        match delta.text_at("thinking"@) {
                            Some(t) => seq![StreamEventView::ReasoningDelta(t)],
                            None => Seq::empty(),
                        },
                    ),
                )
            } else if kind == "signature_delta"@ {
                (
                    accum,
                    Ok(
                        match delta.text_at("signature"@) {
                            Some(t) => seq![StreamEventView::SignatureDelta(t)],
                            None => Seq::empty(),
                        },
                    ),
                )
            } else if kind == "input_json_delta"@ {
                match (event.unsigned_at("index"@), delta.text_at("partial_json"@)) {
                    (Some(index), Some(partial)) => if accum.tools.contains_key(index) {
                        let buf = accum.tools[index];
                        if crate::error::byte_len(buf.json) + crate::error::byte_len(partial)
                            > MAX_TOOL_ARGS {
                            (accum, Err(refused("tool-call arguments exceeded 1048576 bytes"@)))
                        } else {
                            let longer = ToolBufView { json: buf.json + partial, ..buf };
                            (
                                AccumView { tools: accum.tools.insert(index, longer), ..accum },
                                Ok(Seq::empty()),
                            )
                        }
                    } else {
                        (accum, Ok(Seq::empty()))
                    },
                    _ => (accum, Ok(Seq::empty())),
                }
            } else {
                (accum, Ok(Seq::empty()))
            },
        },
    }
}

/// The end of a block closes its call and emits it whole.
pub open spec fn on_block_stop(
    accum: AccumView,
    event: JsonView,
) -> (AccumView, Result<Seq<StreamEventView>, ProviderErrorView>) {
    match event.unsigned_at("index"@) {
        Some(index) => if accum.tools.contains_key(index) {
            let buf = accum.tools[index];
            (
                AccumView { tools: accum.tools.remove(index), ..accum },
                Ok(
                    seq![
                        StreamEventView::ToolCall {
                            id: buf.id,
                            name: buf.name,
                            arguments: provider::whole_arguments(buf.json),
                        },
                    ],
                ),
            )
        } else {
            (accum, Ok(Seq::empty()))
        },
        None => (accum, Ok(Seq::empty())),
    }
}

/// A message delta carries the running total of the output tokens, and the
/// stop reason.
pub open spec fn on_message_delta(accum: AccumView, event: JsonView) -> AccumView {
    let usage = match event.member("usage"@) {
        Some(u) => {
            let delta = usage_of(u);
            Usage {
                output_tokens: delta.output_tokens,
                cache_read_tokens: if delta.cache_read_tokens > 0 {
                    delta.cache_read_tokens
                } else {
                    accum.usage.cache_read_tokens
                },
                reasoning_tokens: if delta.reasoning_tokens > 0 {
                    delta.reasoning_tokens
                } else {
                    accum.usage.reasoning_tokens
                },
                ..accum.usage
            }
        },
        None => accum.usage,
    };
    let stop = match event.member("delta"@) {
        Some(delta) => match delta.text_at("stop_reason"@) {
            Some(reason) => Some(stop_reason_of(reason, delta.text_at("stop_sequence"@))),
            None => accum.stop,
        },
        None => accum.stop,
    };
    AccumView { usage, stop, ..accum }
}

/// What the outcome of an event stands for.
pub open spec fn outcome_view(
    outcome: Result<Vec<StreamEvent>, ProviderError>,
) -> Result<Seq<StreamEventView>, ProviderErrorView> {
    match outcome {
        Ok(events) => Ok(views::each(events@)),
        Err(error) => Err(error@),
    }
}

fn no_events() -> (outcome: Result<Vec<StreamEvent>, ProviderError>)
    ensures
        outcome_view(outcome) == Ok::<Seq<StreamEventView>, ProviderErrorView>(Seq::empty()),
{
    let events: Vec<StreamEvent> = Vec::new();
    assert(views::each(events@) =~= Seq::empty());
    Ok(events)
}

fn one_event(event: StreamEvent) -> (outcome: Result<Vec<StreamEvent>, ProviderError>)
    ensures
        outcome_view(outcome) == Ok::<Seq<StreamEventView>, ProviderErrorView>(seq![event@]),
{
    let mut events: Vec<StreamEvent> = Vec::new();
    events.push(event);
    assert(views::each(events@) =~= seq![event@]);
    Ok(events)
}

impl Accum {
    /// An accumulator before the first event.
    pub fn new() -> (accum: Accum)
        ensures
            accum@ == AccumView::start(),
    {
        let accum = Accum { usage: Usage::zero(), tools: ToolBuffers::new(), stop: None };
        assert(accum@.tools =~= Map::empty());
        accum
    }

    /// Feeds one event of the stream, and returns what it emits.
    pub fn push(
        &mut self,
        event: &Json,
    ) -> (outcome: Result<Vec<StreamEvent>, ProviderError>)
        ensures
            on_event(old(self)@, event@) == (final(self)@, outcome_view(outcome)),
    {
        let kind = match event.str_at("type") {
            Some(kind) => kind,
            None => {
                return no_events();
            },
        };
        if *kind == *"message_start" {
            match event.get_in("message", "usage") {
                Some(u) => {
                    self.usage = map_usage(u);
                },
                None => {},
            }
            one_event(StreamEvent::Start { usage: self.usage })
        } else if *kind == *"content_block_start" {
            self.start_block(event)
        } else if *kind == *"content_block_delta" {
            self.on_delta(event)
        } else if *kind == *"content_block_stop" {
            self.stop_block(event)
        } else if *kind == *"message_delta" {
            self.take_message_delta(event);
            no_events()
        } else if *kind == *"message_stop" {
            let stop = match &self.stop {
                Some(stop) => stop.clone(),
                None => StopReason::EndTurn,
            };
            one_event(StreamEvent::End { stop, usage: self.usage })
        } else {
            no_events()
        }
    }

    fn start_block(
        &mut self,
        event: &Json,
    ) -> (outcome: Result<Vec<StreamEvent>, ProviderError>)
        ensures
            on_block_start(old(self)@, event@) == (final(self)@, outcome_view(outcome)),
    {
        let block = match event.get("content_block") {
            Some(block) => block,
            None => {
                return no_events();
            },
        };
        let index: u64 = match event.u64_at("index") {
            Some(index) => index,
            None => {
                return no_events();
            },
        };
        let is_tool = match block.str_at("type") {
            Some(kind) => *kind == *"tool_use",
            None => false,
        };
        if !is_tool {
            return no_events();
        }
        assert(self@.tools.dom() =~= held(self.tools).dom());
        if !self.tools.contains_key(index) && self.tools.len() >= MAX_INFLIGHT_TOOLS {
            return Err(refuse("stream opened more than 64 concurrent tool calls"));
        }
        let buf = ToolBuf {
            id: text_or_empty(block.str_at("id")),
            name: text_or_empty(block.str_at("name")),
            json: String::new(),
        };
        let ghost before = self@;
        let ghost opened = buf@;
        self.tools.insert(index, buf);
        assert(opened.json =~= Seq::empty());
        assert(self@.tools =~= before.tools.insert(index, opened));
        no_events()
    }

    /// Takes a delta of a block.
    pub fn on_delta(
        &mut self,
        event: &Json,
    ) -> (outcome: Result<Vec<StreamEvent>, ProviderError>)
        ensures
            on_block_delta(old(self)@, event@) == (final(self)@, outcome_view(outcome)),
    {
        let delta = match event.get("delta") {
            Some(delta) => delta,
            None => {
                return no_events();
            },
        };
        let kind = match delta.str_at("type") {
            Some(kind) => kind,
            None => {
                return no_events();
            },
        };
        if *kind == *"text_delta" {
            match delta.str_at("text") {
                Some(t) => one_event(StreamEvent::TextDelta(t.to_owned())),
                None => no_events(),
            }
        } else if *kind == *"thinking_delta" {
            match delta.str_at("thinking") {
                Some(t) => one_event(StreamEvent::ReasoningDelta(t.to_owned())),
                None => no_events(),
            }
        } else if *kind == *"signature_delta" {
            match delta.str_at("signature") {
                Some(t) => one_event(StreamEvent::SignatureDelta(t.to_owned())),
                None => no_events(),
            }
        } else if *kind == *"input_json_delta" {
            match (event.u64_at("index"), delta.str_at("partial_json")) {
                (Some(index), Some(partial)) => self.add_arguments(index, partial),
                _ => no_events(),
            }
        } else {
            no_events()
        }
    }

    fn add_arguments(
        &mut self,
        index: u64,
        partial: &str,
    ) -> (outcome: Result<Vec<StreamEvent>, ProviderError>)
        ensures
            !old(self)@.tools.contains_key(index) ==> final(self)@ == old(self)@ && outcome_view(
                outcome,
            ) == Ok::<Seq<StreamEventView>, ProviderErrorView>(Seq::empty()),
            old(self)@.tools.contains_key(index) ==> {
                let buf = old(self)@.tools[index];
                if crate::error::byte_len(buf.json) + crate::error::byte_len(partial@)
                    > MAX_TOOL_ARGS {
                    &&& final(self)@ == old(self)@
                    &&& outcome_view(outcome) == Err::<Seq<StreamEventView>, ProviderErrorView>(
                        refused("tool-call arguments exceeded 1048576 bytes"@),
                    )
                } else {
                    &&& final(self)@ == (AccumView {
                        tools: old(self)@.tools.insert(
                            index,
                            ToolBufView { json: buf.json + partial@, ..buf },
                        ),
                        ..old(self)@
                    })
                    &&& outcome_view(outcome) == Ok::<Seq<StreamEventView>, ProviderErrorView>(
                        Seq::empty(),
                    )
                }
            },
    {
        let ghost before = self@;
        let ghost map = held(self.tools);
        let added: usize = partial.as_bytes().len();
        let mut fits = true;
        match self.tools.get_mut(index) {
            Some(buf) => {
                let current: usize = buf.json.as_str().as_bytes().len();
                if current > MAX_TOOL_ARGS || added > MAX_TOOL_ARGS - current {
                    fits = false;
                } else {
                    buf.json.append(partial);
                }
            },
            None => {},
        }
        proof {
            if map.contains_key(index) {
                let buf = map[index];
                if fits {
                    assert(self@.tools =~= before.tools.insert(
                        index,
                        ToolBufView { json: buf.json@ + partial@, ..buf@ },
                    ));
                } else {
                    assert(self@.tools =~= before.tools);
                }
            }
        }
        if fits {
            no_events()
        } else {
            Err(refuse("tool-call arguments exceeded 1048576 bytes"))
        }
    }

    fn stop_block(
        &mut self,
        event: &Json,
    ) -> (outcome: Result<Vec<StreamEvent>, ProviderError>)
        ensures
            on_block_stop(old(self)@, event@) == (final(self)@, outcome_view(outcome)),
    {
        let ghost before = self@;
        let index: u64 = match event.u64_at("index") {
            Some(index) => index,
            None => {
                return no_events();
            },
        };
        match self.tools.remove(index) {
            Some(buf) => {
                assert(self@.tools =~= before.tools.remove(index));
                let arguments = complete_arguments(buf.json);
                one_event(StreamEvent::ToolCall { id: buf.id, name: buf.name, arguments })
            },
            None => {
                assert(self@.tools =~= before.tools);
                no_events()
            },
        }
    }

    fn take_message_delta(&mut self, event: &Json)
        ensures
            final(self)@ == on_message_delta(old(self)@, event@),
    {
        match event.get("usage") {
            Some(u) => {
                let delta = map_usage(u);
                self.usage.output_tokens = delta.output_tokens;
                if delta.cache_read_tokens > 0 {
                    self.usage.cache_read_tokens = delta.cache_read_tokens;
                }
                if delta.reasoning_tokens > 0 {
                    self.usage.reasoning_tokens = delta.reasoning_tokens;
                }
            },
            None => {},
        }
        match event.get("delta") {
            Some(delta) => match delta.str_at("stop_reason") {
                Some(reason) => {
                    self.stop = Some(map_stop_reason(reason, delta.str_at("stop_sequence")));
                },
                None => {},
            },
            None => {},
        }
    }
}

/// A stream never has more tool calls open, nor longer arguments, than the
/// bounds: each event keeps them, and the start has them.
pub proof fn a_stream_stays_bounded(accum: AccumView, event: JsonView)
    requires
        accum.bounded(),
    ensures
        AccumView::start().bounded(),
        on_event(accum, event).0.bounded(),
{
    let after = on_event(accum, event).0;
    assert(AccumView::start().tools.dom() =~= Set::empty());
    if after.tools != accum.tools {
        let index = event.unsigned_at("index"@)->0;
        assert(after.tools.dom() =~= accum.tools.dom().insert(index) || after.tools.dom()
            =~= accum.tools.dom().remove(index));
        assert forall|i: u64| #[trigger] after.tools.contains_key(i) implies
            crate::error::byte_len(after.tools[i].json) <= MAX_TOOL_ARGS by {
            if i != index {
                assert(accum.tools.contains_key(i));
            } else {
                crate::text::lemma_byte_len_concat(
                    accum.tools[index].json,
                    event.member("delta"@)->0.text_at("partial_json"@)->0,
                );
            }
        }
    }
}

/// The event adds `partial` to the arguments of the call at `index`.
pub open spec fn is_fragment(event: JsonView, index: u64, partial: Seq<char>) -> bool {
    &&& event.text_at("type"@) == Some("content_block_delta"@)
    &&& event.unsigned_at("index"@) == Some(index)
    &&& event.member("delta"@) matches Some(delta)
    &&& delta.text_at("type"@) == Some("input_json_delta"@)
    &&& delta.text_at("partial_json"@) == Some(partial)
}

/// A fragment for an open call is refused exactly where the arguments would pass
/// the bound, and then nothing changes; otherwise nothing is emitted and the
/// fragment goes behind the arguments so far.
pub proof fn argument_fragments_are_bounded(
    accum: AccumView,
    event: JsonView,
    index: u64,
    partial: Seq<char>,
)
    requires
        is_fragment(event, index, partial),
        accum.tools.contains_key(index),
    ensures
        ({
            let (after, outcome) = on_block_delta(accum, event);
            let buf = accum.tools[index];
            let size = crate::error::byte_len(buf.json) + crate::error::byte_len(partial);
            &&& on_event(accum, event) == (after, outcome)
            &&& outcome is Err <==> size > MAX_TOOL_ARGS
            &&& outcome is Err ==> outcome->Err_0 is Decode && after == accum
            &&& outcome is Ok ==> outcome->Ok_0 == Seq::<StreamEventView>::empty() && after == (
            AccumView {
                tools: accum.tools.insert(index, ToolBufView { json: buf.json + partial, ..buf }),
                ..accum
            })
        }),
{
    lemma_fragment_kind();
}

/// The event closes the block at `index`.
pub open spec fn is_block_stop(event: JsonView, index: u64) -> bool {
    &&& event.text_at("type"@) == Some("content_block_stop"@)
    &&& event.unsigned_at("index"@) == Some(index)
}

/// What a run of events does to the accumulator, as long as none is refused.
pub open spec fn after_events(accum: AccumView, events: Seq<JsonView>) -> AccumView
    decreases events.len(),
{
    if events.len() == 0 {
        accum
    } else {
        on_event(after_events(accum, events.drop_last()), events.last()).0
    }
}

/// Texts one after the other.
pub open spec fn concatenated(parts: Seq<Seq<char>>) -> Seq<char>
    decreases parts.len(),
{
    if parts.len() == 0 {
        Seq::empty()
    } else {
        concatenated(parts.drop_last()) + parts.last()
    }
}

proof fn lemma_fragment_kind()
    ensures
        "content_block_delta"@ != "message_start"@,
        "content_block_delta"@ != "content_block_start"@,
        "input_json_delta"@ != "text_delta"@,
        "input_json_delta"@ != "thinking_delta"@,
        "input_json_delta"@ != "signature_delta"@,
{
    reveal_strlit("content_block_delta");
    reveal_strlit("content_block_start");
    reveal_strlit("message_start");
    reveal_strlit("input_json_delta");
    reveal_strlit("text_delta");
    reveal_strlit("thinking_delta");
    reveal_strlit("signature_delta");
    assert("content_block_delta"@.len() == 19 && "message_start"@.len() == 13);
    assert("content_block_delta"@[14] == 'd' && "content_block_start"@[14] == 's');
    assert("input_json_delta"@.len() == 16 && "text_delta"@.len() == 10);
    assert("thinking_delta"@.len() == 14 && "signature_delta"@.len() == 15);
}

proof fn lemma_stop_kind()
    ensures
        "content_block_stop"@ != "message_start"@,
        "content_block_stop"@ != "content_block_start"@,
        "content_block_stop"@ != "content_block_delta"@,
{
    reveal_strlit("content_block_stop");
    reveal_strlit("content_block_start");
    reveal_strlit("content_block_delta");
    reveal_strlit("message_start");
    assert("content_block_stop"@.len() == 18 && "content_block_start"@.len() == 19);
    assert("content_block_delta"@.len() == 19 && "message_start"@.len() == 13);
}

/// The argument fragments of an open call join, in order, into the one tool
/// call that the end of its block emits; other open calls are left alone.
pub proof fn fragments_join_into_one_call(
    accum: AccumView,
    index: u64,
    events: Seq<JsonView>,
    parts: Seq<Seq<char>>,
    stop: JsonView,
)
    requires
        accum.tools.contains_key(index),
        events.len() == parts.len(),
        forall|i: int| 0 <= i < events.len() ==> is_fragment(#[trigger] events[i], index, parts[i]),
        crate::error::byte_len(accum.tools[index].json + concatenated(parts)) <= MAX_TOOL_ARGS,
        is_block_stop(stop, index),
    ensures
        after_events(accum, events) == (AccumView {
            tools: accum.tools.insert(
                index,
                ToolBufView {
                    json: accum.tools[index].json + concatenated(parts),
                    ..accum.tools[index]
                },
            ),
            ..accum
        }),
        on_event(after_events(accum, events), stop).1 == Ok::<
            Seq<StreamEventView>,
            ProviderErrorView,
        >(
            seq![
                StreamEventView::ToolCall {
                    id: accum.tools[index].id,
                    name: accum.tools[index].name,
                    arguments: provider::whole_arguments(accum.tools[index].json + concatenated(parts)),
                },
            ],
        ),
        !on_event(after_events(accum, events), stop).0.tools.contains_key(index),
    decreases events.len(),
{
    lemma_fragment_kind();
    lemma_stop_kind();
    let buf = accum.tools[index];
    if events.len() == 0 {
        assert(buf.json + concatenated(parts) =~= buf.json);
        assert(accum.tools.insert(index, buf) =~= accum.tools);
    } else {
        let shorter = events.drop_last();
        let fewer = parts.drop_last();
        let so_far = buf.json + concatenated(fewer);
        assert(buf.json + concatenated(parts) =~= so_far + parts.last());
        crate::text::lemma_byte_len_concat(so_far, parts.last());
        assert forall|i: int| 0 <= i < shorter.len() implies is_fragment(
            #[trigger] shorter[i],
            index,
            fewer[i],
        ) by {
            assert(is_fragment(events[i], index, parts[i]));
        }
        fragments_join_into_one_call(accum, index, shorter, fewer, stop);
        assert(is_fragment(events[events.len() - 1], index, parts[parts.len() - 1]));
        assert(after_events(accum, events).tools =~= accum.tools.insert(
            index,
            ToolBufView { json: buf.json + concatenated(parts), ..buf },
        ));
    }
}

/// A single line of a stream may hold at most this many bytes.
pub const MAX_SSE_LINE: usize = 1_048_576;

/// There is a newline among the bytes from `from` on, where a character starts
/// at `from`.
pub open spec fn newline_from(bytes: Seq<u8>, from: int) -> bool {
    vstd::utf8::is_char_boundary(bytes, from) && exists|i: int|
        from <= i < bytes.len() && #[trigger] bytes[i] == 10
}

/// Whether the buffer holds a single, still unterminated line that is longer
/// than [`MAX_SSE_LINE`]. The first `scanned` bytes are known to be free of
/// newlines, so only the rest is looked at.
pub fn sse_line_overflow(buf: &str, scanned: usize) -> (overflow: bool)
    ensures
        overflow == (vstd::utf8::encode_utf8(buf@).len() > MAX_SSE_LINE && !newline_from(
            vstd::utf8::encode_utf8(buf@),
            scanned as int,
        )),
{
    let bytes = buf.as_bytes();
    if bytes.len() <= MAX_SSE_LINE {
        return false;
    }
    if !buf.is_char_boundary(scanned) {
        return true;
    }
    let mut i: usize = scanned;
    while i < bytes.len()
        invariant
            scanned <= i,
            bytes@ == vstd::utf8::encode_utf8(buf@),
            vstd::utf8::is_char_boundary(bytes@, scanned as int),
            forall|j: int| scanned <= j < i && j < bytes@.len() ==> bytes@[j] != 10,
        decreases bytes@.len() - i,
    {
        if bytes[i] == 10 {
            assert(newline_from(bytes@, scanned as int));
            return false;
        }
        i = i + 1;
    }
    true
}

/// The data of an event line: what follows `data:`, without the white space
/// around it. `None` for another line, and for one without data.
pub open spec fn data_of(line: Seq<char>) -> Option<Seq<char>> {
    let kept = crate::text::without_trailing(line);
    if "data:"@.is_prefix_of(kept) {
        let data = crate::text::trimmed(kept.skip("data:"@.len() as int));
        if data.len() == 0 {
            None
        } else {
            Some(data)
        }
    } else {
        None
    }
}

fn line_data(line: &str) -> (data: Option<String>)
    ensures
        views::optional(data) == data_of(line@),
{
    let mut chars = chars_of(line);
    trim_end(&mut chars);
    let kept = text_between(&chars, 0, chars.len());
    assert(kept@ =~= crate::text::without_trailing(line@));
    match strip_prefix(kept.as_str(), "data:") {
        Some(rest) => {
            assert(kept@.skip("data:"@.len() as int) =~= rest@);
            assert(kept@.take("data:"@.len() as int) =~= "data:"@);
            let data = trim(rest.as_str());
            if data.as_str().is_empty() {
                None
            } else {
                Some(data)
            }
        },
        None => None,
    }
}

/// What one line of a stream does: its data, read as JSON, is an event; a line
/// without data or with data that is no JSON does nothing.
pub open spec fn on_line(
    accum: AccumView,
    line: Seq<char>,
) -> (AccumView, Result<Seq<StreamEventView>, ProviderErrorView>) {
    match data_of(line) {
        Some(data) => match crate::json::json_of_text(data) {
            Ok(event) => on_event(accum, event),
            Err(_) => (accum, Ok(Seq::empty())),
        },
        None => (accum, Ok(Seq::empty())),
    }
}

/// The result of reading text line by line.
#[verifier::ext_equal]
pub struct Consumed {
    /// The accumulator afterwards.
    pub accum: AccumView,
    /// What was emitted.
    pub events: Seq<StreamEventView>,
    /// The error that ended the stream, if one did.
    pub error: Option<ProviderErrorView>,
    /// The start of a line whose end has not come yet.
    pub rest: Seq<char>,
}

/// Reads every whole line of `text`, up to the first that is refused.
pub open spec fn consume(accum: AccumView, text: Seq<char>) -> Consumed
    decreases text.len(),
{
    let end = crate::text::line_len(text) as int;
    if end < text.len() {
        let (next, outcome) = on_line(accum, text.take(end));
        let tail = text.skip(end + 1);
        match outcome {
            Ok(events) => {
                let more = consume(next, tail);
                Consumed { events: events + more.events, ..more }
            },
            Err(error) => Consumed {
                accum: next,
                events: Seq::empty(),
                error: Some(error),
                rest: tail,
            },
        }
    } else {
        Consumed { accum, events: Seq::empty(), error: None, rest: text }
    }
}

/// What a [`ClaudeStream`] stands for.
#[verifier::ext_equal]
pub struct ClaudeStreamView {
    /// The start of a line whose end has not come yet.
    pub pending: Seq<char>,
    /// The accumulator.
    pub accum: AccumView,
}

/// The state of a streamed response, fed with the chunks of its body.
pub struct ClaudeStream {
    buf: String,
    scanned: usize,
    accum: Accum,
}

impl View for ClaudeStream {
    type V = ClaudeStreamView;

    closed spec fn view(&self) -> ClaudeStreamView {
        ClaudeStreamView { pending: self.buf@, accum: self.accum@ }
    }
}

/// What feeding text to a stream gives. An unterminated line over the bound is
/// refused; otherwise every whole line is read.
pub open spec fn on_text(stream: ClaudeStreamView, text: Seq<char>) -> Consumed {
    let all = stream.pending + text;
    if overflows(all) {
        Consumed {
            accum: stream.accum,
            events: Seq::empty(),
            error: Some(refused("SSE line exceeded 1048576 bytes without a newline"@)),
            rest: all,
        }
    } else {
        consume(stream.accum, all)
    }
}

/// Reading a text in two pieces gives what reading it whole gives.
proof fn lemma_consume_split(accum: AccumView, a: Seq<char>, b: Seq<char>)
    requires
        consume(accum, a).error is None,
    ensures
        ({
            let first = consume(accum, a);
            let second = consume(first.accum, first.rest + b);
            consume(accum, a + b) == (Consumed { events: first.events + second.events, ..second })
        }),
    decreases a.len(),
{
    let first = consume(accum, a);
    let second = consume(first.accum, first.rest + b);
    let end = crate::text::line_len(a) as int;
    crate::text::lemma_line_len_bound(a);
    if end < a.len() {
        let (next, outcome) = on_line(accum, a.take(end));
        crate::text::lemma_line_len(a + b, end);
        assert((a + b).take(end) =~= a.take(end));
        assert((a + b).skip(end + 1) =~= a.skip(end + 1) + b);
        lemma_consume_split(next, a.skip(end + 1), b);
        let more = consume(next, a.skip(end + 1));
        let events = outcome->Ok_0;
        assert(events + (more.events + second.events) =~= (events + more.events) + second.events);
    } else {
        assert(Seq::<StreamEventView>::empty() + second.events =~= second.events);
    }
}

/// The text is one unterminated line over the bound.
pub open spec fn overflows(text: Seq<char>) -> bool {
    crate::text::line_len(text) == text.len() && crate::error::byte_len(text) > MAX_SSE_LINE
}

/// Where the body is cut into chunks does not matter: two chunks give the
/// events, the error and the state that their concatenation gives, unless the
/// second leaves an unterminated line over the bound.
pub proof fn chunk_boundaries_do_not_matter(
    stream: ClaudeStreamView,
    a: Seq<char>,
    b: Seq<char>,
)
    requires
        on_text(stream, a).error is None,
        !overflows(on_text(stream, a).rest + b),
    ensures
        ({
            let first = on_text(stream, a);
            let kept = ClaudeStreamView { pending: first.rest, accum: first.accum };
            let second = on_text(kept, b);
            on_text(stream, a + b) == (Consumed { events: first.events + second.events, ..second })
        }),
{
    let all = stream.pending + a;
    let first = consume(stream.accum, all);
    lemma_consume_split(stream.accum, all, b);
    assert(stream.pending + (a + b) =~= all + b);
    crate::text::lemma_line_len_bound(all);
    crate::text::lemma_line_len_bound(all + b);
    let end = crate::text::line_len(all) as int;
    if end < all.len() {
        crate::text::lemma_line_len(all + b, end);
    }
}

/// Only the newly arrived text can end the line.
proof fn lemma_overflow(kept: Seq<char>, text: Seq<char>, scanned: int)
    requires
        crate::text::line_len(kept) == kept.len(),
        scanned == crate::error::byte_len(kept),
    ensures
        newline_from(vstd::utf8::encode_utf8(kept + text), scanned) == (crate::text::line_len(
            kept + text,
        ) < (kept + text).len()),
{
    let bytes = vstd::utf8::encode_utf8(kept + text);
    let new_bytes = vstd::utf8::encode_utf8(text);
    crate::text::lemma_encode_concat(kept, text);
    crate::text::lemma_boundary_between(kept, text);
    crate::text::lemma_newline_bytes(text);
    crate::text::lemma_line_len_bound(kept);
    crate::text::lemma_line_len_bound(kept + text);
    if text.contains('\n') {
        let i = choose|i: int| 0 <= i < new_bytes.len() && new_bytes[i] == 10u8;
        assert(bytes[scanned + i] == 10);
        let j = choose|j: int| 0 <= j < text.len() && text[j] == '\n';
        assert((kept + text)[kept.len() + j] == '\n');
    } else {
        if newline_from(bytes, scanned) {
            let i = choose|i: int| scanned <= i < bytes.len() && #[trigger] bytes[i] == 10;
            assert(new_bytes[i - scanned] == 10u8);
            assert(new_bytes.contains(10u8));
        }
        let all = kept + text;
        if crate::text::line_len(all) < all.len() {
            let k = crate::text::line_len(all) as int;
            if k >= kept.len() {
                assert(text[k - kept.len()] == '\n');
            } else {
                assert(kept[k] == '\n');
            }
        }
    }
}

fn append_events(events: &mut Vec<StreamEvent>, new: Vec<StreamEvent>)
    ensures
        views::each(final(events)@) == views::each(old(events)@) + views::each(new@),
{
    let mut new = new;
    let ghost before = events@;
    let ghost added = new@;
    events.append(&mut new);
    assert(views::each(events@) =~= views::each(before) + views::each(added));
}

/// What a chunk gave: the events to emit, and the error that ends the stream.
pub struct StreamStep {
    /// Events, in order.
    pub events: Vec<StreamEvent>,
    /// The error that ends the stream after those events.
    pub error: Option<ProviderError>,
}

impl ClaudeStream {
    /// What is kept before the next chunk holds no newline, and is known to.
    pub closed spec fn wf(self) -> bool {
        &&& crate::text::line_len(self.buf@) == self.buf@.len()
        &&& self.scanned == crate::error::byte_len(self.buf@)
    }

    /// The state before the first chunk.
    pub fn new() -> (stream: ClaudeStream)
        ensures
            stream.wf(),
            stream@ == (ClaudeStreamView { pending: Seq::empty(), accum: AccumView::start() }),
    {
        let stream = ClaudeStream { buf: String::new(), scanned: 0, accum: Accum::new() };
        assert(stream.buf@ =~= Seq::empty());
        stream
    }

    /// Feeds one chunk of the body. Once a step carries an error the stream has
    /// ended.
    pub fn push_chunk(&mut self, chunk: &[u8]) -> (step: StreamStep)
        requires
            old(self).wf(),
        ensures
            ({
                let done = on_text(old(self)@, crate::text::utf8_lossy(chunk@));
                &&& views::each(step.events@) == done.events
                &&& views::optional(step.error) == done.error
                &&& final(self)@ == (ClaudeStreamView { pending: done.rest, accum: done.accum })
                &&& step.error is None ==> final(self).wf()
            }),
    {
        let decoded = decode_lossy(chunk);
        self.push_text(decoded.as_str())
    }

    /// Feeds text of the body.
    pub fn push_text(&mut self, text: &str) -> (step: StreamStep)
        requires
            old(self).wf(),
        ensures
            ({
                let done = on_text(old(self)@, text@);
                &&& views::each(step.events@) == done.events
                &&& views::optional(step.error) == done.error
                &&& final(self)@ == (ClaudeStreamView { pending: done.rest, accum: done.accum })
                &&& step.error is None ==> final(self).wf()
            }),
    {
        let ghost kept = self.buf@;
        let ghost start = self.accum@;
        self.buf.append(text);
        let ghost all = self.buf@;
        proof {
            lemma_overflow(kept, text@, self.scanned as int);
            crate::text::lemma_line_len_bound(all);
        }
        let mut events: Vec<StreamEvent> = Vec::new();
        assert(views::each(events@) =~= Seq::empty());
        if sse_line_overflow(self.buf.as_str(), self.scanned) {
            return StreamStep {
                events,
                error: Some(refuse("SSE line exceeded 1048576 bytes without a newline")),
            };
        }
        let chars = chars_of(self.buf.as_str());
        let mut from: usize = 0;
        let mut to: usize = 0;
        let mut error: Option<ProviderError> = None;
        assert(all.skip(0) =~= all);
        while to < chars.len() && error.is_none()
            invariant
                chars@ == all,
                from <= to <= all.len(),
                forall|j: int| from <= j < to ==> all[j] != '\n',
                error is None ==> ({
                    let done = consume(start, all);
                    let more = consume(self.accum@, all.skip(from as int));
                    &&& done.events == views::each(events@) + more.events
                    &&& done.accum == more.accum
                    &&& done.error == more.error
                    &&& done.rest == more.rest
                }),
                error matches Some(e) ==> ({
                    let done = consume(start, all);
                    &&& done.events == views::each(events@)
                    &&& done.accum == self.accum@
                    &&& done.error == Some(e@)
                    &&& done.rest == all.skip(from as int)
                }),
            decreases all.len() - to, if error is None { 1int } else { 0 },
        {
            if chars[to] == '\n' {
                let line = text_between(&chars, from, to);
                let ghost tail = all.skip(from as int);
                let ghost before = self.accum@;
                let ghost emitted = views::each(events@);
                proof {
                    crate::text::lemma_line_len(tail, to - from);
                    assert(tail.take(to - from) =~= line@);
                    assert(tail.skip(to - from + 1) =~= all.skip(to + 1));
                }
                match line_data(line.as_str()) {
                    Some(data) => match Json::parse(data.as_str()) {
                        Ok(event) => match self.accum.push(&event) {
                            Ok(new) => {
                                append_events(&mut events, new);
                            },
                            Err(e) => {
                                error = Some(e);
                            },
                        },
                        Err(_) => {},
                    },
                    None => {},
                }
                proof {
                    let more = consume(self.accum@, all.skip(to + 1));
                    match on_line(before, line@).1 {
                        Ok(new) => {
                            assert(views::each(events@) =~= emitted + new);
                            assert(emitted + (new + more.events) =~= (emitted + new)
                                + more.events);
                        },
                        Err(_) => {
                            assert(emitted + Seq::<StreamEventView>::empty() =~= emitted);
                        },
                    }
                }
                to = to + 1;
                from = to;
            } else {
                to = to + 1;
            }
        }
        proof {
            if error is None {
                let tail = all.skip(from as int);
                crate::text::lemma_line_len(tail, tail.len() as int);
                assert(views::each(events@) + Seq::<StreamEventView>::empty() =~= views::each(
                    events@,
                ));
            }
        }
        self.buf = text_between(&chars, from, chars.len());
        assert(self.buf@ =~= all.skip(from as int));
        self.scanned = self.buf.as_str().as_bytes().len();
        StreamStep { events, error }
    }
}

/// The default endpoint.
pub const DEFAULT_BASE_URL: &'static str = "https://api.anthropic.com";

/// The API version that the wire format belongs to.
pub const ANTHROPIC_VERSION: &'static str = "2023-06-01";

/// Access to the Anthropic API: a key and an endpoint.
#[derive(Clone)]
pub struct ClaudeClient {
    api_key: String,
    base_url: String,
}

impl ClaudeClient {
    /// The key.
    pub closed spec fn key(self) -> Seq<char> {
        self.api_key@
    }

    /// The endpoint.
    pub closed spec fn base(self) -> Seq<char> {
        self.base_url@
    }

    /// A client for the given API key, at the default endpoint.
    #[must_use]
    pub fn new(api_key: String) -> (client: Self)
        ensures
            client.key() == api_key@,
            client.base() == DEFAULT_BASE_URL@,
    {
        ClaudeClient { api_key, base_url: DEFAULT_BASE_URL.to_owned() }
    }

    /// A client for the key that the environment gave.
    pub fn from_env(key: Option<String>) -> (client: Result<Self, ProviderError>)
        ensures
            match (key, client) {
                (Some(k), Ok(c)) => c.key() == k@ && c.base() == DEFAULT_BASE_URL@,
                (None, Err(e)) => e@ == ProviderErrorView::InvalidArgument(
                    "ANTHROPIC_API_KEY is not set"@,
                ),
                _ => false,
            },
    {
        match key {
            Some(k) => Ok(ClaudeClient::new(k)),
            None => Err(
                ProviderError::InvalidArgument("ANTHROPIC_API_KEY is not set".to_owned()),
            ),
        }
    }

    /// The same client at another endpoint (a proxy or gateway).
    #[must_use]
    pub fn with_base_url(self, base_url: String) -> (client: Self)
        ensures
            client.key() == self.key(),
            client.base() == base_url@,
    {
        ClaudeClient { api_key: self.api_key, base_url }
    }

    /// A handle on one model.
    #[must_use]
    pub fn model(&self, model: String) -> (handle: ClaudeModel)
        ensures
            handle.client().key() == self.key(),
            handle.client().base() == self.base(),
            handle.id() == model@,
    {
        ClaudeModel {
            client: ClaudeClient { api_key: self.api_key.clone(), base_url: self.base_url.clone() },
            model,
        }
    }

    /// The key, for the request header.
    pub fn api_key(&self) -> (key: &str)
        ensures
            key@ == self.key(),
    {
        self.api_key.as_str()
    }

    /// The URL that requests go to.
    pub fn messages_url(&self) -> (url: String)
        ensures
            url@ == self.base() + "/v1/messages"@,
    {
        self.base_url.clone().concat("/v1/messages")
    }

    /// The form for logs, without the key.
    pub fn debug_text(&self) -> (shown: String)
        ensures
            shown@ == client_shown(self.base()),
    {
        let mut shown = "ClaudeClient { api_key: \"[redacted]\", base_url: ".to_owned();
        shown.append(debug_text(self.base_url.as_str()).as_str());
        shown.append(", .. }");
        shown
    }
}

/// The log form of a client at this endpoint, whatever its key.
pub open spec fn client_shown(base: Seq<char>) -> Seq<char> {
    "ClaudeClient { api_key: \"[redacted]\", base_url: "@ + crate::text::quoted(base) + ", .. }"@
}

/// A client bound to one of the provider's models.
#[derive(Clone)]
pub struct ClaudeModel {
    client: ClaudeClient,
    model: String,
}

impl ClaudeModel {
    /// The client behind this handle.
    pub closed spec fn client(self) -> ClaudeClient {
        self.client
    }

    /// The model id.
    pub closed spec fn id(self) -> Seq<char> {
        self.model@
    }

    /// The model id that this handle serves.
    pub fn model_id(&self) -> (id: &str)
        ensures
            id@ == self.id(),
    {
        self.model.as_str()
    }

    /// The URL that requests go to.
    pub fn messages_url(&self) -> (url: String)
        ensures
            url@ == self.client().base() + "/v1/messages"@,
    {
        self.client.messages_url()
    }

    /// The key, for the request header.
    pub fn api_key(&self) -> (key: &str)
        ensures
            key@ == self.client().key(),
    {
        self.client.api_key()
    }

    /// The body for a request to this model.
    pub fn request_body(&self, request: &ChatRequest, stream: bool) -> (body: Json)
        ensures
            body@ == JsonView::Object(
                body_members(
                    provider::picked_model(self.id(), request@.model),
                    request@,
                    stream,
                ),
            ),
    {
        let model = provider::pick_model(self.model.as_str(), request);
        build_body(model.as_str(), request, stream)
    }

    /// Reads a (non-streamed) response, given its status, its body and the
    /// delay that its headers ask for.
    pub fn read_response(
        &self,
        status: u16,
        body: &str,
        retry_after: Option<Duration>,
    ) -> (response: Result<ChatResponse, ProviderError>)
        ensures
            match (provider::response_body(status, body@, retry_after), response) {
                (Ok(value), Ok(r)) => r@ == response_of(value),
                (Err(error), Err(e)) => e@ == error,
                _ => false,
            },
    {
        match provider::read_body(status, body, retry_after) {
            Ok(value) => Ok(parse_response(&value)),
            Err(e) => Err(e),
        }
    }

    /// The form for logs, without the key.
    pub fn debug_text(&self) -> (shown: String)
        ensures
            shown@ == "ClaudeModel { client: "@ + client_shown(self.client().base()) + ", model: "@
                + crate::text::quoted(self.id()) + " }"@,
    {
        let mut shown = "ClaudeModel { client: ".to_owned();
        shown.append(self.client.debug_text().as_str());
        shown.append(", model: ");
        shown.append(debug_text(self.model.as_str()).as_str());
        shown.append(" }");
        shown
    }
}

proof fn lemma_block_keys_differ()
    ensures
        "type"@ != "text"@,
        "type"@ != "id"@,
        "type"@ != "name"@,
        "type"@ != "input"@,
        "type"@ != "thinking"@,
        "type"@ != "signature"@,
        "type"@ != "data"@,
        "type"@ != "cache_control"@,
        "type"@ != "source"@,
        "type"@ != "tool_use_id"@,
        "type"@ != "is_error"@,
        "type"@ != "content"@,
        "type"@ != "role"@,
        "type"@ != "url"@,
        "type"@ != "media_type"@,
        "type"@ != "file_id"@,
        "text"@ != "id"@,
        "text"@ != "name"@,
        "text"@ != "input"@,
        "text"@ != "thinking"@,
        "text"@ != "signature"@,
        "text"@ != "data"@,
        "text"@ != "cache_control"@,
        "text"@ != "source"@,
        "text"@ != "tool_use_id"@,
        "text"@ != "is_error"@,
        "text"@ != "content"@,
        "text"@ != "role"@,
        "text"@ != "url"@,
        "text"@ != "media_type"@,
        "text"@ != "file_id"@,
        "id"@ != "name"@,
        "id"@ != "input"@,
        "id"@ != "thinking"@,
        "id"@ != "signature"@,
        "id"@ != "data"@,
        "id"@ != "cache_control"@,
        "id"@ != "source"@,
        "id"@ != "tool_use_id"@,
        "id"@ != "is_error"@,
        "id"@ != "content"@,
        "id"@ != "role"@,
        "id"@ != "url"@,
        "id"@ != "media_type"@,
        "id"@ != "file_id"@,
        "name"@ != "input"@,
        "name"@ != "thinking"@,
        "name"@ != "signature"@,
        "name"@ != "data"@,
        "name"@ != "cache_control"@,
        "name"@ != "source"@,
        "name"@ != "tool_use_id"@,
        "name"@ != "is_error"@,
        "name"@ != "content"@,
        "name"@ != "role"@,
        "name"@ != "url"@,
        "name"@ != "media_type"@,
        "name"@ != "file_id"@,
        "input"@ != "thinking"@,
        "input"@ != "signature"@,
        "input"@ != "data"@,
        "input"@ != "cache_control"@,
        "input"@ != "source"@,
        "input"@ != "tool_use_id"@,
        "input"@ != "is_error"@,
        "input"@ != "content"@,
        "input"@ != "role"@,
        "input"@ != "url"@,
        "input"@ != "media_type"@,
        "input"@ != "file_id"@,
        "thinking"@ != "signature"@,
        "thinking"@ != "data"@,
        "thinking"@ != "cache_control"@,
        "thinking"@ != "source"@,
        "thinking"@ != "tool_use_id"@,
        "thinking"@ != "is_error"@,
        "thinking"@ != "content"@,
        "thinking"@ != "role"@,
        "thinking"@ != "url"@,
        "thinking"@ != "media_type"@,
        "thinking"@ != "file_id"@,
        "signature"@ != "data"@,
        "signature"@ != "cache_control"@,
        "signature"@ != "source"@,
        "signature"@ != "tool_use_id"@,
        "signature"@ != "is_error"@,
        "signature"@ != "content"@,
        "signature"@ != "role"@,
        "signature"@ != "url"@,
        "signature"@ != "media_type"@,
        "signature"@ != "file_id"@,
        "data"@ != "cache_control"@,
        "data"@ != "source"@,
        "data"@ != "tool_use_id"@,
        "data"@ != "is_error"@,
        "data"@ != "content"@,
        "data"@ != "role"@,
        "data"@ != "url"@,
        "data"@ != "media_type"@,
        "data"@ != "file_id"@,
        "cache_control"@ != "source"@,
        "cache_control"@ != "tool_use_id"@,
        "cache_control"@ != "is_error"@,
        "cache_control"@ != "content"@,
        "cache_control"@ != "role"@,
        "cache_control"@ != "url"@,
        "cache_control"@ != "media_type"@,
        "cache_control"@ != "file_id"@,
        "source"@ != "tool_use_id"@,
        "source"@ != "is_error"@,
        "source"@ != "content"@,
        "source"@ != "role"@,
        "source"@ != "url"@,
        "source"@ != "media_type"@,
        "source"@ != "file_id"@,
        "tool_use_id"@ != "is_error"@,
        "tool_use_id"@ != "content"@,
        "tool_use_id"@ != "role"@,
        "tool_use_id"@ != "url"@,
        "tool_use_id"@ != "media_type"@,
        "tool_use_id"@ != "file_id"@,
        "is_error"@ != "content"@,
        "is_error"@ != "role"@,
        "is_error"@ != "url"@,
        "is_error"@ != "media_type"@,
        "is_error"@ != "file_id"@,
        "content"@ != "role"@,
        "content"@ != "url"@,
        "content"@ != "media_type"@,
        "content"@ != "file_id"@,
        "role"@ != "url"@,
        "role"@ != "media_type"@,
        "role"@ != "file_id"@,
        "url"@ != "media_type"@,
        "url"@ != "file_id"@,
        "media_type"@ != "file_id"@,
{
    reveal_strlit("type");
    reveal_strlit("text");
    reveal_strlit("id");
    reveal_strlit("name");
    reveal_strlit("input");
    reveal_strlit("thinking");
    reveal_strlit("signature");
    reveal_strlit("data");
    reveal_strlit("cache_control");
    reveal_strlit("source");
    reveal_strlit("tool_use_id");
    reveal_strlit("is_error");
    reveal_strlit("content");
    reveal_strlit("role");
    reveal_strlit("url");
    reveal_strlit("media_type");
    reveal_strlit("file_id");
    assert("type"@.len() == 4);
    assert("text"@.len() == 4);
    assert("id"@.len() == 2);
    assert("name"@.len() == 4);
    assert("input"@.len() == 5);
    assert("thinking"@.len() == 8);
    assert("signature"@.len() == 9);
    assert("data"@.len() == 4);
    assert("cache_control"@.len() == 13);
    assert("source"@.len() == 6);
    assert("tool_use_id"@.len() == 11);
    assert("is_error"@.len() == 8);
    assert("content"@.len() == 7);
    assert("role"@.len() == 4);
    assert("url"@.len() == 3);
    assert("media_type"@.len() == 10);
    assert("file_id"@.len() == 7);
    assert("type"@[1] != "text"@[1]);
    assert("type"@[0] != "name"@[0]);
    assert("type"@[0] != "data"@[0]);
    assert("type"@[0] != "role"@[0]);
    assert("text"@[0] != "name"@[0]);
    assert("text"@[0] != "data"@[0]);
    assert("text"@[0] != "role"@[0]);
    assert("name"@[0] != "data"@[0]);
    assert("name"@[0] != "role"@[0]);
    assert("thinking"@[0] != "is_error"@[0]);
    assert("data"@[0] != "role"@[0]);
    assert("content"@[0] != "file_id"@[0]);
}

proof fn lemma_block_kinds_differ()
    ensures
        "text"@ != "tool_use"@,
        "text"@ != "thinking"@,
        "text"@ != "redacted_thinking"@,
        "text"@ != "tool_result"@,
        "text"@ != "image"@,
        "tool_use"@ != "thinking"@,
        "tool_use"@ != "redacted_thinking"@,
        "tool_use"@ != "tool_result"@,
        "tool_use"@ != "image"@,
        "thinking"@ != "redacted_thinking"@,
        "thinking"@ != "tool_result"@,
        "thinking"@ != "image"@,
        "redacted_thinking"@ != "tool_result"@,
        "redacted_thinking"@ != "image"@,
        "tool_result"@ != "image"@,
{
    reveal_strlit("text");
    reveal_strlit("tool_use");
    reveal_strlit("thinking");
    reveal_strlit("redacted_thinking");
    reveal_strlit("tool_result");
    reveal_strlit("image");
    assert("text"@.len() == 4);
    assert("tool_use"@.len() == 8);
    assert("thinking"@.len() == 8);
    assert("redacted_thinking"@.len() == 17);
    assert("tool_result"@.len() == 11);
    assert("image"@.len() == 5);
    assert("tool_use"@[1] != "thinking"@[1]);
}

proof fn lemma_member_keys_differ()
    ensures
        "model"@ != "max_tokens"@,
        "model"@ != "stream"@,
        "model"@ != "messages"@,
        "model"@ != "system"@,
        "model"@ != "tools"@,
        "model"@ != "tool_choice"@,
        "model"@ != "temperature"@,
        "model"@ != "stop_sequences"@,
        "model"@ != "thinking"@,
        "max_tokens"@ != "stream"@,
        "max_tokens"@ != "messages"@,
        "max_tokens"@ != "system"@,
        "max_tokens"@ != "tools"@,
        "max_tokens"@ != "tool_choice"@,
        "max_tokens"@ != "temperature"@,
        "max_tokens"@ != "stop_sequences"@,
        "max_tokens"@ != "thinking"@,
        "stream"@ != "messages"@,
        "stream"@ != "system"@,
        "stream"@ != "tools"@,
        "stream"@ != "tool_choice"@,
        "stream"@ != "temperature"@,
        "stream"@ != "stop_sequences"@,
        "stream"@ != "thinking"@,
        "messages"@ != "system"@,
        "messages"@ != "tools"@,
        "messages"@ != "tool_choice"@,
        "messages"@ != "temperature"@,
        "messages"@ != "stop_sequences"@,
        "messages"@ != "thinking"@,
        "system"@ != "tools"@,
        "system"@ != "tool_choice"@,
        "system"@ != "temperature"@,
        "system"@ != "stop_sequences"@,
        "system"@ != "thinking"@,
        "tools"@ != "tool_choice"@,
        "tools"@ != "temperature"@,
        "tools"@ != "stop_sequences"@,
        "tools"@ != "thinking"@,
        "tool_choice"@ != "temperature"@,
        "tool_choice"@ != "stop_sequences"@,
        "tool_choice"@ != "thinking"@,
        "temperature"@ != "stop_sequences"@,
        "temperature"@ != "thinking"@,
        "stop_sequences"@ != "thinking"@,
{
    reveal_strlit("model");
    reveal_strlit("max_tokens");
    reveal_strlit("stream");
    reveal_strlit("messages");
    reveal_strlit("system");
    reveal_strlit("tools");
    reveal_strlit("tool_choice");
    reveal_strlit("temperature");
    reveal_strlit("stop_sequences");
    reveal_strlit("thinking");
    assert("model"@.len() == 5);
    assert("max_tokens"@.len() == 10);
    assert("stream"@.len() == 6);
    assert("messages"@.len() == 8);
    assert("system"@.len() == 6);
    assert("tools"@.len() == 5);
    assert("tool_choice"@.len() == 11);
    assert("temperature"@.len() == 11);
    assert("stop_sequences"@.len() == 14);
    assert("thinking"@.len() == 8);
    assert("model"@[0] != "tools"@[0]);
    assert("stream"@[1] != "system"@[1]);
    assert("messages"@[0] != "thinking"@[0]);
    assert("tool_choice"@[1] != "temperature"@[1]);
}

proof fn lemma_tool_keys_differ()
    ensures
        "name"@ != "description"@,
        "name"@ != "input_schema"@,
        "name"@ != "strict"@,
        "name"@ != "cache_control"@,
        "name"@ != "type"@,
        "description"@ != "input_schema"@,
        "description"@ != "strict"@,
        "description"@ != "cache_control"@,
        "description"@ != "type"@,
        "input_schema"@ != "strict"@,
        "input_schema"@ != "cache_control"@,
        "input_schema"@ != "type"@,
        "strict"@ != "cache_control"@,
        "strict"@ != "type"@,
        "cache_control"@ != "type"@,
{
    reveal_strlit("name");
    reveal_strlit("description");
    reveal_strlit("input_schema");
    reveal_strlit("strict");
    reveal_strlit("cache_control");
    reveal_strlit("type");
    assert("name"@.len() == 4);
    assert("description"@.len() == 11);
    assert("input_schema"@.len() == 12);
    assert("strict"@.len() == 6);
    assert("cache_control"@.len() == 13);
    assert("type"@.len() == 4);
    assert("name"@[0] != "type"@[0]);
}

proof fn lemma_stop_reasons_differ()
    ensures
        "end_turn"@ != "max_tokens"@,
        "end_turn"@ != "stop_sequence"@,
        "end_turn"@ != "tool_use"@,
        "end_turn"@ != "refusal"@,
        "end_turn"@ != "pause_turn"@,
        "max_tokens"@ != "stop_sequence"@,
        "max_tokens"@ != "tool_use"@,
        "max_tokens"@ != "refusal"@,
        "max_tokens"@ != "pause_turn"@,
        "stop_sequence"@ != "tool_use"@,
        "stop_sequence"@ != "refusal"@,
        "stop_sequence"@ != "pause_turn"@,
        "tool_use"@ != "refusal"@,
        "tool_use"@ != "pause_turn"@,
        "refusal"@ != "pause_turn"@,
{
    reveal_strlit("end_turn");
    reveal_strlit("max_tokens");
    reveal_strlit("stop_sequence");
    reveal_strlit("tool_use");
    reveal_strlit("refusal");
    reveal_strlit("pause_turn");
    assert("end_turn"@.len() == 8);
    assert("max_tokens"@.len() == 10);
    assert("stop_sequence"@.len() == 13);
    assert("tool_use"@.len() == 8);
    assert("refusal"@.len() == 7);
    assert("pause_turn"@.len() == 10);
    assert("end_turn"@[0] != "tool_use"@[0]);
    assert("max_tokens"@[0] != "pause_turn"@[0]);
}

proof fn lemma_event_kinds_differ()
    ensures
        "message_start"@ != "content_block_start"@,
        "message_start"@ != "content_block_delta"@,
        "message_start"@ != "content_block_stop"@,
        "message_start"@ != "message_delta"@,
        "message_start"@ != "message_stop"@,
        "content_block_start"@ != "content_block_delta"@,
        "content_block_start"@ != "content_block_stop"@,
        "content_block_start"@ != "message_delta"@,
        "content_block_start"@ != "message_stop"@,
        "content_block_delta"@ != "content_block_stop"@,
        "content_block_delta"@ != "message_delta"@,
        "content_block_delta"@ != "message_stop"@,
        "content_block_stop"@ != "message_delta"@,
        "content_block_stop"@ != "message_stop"@,
        "message_delta"@ != "message_stop"@,
{
    reveal_strlit("message_start");
    reveal_strlit("content_block_start");
    reveal_strlit("content_block_delta");
    reveal_strlit("content_block_stop");
    reveal_strlit("message_delta");
    reveal_strlit("message_stop");
    assert("message_start"@.len() == 13);
    assert("content_block_start"@.len() == 19);
    assert("content_block_delta"@.len() == 19);
    assert("content_block_stop"@.len() == 18);
    assert("message_delta"@.len() == 13);
    assert("message_stop"@.len() == 12);
    assert("message_start"@[8] != "message_delta"@[8]);
    assert("content_block_start"@[14] != "content_block_delta"@[14]);
}

proof fn lemma_delta_kinds_differ()
    ensures
        "text_delta"@ != "thinking_delta"@,
        "text_delta"@ != "signature_delta"@,
        "text_delta"@ != "input_json_delta"@,
        "thinking_delta"@ != "signature_delta"@,
        "thinking_delta"@ != "input_json_delta"@,
        "signature_delta"@ != "input_json_delta"@,
{
    reveal_strlit("text_delta");
    reveal_strlit("thinking_delta");
    reveal_strlit("signature_delta");
    reveal_strlit("input_json_delta");
    assert("text_delta"@.len() == 10);
    assert("thinking_delta"@.len() == 14);
    assert("signature_delta"@.len() == 15);
    assert("input_json_delta"@.len() == 16);
}


/// A wire block says what a part of an assistant turn says.
pub open spec fn says(block: JsonView, part: AssistantContentView) -> bool {
    match part {
        AssistantContentView::Text(text) => block.text_at("type"@) == Some("text"@)
            && block.text_at("text"@) == Some(text),
        AssistantContentView::ToolUse { id, name, input } => {
            &&& block.text_at("type"@) == Some("tool_use"@)
            &&& block.text_at("id"@) == Some(id)
            &&& block.text_at("name"@) == Some(name)
            &&& block.member("input"@) == Some(input)
        },
        AssistantContentView::Thinking(ThinkingView::Visible { text, signature }) => {
            &&& block.text_at("type"@) == Some("thinking"@)
            &&& block.text_at("thinking"@) == Some(text)
            &&& block.text_at("signature"@) == signature
        },
        AssistantContentView::Thinking(ThinkingView::Redacted { data }) => block.text_at("type"@)
            == Some("redacted_thinking"@) && block.text_at("data"@) == Some(data),
    }
}

/// A wire block shows an image: by its address, by its bytes, or by its file.
pub open spec fn shows_image(block: JsonView, image: ImageSourceView) -> bool {
    &&& block.text_at("type"@) == Some("image"@)
    &&& block.member("source"@) matches Some(source)
    &&& match image {
        ImageSourceView::Url { url } => source.text_at("type"@) == Some("url"@)
            && source.text_at("url"@) == Some(url),
        ImageSourceView::Base64 { media_type, data } => {
            &&& source.text_at("type"@) == Some("base64"@)
            &&& source.text_at("media_type"@) == Some(media_type)
            &&& source.text_at("data"@) == Some(provider::base64_text(data))
        },
        ImageSourceView::FileId { file_id } => source.text_at("type"@) == Some("file"@)
            && source.text_at("file_id"@) == Some(file_id),
    }
}

/// A wire block shows a part of a tool result.
pub open spec fn shows_part(block: JsonView, part: ToolResultPartView) -> bool {
    match part {
        ToolResultPartView::Text(text) => block.text_at("type"@) == Some("text"@)
            && block.text_at("text"@) == Some(text),
        ToolResultPartView::Image(image) => shows_image(block, image),
    }
}

/// A wire block says what a part of a user turn says: a text as it is, an image, or
/// the answer to a call with all its parts in order.
pub open spec fn user_says(block: JsonView, part: UserContentView) -> bool {
    match part {
        UserContentView::Text(text) => block.text_at("type"@) == Some("text"@)
            && block.text_at("text"@) == Some(text),
        UserContentView::Image(image) => shows_image(block, image),
        UserContentView::ToolResult { id, content, is_error } => {
            &&& block.text_at("type"@) == Some("tool_result"@)
            &&& block.text_at("tool_use_id"@) == Some(id)
            &&& block.member("is_error"@) == Some(JsonView::Bool(is_error))
            &&& block.elements_at("content"@) matches Some(items)
            &&& items.len() == content.len()
            &&& forall|i: int|
                0 <= i < items.len() ==> shows_part(#[trigger] items[i], content[i])
        },
    }
}

proof fn lemma_assistant_block_says(part: AssistantContentView)
    ensures
        says(assistant_block(part), part),
        assistant_block(part) is Object,
{
    lemma_block_keys_differ();
}

proof fn lemma_image_shown(image: ImageSourceView)
    ensures
        shows_image(image_block(image), image),
{
    lemma_block_keys_differ();
}

proof fn lemma_user_block_says(part: UserContentView)
    ensures
        user_says(user_block(part), part),
        user_block(part) is Object,
{
    lemma_block_keys_differ();
    match part {
        UserContentView::Image(image) => lemma_image_shown(image),
        UserContentView::ToolResult { id, content, is_error } => {
            let items = result_part_blocks(content);
            assert(user_block(part).elements_at("content"@) == Some(items));
            assert forall|i: int| 0 <= i < items.len() implies shows_part(
                #[trigger] items[i],
                content[i],
            ) by {
                if let ToolResultPartView::Image(image) = content[i] {
                    lemma_image_shown(image);
                }
            }
        },
        _ => {},
    }
}

/// A breakpoint on a block changes nothing of what it says.
proof fn lemma_marked_says(block: JsonView, mark: JsonView)
    requires
        block is Object,
    ensures
        forall|part: AssistantContentView|
            says(block, part) ==> #[trigger] says(block.with_member("cache_control"@, mark), part),
        forall|part: UserContentView|
            user_says(block, part) ==> #[trigger] user_says(
                block.with_member("cache_control"@, mark),
                part,
            ),
{
    lemma_block_keys_differ();
}

/// The parts of a user turn in the order in which they are sent: tool results first.
pub open spec fn sending_order(parts: Seq<UserContentView>) -> Seq<UserContentView> {
    parts.filter(|p: UserContentView| p is ToolResult) + parts.filter(
        |p: UserContentView| !(p is ToolResult),
    )
}

/// The conversation is sent turn by turn, in order, each with its role; an assistant
/// turn block by block as it was said, a user turn with the answers to calls first.
/// A breakpoint changes nothing of that.
pub proof fn the_conversation_is_sent_as_said(
    messages: Seq<MessageView>,
    rolling: Option<usize>,
    i: int,
)
    requires
        0 <= i < messages.len(),
    ensures
        turns_json(messages, rolling).len() == messages.len(),
        turns_json(messages, rolling)[i].elements_at("content"@) is Some,
        match messages[i] {
            MessageView::Assistant(parts) => {
                let sent = turns_json(messages, rolling)[i];
                let blocks = sent.elements_at("content"@)->0;
                &&& sent.text_at("role"@) == Some("assistant"@)
                &&& blocks.len() == parts.len()
                &&& forall|k: int| 0 <= k < parts.len() ==> says(blocks[k], #[trigger] parts[k])
            },
            MessageView::User(parts) => {
                let sent = turns_json(messages, rolling)[i];
                let blocks = sent.elements_at("content"@)->0;
                &&& sent.text_at("role"@) == Some("user"@)
                &&& blocks.len() == sending_order(parts).len()
                &&& forall|k: int|
                    0 <= k < sending_order(parts).len() ==> user_says(
                        blocks[k],
                        #[trigger] sending_order(parts)[k],
                    )
            },
        },
{
    lemma_block_keys_differ();
    let sent = turns_json(messages, rolling)[i];
    let plain = turn_blocks(messages[i]);
    let blocks = sent.elements_at("content"@)->0;
    assert(blocks == plain || blocks == marked(plain));
    match messages[i] {
        MessageView::Assistant(parts) => {
            assert forall|k: int| 0 <= k < parts.len() implies says(
                blocks[k],
                #[trigger] parts[k],
            ) by {
                lemma_assistant_block_says(parts[k]);
                lemma_marked_says(plain[k], breakpoint());
            }
        },
        MessageView::User(parts) => {
            let order = sending_order(parts);
            let results = |p: UserContentView| (p is ToolResult) == true;
            let others = |p: UserContentView| (p is ToolResult) == false;
            assert(parts.filter(results) =~= parts.filter(|p: UserContentView| p is ToolResult))
                by {
                lemma_filters_agree(parts, results, |p: UserContentView| p is ToolResult);
            }
            assert(parts.filter(others) =~= parts.filter(|p: UserContentView| !(p is ToolResult)))
                by {
                lemma_filters_agree(parts, others, |p: UserContentView| !(p is ToolResult));
            }
            lemma_filters_agree(
                parts,
                results,
                |p: UserContentView| (p is ToolResult) == true,
            );
            assert(plain.len() == order.len());
            assert forall|k: int| 0 <= k < order.len() implies user_says(
                blocks[k],
                #[trigger] order[k],
            ) by {
                assert(plain[k] == user_block(order[k]));
                lemma_user_block_says(order[k]);
                lemma_marked_says(plain[k], breakpoint());
            }
        },
    }
}

/// Conditions that hold of the same parts pick the same parts.
proof fn lemma_filters_agree(
    parts: Seq<UserContentView>,
    a: spec_fn(UserContentView) -> bool,
    b: spec_fn(UserContentView) -> bool,
)
    requires
        forall|p: UserContentView| #[trigger] a(p) == b(p),
    ensures
        parts.filter(a) == parts.filter(b),
    decreases parts.len(),
{
    reveal(Seq::filter);
    if parts.len() > 0 {
        lemma_filters_agree(parts.drop_last(), a, b);
    }
}

/// A block that was written is read back as the part that it was written for.
pub proof fn a_written_block_reads_back(part: AssistantContentView)
    ensures
        content_of(assistant_block(part)) == Some(part),
{
    lemma_block_keys_differ();
    lemma_block_kinds_differ();
    lemma_assistant_block_says(part);
}

/// A turn that was written is read back whole, so no two turns are written alike.
pub proof fn a_written_turn_reads_back(parts: Seq<AssistantContentView>)
    ensures
        contents_of(assistant_blocks(parts)) == parts,
    decreases parts.len(),
{
    if parts.len() > 0 {
        a_written_turn_reads_back(parts.drop_last());
        a_written_block_reads_back(parts.last());
        assert(assistant_blocks(parts).drop_last() =~= assistant_blocks(parts.drop_last()));
        assert(contents_of(assistant_blocks(parts)) =~= parts);
    } else {
        assert(contents_of(assistant_blocks(parts)) =~= parts);
    }
}

/// A tool is offered under its name, with its description and its parameters, and as
/// strict exactly where it is.
pub open spec fn offers(item: JsonView, tool: ToolDefView) -> bool {
    &&& item.text_at("name"@) == Some(tool.name)
    &&& item.text_at("description"@) == Some(tool.description)
    &&& item.member("input_schema"@) == Some(tool.parameters)
    &&& item.member("strict"@) == (if tool.strict {
        Some(JsonView::Bool(true))
    } else {
        None
    })
}

/// Whether a choice of tools says what the policy says.
pub open spec fn chooses(choice: JsonView, policy: ToolChoiceView) -> bool {
    match policy {
        ToolChoiceView::Auto => choice.text_at("type"@) == Some("auto"@),
        ToolChoiceView::Any => choice.text_at("type"@) == Some("any"@),
        ToolChoiceView::Required => choice.text_at("type"@) == Some("any"@),
        ToolChoiceView::Disabled => choice.text_at("type"@) == Some("none"@),
        ToolChoiceView::Tool(name) => choice.text_at("type"@) == Some("tool"@) && choice.text_at(
            "name"@,
        ) == Some(name),
    }
}

/// The system prompt that a body carries, as one text or as one text block.
pub open spec fn prompt_in(system: JsonView) -> Option<Seq<char>> {
    match system {
        JsonView::Text(text) => Some(text),
        JsonView::Array(items) => if items.len() == 1 {
            items[0].text_at("text"@)
        } else {
            None
        },
        _ => None,
    }
}

/// A body says what the request says, member by member: the model, the token limit,
/// the system prompt, every tool with the policy, and each optional setting exactly
/// where it is set. What the author adds by hand wins over all of it.
pub proof fn a_body_says_what_the_request_says(
    model: Seq<char>,
    req: ChatRequestView,
    stream: bool,
    key: Seq<char>,
)
    ensures
        ({
            let body = JsonView::Object(body_members(model, req, stream));
            let own = !req.extra.contains_key(key);
            &&& req.extra.contains_key(key) ==> body.member(key) == Some(req.extra[key])
            &&& own && key == "model"@ ==> body.member(key) == Some(JsonView::Text(model))
            &&& own && key == "max_tokens"@ ==> body.member(key) == Some(
                JsonView::Unsigned(req.max_tokens as u64),
            )
            &&& own && key == "stream"@ ==> body.member(key) == Some(JsonView::Bool(stream))
            &&& own && key == "messages"@ ==> body.member(key) == Some(
                JsonView::Array(turns_json(req.messages, plan_for(req).rolling_message)),
            )
            &&& own && key == "system"@ ==> match (body.member(key), req.system) {
                (Some(sent), Some(prompt)) => prompt_in(sent) == Some(prompt.text),
                (None, None) => true,
                _ => false,
            }
            &&& own && key == "tools"@ ==> match body.elements_at(key) {
                Some(items) => req.tools.len() > 0 && items.len() == req.tools.len() && forall|
                    i: int,
                | 0 <= i < items.len() ==> offers(#[trigger] items[i], req.tools[i]),
                None => req.tools.len() == 0,
            }
            &&& own && key == "tool_choice"@ ==> match body.member(key) {
                Some(choice) => req.tools.len() > 0 && chooses(choice, req.tool_choice),
                None => req.tools.len() == 0,
            }
            &&& own && key == "temperature"@ ==> body.member(key) == req.temperature
            &&& own && key == "stop_sequences"@ ==> match body.elements_at(key) {
                Some(items) => req.stop_sequences.len() > 0 && items.len()
                    == req.stop_sequences.len() && forall|i: int|
                    0 <= i < items.len() ==> #[trigger] items[i] == JsonView::Text(
                        req.stop_sequences[i],
                    ),
                None => req.stop_sequences.len() == 0,
            }
            &&& own && key == "thinking"@ ==> match (body.member(key), req.thinking) {
                (None, ThinkingConfig::Off) => true,
                (Some(sent), ThinkingConfig::Adaptive) => sent.text_at("type"@) == Some("enabled"@)
                    && sent.unsigned_at("budget_tokens"@) == Some(2048u64),
                (Some(sent), ThinkingConfig::Budget(n)) => sent.text_at("type"@) == Some(
                    "enabled"@,
                ) && sent.unsigned_at("budget_tokens"@) == Some(n as u64),
                _ => false,
            }
        }),
{
    lemma_member_keys_differ();
    lemma_tool_keys_differ();
    lemma_block_keys_differ();
    assert("type"@ != "budget_tokens"@) by {
        reveal_strlit("type");
        reveal_strlit("budget_tokens");
        assert("type"@.len() == 4);
        assert("budget_tokens"@.len() == 13);
    }
}

/// What a stop reason means; one that is not known is kept as it came.
pub proof fn a_stop_reason_keeps_its_meaning(reason: Seq<char>, sequence: Option<Seq<char>>)
    ensures
        stop_reason_of(reason, sequence) is EndTurn <==> reason == "end_turn"@,
        stop_reason_of(reason, sequence) is MaxTokens <==> reason == "max_tokens"@,
        stop_reason_of(reason, sequence) is ToolUse <==> reason == "tool_use"@,
        stop_reason_of(reason, sequence) is Refusal <==> reason == "refusal"@,
        stop_reason_of(reason, sequence) is Pause <==> reason == "pause_turn"@,
        stop_reason_of(reason, sequence) is StopSequence <==> reason == "stop_sequence"@,
        stop_reason_of(reason, sequence) matches StopReasonView::StopSequence(s) ==> (
        sequence matches Some(sent) ==> s == sent),
        stop_reason_of(reason, sequence) matches StopReasonView::Other(kept) ==> kept == reason,
{
    lemma_stop_reasons_differ();
}

/// The counts of a usage object by name; one that is missing is zero.
pub proof fn usage_is_read_by_name(usage: JsonView, n: u64)
    ensures
        usage.unsigned_at("input_tokens"@) == Some(n) ==> usage_of(usage).input_tokens == n,
        usage.unsigned_at("input_tokens"@) is None ==> usage_of(usage).input_tokens == 0,
        usage.unsigned_at("output_tokens"@) == Some(n) ==> usage_of(usage).output_tokens == n,
        usage.unsigned_at("output_tokens"@) is None ==> usage_of(usage).output_tokens == 0,
        usage.unsigned_at("cache_creation_input_tokens"@) == Some(n) ==> usage_of(
            usage,
        ).cache_create_tokens == n,
        usage.unsigned_at("cache_creation_input_tokens"@) is None ==> usage_of(
            usage,
        ).cache_create_tokens == 0,
        usage.unsigned_at("cache_read_input_tokens"@) == Some(n) ==> usage_of(
            usage,
        ).cache_read_tokens == n,
        usage.unsigned_at("cache_read_input_tokens"@) is None ==> usage_of(usage).cache_read_tokens
            == 0,
        usage.member("output_tokens_details"@) matches Some(details) ==> (details.unsigned_at(
            "thinking_tokens"@,
        ) == Some(n) ==> usage_of(usage).reasoning_tokens == n),
        usage.member("output_tokens_details"@) is None ==> usage_of(usage).reasoning_tokens == 0,
{
}

/// The event is a delta of this kind, with this text under this key.
pub open spec fn is_delta(
    event: JsonView,
    kind: Seq<char>,
    key: Seq<char>,
    text: Seq<char>,
) -> bool {
    &&& event.text_at("type"@) == Some("content_block_delta"@)
    &&& event.member("delta"@) matches Some(delta)
    &&& delta.text_at("type"@) == Some(kind)
    &&& delta.text_at(key) == Some(text)
}

/// Deltas of text, reasoning and signatures are emitted at once, as they came and
/// under their own kind, and leave the rest of the stream as it was.
pub proof fn deltas_are_emitted_as_they_come(accum: AccumView, event: JsonView, text: Seq<char>)
    ensures
        is_delta(event, "text_delta"@, "text"@, text) ==> on_event(accum, event) == (
            accum,
            Ok::<Seq<StreamEventView>, ProviderErrorView>(seq![StreamEventView::TextDelta(text)]),
        ),
        is_delta(event, "thinking_delta"@, "thinking"@, text) ==> on_event(accum, event) == (
            accum,
            Ok::<Seq<StreamEventView>, ProviderErrorView>(
                seq![StreamEventView::ReasoningDelta(text)],
            ),
        ),
        is_delta(event, "signature_delta"@, "signature"@, text) ==> on_event(accum, event) == (
            accum,
            Ok::<Seq<StreamEventView>, ProviderErrorView>(
                seq![StreamEventView::SignatureDelta(text)],
            ),
        ),
{
    lemma_event_kinds_differ();
    lemma_delta_kinds_differ();
}

/// A tool-use block opens a call under its index, with its id and its name and no
/// arguments yet, and leaves every other call as it was. Its fragments are added to
/// the call of their index alone. The end of the block emits the call whole, once,
/// and closes it alone.
pub proof fn a_tool_block_becomes_one_call(
    accum: AccumView,
    event: JsonView,
    index: u64,
    block: JsonView,
    id: Seq<char>,
    name: Seq<char>,
)
    requires
        event.unsigned_at("index"@) == Some(index),
    ensures
        event.text_at("type"@) == Some("content_block_start"@) && event.member("content_block"@)
            == Some(block) && block.text_at("type"@) == Some("tool_use"@) && block.text_at("id"@)
            == Some(id) && block.text_at("name"@) == Some(name) && on_event(accum, event).1 is Ok
            ==> {
            let after = on_event(accum, event).0;
            &&& after.tools == accum.tools.insert(
                index,
                ToolBufView { id, name, json: Seq::empty() },
            )
            &&& after.usage == accum.usage
            &&& after.stop == accum.stop
            &&& on_event(accum, event).1->Ok_0.len() == 0
        },
        event.text_at("type"@) == Some("content_block_stop"@) && accum.tools.contains_key(index)
            ==> {
            let after = on_event(accum, event).0;
            let buf = accum.tools[index];
            &&& after.tools == accum.tools.remove(index)
            &&& on_event(accum, event).1 matches Ok(events)
            &&& events == seq![
                StreamEventView::ToolCall {
                    id: buf.id,
                    name: buf.name,
                    arguments: provider::whole_arguments(buf.json),
                },
            ]
        },
        event.text_at("type"@) == Some("content_block_stop"@) && !accum.tools.contains_key(index)
            ==> on_event(accum, event) == (
            accum,
            Ok::<Seq<StreamEventView>, ProviderErrorView>(Seq::empty()),
        ),
{
    lemma_event_kinds_differ();
}

/// A stream tells its usage and its end. It starts with the usage of the prompt; a
/// message delta replaces the count of the output, keeps the count of the input, and
/// gives the stop reason; and the stop emits the end with the last of both.
pub proof fn a_stream_tells_usage_and_end(
    accum: AccumView,
    event: JsonView,
    counts: JsonView,
    reason: Seq<char>,
)
    ensures
        event.text_at("type"@) == Some("message_start"@) && event.member_in("message"@, "usage"@)
            == Some(counts) ==> on_event(accum, event) == (
            AccumView { usage: usage_of(counts), ..accum },
            Ok::<Seq<StreamEventView>, ProviderErrorView>(
                seq![StreamEventView::Start { usage: usage_of(counts) }],
            ),
        ),
        event.text_at("type"@) == Some("message_delta"@) ==> {
            let after = on_event(accum, event).0;
            &&& on_event(accum, event).1 == Ok::<Seq<StreamEventView>, ProviderErrorView>(
                Seq::empty(),
            )
            &&& after.tools == accum.tools
            &&& after.usage.input_tokens == accum.usage.input_tokens
            &&& after.usage.cache_create_tokens == accum.usage.cache_create_tokens
            &&& event.member("usage"@) == Some(counts) ==> after.usage.output_tokens == usage_of(
                counts,
            ).output_tokens
            &&& event.member("usage"@) is None ==> after.usage == accum.usage
            &&& event.member("delta"@) matches Some(delta) ==> (delta.text_at("stop_reason"@)
                == Some(reason) ==> after.stop == Some(
                stop_reason_of(reason, delta.text_at("stop_sequence"@)),
            ))
            &&& event.member("delta"@) is None ==> after.stop == accum.stop
        },
        event.text_at("type"@) == Some("message_stop"@) ==> {
            &&& on_event(accum, event).0 == accum
            &&& on_event(accum, event).1 matches Ok(events)
            &&& events.len() == 1
            &&& events[0] matches StreamEventView::End { stop, usage }
            &&& usage == accum.usage
            &&& accum.stop matches Some(kept) ==> stop == kept
            &&& accum.stop is None ==> stop is EndTurn
        },
{
    lemma_event_kinds_differ();
}

/// A response is read as it was sent: the blocks in order, the stop reason and the
/// usage.
pub proof fn a_response_is_read_as_sent(value: JsonView, parts: Seq<AssistantContentView>)
    ensures
        value.elements_at("content"@) == Some(assistant_blocks(parts)) ==> response_of(
            value,
        ).content == parts,
        value.elements_at("content"@) is None ==> response_of(value).content.len() == 0,
        value.text_at("stop_reason"@) matches Some(reason) ==> response_of(value).stop
            == stop_reason_of(reason, value.text_at("stop_sequence"@)),
        value.text_at("stop_reason"@) is None ==> response_of(value).stop is EndTurn,
        value.member("usage"@) matches Some(counts) ==> response_of(value).usage == usage_of(
            counts,
        ),
{
    a_written_turn_reads_back(parts);
}

/// The data of an event line is what stands behind `data:`, without the white space
/// around it; any other line carries none.
pub proof fn an_event_line_carries_its_data(
    data: Seq<char>,
    before: Seq<char>,
    after: Seq<char>,
    line: Seq<char>,
)
    requires
        crate::text::has_firm_edges(data),
        forall|i: int| 0 <= i < before.len() ==> crate::text::white_space(#[trigger] before[i]),
        forall|i: int| 0 <= i < after.len() ==> crate::text::white_space(#[trigger] after[i]),
    ensures
        data_of("data:"@ + before + data + after) == Some(data),
        !"data:"@.is_prefix_of(crate::text::without_trailing(line)) ==> data_of(line) is None,
{
    reveal_strlit("data:");
    let none = Seq::<char>::empty();
    let whole = "data:"@ + before + data + after;
    let core = "data:"@ + before + data;
    assert(core[0] == 'd');
    assert(core.last() == data.last());
    assert(none + core + after =~= whole);
    assert(none + core =~= core);
    crate::text::trimming_keeps_the_text(none, core, after);
    assert(core.take(5) =~= "data:"@);
    assert(core.skip(5) =~= before + data + none);
    crate::text::trimming_keeps_the_text(before, data, none);
}

/// An event line is the event that its data reads as; a line without data, and one
/// whose data is no JSON, does nothing.
pub proof fn a_line_is_the_event_it_carries(accum: AccumView, line: Seq<char>)
    ensures
        data_of(line) is None ==> on_line(accum, line) == (
            accum,
            Ok::<Seq<StreamEventView>, ProviderErrorView>(Seq::empty()),
        ),
        data_of(line) matches Some(data) ==> match crate::json::json_of_text(data) {
            Ok(event) => on_line(accum, line) == on_event(accum, event),
            Err(_) => on_line(accum, line) == (
                accum,
                Ok::<Seq<StreamEventView>, ProviderErrorView>(Seq::empty()),
            ),
        },
{
}

/// Lines are read one after the other: each emits its events before those of the rest,
/// one that is refused ends the stream, and an incomplete one waits.
pub proof fn lines_are_read_one_after_the_other(
    accum: AccumView,
    line: Seq<char>,
    more: Seq<char>,
)
    requires
        forall|i: int| 0 <= i < line.len() ==> (#[trigger] line[i]) != '\n',
    ensures
        match on_line(accum, line) {
            (next, Ok(events)) => {
                let whole = consume(accum, line + seq!['\n'] + more);
                let rest = consume(next, more);
                &&& whole.events == events + rest.events
                &&& whole.accum == rest.accum
                &&& whole.error == rest.error
                &&& whole.rest == rest.rest
            },
            (next, Err(error)) => {
                let whole = consume(accum, line + seq!['\n'] + more);
                &&& whole.events.len() == 0
                &&& whole.accum == next
                &&& whole.error == Some(error)
                &&& whole.rest == more
            },
        },
        consume(accum, line) == (Consumed {
            accum,
            events: Seq::empty(),
            error: None,
            rest: line,
        }),
{
    let n: int = line.len() as int;
    let whole = line + seq!['\n'] + more;
    assert forall|j: int| 0 <= j < n implies whole[j] != '\n' by {
        assert(whole[j] == line[j]);
    }
    crate::text::lemma_line_len(whole, n);
    crate::text::lemma_line_len(line, n);
    assert(whole.take(n) =~= line);
    assert(whole.skip(n + 1) =~= more);
}

/// Text reaches a stream behind what is left of the last line, and is refused where
/// that is one line over the bound.
pub proof fn text_reaches_a_stream_in_order(stream: ClaudeStreamView, text: Seq<char>)
    ensures
        !overflows(stream.pending + text) ==> on_text(stream, text) == consume(
            stream.accum,
            stream.pending + text,
        ),
        overflows(stream.pending + text) ==> on_text(stream, text).error is Some && on_text(
            stream,
            text,
        ).events.len() == 0 && on_text(stream, text).accum == stream.accum,
        (exists|i: int| 0 <= i < text.len() && #[trigger] text[i] == '\n') ==> !overflows(
            stream.pending + text,
        ),
        crate::error::byte_len(stream.pending + text) <= 1_048_576 ==> !overflows(
            stream.pending + text,
        ),
{
    let all = stream.pending + text;
    if exists|i: int| 0 <= i < text.len() && #[trigger] text[i] == '\n' {
        let i = choose|i: int| 0 <= i < text.len() && #[trigger] text[i] == '\n';
        crate::text::lemma_line_len_bound(all);
        assert(all[stream.pending.len() + i] == '\n');
    }
}

/// A stream opens as many calls at once as there may be, and refuses one more; a
/// fragment is refused exactly where the arguments would grow over the bound.
pub proof fn a_stream_refuses_what_is_too_much(
    accum: AccumView,
    event: JsonView,
    block: JsonView,
    index: u64,
    partial: Seq<char>,
)
    requires
        event.unsigned_at("index"@) == Some(index),
    ensures
        event.text_at("type"@) == Some("content_block_start"@) && event.member("content_block"@)
            == Some(block) && block.text_at("type"@) == Some("tool_use"@) ==> (on_event(
            accum,
            event,
        ).1 is Ok <==> accum.tools.contains_key(index) || accum.tools.dom().len() < 64),
        is_fragment(event, index, partial) && accum.tools.contains_key(index) ==> (on_event(
            accum,
            event,
        ).1 is Ok <==> crate::error::byte_len(accum.tools[index].json) + crate::error::byte_len(
            partial,
        ) <= 1_048_576),
        is_fragment(event, index, partial) && !accum.tools.contains_key(index) ==> on_event(
            accum,
            event,
        ) == (accum, Ok::<Seq<StreamEventView>, ProviderErrorView>(Seq::empty())),
        on_event(accum, event).1 matches Err(error) ==> on_event(accum, event).0 == accum && (error
            matches ProviderErrorView::Decode { err, body } && body.len() == 0 && (err
            == "stream opened more than 64 concurrent tool calls"@ || err
            == "tool-call arguments exceeded 1048576 bytes"@)),
{
    lemma_event_kinds_differ();
    lemma_delta_kinds_differ();
}

/// The later counts of a message stand, and one that does not come again is kept.
pub proof fn later_counts_stand(accum: AccumView, event: JsonView, counts: JsonView)
    requires
        event.text_at("type"@) == Some("message_delta"@),
        event.member("usage"@) == Some(counts),
    ensures
        ({
            let after = on_event(accum, event).0.usage;
            &&& usage_of(counts).cache_read_tokens > 0 ==> after.cache_read_tokens == usage_of(
                counts,
            ).cache_read_tokens
            &&& usage_of(counts).cache_read_tokens == 0 ==> after.cache_read_tokens
                == accum.usage.cache_read_tokens
            &&& usage_of(counts).reasoning_tokens > 0 ==> after.reasoning_tokens == usage_of(
                counts,
            ).reasoning_tokens
            &&& usage_of(counts).reasoning_tokens == 0 ==> after.reasoning_tokens
                == accum.usage.reasoning_tokens
        }),
{
    lemma_event_kinds_differ();
}

/// A breakpoint is an ephemeral one, and stands on the last block of the turn that the
/// plan names, on no other turn, on the tools that are to carry one, and on the system
/// prompt.
pub proof fn a_breakpoint_stands_where_it_is_planned(
    messages: Seq<MessageView>,
    rolling: Option<usize>,
    i: int,
    k: int,
    tools: Seq<ToolDefView>,
    cache_last: bool,
    system: SystemPromptView,
)
    requires
        0 <= i < messages.len(),
        0 <= k < turn_blocks(messages[i]).len(),
    ensures
        breakpoint().text_at("type"@) == Some("ephemeral"@),
        ({
            let blocks = turns_json(messages, rolling)[i].elements_at("content"@)->0;
            blocks[k].member("cache_control"@) == (if rolling == Some(i as usize) && i <= usize::MAX
                && k == blocks.len() - 1 {
                Some(breakpoint())
            } else {
                None
            })
        }),
        forall|t: int|
            0 <= t < tools.len() ==> (#[trigger] tools_json(tools, cache_last)[t]).member(
                "cache_control"@,
            ) == (if tool_flags(tools, cache_last)[t] {
                Some(breakpoint())
            } else {
                None
            }),
        system_json(system, false) == JsonView::Text(system.text),
        system_json(system, true).elements() matches Some(blocks) && blocks.len() == 1
            && blocks[0].member("cache_control"@) == Some(breakpoint()),
{
    lemma_block_keys_differ();
    lemma_tool_keys_differ();
    let plain = turn_blocks(messages[i]);
    lemma_blocks_unmarked(messages[i], k);
    assert(turns_json(messages, rolling)[i] == turn_json(
        messages[i],
        rolling matches Some(r) && r == i,
    ));
    assert(marked(plain).len() == plain.len());
}

proof fn lemma_blocks_unmarked(message: MessageView, k: int)
    requires
        0 <= k < turn_blocks(message).len(),
    ensures
        turn_blocks(message)[k].member("cache_control"@) is None,
        turn_blocks(message)[k] is Object,
{
    lemma_block_keys_differ();
    match message {
        MessageView::Assistant(parts) => {
            assert(turn_blocks(message)[k] == assistant_block(parts[k]));
        },
        MessageView::User(parts) => {
            let results = parts.filter(|p: UserContentView| (p is ToolResult) == true);
            let others = parts.filter(|p: UserContentView| (p is ToolResult) == false);
            if k < results.len() {
                assert(turn_blocks(message)[k] == user_block(results[k]));
            } else {
                assert(turn_blocks(message)[k] == user_block(others[k - results.len()]));
            }
        },
    }
}

/// Only the tools that their author marked, the first four of them, and the last one
/// where it is asked for, carry a breakpoint.
pub proof fn a_marked_tool_carries_a_breakpoint(
    tools: Seq<ToolDefView>,
    cache_last: bool,
    i: int,
)
    requires
        0 <= i < tools.len(),
    ensures
        tool_flags(tools, cache_last)[i] ==> tools[i].cache || (cache_last && i == tools.len() - 1),
        cache_last && i == tools.len() - 1 ==> tool_flags(tools, cache_last)[i],
        tools[i].cache && tools.take(i).filter(|t: ToolDefView| t.cache).len() < 4 ==> tool_flags(
            tools,
            cache_last,
        )[i],
        tool_flags(tools, false)[i] ==> tools.take(i).filter(|t: ToolDefView| t.cache).len() < 4,
{
    lemma_marked_count(tools.take(i));
}

proof fn lemma_marked_count(tools: Seq<ToolDefView>)
    ensures
        marked_tools(tools) == tools.filter(|t: ToolDefView| t.cache).len(),
    decreases tools.len(),
{
    reveal(Seq::filter);
    if tools.len() > 0 {
        lemma_marked_count(tools.drop_last());
    }
}

proof fn lemma_last_user_is_last(messages: Seq<MessageView>)
    requires
        messages.len() <= usize::MAX,
    ensures
        match last_user(messages) {
            Some(i) => {
                &&& i < messages.len()
                &&& messages[i as int] is User
                &&& forall|j: int| i < j < messages.len() ==> !(#[trigger] messages[j] is User)
            },
            None => forall|j: int| 0 <= j < messages.len() ==> !(#[trigger] messages[j] is User),
        },
    decreases messages.len(),
{
    if messages.len() > 0 && !(messages.last() is User) {
        let shorter = messages.drop_last();
        lemma_last_user_is_last(shorter);
        let from = match last_user(shorter) {
            Some(i) => i as int + 1,
            None => 0,
        };
        assert forall|j: int| from <= j < messages.len() implies !(#[trigger] messages[j]
            is User) by {
            if j < shorter.len() {
                assert(messages[j] == shorter[j]);
            }
        }
    }
}

/// The boundary of the previous turn is the user message before the last one: between
/// the two, and behind the second, there is no other.
pub proof fn the_previous_turn_ends_before_the_last(messages: Seq<MessageView>, a: int, b: int)
    requires
        messages.len() <= usize::MAX,
        0 <= a < b < messages.len(),
        messages[a] is User,
        messages[b] is User,
        forall|j: int| a < j < messages.len() && j != b ==> !(#[trigger] messages[j] is User),
    ensures
        previous_turn(messages) == Some(a as usize),
        last_user(messages) == Some(b as usize),
{
    lemma_last_user_is_last(messages);
    assert(messages[b] is User);
    let before = messages.take(b);
    lemma_last_user_is_last(before);
    assert(before[a] == messages[a]);
    if let Some(i) = last_user(before) {
        assert(before[i as int] == messages[i as int]);
    }
}

/// An explicit strategy places its breakpoints at the targets it lists, and nowhere
/// else.
pub proof fn explicit_breakpoints_stand_at_their_targets(
    req: ChatRequestView,
    points: Seq<CacheTarget>,
)
    requires
        req.cache matches CacheStrategyView::Breakpoints { points: listed, .. } && listed == points,
        marked_tools(req.tools) == 0,
        req.system matches Some(s) ==> !s.cache,
    ensures
        plan_for(req).cache_last_tool <==> req.tools.len() > 0 && points.contains(
            CacheTarget::Tools,
        ),
        plan_for(req).cache_system <==> req.system is Some && points.contains(CacheTarget::System),
        plan_for(req).rolling_message == first_target(req.messages, points),
{
    lemma_author_flags(req.tools);
    if req.tools.len() > 0 {
        lemma_marked_zero(req.tools);
    }
}

proof fn lemma_marked_zero(tools: Seq<ToolDefView>)
    requires
        tools.len() > 0,
        marked_tools(tools) == 0,
    ensures
        !tools.last().cache,
{
}

/// A target stands for the message that it names, or for the last user message, and
/// the first target that stands for one counts.
pub proof fn a_target_stands_for_its_message(
    messages: Seq<MessageView>,
    points: Seq<CacheTarget>,
    n: usize,
)
    ensures
        points.len() > 0 && points[0] == CacheTarget::MessageIndex(n) && n < messages.len()
            ==> first_target(messages, points) == Some(n),
        points.len() > 0 && points[0] is LastUserMessage && last_user(messages) is Some
            ==> first_target(messages, points) == last_user(messages),
        points.len() > 0 && (points[0] is Tools || points[0] is System) ==> first_target(
            messages,
            points,
        ) == first_target(messages, points.drop_first()),
        points.len() > 0 && points[0] == CacheTarget::MessageIndex(n) && n >= messages.len()
            ==> first_target(messages, points) == first_target(messages, points.drop_first()),
        points.len() == 0 ==> first_target(messages, points) is None,
{
}

} // verus!
