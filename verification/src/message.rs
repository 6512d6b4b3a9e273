//! The provider-independent conversation model.
//!
//! A [`Message`] is one turn. The system prompt is not a message: it belongs to
//! the request ([`SystemPrompt`]). A tool result on an assistant turn cannot be
//! written down.

use crate::json::{Json, JsonView};
use crate::views;
use vstd::prelude::*;

verus! {

/// Where an image comes from.
#[derive(Debug, PartialEq, Eq)]
pub enum ImageSource {
    /// Image bytes carried in the request, with their MIME type.
    Base64 {
        /// MIME media type, such as `image/png`.
        media_type: String,
        /// The image bytes.
        data: Vec<u8>,
    },
    /// A URL that the provider fetches.
    Url {
        /// The URL.
        url: String,
    },
    /// A file that the provider already holds.
    FileId {
        /// The provider's id for the file.
        file_id: String,
    },
}

/// What a [`ImageSource`] stands for.
#[verifier::ext_equal]
pub enum ImageSourceView {
    /// Image bytes carried in the request, with their MIME type.
    Base64 {
        /// MIME media type, such as `image/png`.
        media_type: Seq<char>,
        /// The image bytes.
        data: Seq<u8>,
    },
    /// A URL that the provider fetches.
    Url {
        /// The URL.
        url: Seq<char>,
    },
    /// A file that the provider already holds.
    FileId {
        /// The provider's id for the file.
        file_id: Seq<char>,
    },
}

impl View for ImageSource {
    type V = ImageSourceView;

    open spec fn view(&self) -> ImageSourceView {
        match *self {
            ImageSource::Base64 { media_type, data } => ImageSourceView::Base64 {
                media_type: media_type@,
                data: data@,
            },
            ImageSource::Url { url } => ImageSourceView::Url {
                url: url@,
            },
            ImageSource::FileId { file_id } => ImageSourceView::FileId {
                file_id: file_id@,
            },
        }
    }
}

impl Clone for ImageSource {
    fn clone(&self) -> (copy: Self)
        ensures
            copy@ == self@,
    {
        let copy = match self {
            ImageSource::Base64 { media_type, data } => ImageSource::Base64 {
                media_type: media_type.clone(),
                data: data.clone(),
            },
            ImageSource::Url { url } => ImageSource::Url {
                url: url.clone(),
            },
            ImageSource::FileId { file_id } => ImageSource::FileId {
                file_id: file_id.clone(),
            },
        };
        assert(copy@ =~= self@);
        copy
    }
}

/// An image, by its source.
pub type Image = ImageSource;

/// A part of a tool result's content.
#[derive(Debug, PartialEq, Eq)]
pub enum ToolResultPart {
    /// Text output.
    Text(String),
    /// Image output.
    Image(ImageSource),
}

/// What a [`ToolResultPart`] stands for.
#[verifier::ext_equal]
pub enum ToolResultPartView {
    /// Text output.
    Text(Seq<char>),
    /// Image output.
    Image(ImageSourceView),
}

impl View for ToolResultPart {
    type V = ToolResultPartView;

    open spec fn view(&self) -> ToolResultPartView {
        match *self {
            ToolResultPart::Text(x) => ToolResultPartView::Text(x@),
            ToolResultPart::Image(x) => ToolResultPartView::Image(x@),
        }
    }
}

impl Clone for ToolResultPart {
    fn clone(&self) -> (copy: Self)
        ensures
            copy@ == self@,
    {
        match self {
            ToolResultPart::Text(x) => ToolResultPart::Text(x.clone()),
            ToolResultPart::Image(x) => ToolResultPart::Image(x.clone()),
        }
    }
}

/// Model reasoning, kept so that it can be replayed as it came.
#[derive(Debug, PartialEq, Eq)]
pub enum Thinking {
    /// Visible reasoning text, with an optional integrity signature.
    Visible {
        /// The reasoning text.
        text: String,
        /// The provider's integrity signature.
        signature: Option<String>,
    },
    /// Encrypted reasoning.
    Redacted {
        /// Opaque provider data.
        data: String,
    },
}

/// What a [`Thinking`] stands for.
#[verifier::ext_equal]
pub enum ThinkingView {
    /// Visible reasoning text, with an optional integrity signature.
    Visible {
        /// The reasoning text.
        text: Seq<char>,
        /// The provider's integrity signature.
        signature: Option<Seq<char>>,
    },
    /// Encrypted reasoning.
    Redacted {
        /// Opaque provider data.
        data: Seq<char>,
    },
}

impl View for Thinking {
    type V = ThinkingView;

    open spec fn view(&self) -> ThinkingView {
        match *self {
            Thinking::Visible { text, signature } => ThinkingView::Visible {
                text: text@,
                signature: views::optional(signature),
            },
            Thinking::Redacted { data } => ThinkingView::Redacted {
                data: data@,
            },
        }
    }
}

impl Clone for Thinking {
    fn clone(&self) -> (copy: Self)
        ensures
            copy@ == self@,
    {
        match self {
            Thinking::Visible { text, signature } => Thinking::Visible {
                text: text.clone(),
                signature: signature.clone(),
            },
            Thinking::Redacted { data } => Thinking::Redacted {
                data: data.clone(),
            },
        }
    }
}

/// A content block on a user turn.
#[derive(Debug, PartialEq, Eq)]
pub enum UserContent {
    /// Plain text.
    Text(String),
    /// An image input.
    Image(ImageSource),
    /// The result of a tool call.
    ToolResult {
        /// The `id` of the tool call that this answers.
        id: String,
        /// Result payload.
        content: Vec<ToolResultPart>,
        /// Whether the tool failed (the model may retry).
        is_error: bool,
    },
}

/// What a [`UserContent`] stands for.
#[verifier::ext_equal]
pub enum UserContentView {
    /// Plain text.
    Text(Seq<char>),
    /// An image input.
    Image(ImageSourceView),
    /// The result of a tool call.
    ToolResult {
        /// The `id` of the tool call that this answers.
        id: Seq<char>,
        /// Result payload.
        content: Seq<ToolResultPartView>,
        /// Whether the tool failed (the model may retry).
        is_error: bool,
    },
}

impl View for UserContent {
    type V = UserContentView;

    open spec fn view(&self) -> UserContentView {
        match *self {
            UserContent::Text(x) => UserContentView::Text(x@),
            UserContent::Image(x) => UserContentView::Image(x@),
            UserContent::ToolResult { id, content, is_error } => UserContentView::ToolResult {
                id: id@,
                content: views::each(content@),
                is_error,
            },
        }
    }
}

impl Clone for UserContent {
    fn clone(&self) -> (copy: Self)
        ensures
            copy@ == self@,
    {
        let copy = match self {
            UserContent::Text(x) => UserContent::Text(x.clone()),
            UserContent::Image(x) => UserContent::Image(x.clone()),
            UserContent::ToolResult { id, content, is_error } => UserContent::ToolResult {
                id: id.clone(),
                content: content.clone(),
                is_error: *is_error,
            },
        };
        assert(copy@ =~= self@);
        copy
    }
}

/// A content block on an assistant turn.
#[derive(Debug, PartialEq, Eq)]
pub enum AssistantContent {
    /// Plain text.
    Text(String),
    /// A request to call a tool, with parsed arguments.
    ToolUse {
        /// Unique id of the call; the matching tool result refers to it.
        id: String,
        /// Tool name.
        name: String,
        /// Parsed arguments.
        input: Json,
    },
    /// Model reasoning.
    Thinking(Thinking),
}

/// What a [`AssistantContent`] stands for.
#[verifier::ext_equal]
pub enum AssistantContentView {
    /// Plain text.
    Text(Seq<char>),
    /// A request to call a tool, with parsed arguments.
    ToolUse {
        /// Unique id of the call; the matching tool result refers to it.
        id: Seq<char>,
        /// Tool name.
        name: Seq<char>,
        /// Parsed arguments.
        input: JsonView,
    },
    /// Model reasoning.
    Thinking(ThinkingView),
}

impl View for AssistantContent {
    type V = AssistantContentView;

    open spec fn view(&self) -> AssistantContentView {
        match *self {
            AssistantContent::Text(x) => AssistantContentView::Text(x@),
            AssistantContent::ToolUse { id, name, input } => AssistantContentView::ToolUse {
                id: id@,
                name: name@,
                input: input@,
            },
            AssistantContent::Thinking(x) => AssistantContentView::Thinking(x@),
        }
    }
}

impl Clone for AssistantContent {
    fn clone(&self) -> (copy: Self)
        ensures
            copy@ == self@,
    {
        match self {
            AssistantContent::Text(x) => AssistantContent::Text(x.clone()),
            AssistantContent::ToolUse { id, name, input } => AssistantContent::ToolUse {
                id: id.clone(),
                name: name.clone(),
                input: input.clone(),
            },
            AssistantContent::Thinking(x) => AssistantContent::Thinking(x.clone()),
        }
    }
}

/// A single conversation turn.
#[derive(Debug, PartialEq, Eq)]
pub enum Message {
    /// A user (or tool-result) turn.
    User(Vec<UserContent>),
    /// An assistant (model-produced) turn.
    Assistant(Vec<AssistantContent>),
}

/// What a [`Message`] stands for.
#[verifier::ext_equal]
pub enum MessageView {
    /// A user (or tool-result) turn.
    User(Seq<UserContentView>),
    /// An assistant (model-produced) turn.
    Assistant(Seq<AssistantContentView>),
}

impl View for Message {
    type V = MessageView;

    open spec fn view(&self) -> MessageView {
        match *self {
            Message::User(x) => MessageView::User(views::each(x@)),
            Message::Assistant(x) => MessageView::Assistant(views::each(x@)),
        }
    }
}

impl Clone for Message {
    fn clone(&self) -> (copy: Self)
        ensures
            copy@ == self@,
    {
        let copy = match self {
            Message::User(x) => Message::User(x.clone()),
            Message::Assistant(x) => Message::Assistant(x.clone()),
        };
        assert(copy@ =~= self@);
        copy
    }
}

/// The request-level system prompt.
#[derive(Debug, PartialEq, Eq)]
pub struct SystemPrompt {
    /// The prompt.
    pub text: String,
    /// Ask for a prompt-cache breakpoint after this block.
    pub cache: bool,
}

/// What a [`SystemPrompt`] stands for.
#[verifier::ext_equal]
pub struct SystemPromptView {
    /// The prompt.
    pub text: Seq<char>,
    /// Ask for a prompt-cache breakpoint after this block.
    pub cache: bool,
}

impl View for SystemPrompt {
    type V = SystemPromptView;

    open spec fn view(&self) -> SystemPromptView {
        SystemPromptView {
            text: self.text@,
            cache: self.cache,
        }
    }
}

impl Clone for SystemPrompt {
    fn clone(&self) -> (copy: Self)
        ensures
            copy@ == self@,
    {
        let copy = SystemPrompt {
            text: self.text.clone(),
            cache: self.cache,
        };
        copy
    }
}

impl Message {
    /// A user turn with a single text block.
    pub fn user_text(content: String) -> (message: Message)
        ensures
            message@ == MessageView::User(seq![UserContentView::Text(content@)]),
    {
        let mut blocks: Vec<UserContent> = Vec::new();
        blocks.push(UserContent::Text(content));
        let message = Message::User(blocks);
        assert(message@->User_0 =~= seq![UserContentView::Text(content@)]);
        message
    }

    /// An assistant turn with a single text block.
    pub fn assistant_text(content: String) -> (message: Message)
        ensures
            message@ == MessageView::Assistant(seq![AssistantContentView::Text(content@)]),
    {
        let mut blocks: Vec<AssistantContent> = Vec::new();
        blocks.push(AssistantContent::Text(content));
        let message = Message::Assistant(blocks);
        assert(message@->Assistant_0 =~= seq![AssistantContentView::Text(content@)]);
        message
    }
}

impl From<String> for SystemPrompt {
    fn from(text: String) -> (prompt: Self) {
        SystemPrompt { text, cache: false }
    }
}

impl vstd::std_specs::convert::FromSpecImpl<String> for SystemPrompt {
    open spec fn obeys_from_spec() -> bool {
        true
    }

    open spec fn from_spec(text: String) -> Self {
        SystemPrompt { text, cache: false }
    }
}

impl vstd::std_specs::convert::FromSpecImpl<&str> for SystemPrompt {
    open spec fn obeys_from_spec() -> bool {
        false
    }

    open spec fn from_spec(text: &str) -> Self {
        arbitrary()
    }
}

impl From<&str> for SystemPrompt {
    fn from(text: &str) -> (prompt: Self)
        ensures
            prompt@ == (SystemPromptView { text: text@, cache: false }),
    {
        SystemPrompt { text: text.to_owned(), cache: false }
    }
}

} // verus!
