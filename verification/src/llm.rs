//! One-shot calls (no agent loop): structured extraction or plain text.
//!
//! [`LLM`] builds the one request that such a call sends, and reads the
//! response.

use crate::error::AgentError;
use crate::json::{Json, JsonView};
use crate::message::{
    AssistantContent, AssistantContentView, Message, MessageView, SystemPrompt, SystemPromptView,
    UserContentView,
};
use crate::provider::{
    ChatRequest, ChatRequestView, ChatResponse, ToolChoice, ToolChoiceView, ToolDef, ToolDefView,
};
use crate::views;
use vstd::prelude::*;

verus! {

/// A single-turn call, for the provider that serves `bound` by default.
pub struct LLM {
    bound: String,
    model: Option<String>,
    system: Option<String>,
    user: Option<String>,
    max_tokens: u32,
    temperature: Option<Json>,
}

/// What an [`LLM`] stands for.
#[verifier::ext_equal]
pub struct LLMView {
    /// The provider's own model.
    pub bound: Seq<char>,
    /// The model asked for instead.
    pub model: Option<Seq<char>>,
    /// System prompt.
    pub system: Option<Seq<char>>,
    /// User message.
    pub user: Option<Seq<char>>,
    /// Token limit.
    pub max_tokens: u32,
    /// Sampling temperature.
    pub temperature: Option<JsonView>,
}

impl View for LLM {
    type V = LLMView;

    closed spec fn view(&self) -> LLMView {
        LLMView {
            bound: self.bound@,
            model: views::optional(self.model),
            system: views::optional(self.system),
            user: views::optional(self.user),
            max_tokens: self.max_tokens,
            temperature: views::optional(self.temperature),
        }
    }
}

/// What is missing from a call without a user message.
pub const NO_USER: &'static str = "LLM: user message must be set before calling extract/text";

/// What is missing from a response without the forced tool call.
pub const NO_EXTRACT: &'static str = "LLM::extract: provider response contained no 'extract' tool-use block";

/// The request of a call, where it has a user message.
pub open spec fn request_of(
    call: LLMView,
    tools: Seq<ToolDefView>,
    tool_choice: ToolChoiceView,
) -> Option<ChatRequestView> {
    match call.user {
        None => None,
        Some(user) => Some(
            ChatRequestView {
                system: match call.system {
                    Some(s) => Some(SystemPromptView { text: s, cache: false }),
                    None => None,
                },
                messages: seq![MessageView::User(seq![UserContentView::Text(user)])],
                tools,
                tool_choice,
                max_tokens: call.max_tokens,
                temperature: call.temperature,
                ..ChatRequestView::plain(
                    match call.model {
                        Some(m) => m,
                        None => call.bound,
                    },
                )
            },
        ),
    }
}

/// The tool that a structured extraction forces.
pub open spec fn extract_tool(schema: JsonView) -> ToolDefView {
    ToolDefView {
        name: "extract"@,
        description: "Return the structured result."@,
        parameters: schema,
        strict: false,
        cache: false,
    }
}

/// The input of the first call of the forced tool.
pub open spec fn first_extract(content: Seq<AssistantContentView>) -> Option<JsonView>
    decreases content.len(),
{
    if content.len() == 0 {
        None
    } else {
        match content[0] {
            AssistantContentView::ToolUse { id, name, input } => if name == "extract"@ {
                Some(input)
            } else {
                first_extract(content.drop_first())
            },
            _ => first_extract(content.drop_first()),
        }
    }
}

/// The text blocks one after the other.
pub open spec fn all_text(content: Seq<AssistantContentView>) -> Seq<char>
    decreases content.len(),
{
    if content.len() == 0 {
        Seq::empty()
    } else {
        match content.last() {
            AssistantContentView::Text(t) => all_text(content.drop_last()) + t,
            _ => all_text(content.drop_last()),
        }
    }
}

impl LLM {
    /// A call with nothing set, for a provider that serves this model.
    pub fn new(bound: String) -> (call: LLM)
        ensures
            call@ == (LLMView {
                bound: bound@,
                model: None,
                system: None,
                user: None,
                max_tokens: 1024,
                temperature: None,
            }),
    {
        LLM {
            bound,
            model: None,
            system: None,
            user: None,
            max_tokens: 1024,
            temperature: None,
        }
    }

    /// Asks for another model.
    #[must_use]
    pub fn model(self, m: String) -> (call: LLM)
        ensures
            call@ == (LLMView { model: Some(m@), ..self@ }),
    {
        let mut call = self;
        call.model = Some(m);
        call
    }

    /// Sets the system prompt.
    #[must_use]
    pub fn system(self, s: String) -> (call: LLM)
        ensures
            call@ == (LLMView { system: Some(s@), ..self@ }),
    {
        let mut call = self;
        call.system = Some(s);
        call
    }

    /// Sets the user message.
    #[must_use]
    pub fn user(self, u: String) -> (call: LLM)
        ensures
            call@ == (LLMView { user: Some(u@), ..self@ }),
    {
        let mut call = self;
        call.user = Some(u);
        call
    }

    /// Sets the token limit.
    #[must_use]
    pub fn max_tokens(self, n: u32) -> (call: LLM)
        ensures
            call@ == (LLMView { max_tokens: n, ..self@ }),
    {
        let mut call = self;
        call.max_tokens = n;
        call
    }

    /// Sets the sampling temperature, as a JSON number.
    #[must_use]
    pub fn temperature(self, t: Json) -> (call: LLM)
        ensures
            call@ == (LLMView { temperature: Some(t@), ..self@ }),
    {
        let mut call = self;
        call.temperature = Some(t);
        call
    }

    /// Builds the request that both kinds of call share. Without a user message
    /// there is none.
    pub fn build_request(
        &self,
        tools: Vec<ToolDef>,
        tool_choice: ToolChoice,
    ) -> (request: Result<ChatRequest, AgentError>)
        ensures
            match (request_of(self@, views::each(tools@), tool_choice@), request) {
                (Some(expected), Ok(r)) => r@ == expected,
                (None, Err(AgentError::Schema(message))) => message@ == NO_USER@,
                _ => false,
            },
    {
        let user = match &self.user {
            Some(user) => user.clone(),
            None => {
                return Err(AgentError::Schema(NO_USER.to_owned()));
            },
        };
        let model = match &self.model {
            Some(m) => m.clone(),
            None => self.bound.clone(),
        };
        let mut request = ChatRequest::new(model);
        request.system = match &self.system {
            Some(s) => Some(SystemPrompt { text: s.clone(), cache: false }),
            None => None,
        };
        let mut messages: Vec<Message> = Vec::new();
        messages.push(Message::user_text(user));
        assert(views::each(messages@) =~= seq![
            MessageView::User(seq![UserContentView::Text(user@)]),
        ]);
        request.messages = messages;
        request.tools = tools;
        request.tool_choice = tool_choice;
        request.max_tokens = self.max_tokens;
        request.temperature = self.temperature.clone();
        Ok(request)
    }

    /// The request of a structured extraction: the model must call the one
    /// synthetic tool, whose arguments have this schema.
    pub fn extract_request(&self, schema: Json) -> (request: Result<ChatRequest, AgentError>)
        ensures
            match (
                request_of(
                    self@,
                    seq![extract_tool(schema@)],
                    ToolChoiceView::Tool("extract"@),
                ),
                request,
            ) {
                (Some(expected), Ok(r)) => r@ == expected,
                (None, Err(AgentError::Schema(message))) => message@ == NO_USER@,
                _ => false,
            },
    {
        let mut tools: Vec<ToolDef> = Vec::new();
        tools.push(
            ToolDef::new(
                "extract".to_owned(),
                "Return the structured result.".to_owned(),
                schema,
            ),
        );
        assert(views::each(tools@) =~= seq![extract_tool(schema@)]);
        self.build_request(tools, ToolChoice::Tool("extract".to_owned()))
    }

    /// The request of a plain-text call: no tools.
    pub fn text_request(&self) -> (request: Result<ChatRequest, AgentError>)
        ensures
            match (request_of(self@, Seq::empty(), ToolChoiceView::Disabled), request) {
                (Some(expected), Ok(r)) => r@ == expected,
                (None, Err(AgentError::Schema(message))) => message@ == NO_USER@,
                _ => false,
            },
    {
        let tools: Vec<ToolDef> = Vec::new();
        assert(views::each(tools@) =~= Seq::empty());
        self.build_request(tools, ToolChoice::Disabled)
    }
}

/// Finds the input of the first call of the forced tool in a response.
pub fn extract(response: &ChatResponse) -> (input: Result<Json, AgentError>)
    ensures
        match (first_extract(response@.content), input) {
            (Some(expected), Ok(i)) => i@ == expected,
            (None, Err(AgentError::Schema(message))) => message@ == NO_EXTRACT@,
            _ => false,
        },
{
    let ghost all = response@.content;
    let mut i: usize = 0;
    assert(all.skip(0) =~= all);
    while i < response.content.len()
        invariant
            i <= response.content@.len(),
            all == response@.content,
            first_extract(all) == first_extract(all.skip(i as int)),
        decreases response.content@.len() - i,
    {
        assert(all.skip(i as int).drop_first() =~= all.skip(i + 1));
        assert(all.skip(i as int)[0] == response.content@[i as int]@);
        match &response.content[i] {
            AssistantContent::ToolUse { id: _, name, input } => if *name.as_str() == *"extract" {
                return Ok(input.clone());
            },
            _ => {},
        }
        i = i + 1;
    }
    Err(AgentError::Schema(NO_EXTRACT.to_owned()))
}

/// Joins the text blocks of a response.
pub fn text(response: &ChatResponse) -> (joined: String)
    ensures
        joined@ == all_text(response@.content),
{
    let ghost all = response@.content;
    let mut joined = String::new();
    let mut i: usize = 0;
    assert(joined@ =~= all_text(all.take(0)));
    while i < response.content.len()
        invariant
            i <= response.content@.len(),
            all == response@.content,
            joined@ == all_text(all.take(i as int)),
        decreases response.content@.len() - i,
    {
        assert(all.take(i + 1).drop_last() =~= all.take(i as int));
        match &response.content[i] {
            AssistantContent::Text(t) => {
                joined.append(t.as_str());
            },
            _ => {},
        }
        i = i + 1;
    }
    assert(all.take(i as int) =~= all);
    joined
}

/// A call is sent as it was built: the one user message, the system prompt, the
/// limits, and the model that was asked for or else the bound one. Without a user
/// message nothing is sent.
pub proof fn a_call_is_sent_as_it_was_built(
    call: LLMView,
    tools: Seq<ToolDefView>,
    tool_choice: ToolChoiceView,
)
    ensures
        request_of(call, tools, tool_choice) is Some <==> call.user is Some,
        request_of(call, tools, tool_choice) matches Some(request) ==> {
            &&& request.messages.len() == 1
            &&& request.messages[0] == MessageView::User(
                seq![UserContentView::Text(call.user->0)],
            )
            &&& call.system is None ==> request.system is None
            &&& call.system matches Some(prompt) ==> (request.system matches Some(sent)
                && sent.text == prompt && !sent.cache)
            &&& call.model matches Some(model) ==> request.model == model
            &&& call.model is None ==> request.model == call.bound
            &&& request.tools == tools
            &&& request.tool_choice == tool_choice
            &&& request.max_tokens == call.max_tokens
            &&& request.temperature == call.temperature
            &&& request.stop_sequences.len() == 0
            &&& request.thinking is Off
            &&& request.cache is Auto
            &&& request.cache_key is None
            &&& request.extra == Map::<Seq<char>, JsonView>::empty()
        },
{
}

/// The input of a call of the forced tool.
pub open spec fn extracts(part: AssistantContentView, input: JsonView) -> bool {
    part matches AssistantContentView::ToolUse { name, input: given, .. } && name == "extract"@
        && given == input
}

/// Whether a part is no call of the forced tool.
pub open spec fn extracts_nothing(part: AssistantContentView) -> bool {
    part matches AssistantContentView::ToolUse { name, .. } ==> name != "extract"@
}

/// An extraction gives the input of the first call of the forced tool, and nothing
/// exactly where there is no such call.
pub proof fn the_first_extraction_counts(content: Seq<AssistantContentView>)
    ensures
        first_extract(content) is None <==> forall|i: int|
            0 <= i < content.len() ==> extracts_nothing(#[trigger] content[i]),
        first_extract(content) matches Some(input) ==> exists|i: int|
            {
                &&& 0 <= i < content.len()
                &&& extracts(#[trigger] content[i], input)
                &&& forall|j: int| 0 <= j < i ==> extracts_nothing(#[trigger] content[j])
            },
    decreases content.len(),
{
    if content.len() > 0 {
        let rest = content.drop_first();
        the_first_extraction_counts(rest);
        if extracts_nothing(content[0]) {
            assert(first_extract(content) == first_extract(rest));
            match first_extract(rest) {
                Some(input) => {
                    let k = choose|i: int|
                        {
                            &&& 0 <= i < rest.len()
                            &&& extracts(#[trigger] rest[i], input)
                            &&& forall|j: int| 0 <= j < i ==> extracts_nothing(#[trigger] rest[j])
                        };
                    assert(content[k + 1] == rest[k]);
                    assert forall|j: int| 0 <= j < k + 1 implies extracts_nothing(
                        #[trigger] content[j],
                    ) by {
                        if j > 0 {
                            assert(content[j] == rest[j - 1]);
                        }
                    }
                    assert(extracts(content[k + 1], input));
                },
                None => {
                    assert forall|i: int| 0 <= i < content.len() implies extracts_nothing(
                        #[trigger] content[i],
                    ) by {
                        if i > 0 {
                            assert(content[i] == rest[i - 1]);
                        }
                    }
                },
            }
        } else {
            assert(extracts(content[0], first_extract(content)->0));
        }
    }
}

/// The text of a response is its text blocks one after the other, and nothing else.
pub proof fn the_text_is_all_text_blocks(
    before: Seq<AssistantContentView>,
    after: Seq<AssistantContentView>,
    part: AssistantContentView,
)
    ensures
        all_text(before + after) == all_text(before) + all_text(after),
        all_text(seq![part]) == (match part {
            AssistantContentView::Text(t) => t,
            _ => Seq::empty(),
        }),
        all_text(Seq::empty()) == Seq::<char>::empty(),
    decreases after.len(),
{
    reveal_with_fuel(all_text, 2);
    assert(seq![part].drop_last() =~= Seq::<AssistantContentView>::empty());
    if after.len() == 0 {
        assert(before + after =~= before);
        assert(all_text(before) + all_text(after) =~= all_text(before));
    } else {
        the_text_is_all_text_blocks(before, after.drop_last(), part);
        assert((before + after).drop_last() =~= before + after.drop_last());
        assert(all_text(before + after) =~= all_text(before) + all_text(after));
    }
}

/// The forced tool is named, and asks for the given schema.
pub proof fn the_forced_tool_asks_for_the_schema(schema: JsonView)
    ensures
        extract_tool(schema).name == "extract"@,
        extract_tool(schema).parameters == schema,
        !extract_tool(schema).strict,
{
}

} // verus!
