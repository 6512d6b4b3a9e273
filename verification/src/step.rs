//! One step of the agent loop: what is accumulated from the provider's stream,
//! the assistant turn and the tool results that go into the conversation.

use crate::control::{Approval, ApprovalView};
use crate::json;
use crate::json::{Json, JsonView};
use crate::loop_event::{
    AgentEvent, AgentEventView, ToolCallRecord, ToolCallRecordView, ToolOutcome, ToolOutcomeView,
};
use crate::message::{
    AssistantContent, AssistantContentView, Thinking, ThinkingView, ToolResultPart,
    ToolResultPartView, UserContent, UserContentView,
};
use crate::provider::{StopReason, StopReasonView, StreamEvent, StreamEventView};
use crate::text;
use crate::usage::Usage;
use crate::views;
use std::time::Duration;
use vstd::prelude::*;

verus! {

/// One tool call of a step, with its arguments parsed.
pub struct ParsedCall {
    /// Provider-assigned call id.
    pub id: String,
    /// Tool name.
    pub name: String,
    /// Parsed arguments; an empty object where they were malformed.
    pub args: Json,
    /// The parse error, where the arguments were not valid JSON.
    pub parse_error: Option<String>,
}

/// What a [`ParsedCall`] stands for.
#[verifier::ext_equal]
pub struct ParsedCallView {
    /// Provider-assigned call id.
    pub id: Seq<char>,
    /// Tool name.
    pub name: Seq<char>,
    /// Parsed arguments; an empty object where they were malformed.
    pub args: JsonView,
    /// The parse error, where the arguments were not valid JSON.
    pub parse_error: Option<Seq<char>>,
}

impl View for ParsedCall {
    type V = ParsedCallView;

    open spec fn view(&self) -> ParsedCallView {
        ParsedCallView {
            id: self.id@,
            name: self.name@,
            args: self.args@,
            parse_error: views::optional(self.parse_error),
        }
    }
}

impl Clone for ParsedCall {
    fn clone(&self) -> (copy: Self)
        ensures
            copy@ == self@,
    {
        let copy = ParsedCall {
            id: self.id.clone(),
            name: self.name.clone(),
            args: self.args.clone(),
            parse_error: self.parse_error.clone(),
        };
        copy
    }
}

/// A tool call with its resolved approval, awaiting dispatch.
pub struct ToolPlan {
    /// Provider-assigned call id.
    pub id: String,
    /// Tool name.
    pub name: String,
    /// Parsed arguments.
    pub args: Json,
    /// What the middleware decided.
    pub approval: Approval,
    /// The reason, where the call was denied.
    pub denied: Option<String>,
    /// The parse error, where the arguments were malformed.
    pub parse_error: Option<String>,
}

/// What a [`ToolPlan`] stands for.
#[verifier::ext_equal]
pub struct ToolPlanView {
    /// Provider-assigned call id.
    pub id: Seq<char>,
    /// Tool name.
    pub name: Seq<char>,
    /// Parsed arguments.
    pub args: JsonView,
    /// What the middleware decided.
    pub approval: ApprovalView,
    /// The reason, where the call was denied.
    pub denied: Option<Seq<char>>,
    /// The parse error, where the arguments were malformed.
    pub parse_error: Option<Seq<char>>,
}

impl View for ToolPlan {
    type V = ToolPlanView;

    open spec fn view(&self) -> ToolPlanView {
        ToolPlanView {
            id: self.id@,
            name: self.name@,
            args: self.args@,
            approval: self.approval@,
            denied: views::optional(self.denied),
            parse_error: views::optional(self.parse_error),
        }
    }
}

impl Clone for ToolPlan {
    fn clone(&self) -> (copy: Self)
        ensures
            copy@ == self@,
    {
        let copy = ToolPlan {
            id: self.id.clone(),
            name: self.name.clone(),
            args: self.args.clone(),
            approval: self.approval.clone(),
            denied: self.denied.clone(),
            parse_error: self.parse_error.clone(),
        };
        copy
    }
}

/// One step's streamed output, accumulated.
pub struct StepAccum {
    /// Answer text so far.
    pub text: String,
    /// Reasoning text so far.
    pub reasoning: String,
    /// Reasoning signature so far.
    pub signature: Option<String>,
    /// Tool calls so far.
    pub tool_calls: Vec<ParsedCall>,
    /// Latest reported usage.
    pub step_usage: Usage,
    /// Latest reported stop reason.
    pub stop: StopReason,
}

/// What a [`StepAccum`] stands for.
#[verifier::ext_equal]
pub struct StepAccumView {
    /// Answer text so far.
    pub text: Seq<char>,
    /// Reasoning text so far.
    pub reasoning: Seq<char>,
    /// Reasoning signature so far.
    pub signature: Option<Seq<char>>,
    /// Tool calls so far.
    pub tool_calls: Seq<ParsedCallView>,
    /// Latest reported usage.
    pub step_usage: Usage,
    /// Latest reported stop reason.
    pub stop: StopReasonView,
}

impl View for StepAccum {
    type V = StepAccumView;

    open spec fn view(&self) -> StepAccumView {
        StepAccumView {
            text: self.text@,
            reasoning: self.reasoning@,
            signature: views::optional(self.signature),
            tool_calls: views::each(self.tool_calls@),
            step_usage: self.step_usage,
            stop: self.stop@,
        }
    }
}

/// The call with its arguments as the parser read them.
pub open spec fn call_of(
    id: Seq<char>,
    name: Seq<char>,
    parsed: Result<JsonView, Seq<char>>,
) -> ParsedCallView {
    match parsed {
        Ok(args) => ParsedCallView { id, name, args, parse_error: None },
        Err(message) => ParsedCallView {
            id,
            name,
            args: JsonView::Object(Map::empty()),
            parse_error: Some("malformed tool arguments: "@ + message),
        },
    }
}

impl ParsedCall {
    /// The call with these arguments, or with the error that they gave.
    pub fn of(id: String, name: String, parsed: Result<Json, String>) -> (call: ParsedCall)
        ensures
            call@ == call_of(
                id@,
                name@,
                match parsed {
                    Ok(args) => Ok(args@),
                    Err(message) => Err(message@),
                },
            ),
    {
        match parsed {
            Ok(args) => ParsedCall { id, name, args, parse_error: None },
            Err(message) => ParsedCall {
                id,
                name,
                args: Json::empty_object(),
                parse_error: Some("malformed tool arguments: ".to_owned().concat(message.as_str())),
            },
        }
    }

    /// Parses the argument text of a call, once.
    pub fn parse(id: String, name: String, arguments: &str) -> (call: ParsedCall)
        ensures
            call@ == call_of(id@, name@, json::json_of_text(arguments@)),
    {
        ParsedCall::of(id, name, Json::parse(arguments))
    }
}

impl StepAccumView {
    /// Nothing accumulated yet.
    pub open spec fn start() -> StepAccumView {
        StepAccumView {
            text: Seq::empty(),
            reasoning: Seq::empty(),
            signature: None,
            tool_calls: Seq::empty(),
            step_usage: Usage::nothing(),
            stop: StopReasonView::EndTurn,
        }
    }
}

/// What one event does to the accumulated step, and the delta to emit at once.
pub open spec fn applied(
    acc: StepAccumView,
    event: StreamEventView,
) -> (StepAccumView, Option<AgentEventView>) {
    match event {
        StreamEventView::Start { usage } => (StepAccumView { step_usage: usage, ..acc }, None),
        StreamEventView::TextDelta(t) => (
            StepAccumView { text: acc.text + t, ..acc },
            Some(AgentEventView::MessageDelta(t)),
        ),
        StreamEventView::ReasoningDelta(t) => (
            StepAccumView { reasoning: acc.reasoning + t, ..acc },
            Some(AgentEventView::ReasoningDelta(t)),
        ),
        StreamEventView::SignatureDelta(t) => (
            StepAccumView {
                signature: Some(
                    match acc.signature {
                        Some(s) => s + t,
                        None => t,
                    },
                ),
                ..acc
            },
            None,
        ),
        StreamEventView::ToolCall { id, name, arguments } => {
            let call = call_of(id, name, json::json_of_text(arguments));
            (
                StepAccumView { tool_calls: acc.tool_calls.push(call), ..acc },
                Some(AgentEventView::ToolCall { id, name, args: call.args }),
            )
        },
        StreamEventView::End { stop, usage } => (
            StepAccumView { stop, step_usage: usage, ..acc },
            None,
        ),
    }
}

impl StepAccum {
    /// Nothing accumulated yet.
    pub fn new() -> (acc: StepAccum)
        ensures
            acc@ == StepAccumView::start(),
    {
        let acc = StepAccum {
            text: String::new(),
            reasoning: String::new(),
            signature: None,
            tool_calls: Vec::new(),
            step_usage: Usage::zero(),
            stop: StopReason::EndTurn,
        };
        assert(acc@ =~= StepAccumView::start());
        acc
    }

    /// Folds one event in, and returns the delta to emit at once, if any.
    pub fn apply(&mut self, event: StreamEvent) -> (delta: Option<AgentEvent>)
        ensures
            applied(old(self)@, event@) == (final(self)@, views::optional(delta)),
    {
        match event {
            StreamEvent::Start { usage } => {
                self.step_usage = usage;
                None
            },
            StreamEvent::TextDelta(t) => {
                self.text.append(t.as_str());
                Some(AgentEvent::MessageDelta(t))
            },
            StreamEvent::ReasoningDelta(t) => {
                self.reasoning.append(t.as_str());
                Some(AgentEvent::ReasoningDelta(t))
            },
            StreamEvent::SignatureDelta(t) => {
                let joined = match self.signature.take() {
                    Some(s) => s.concat(t.as_str()),
                    None => t,
                };
                self.signature = Some(joined);
                None
            },
            StreamEvent::ToolCall { id, name, arguments } => {
                let ghost before = self.tool_calls@;
                let call = ParsedCall::parse(id.clone(), name.clone(), arguments.as_str());
                let args = call.args.clone();
                self.tool_calls.push(call);
                assert(views::each(self.tool_calls@) =~= views::each(before).push(call@));
                Some(AgentEvent::ToolCall { id, name, args })
            },
            StreamEvent::End { stop, usage } => {
                self.stop = stop;
                self.step_usage = usage;
                None
            },
        }
    }
}

/// The step accumulated from a whole stream.
pub open spec fn folded(events: Seq<StreamEventView>) -> StepAccumView
    decreases events.len(),
{
    if events.len() == 0 {
        StepAccumView::start()
    } else {
        applied(folded(events.drop_last()), events.last()).0
    }
}

/// The deltas emitted for a whole stream, in order.
pub open spec fn emitted(events: Seq<StreamEventView>) -> Seq<AgentEventView>
    decreases events.len(),
{
    if events.len() == 0 {
        Seq::empty()
    } else {
        match applied(folded(events.drop_last()), events.last()).1 {
            Some(delta) => emitted(events.drop_last()).push(delta),
            None => emitted(events.drop_last()),
        }
    }
}

/// The answer text among emitted events.
pub open spec fn shown_text(events: Seq<AgentEventView>) -> Seq<char>
    decreases events.len(),
{
    if events.len() == 0 {
        Seq::empty()
    } else {
        match events.last() {
            AgentEventView::MessageDelta(t) => shown_text(events.drop_last()) + t,
            _ => shown_text(events.drop_last()),
        }
    }
}

/// The reasoning text among emitted events.
pub open spec fn shown_reasoning(events: Seq<AgentEventView>) -> Seq<char>
    decreases events.len(),
{
    if events.len() == 0 {
        Seq::empty()
    } else {
        match events.last() {
            AgentEventView::ReasoningDelta(t) => shown_reasoning(events.drop_last()) + t,
            _ => shown_reasoning(events.drop_last()),
        }
    }
}

/// The deltas that reach the host live add up to the text and the reasoning of
/// the step, and each tool call is announced once.
pub proof fn live_deltas_add_up_to_the_step(events: Seq<StreamEventView>)
    ensures
        shown_text(emitted(events)) == folded(events).text,
        shown_reasoning(emitted(events)) == folded(events).reasoning,
        emitted(events).filter(|e: AgentEventView| e is ToolCall).len() == folded(
            events,
        ).tool_calls.len(),
    decreases events.len(),
{
    reveal(Seq::filter);
    if events.len() > 0 {
        let shorter = events.drop_last();
        live_deltas_add_up_to_the_step(shorter);
        match applied(folded(shorter), events.last()).1 {
            Some(delta) => {
                assert(emitted(events).drop_last() =~= emitted(shorter));
                assert(emitted(events).last() == delta);
            },
            None => {},
        }
    }
}

/// The content blocks of the assistant turn of a step: reasoning, then text,
/// then tool calls.
pub open spec fn turn_content(acc: StepAccumView) -> Seq<AssistantContentView> {
    let thinking = if acc.reasoning.len() > 0 {
        seq![
            AssistantContentView::Thinking(
                ThinkingView::Visible { text: acc.reasoning, signature: acc.signature },
            ),
        ]
    } else {
        Seq::empty()
    };
    let answer = if acc.text.len() > 0 {
        seq![AssistantContentView::Text(acc.text)]
    } else {
        Seq::empty()
    };
    thinking + answer + tool_uses(acc.tool_calls)
}

/// The tool-use blocks of a step.
pub open spec fn tool_uses(calls: Seq<ParsedCallView>) -> Seq<AssistantContentView> {
    calls.map_values(
        |c: ParsedCallView|
            AssistantContentView::ToolUse { id: c.id, name: c.name, input: c.args },
    )
}

/// The ids of the tool-use blocks, in order.
pub open spec fn tool_use_ids(blocks: Seq<AssistantContentView>) -> Seq<Seq<char>>
    decreases blocks.len(),
{
    if blocks.len() == 0 {
        Seq::empty()
    } else {
        let before = tool_use_ids(blocks.drop_last());
        match blocks.last() {
            AssistantContentView::ToolUse { id, name, input } => before.push(id),
            _ => before,
        }
    }
}

proof fn lemma_tool_use_ids(
    first: Seq<AssistantContentView>,
    calls: Seq<ParsedCallView>,
    n: int,
)
    requires
        0 <= n <= calls.len(),
        tool_use_ids(first).len() == 0,
    ensures
        tool_use_ids(first + tool_uses(calls).take(n)) == calls.take(n).map_values(
            |c: ParsedCallView| c.id,
        ),
    decreases n,
{
    let uses = tool_uses(calls);
    if n == 0 {
        assert(first + uses.take(0) =~= first);
        assert(tool_use_ids(first) =~= calls.take(0).map_values(|c: ParsedCallView| c.id));
    } else {
        lemma_tool_use_ids(first, calls, n - 1);
        assert((first + uses.take(n)).drop_last() =~= first + uses.take(n - 1));
        assert((first + uses.take(n)).last() == uses[n - 1]);
        assert(calls.take(n).map_values(|c: ParsedCallView| c.id) =~= calls.take(n - 1).map_values(
            |c: ParsedCallView| c.id,
        ).push(calls[n - 1].id));
    }
}

/// The assistant turn of a step holds a tool-use block for each call, with its
/// id, in the order of the calls.
pub proof fn the_turn_holds_every_call(acc: StepAccumView)
    ensures
        tool_use_ids(turn_content(acc)) == acc.tool_calls.map_values(|c: ParsedCallView| c.id),
{
    let calls = acc.tool_calls;
    let uses = tool_uses(calls);
    let first = turn_content(acc).take(turn_content(acc).len() - uses.len());
    reveal_with_fuel(tool_use_ids, 3);
    assert(first.len() <= 2);
    assert(turn_content(acc) =~= first + uses);
    assert(uses.take(calls.len() as int) =~= uses);
    assert(calls.take(calls.len() as int) =~= calls);
    lemma_tool_use_ids(first, calls, calls.len() as int);
}

impl StepAccum {
    /// Builds the content of the assistant turn.
    pub fn assistant_content(&self) -> (blocks: Vec<AssistantContent>)
        ensures
            views::each(blocks@) == turn_content(self@),
    {
        let mut blocks: Vec<AssistantContent> = Vec::new();
        if !self.reasoning.as_str().is_empty() {
            blocks.push(
                AssistantContent::Thinking(
                    Thinking::Visible {
                        text: self.reasoning.clone(),
                        signature: self.signature.clone(),
                    },
                ),
            );
        }
        if !self.text.as_str().is_empty() {
            blocks.push(AssistantContent::Text(self.text.clone()));
        }
        let ghost head = views::each(blocks@);
        let ghost calls = self@.tool_calls;
        let mut i: usize = 0;
        assert(head + tool_uses(calls.take(0)) =~= head);
        while i < self.tool_calls.len()
            invariant
                i <= self.tool_calls@.len(),
                calls == self@.tool_calls,
                views::each(blocks@) == head + tool_uses(calls.take(i as int)),
            decreases self.tool_calls@.len() - i,
        {
            let ghost before = blocks@;
            let call = &self.tool_calls[i];
            blocks.push(
                AssistantContent::ToolUse {
                    id: call.id.clone(),
                    name: call.name.clone(),
                    input: call.args.clone(),
                },
            );
            proof {
                assert(views::each(blocks@) =~= views::each(before).push(blocks@.last()@));
                assert(tool_uses(calls.take(i + 1)) =~= tool_uses(calls.take(i as int)).push(
                    blocks@.last()@,
                ));
                assert(views::each(blocks@) =~= head + tool_uses(calls.take(i + 1)));
            }
            i = i + 1;
        }
        assert(calls.take(i as int) =~= calls);
        assert(views::each(blocks@) =~= turn_content(self@));
        blocks
    }
}

/// How a JSON value reads as text: a string as it is, anything else as JSON.
pub open spec fn value_text(value: JsonView) -> Seq<char> {
    match value {
        JsonView::Text(s) => s,
        other => json::text_of_json(other),
    }
}

/// Renders a JSON value for the model.
pub fn value_to_text(value: &Json) -> (text: String)
    ensures
        text@ == value_text(value@),
{
    match value.as_str() {
        Some(s) => s.to_owned(),
        None => value.render(),
    }
}

/// The tool-result block that answers a call.
pub open spec fn result_block(id: Seq<char>, outcome: ToolOutcomeView) -> UserContentView {
    let (text, is_error) = match outcome {
        ToolOutcomeView::Success(value) => (value_text(value), false),
        ToolOutcomeView::Denied { message } => (message, true),
        ToolOutcomeView::Error(message) => (message, true),
    };
    UserContentView::ToolResult { id, content: seq![ToolResultPartView::Text(text)], is_error }
}

fn tool_result(id: &str, outcome: &ToolOutcome) -> (block: UserContent)
    ensures
        block@ == result_block(id@, outcome@),
{
    let (text, is_error) = match outcome {
        ToolOutcome::Success(value) => (value_to_text(value), false),
        ToolOutcome::Denied { message } => (message.clone(), true),
        ToolOutcome::Error(message) => (message.clone(), true),
    };
    let mut content: Vec<ToolResultPart> = Vec::new();
    content.push(ToolResultPart::Text(text));
    assert(views::each(content@) =~= seq![ToolResultPartView::Text(text@)]);
    UserContent::ToolResult { id: id.to_owned(), content, is_error }
}

/// The plans and outcomes of a step, side by side: the tool results for the
/// conversation, the events to emit, and the records of the step.
pub open spec fn result_blocks(
    plans: Seq<ToolPlanView>,
    outcomes: Seq<(ToolOutcomeView, Duration)>,
) -> Seq<UserContentView> {
    Seq::new(plans.len(), |i: int| result_block(plans[i].id, outcomes[i].0))
}

/// The events that report the results.
pub open spec fn result_events(
    plans: Seq<ToolPlanView>,
    outcomes: Seq<(ToolOutcomeView, Duration)>,
) -> Seq<AgentEventView> {
    Seq::new(
        plans.len(),
        |i: int|
            AgentEventView::ToolResult {
                id: plans[i].id,
                name: plans[i].name,
                result: outcomes[i].0,
            },
    )
}

/// The records of the resolved calls.
pub open spec fn result_records(
    plans: Seq<ToolPlanView>,
    outcomes: Seq<(ToolOutcomeView, Duration)>,
) -> Seq<ToolCallRecordView> {
    Seq::new(
        plans.len(),
        |i: int|
            ToolCallRecordView {
                id: plans[i].id,
                name: plans[i].name,
                args: plans[i].args,
                approval: plans[i].approval,
                result: outcomes[i].0,
                elapsed: outcomes[i].1,
            },
    )
}

/// What outcomes stand for.
pub open spec fn outcome_views(
    outcomes: Seq<(ToolOutcome, Duration)>,
) -> Seq<(ToolOutcomeView, Duration)> {
    outcomes.map_values(|o: (ToolOutcome, Duration)| (o.0@, o.1))
}

/// The results of a step.
pub struct StepResults {
    /// Tool results for the conversation.
    pub blocks: Vec<UserContent>,
    /// Events to emit.
    pub events: Vec<AgentEvent>,
    /// Records for the step.
    pub records: Vec<ToolCallRecord>,
}

/// Pairs every plan with its outcome, in order.
pub fn collect_results(
    plans: &Vec<ToolPlan>,
    outcomes: &Vec<(ToolOutcome, Duration)>,
) -> (results: StepResults)
    requires
        plans@.len() == outcomes@.len(),
    ensures
        views::each(results.blocks@) == result_blocks(
            views::each(plans@),
            outcome_views(outcomes@),
        ),
        views::each(results.events@) == result_events(
            views::each(plans@),
            outcome_views(outcomes@),
        ),
        views::each(results.records@) == result_records(
            views::each(plans@),
            outcome_views(outcomes@),
        ),
{
    let ghost p = views::each(plans@);
    let ghost o = outcome_views(outcomes@);
    let mut blocks: Vec<UserContent> = Vec::new();
    let mut events: Vec<AgentEvent> = Vec::new();
    let mut records: Vec<ToolCallRecord> = Vec::new();
    let mut i: usize = 0;
    while i < plans.len()
        invariant
            i <= plans@.len(),
            plans@.len() == outcomes@.len(),
            p == views::each(plans@),
            o == outcome_views(outcomes@),
            blocks@.len() == i,
            events@.len() == i,
            records@.len() == i,
            forall|j: int| 0 <= j < i ==> (#[trigger] blocks@[j])@ == result_blocks(p, o)[j],
            forall|j: int| 0 <= j < i ==> (#[trigger] events@[j])@ == result_events(p, o)[j],
            forall|j: int| 0 <= j < i ==> (#[trigger] records@[j])@ == result_records(p, o)[j],
        decreases plans@.len() - i,
    {
        let plan = &plans[i];
        let outcome = &outcomes[i].0;
        blocks.push(tool_result(plan.id.as_str(), outcome));
        events.push(
            AgentEvent::ToolResult {
                id: plan.id.clone(),
                name: plan.name.clone(),
                result: outcome.clone(),
            },
        );
        records.push(
            ToolCallRecord {
                id: plan.id.clone(),
                name: plan.name.clone(),
                args: plan.args.clone(),
                approval: plan.approval.clone(),
                result: outcome.clone(),
                elapsed: outcomes[i].1,
            },
        );
        i = i + 1;
    }
    assert(views::each(blocks@) =~= result_blocks(p, o));
    assert(views::each(events@) =~= result_events(p, o));
    assert(views::each(records@) =~= result_records(p, o));
    StepResults { blocks, events, records }
}

/// The text that a tool-result block shows the model, where it holds one text and
/// nothing else.
pub open spec fn only_text(block: UserContentView) -> Option<Seq<char>> {
    match block {
        UserContentView::ToolResult { id, content, is_error } => if content.len() == 1 {
            match content[0] {
                ToolResultPartView::Text(text) => Some(text),
                _ => None,
            }
        } else {
            None
        },
        _ => None,
    }
}

/// The model sees what the tool gave: a string as it is, any other value as JSON, a
/// denial and an error by their message; and a result is marked as an error
/// exactly where the call did not succeed.
pub proof fn the_model_sees_what_came_of_a_call(
    plans: Seq<ToolPlanView>,
    outcomes: Seq<(ToolOutcomeView, Duration)>,
    i: int,
)
    requires
        0 <= i < plans.len(),
        plans.len() == outcomes.len(),
    ensures
        result_blocks(plans, outcomes).len() == plans.len(),
        result_blocks(plans, outcomes)[i] matches UserContentView::ToolResult {
            id,
            content,
            is_error,
        } && id == plans[i].id && is_error == !(outcomes[i].0 is Success),
        match outcomes[i].0 {
            ToolOutcomeView::Success(JsonView::Text(s)) => only_text(
                result_blocks(plans, outcomes)[i],
            ) == Some(s),
            ToolOutcomeView::Success(value) => only_text(result_blocks(plans, outcomes)[i]) == Some(
                json::text_of_json(value),
            ),
            ToolOutcomeView::Denied { message } => only_text(result_blocks(plans, outcomes)[i])
                == Some(message),
            ToolOutcomeView::Error(message) => only_text(result_blocks(plans, outcomes)[i]) == Some(
                message,
            ),
        },
{
}

/// Two calls that gave different strings leave different conversations, and so do
/// two that failed with different messages.
pub proof fn different_results_are_told_apart(id: Seq<char>, a: Seq<char>, b: Seq<char>)
    requires
        a != b,
    ensures
        result_block(id, ToolOutcomeView::Success(JsonView::Text(a))) != result_block(
            id,
            ToolOutcomeView::Success(JsonView::Text(b)),
        ),
        result_block(id, ToolOutcomeView::Error(a)) != result_block(id, ToolOutcomeView::Error(b)),
        result_block(id, ToolOutcomeView::Error(a)) != result_block(
            id,
            ToolOutcomeView::Success(JsonView::Text(a)),
        ),
{
    let first = result_block(id, ToolOutcomeView::Success(JsonView::Text(a)));
    let second = result_block(id, ToolOutcomeView::Success(JsonView::Text(b)));
    assert(only_text(first) == Some(a) && only_text(second) == Some(b));
    let failed = result_block(id, ToolOutcomeView::Error(a));
    let other = result_block(id, ToolOutcomeView::Error(b));
    assert(only_text(failed) == Some(a) && only_text(other) == Some(b));
}

/// Every call of a step is reported and recorded with its own id, name and
/// outcome; the record also has the arguments and the time taken.
pub proof fn a_call_is_reported_as_it_went(
    plans: Seq<ToolPlanView>,
    outcomes: Seq<(ToolOutcomeView, Duration)>,
    i: int,
)
    requires
        0 <= i < plans.len(),
        plans.len() == outcomes.len(),
    ensures
        result_events(plans, outcomes).len() == plans.len(),
        result_events(plans, outcomes)[i] == (AgentEventView::ToolResult {
            id: plans[i].id,
            name: plans[i].name,
            result: outcomes[i].0,
        }),
        result_records(plans, outcomes).len() == plans.len(),
        result_records(plans, outcomes)[i] == (ToolCallRecordView {
            id: plans[i].id,
            name: plans[i].name,
            args: plans[i].args,
            approval: plans[i].approval,
            result: outcomes[i].0,
            elapsed: outcomes[i].1,
        }),
{
}

/// The texts of the text deltas of a stream, one after the other.
pub open spec fn streamed_text(events: Seq<StreamEventView>) -> Seq<char>
    decreases events.len(),
{
    if events.len() == 0 {
        Seq::empty()
    } else {
        match events.last() {
            StreamEventView::TextDelta(t) => streamed_text(events.drop_last()) + t,
            _ => streamed_text(events.drop_last()),
        }
    }
}

/// The texts of the reasoning deltas of a stream, one after the other.
pub open spec fn streamed_reasoning(events: Seq<StreamEventView>) -> Seq<char>
    decreases events.len(),
{
    if events.len() == 0 {
        Seq::empty()
    } else {
        match events.last() {
            StreamEventView::ReasoningDelta(t) => streamed_reasoning(events.drop_last()) + t,
            _ => streamed_reasoning(events.drop_last()),
        }
    }
}

/// The texts of the signature deltas of a stream, one after the other.
pub open spec fn streamed_signature(events: Seq<StreamEventView>) -> Seq<char>
    decreases events.len(),
{
    if events.len() == 0 {
        Seq::empty()
    } else {
        match events.last() {
            StreamEventView::SignatureDelta(t) => streamed_signature(events.drop_last()) + t,
            _ => streamed_signature(events.drop_last()),
        }
    }
}

/// The step has a call for each tool call of the stream: its id, its name, and the
/// value of its argument text, or a parse error where that is no JSON.
pub open spec fn calls_stand(events: Seq<StreamEventView>, calls: Seq<ParsedCallView>) -> bool
    decreases events.len(),
{
    if events.len() == 0 {
        calls.len() == 0
    } else {
        match events.last() {
            StreamEventView::ToolCall { id, name, arguments } => {
                &&& calls.len() > 0
                &&& calls_stand(events.drop_last(), calls.drop_last())
                &&& calls.last().id == id
                &&& calls.last().name == name
                &&& match json::json_of_text(arguments) {
                    Ok(value) => calls.last().args == value && calls.last().parse_error is None,
                    Err(_) => calls.last().parse_error is Some && calls.last().args
                        == JsonView::Object(Map::empty()),
                }
            },
            _ => calls_stand(events.drop_last(), calls),
        }
    }
}

/// A step is what its stream said: the text is all text deltas joined, and so the
/// reasoning and the signature; the calls are the stream's, in order; and the usage
/// and the stop reason are those that came last.
pub proof fn a_step_is_what_its_stream_said(events: Seq<StreamEventView>)
    ensures
        folded(events).text == streamed_text(events),
        folded(events).reasoning == streamed_reasoning(events),
        match folded(events).signature {
            Some(signature) => signature == streamed_signature(events),
            None => streamed_signature(events).len() == 0,
        },
        calls_stand(events, folded(events).tool_calls),
        events.len() > 0 ==> match events.last() {
            StreamEventView::End { stop, usage } => folded(events).stop == stop && folded(
                events,
            ).step_usage == usage,
            StreamEventView::Start { usage } => folded(events).step_usage == usage && folded(
                events,
            ).stop == folded(events.drop_last()).stop,
            _ => folded(events).stop == folded(events.drop_last()).stop && folded(
                events,
            ).step_usage == folded(events.drop_last()).step_usage,
        },
    decreases events.len(),
{
    if events.len() > 0 {
        a_step_is_what_its_stream_said(events.drop_last());
        let before = folded(events.drop_last());
        match events.last() {
            StreamEventView::SignatureDelta(t) => {
                if before.signature is None {
                    assert(streamed_signature(events.drop_last()) + t =~= t);
                }
            },
            StreamEventView::ToolCall { id, name, arguments } => {
                assert(folded(events).tool_calls.drop_last() =~= before.tool_calls);
            },
            _ => {},
        }
    }
}

/// The assistant turn keeps what the model said: visible reasoning with its
/// signature where there is any, then the text where there is any, then every call
/// with its id, its name and its arguments, and nothing else.
pub proof fn the_turn_keeps_what_was_said(acc: StepAccumView)
    ensures
        ({
            let blocks = turn_content(acc);
            let calls = acc.tool_calls;
            let thinking: int = if acc.reasoning.len() > 0 {
                1
            } else {
                0
            };
            let answer: int = if acc.text.len() > 0 {
                1
            } else {
                0
            };
            &&& blocks.len() == thinking + answer + calls.len()
            &&& acc.reasoning.len() > 0 ==> blocks[0] == AssistantContentView::Thinking(
                ThinkingView::Visible { text: acc.reasoning, signature: acc.signature },
            )
            &&& acc.text.len() > 0 ==> blocks[thinking] == AssistantContentView::Text(acc.text)
            &&& forall|i: int|
                0 <= i < calls.len() ==> #[trigger] blocks[thinking + answer + i] == (
                AssistantContentView::ToolUse {
                    id: calls[i].id,
                    name: calls[i].name,
                    input: calls[i].args,
                })
        }),
{
}

/// Arguments that are JSON are the arguments of the call; any other leave the call
/// without arguments and with an error that tells what the parser said.
pub proof fn malformed_arguments_are_told(
    id: Seq<char>,
    name: Seq<char>,
    args: JsonView,
    message: Seq<char>,
)
    ensures
        call_of(id, name, Ok(args)) == (ParsedCallView { id, name, args, parse_error: None }),
        ({
            let call = call_of(id, name, Err(message));
            &&& call.id == id
            &&& call.name == name
            &&& call.args == JsonView::Object(Map::empty())
            &&& call.parse_error matches Some(told) && text::holds_text(told, message)
        }),
{
    text::a_text_holds_its_parts(
        "malformed tool arguments: "@,
        message,
        Seq::<char>::empty(),
    );
}

} // verus!
