//! Events of the agent loop, and its stop conditions.

use crate::control::{Approval, ApprovalView};
use crate::json::{Json, JsonView};
use crate::provider::{StopReason, StopReasonView};
use crate::usage::Usage;
use crate::views;
use std::time::Duration;
use vstd::prelude::*;

verus! {

/// A condition that ends a run after a step.
#[derive(Debug, Clone, Copy, PartialEq, Eq, Structural)]
pub enum StopCond {
    /// Stop once this many steps have run.
    StepCountIs(u32),
}

/// The outcome of a tool call.
#[derive(Debug)]
pub enum ToolOutcome {
    /// Success with a JSON result.
    Success(Json),
    /// Denied by a middleware.
    Denied {
        /// Reason returned to the model.
        message: String,
    },
    /// The tool errored.
    Error(String),
}

/// What a [`ToolOutcome`] stands for.
#[verifier::ext_equal]
pub enum ToolOutcomeView {
    /// Success with a JSON result.
    Success(JsonView),
    /// Denied by a middleware.
    Denied {
        /// Reason returned to the model.
        message: Seq<char>,
    },
    /// The tool errored.
    Error(Seq<char>),
}

impl View for ToolOutcome {
    type V = ToolOutcomeView;

    open spec fn view(&self) -> ToolOutcomeView {
        match *self {
            ToolOutcome::Success(x) => ToolOutcomeView::Success(x@),
            ToolOutcome::Denied { message } => ToolOutcomeView::Denied {
                message: message@,
            },
            ToolOutcome::Error(x) => ToolOutcomeView::Error(x@),
        }
    }
}

impl Clone for ToolOutcome {
    fn clone(&self) -> (copy: Self)
        ensures
            copy@ == self@,
    {
        match self {
            ToolOutcome::Success(x) => ToolOutcome::Success(x.clone()),
            ToolOutcome::Denied { message } => ToolOutcome::Denied {
                message: message.clone(),
            },
            ToolOutcome::Error(x) => ToolOutcome::Error(x.clone()),
        }
    }
}

/// A resolved tool call.
#[derive(Debug)]
pub struct ToolCallRecord {
    /// Provider-assigned call id.
    pub id: String,
    /// Tool name.
    pub name: String,
    /// Parsed arguments.
    pub args: Json,
    /// What the middleware decided.
    pub approval: Approval,
    /// The result.
    pub result: ToolOutcome,
    /// Wall-clock duration.
    pub elapsed: Duration,
}

/// What a [`ToolCallRecord`] stands for.
#[verifier::ext_equal]
pub struct ToolCallRecordView {
    /// Provider-assigned call id.
    pub id: Seq<char>,
    /// Tool name.
    pub name: Seq<char>,
    /// Parsed arguments.
    pub args: JsonView,
    /// What the middleware decided.
    pub approval: ApprovalView,
    /// The result.
    pub result: ToolOutcomeView,
    /// Wall-clock duration.
    pub elapsed: Duration,
}

impl View for ToolCallRecord {
    type V = ToolCallRecordView;

    open spec fn view(&self) -> ToolCallRecordView {
        ToolCallRecordView {
            id: self.id@,
            name: self.name@,
            args: self.args@,
            approval: self.approval@,
            result: self.result@,
            elapsed: self.elapsed,
        }
    }
}

impl Clone for ToolCallRecord {
    fn clone(&self) -> (copy: Self)
        ensures
            copy@ == self@,
    {
        let copy = ToolCallRecord {
            id: self.id.clone(),
            name: self.name.clone(),
            args: self.args.clone(),
            approval: self.approval.clone(),
            result: self.result.clone(),
            elapsed: self.elapsed,
        };
        copy
    }
}

/// What happened in one step.
#[derive(Debug)]
pub struct Step {
    /// Zero-based step index.
    pub index: u32,
    /// Reasoning text, if the model produced any.
    pub reasoning: Option<String>,
    /// Assistant answer text for this step.
    pub text: String,
    /// Tool calls resolved in this step.
    pub tool_calls: Vec<ToolCallRecord>,
    /// Why the model ended this step.
    pub stop: StopReason,
}

/// What a [`Step`] stands for.
#[verifier::ext_equal]
pub struct StepView {
    /// Zero-based step index.
    pub index: u32,
    /// Reasoning text, if the model produced any.
    pub reasoning: Option<Seq<char>>,
    /// Assistant answer text for this step.
    pub text: Seq<char>,
    /// Tool calls resolved in this step.
    pub tool_calls: Seq<ToolCallRecordView>,
    /// Why the model ended this step.
    pub stop: StopReasonView,
}

impl View for Step {
    type V = StepView;

    open spec fn view(&self) -> StepView {
        StepView {
            index: self.index,
            reasoning: views::optional(self.reasoning),
            text: self.text@,
            tool_calls: views::each(self.tool_calls@),
            stop: self.stop@,
        }
    }
}

impl Clone for Step {
    fn clone(&self) -> (copy: Self)
        ensures
            copy@ == self@,
    {
        let copy = Step {
            index: self.index,
            reasoning: self.reasoning.clone(),
            text: self.text.clone(),
            tool_calls: self.tool_calls.clone(),
            stop: self.stop.clone(),
        };
        assert(copy@.tool_calls =~= self@.tool_calls);
        copy
    }
}

/// A tool call that awaits approval.
#[derive(Debug)]
pub struct PendingToolCall {
    /// Provider-assigned call id.
    pub id: String,
    /// Tool name.
    pub name: String,
    /// Parsed arguments.
    pub args: Json,
}

/// What a [`PendingToolCall`] stands for.
#[verifier::ext_equal]
pub struct PendingToolCallView {
    /// Provider-assigned call id.
    pub id: Seq<char>,
    /// Tool name.
    pub name: Seq<char>,
    /// Parsed arguments.
    pub args: JsonView,
}

impl View for PendingToolCall {
    type V = PendingToolCallView;

    open spec fn view(&self) -> PendingToolCallView {
        PendingToolCallView {
            id: self.id@,
            name: self.name@,
            args: self.args@,
        }
    }
}

impl Clone for PendingToolCall {
    fn clone(&self) -> (copy: Self)
        ensures
            copy@ == self@,
    {
        let copy = PendingToolCall {
            id: self.id.clone(),
            name: self.name.clone(),
            args: self.args.clone(),
        };
        copy
    }
}

/// Why a run ended.
#[derive(Debug)]
pub enum Finish {
    /// The model ended its turn.
    EndTurn,
    /// A stop condition fired.
    Limit(StopCond),
    /// A middleware or an error stopped the run.
    Stopped {
        /// Optional final message.
        message: Option<String>,
    },
    /// The run was cancelled.
    Cancelled,
}

/// What a [`Finish`] stands for.
#[verifier::ext_equal]
pub enum FinishView {
    /// The model ended its turn.
    EndTurn,
    /// A stop condition fired.
    Limit(StopCond),
    /// A middleware or an error stopped the run.
    Stopped {
        /// Optional final message.
        message: Option<Seq<char>>,
    },
    /// The run was cancelled.
    Cancelled,
}

impl View for Finish {
    type V = FinishView;

    open spec fn view(&self) -> FinishView {
        match *self {
            Finish::EndTurn => FinishView::EndTurn,
            Finish::Limit(x) => FinishView::Limit(x),
            Finish::Stopped { message } => FinishView::Stopped {
                message: views::optional(message),
            },
            Finish::Cancelled => FinishView::Cancelled,
        }
    }
}

impl Clone for Finish {
    fn clone(&self) -> (copy: Self)
        ensures
            copy@ == self@,
    {
        match self {
            Finish::EndTurn => Finish::EndTurn,
            Finish::Limit(x) => Finish::Limit(*x),
            Finish::Stopped { message } => Finish::Stopped {
                message: message.clone(),
            },
            Finish::Cancelled => Finish::Cancelled,
        }
    }
}

/// The final result of a run.
#[derive(Debug)]
pub struct Outcome {
    /// Final assistant text, or the message of a stop.
    pub text: String,
    /// Accumulated token usage.
    pub usage: Usage,
    /// Active model at the end, by which the usage is priced.
    pub model: String,
    /// Number of steps taken.
    pub steps: u32,
    /// Why the run ended.
    pub finish: Finish,
}

/// What a [`Outcome`] stands for.
#[verifier::ext_equal]
pub struct OutcomeView {
    /// Final assistant text, or the message of a stop.
    pub text: Seq<char>,
    /// Accumulated token usage.
    pub usage: Usage,
    /// Active model at the end, by which the usage is priced.
    pub model: Seq<char>,
    /// Number of steps taken.
    pub steps: u32,
    /// Why the run ended.
    pub finish: FinishView,
}

impl View for Outcome {
    type V = OutcomeView;

    open spec fn view(&self) -> OutcomeView {
        OutcomeView {
            text: self.text@,
            usage: self.usage,
            model: self.model@,
            steps: self.steps,
            finish: self.finish@,
        }
    }
}

impl Clone for Outcome {
    fn clone(&self) -> (copy: Self)
        ensures
            copy@ == self@,
    {
        let copy = Outcome {
            text: self.text.clone(),
            usage: self.usage,
            model: self.model.clone(),
            steps: self.steps,
            finish: self.finish.clone(),
        };
        copy
    }
}

/// A streamed event from a running agent.
#[derive(Debug)]
pub enum AgentEvent {
    /// A new step started.
    StepStart {
        /// Zero-based step index.
        index: u32,
    },
    /// Reasoning token delta.
    ReasoningDelta(String),
    /// Answer token delta.
    MessageDelta(String),
    /// The model requested a tool call.
    ToolCall {
        /// Provider-assigned call id.
        id: String,
        /// Tool name.
        name: String,
        /// Parsed arguments.
        args: Json,
    },
    /// A tool call resolved.
    ToolResult {
        /// Provider-assigned call id.
        id: String,
        /// Tool name.
        name: String,
        /// The result of the tool call.
        result: ToolOutcome,
    },
    /// A step finished.
    StepEnd {
        /// Zero-based step index.
        index: u32,
        /// Assistant answer text for this step.
        text: String,
        /// Reasoning text, if any.
        reasoning: Option<String>,
        /// Token usage for this step.
        usage: Usage,
        /// Active model, by which the usage is priced.
        model: String,
    },
    /// Terminal event.
    Done(Outcome),
}

/// What a [`AgentEvent`] stands for.
#[verifier::ext_equal]
pub enum AgentEventView {
    /// A new step started.
    StepStart {
        /// Zero-based step index.
        index: u32,
    },
    /// Reasoning token delta.
    ReasoningDelta(Seq<char>),
    /// Answer token delta.
    MessageDelta(Seq<char>),
    /// The model requested a tool call.
    ToolCall {
        /// Provider-assigned call id.
        id: Seq<char>,
        /// Tool name.
        name: Seq<char>,
        /// Parsed arguments.
        args: JsonView,
    },
    /// A tool call resolved.
    ToolResult {
        /// Provider-assigned call id.
        id: Seq<char>,
        /// Tool name.
        name: Seq<char>,
        /// The result of the tool call.
        result: ToolOutcomeView,
    },
    /// A step finished.
    StepEnd {
        /// Zero-based step index.
        index: u32,
        /// Assistant answer text for this step.
        text: Seq<char>,
        /// Reasoning text, if any.
        reasoning: Option<Seq<char>>,
        /// Token usage for this step.
        usage: Usage,
        /// Active model, by which the usage is priced.
        model: Seq<char>,
    },
    /// Terminal event.
    Done(OutcomeView),
}

impl View for AgentEvent {
    type V = AgentEventView;

    open spec fn view(&self) -> AgentEventView {
        match *self {
            AgentEvent::StepStart { index } => AgentEventView::StepStart {
                index,
            },
            AgentEvent::ReasoningDelta(x) => AgentEventView::ReasoningDelta(x@),
            AgentEvent::MessageDelta(x) => AgentEventView::MessageDelta(x@),
            AgentEvent::ToolCall { id, name, args } => AgentEventView::ToolCall {
                id: id@,
                name: name@,
                args: args@,
            },
            AgentEvent::ToolResult { id, name, result } => AgentEventView::ToolResult {
                id: id@,
                name: name@,
                result: result@,
            },
            AgentEvent::StepEnd { index, text, reasoning, usage, model } => AgentEventView::StepEnd {
                index,
                text: text@,
                reasoning: views::optional(reasoning),
                usage,
                model: model@,
            },
            AgentEvent::Done(x) => AgentEventView::Done(x@),
        }
    }
}

impl Clone for AgentEvent {
    fn clone(&self) -> (copy: Self)
        ensures
            copy@ == self@,
    {
        match self {
            AgentEvent::StepStart { index } => AgentEvent::StepStart {
                index: *index,
            },
            AgentEvent::ReasoningDelta(x) => AgentEvent::ReasoningDelta(x.clone()),
            AgentEvent::MessageDelta(x) => AgentEvent::MessageDelta(x.clone()),
            AgentEvent::ToolCall { id, name, args } => AgentEvent::ToolCall {
                id: id.clone(),
                name: name.clone(),
                args: args.clone(),
            },
            AgentEvent::ToolResult { id, name, result } => AgentEvent::ToolResult {
                id: id.clone(),
                name: name.clone(),
                result: result.clone(),
            },
            AgentEvent::StepEnd { index, text, reasoning, usage, model } => AgentEvent::StepEnd {
                index: *index,
                text: text.clone(),
                reasoning: reasoning.clone(),
                usage: *usage,
                model: model.clone(),
            },
            AgentEvent::Done(x) => AgentEvent::Done(x.clone()),
        }
    }
}

} // verus!
