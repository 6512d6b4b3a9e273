//! The agent loop as a state machine.
//!
//! A run waits for one thing at a time: a hook of a middleware, an attempt to
//! open the provider's stream, the next event of that stream, a decision on a
//! tool call, the outcome of a tool. [`AgentRun::phase`] says what it waits for;
//! [`AgentRun::advance`] takes what came back, and returns the events to emit.

use crate::agent;
use crate::agent::{Agent, AgentView};
use crate::collections;
use crate::control::{Approval, ApprovalView, Flow, FlowView};
use crate::error::{AgentError, ProviderError, ProviderErrorView};
use crate::json::JsonView;
use crate::loop_event::{
    AgentEvent, AgentEventView, Finish, FinishView, Outcome, OutcomeView, PendingToolCall,
    PendingToolCallView, Step, StepView, StopCond, ToolOutcome, ToolOutcomeView,
};
use crate::message::{Message, MessageView, UserContentView};
use crate::provider::{
    ChatRequest, ChatRequestView, StopReason, StopReasonView, StreamEvent, StreamEventView, ToolDef,
    ToolDefView,
};
use crate::retry;
use crate::retry::{classify, RetryPolicy, Retryable};
use crate::skill::{Skill, SkillView};
use crate::step;
use crate::step::{
    collect_results, ParsedCallView, StepAccum, StepAccumView, ToolPlan, ToolPlanView,
};
use crate::text;
use crate::text::debug_text;
use crate::usage::Usage;
use crate::views;
use std::time::Duration;
use vstd::prelude::*;

verus! {

/// Steps that a run takes at most.
pub const DEFAULT_MAX_STEPS: u32 = 16;

/// What a run waits for.
#[derive(Debug, Clone, Copy, PartialEq, Eq, Structural)]
pub enum Phase {
    /// The list of the skills.
    ListSkills,
    /// The cache-routing key.
    DeriveCacheKey,
    /// The `on_start` hook of this middleware.
    OnStart(usize),
    /// Whether the run was cancelled.
    CheckCancel,
    /// The `on_step` hook of this middleware.
    OnStep(usize),
    /// This attempt (from zero) to open the stream of the provider at `slot`
    /// and read its first event.
    Acquire {
        /// Position of the provider.
        slot: usize,
        /// The attempt, from zero.
        attempt: u32,
    },
    /// The next event of the stream.
    Streaming,
    /// The decision of this middleware on this call.
    Approving {
        /// Position of the call in the step.
        call: usize,
        /// Position of the middleware.
        middleware: usize,
    },
    /// The outcome of the first planned call without one.
    Dispatching,
    /// The `on_step_done` hook of this middleware.
    OnStepDone(usize),
    /// The `on_finish` hook of this middleware.
    OnFinish(usize),
    /// Nothing: the run has ended.
    Done,
}

/// What an attempt to open a stream gave.
pub enum Attempt {
    /// The run was cancelled before or during the attempt.
    Cancelled,
    /// There was no first event within the timeout.
    TimedOut,
    /// The attempt failed, or the first event was an error.
    Failed(ProviderError),
    /// The stream opened and ended without an event.
    Empty,
    /// The stream opened with this event.
    First(StreamEvent),
}

/// What the open stream gave next.
pub enum Item {
    /// The run was cancelled.
    Cancelled,
    /// The stream ended.
    Finished,
    /// The next event.
    Event(StreamEvent),
    /// The stream failed.
    Failed(ProviderError),
}

/// What came back of what the run waited for.
pub enum Reply {
    /// The listed skills, or the loader's error.
    Skills(Result<Vec<Skill>, AgentError>),
    /// The cache-routing key.
    CacheKey(Option<String>),
    /// What a conversation hook returned.
    Hook(Result<Flow, AgentError>),
    /// Whether the run was cancelled.
    Cancelled(bool),
    /// What an attempt gave.
    Attempt(Attempt),
    /// What the stream gave.
    Item(Item),
    /// What a middleware decided on a call.
    Approval(Result<Approval, AgentError>),
    /// The outcome of a call, and how long it took.
    ToolDone(ToolOutcome, Duration),
    /// An `on_finish` hook is through.
    HookFinished,
}

/// What a [`Reply`] stands for. Errors are taken by the text that a reader sees,
/// except where a retry depends on them.
#[verifier::ext_equal]
pub enum ReplyView {
    /// The listed skills, or the loader's error.
    Skills(Result<Seq<SkillView>, Seq<char>>),
    /// The cache-routing key.
    CacheKey(Option<Seq<char>>),
    /// What a conversation hook returned.
    Hook(Result<FlowView, Seq<char>>),
    /// Whether the run was cancelled.
    Cancelled(bool),
    /// The run was cancelled before or during the attempt.
    AttemptCancelled,
    /// There was no first event within the timeout.
    AttemptTimedOut,
    /// The attempt failed.
    AttemptFailed(ProviderErrorView),
    /// The stream opened and ended without an event.
    AttemptEmpty,
    /// The stream opened with this event.
    AttemptFirst(StreamEventView),
    /// The run was cancelled.
    ItemCancelled,
    /// The stream ended.
    ItemFinished,
    /// The next event.
    ItemEvent(StreamEventView),
    /// The stream failed.
    ItemFailed(ProviderErrorView),
    /// What a middleware decided on a call.
    Approval(Result<ApprovalView, Seq<char>>),
    /// The outcome of a call, and how long it took.
    ToolDone(ToolOutcomeView, Duration),
    /// An `on_finish` hook is through.
    HookFinished,
}

impl View for Reply {
    type V = ReplyView;

    open spec fn view(&self) -> ReplyView {
        match *self {
            Reply::Skills(r) => ReplyView::Skills(
                match r {
                    Ok(skills) => Ok(views::each(skills@)),
                    Err(e) => Err(e.shown()),
                },
            ),
            Reply::CacheKey(key) => ReplyView::CacheKey(views::optional(key)),
            Reply::Hook(r) => ReplyView::Hook(
                match r {
                    Ok(flow) => Ok(flow@),
                    Err(e) => Err(e.shown()),
                },
            ),
            Reply::Cancelled(c) => ReplyView::Cancelled(c),
            Reply::Attempt(Attempt::Cancelled) => ReplyView::AttemptCancelled,
            Reply::Attempt(Attempt::TimedOut) => ReplyView::AttemptTimedOut,
            Reply::Attempt(Attempt::Failed(e)) => ReplyView::AttemptFailed(e@),
            Reply::Attempt(Attempt::Empty) => ReplyView::AttemptEmpty,
            Reply::Attempt(Attempt::First(ev)) => ReplyView::AttemptFirst(ev@),
            Reply::Item(Item::Cancelled) => ReplyView::ItemCancelled,
            Reply::Item(Item::Finished) => ReplyView::ItemFinished,
            Reply::Item(Item::Event(ev)) => ReplyView::ItemEvent(ev@),
            Reply::Item(Item::Failed(e)) => ReplyView::ItemFailed(e@),
            Reply::Approval(r) => ReplyView::Approval(
                match r {
                    Ok(a) => Ok(a@),
                    Err(e) => Err(e.shown()),
                },
            ),
            Reply::ToolDone(outcome, elapsed) => ReplyView::ToolDone(outcome@, elapsed),
            Reply::HookFinished => ReplyView::HookFinished,
        }
    }
}

/// A running agent loop.
pub struct AgentRun {
    phase: Phase,
    skills_active: bool,
    tools: Vec<ToolDef>,
    cache_key: Option<String>,
    started: usize,
    steps: u32,
    final_text: String,
    last_step: Option<Step>,
    request: Option<ChatRequest>,
    last_class: Retryable,
    acc: StepAccum,
    denied: Option<String>,
    plans: Vec<ToolPlan>,
    outcomes: Vec<(ToolOutcome, Duration)>,
    tool_stop: Option<Option<String>>,
    finish: Option<Finish>,
}

/// What an [`AgentRun`] stands for.
#[verifier::ext_equal]
pub struct RunView {
    /// What the run waits for.
    pub phase: Phase,
    /// Whether skills are offered.
    pub skills_active: bool,
    /// The tools that the run offers.
    pub tools: Seq<ToolDefView>,
    /// The cache-routing key.
    pub cache_key: Option<Seq<char>>,
    /// How many middlewares had their `on_start` hook called.
    pub started: usize,
    /// Steps taken.
    pub steps: u32,
    /// The text that the run ends with, so far.
    pub final_text: Seq<char>,
    /// The last step taken.
    pub last_step: Option<StepView>,
    /// The request of the step.
    pub request: Option<ChatRequestView>,
    /// The class of the last failed attempt of the step.
    pub last_class: Retryable,
    /// What the stream of the step gave so far.
    pub acc: StepAccumView,
    /// The reason by which the call under decision is denied, so far.
    pub denied: Option<Seq<char>>,
    /// The calls of the step that were decided on.
    pub plans: Seq<ToolPlanView>,
    /// Their outcomes so far.
    pub outcomes: Seq<(ToolOutcomeView, Duration)>,
    /// The stop that a decision asked for, with its message.
    pub tool_stop: Option<Option<Seq<char>>>,
    /// Why the run ends, once it does.
    pub finish: Option<FinishView>,
}

impl View for AgentRun {
    type V = RunView;

    closed spec fn view(&self) -> RunView {
        RunView {
            phase: self.phase,
            skills_active: self.skills_active,
            tools: views::each(self.tools@),
            cache_key: views::optional(self.cache_key),
            started: self.started,
            steps: self.steps,
            final_text: self.final_text@,
            last_step: views::optional(self.last_step),
            request: views::optional(self.request),
            last_class: self.last_class,
            acc: self.acc@,
            denied: views::optional(self.denied),
            plans: views::each(self.plans@),
            outcomes: step::outcome_views(self.outcomes@),
            tool_stop: match self.tool_stop {
                Some(message) => Some(views::optional(message)),
                None => None,
            },
            finish: views::optional(self.finish),
        }
    }
}

/// A run and its agent after a move, and the events that the move emitted.
#[verifier::ext_equal]
pub struct Moved {
    /// The run.
    pub run: RunView,
    /// The agent.
    pub agent: AgentView,
    /// The events, in order.
    pub events: Seq<AgentEventView>,
}

/// A move that emits nothing.
pub open spec fn silent(run: RunView, agent: AgentView) -> Moved {
    Moved { run, agent, events: Seq::empty() }
}

/// A stop with this message.
pub open spec fn stopped(message: Seq<char>) -> FinishView {
    FinishView::Stopped { message: Some(message) }
}

/// The text of a run that ended so.
pub open spec fn outcome_text(run: RunView, finish: FinishView) -> Seq<char> {
    match finish {
        FinishView::Stopped { message: Some(m) } => m,
        _ => run.final_text,
    }
}

/// The outcome of a run that ended so.
pub open spec fn outcome_of(run: RunView, agent: AgentView, finish: FinishView) -> OutcomeView {
    OutcomeView {
        text: outcome_text(run, finish),
        usage: agent.usage,
        model: agent.model,
        steps: run.steps,
        finish,
    }
}

/// The end of the run: first the `on_finish` hooks of those middlewares that
/// were started, then the terminal event.
pub open spec fn wind_down(run: RunView, agent: AgentView, finish: FinishView) -> Moved {
    let ending = RunView { finish: Some(finish), ..run };
    if run.started == 0 {
        Moved {
            run: RunView { phase: Phase::Done, ..ending },
            agent,
            events: seq![AgentEventView::Done(outcome_of(run, agent, finish))],
        }
    } else {
        silent(RunView { phase: Phase::OnFinish(0), ..ending }, agent)
    }
}

/// The end of the run by a message, which also becomes the final text.
pub open spec fn wind_down_with(run: RunView, agent: AgentView, message: Seq<char>) -> Moved {
    wind_down(RunView { final_text: message, ..run }, agent, stopped(message))
}

/// Once the cache key is known: the `on_start` hooks, then the first step.
pub open spec fn enter_start(run: RunView, agent: AgentView) -> RunView {
    if agent.middleware > 0 {
        RunView { phase: Phase::OnStart(0), started: 1, ..run }
    } else {
        RunView { phase: Phase::CheckCancel, ..run }
    }
}

/// Once the skills are known: the tools of the run are fixed.
pub open spec fn enter_run(run: RunView, agent: AgentView) -> RunView {
    let active = agent.skills.len() > 0;
    RunView {
        phase: Phase::DeriveCacheKey,
        skills_active: active,
        tools: agent::offered_tools(agent.tools, active),
        ..run
    }
}

/// The start of a run: the skills are listed where there is a loader and no run
/// listed them before.
pub open spec fn started_run(agent: AgentView) -> RunView {
    let blank = RunView {
        phase: Phase::ListSkills,
        skills_active: false,
        tools: Seq::empty(),
        cache_key: None,
        started: 0,
        steps: 0,
        final_text: Seq::empty(),
        last_step: None,
        request: None,
        last_class: Retryable::Transient,
        acc: StepAccumView::start(),
        denied: None,
        plans: Seq::empty(),
        outcomes: Seq::empty(),
        tool_stop: None,
        finish: None,
    };
    if !agent.skills_listed && agent.has_loader {
        blank
    } else {
        enter_run(blank, agent)
    }
}

/// The skills were listed, or the loader failed.
pub open spec fn on_skills(
    run: RunView,
    agent: AgentView,
    listed: Result<Seq<SkillView>, Seq<char>>,
) -> Moved {
    match listed {
        Ok(skills) => {
            let after = AgentView { skills, skills_listed: true, ..agent };
            silent(enter_run(run, after), after)
        },
        Err(message) => {
            let finish = stopped("skill loader error: "@ + message);
            Moved {
                run: RunView { phase: Phase::Done, finish: Some(finish), ..run },
                agent,
                events: seq![
                    AgentEventView::Done(
                        OutcomeView { text: Seq::empty(), ..outcome_of(run, agent, finish) },
                    ),
                ],
            }
        },
    }
}

/// An `on_start` hook is through.
pub open spec fn on_started(
    run: RunView,
    agent: AgentView,
    i: usize,
    flow: Result<FlowView, Seq<char>>,
) -> Moved {
    match flow {
        Ok(FlowView::Continue) => if i + 1 < agent.middleware {
            silent(
                RunView {
                    phase: Phase::OnStart((i + 1) as usize),
                    started: (i + 2) as usize,
                    ..run
                },
                agent,
            )
        } else {
            silent(RunView { phase: Phase::CheckCancel, ..run }, agent)
        },
        Ok(FlowView::Stop(message)) => wind_down_with(run, agent, message),
        Err(e) => wind_down(run, agent, stopped("on_start error: "@ + e)),
    }
}

/// The step begins: its request is built and its provider looked up.
pub open spec fn begin_step(run: RunView, agent: AgentView) -> Moved {
    let event = AgentEventView::StepStart { index: run.steps };
    let asked = RunView {
        request: Some(
            agent::step_request(agent, run.tools, run.skills_active, run.cache_key),
        ),
        last_class: Retryable::Transient,
        ..run
    };
    let moved = match collections::lookup(agent.providers, agent.model) {
        Some(slot) => silent(
            RunView { phase: Phase::Acquire { slot, attempt: 0 }, ..asked },
            agent,
        ),
        None => wind_down(
            asked,
            agent,
            stopped(
                "context error: "@ + ("no provider registered for model "@ + text::quoted(
                    agent.model,
                )),
            ),
        ),
    };
    Moved { events: seq![event] + moved.events, ..moved }
}

/// Whether the run was cancelled before a step.
pub open spec fn on_cancel_check(run: RunView, agent: AgentView, cancelled: bool) -> Moved {
    if cancelled {
        wind_down(run, agent, FinishView::Cancelled)
    } else if agent.middleware > 0 {
        silent(RunView { phase: Phase::OnStep(0), ..run }, agent)
    } else {
        begin_step(run, agent)
    }
}

/// An `on_step` hook is through. An error stops the run by its message.
pub open spec fn on_step_hook(
    run: RunView,
    agent: AgentView,
    i: usize,
    flow: Result<FlowView, Seq<char>>,
) -> Moved {
    match flow {
        Ok(FlowView::Continue) => if i + 1 < agent.middleware {
            silent(RunView { phase: Phase::OnStep((i + 1) as usize), ..run }, agent)
        } else {
            begin_step(run, agent)
        },
        Ok(FlowView::Stop(message)) => wind_down_with(run, agent, message),
        Err(e) => wind_down_with(run, agent, "on_step error: "@ + e),
    }
}

/// Attempts that a policy allows.
pub open spec fn attempts_allowed(policy: RetryPolicy) -> int {
    if policy.max_retries == u32::MAX {
        u32::MAX as int
    } else {
        policy.max_retries + 1
    }
}

/// The end of the run by a provider's error.
pub open spec fn provider_stop(run: RunView, agent: AgentView, error: ProviderErrorView) -> Moved {
    wind_down(run, agent, stopped("provider error: "@ + error.shown()))
}

/// An attempt failed: the next one, if the failure may be retried and one is
/// left.
pub open spec fn on_failed_attempt(
    run: RunView,
    agent: AgentView,
    slot: usize,
    attempt: u32,
    error: ProviderErrorView,
) -> Moved {
    let class = class_of_view(error);
    let noted = RunView { last_class: class, ..run };
    if !(class is Fatal) && attempt + 1 < attempts_allowed(agent.retry) {
        silent(
            RunView { phase: Phase::Acquire { slot, attempt: (attempt + 1) as u32 }, ..noted },
            agent,
        )
    } else {
        provider_stop(noted, agent, error)
    }
}

/// The class of an error, by what it stands for.
pub open spec fn class_of_view(error: ProviderErrorView) -> Retryable {
    match error {
        ProviderErrorView::Transport(_) => Retryable::Transient,
        ProviderErrorView::Api { status, kind, message, retry_after } => if status == 429 {
            Retryable::RateLimited { retry_after }
        } else if status >= 500 {
            Retryable::Transient
        } else {
            Retryable::Fatal
        },
        _ => Retryable::Fatal,
    }
}

/// The first event of a step, or a later one.
pub open spec fn take_event(run: RunView, agent: AgentView, event: StreamEventView) -> Moved {
    let (acc, delta) = step::applied(run.acc, event);
    Moved {
        run: RunView { phase: Phase::Streaming, acc, ..run },
        agent,
        events: match delta {
            Some(d) => seq![d],
            None => Seq::empty(),
        },
    }
}

/// The stream opened: the step starts from nothing.
pub open spec fn open_stream(run: RunView, agent: AgentView, event: StreamEventView) -> Moved {
    take_event(RunView { acc: StepAccumView::start(), ..run }, agent, event)
}

/// What an attempt gave.
pub open spec fn on_attempt(
    run: RunView,
    agent: AgentView,
    slot: usize,
    attempt: u32,
    reply: ReplyView,
) -> Moved {
    match reply {
        ReplyView::AttemptCancelled => wind_down(run, agent, FinishView::Cancelled),
        ReplyView::AttemptTimedOut => on_failed_attempt(
            run,
            agent,
            slot,
            attempt,
            ProviderErrorView::Transport("provider call timed out"@),
        ),
        ReplyView::AttemptFailed(error) => on_failed_attempt(run, agent, slot, attempt, error),
        ReplyView::AttemptEmpty => open_stream(
            run,
            agent,
            StreamEventView::End { stop: StopReasonView::EndTurn, usage: Usage::nothing() },
        ),
        ReplyView::AttemptFirst(event) => open_stream(run, agent, event),
        _ => silent(run, agent),
    }
}

/// What the stream gave next.
pub open spec fn on_item(run: RunView, agent: AgentView, reply: ReplyView) -> Moved {
    match reply {
        ReplyView::ItemCancelled => wind_down(run, agent, FinishView::Cancelled),
        ReplyView::ItemFailed(error) => provider_stop(run, agent, error),
        ReplyView::ItemEvent(event) => take_event(run, agent, event),
        ReplyView::ItemFinished => end_stream(run, agent),
        _ => silent(run, agent),
    }
}

/// The stream ended: the assistant turn goes into the conversation, its usage
/// into the tally, and its tool calls are put to the middlewares.
pub open spec fn end_stream(run: RunView, agent: AgentView) -> Moved {
    let spoken = RunView {
        final_text: if run.acc.text.len() > 0 {
            run.acc.text
        } else {
            run.final_text
        },
        denied: None,
        plans: Seq::empty(),
        outcomes: Seq::empty(),
        tool_stop: None,
        ..run
    };
    let after = AgentView {
        messages: agent.messages.push(MessageView::Assistant(step::turn_content(run.acc))),
        usage: agent.usage.plus(run.acc.step_usage),
        ..agent
    };
    next_call(spoken, after, 0)
}

/// The plan for a call that was allowed, or denied for a reason.
pub open spec fn planned(call: ParsedCallView, denied: Option<Seq<char>>) -> ToolPlanView {
    ToolPlanView {
        id: call.id,
        name: call.name,
        args: call.args,
        approval: match denied {
            Some(message) => ApprovalView::Deny { message },
            None => ApprovalView::Allow,
        },
        denied,
        parse_error: call.parse_error,
    }
}

/// The plans for calls that nobody has to decide on.
pub open spec fn all_allowed(calls: Seq<ParsedCallView>) -> Seq<ToolPlanView> {
    calls.map_values(|c: ParsedCallView| planned(c, None))
}

/// The next call to decide on; once there is none, the calls are dispatched.
pub open spec fn next_call(run: RunView, agent: AgentView, call: usize) -> Moved {
    if call < run.acc.tool_calls.len() && agent.middleware > 0 {
        silent(
            RunView { phase: Phase::Approving { call, middleware: 0 }, denied: None, ..run },
            agent,
        )
    } else {
        next_dispatch(
            RunView {
                plans: run.plans + all_allowed(run.acc.tool_calls.skip(call as int)),
                ..run
            },
            agent,
        )
    }
}

/// A middleware decided on a call. A stop, or an error, ends the decisions at
/// once; a denial stands unless another came before it.
pub open spec fn on_approval(
    run: RunView,
    agent: AgentView,
    call: usize,
    middleware: usize,
    decision: Result<ApprovalView, Seq<char>>,
) -> Moved {
    match decision {
        Err(e) => next_dispatch(
            RunView { tool_stop: Some(Some("on_tool_approve error: "@ + e)), ..run },
            agent,
        ),
        Ok(ApprovalView::Stop { message }) => next_dispatch(
            RunView { tool_stop: Some(message), ..run },
            agent,
        ),
        Ok(ApprovalView::Deny { message }) => {
            let denied = match run.denied {
                Some(before) => Some(before),
                None => Some(message),
            };
            decided(RunView { denied, ..run }, agent, call, middleware)
        },
        Ok(ApprovalView::Allow) => decided(run, agent, call, middleware),
    }
}

/// The next middleware is asked; after the last one the call is planned.
pub open spec fn decided(
    run: RunView,
    agent: AgentView,
    call: usize,
    middleware: usize,
) -> Moved {
    if middleware + 1 < agent.middleware {
        silent(
            RunView {
                phase: Phase::Approving { call, middleware: (middleware + 1) as usize },
                ..run
            },
            agent,
        )
    } else if call < run.acc.tool_calls.len() {
        let plan = planned(run.acc.tool_calls[call as int], run.denied);
        next_call(
            RunView { plans: run.plans.push(plan), ..run },
            agent,
            (call + 1) as usize,
        )
    } else {
        next_dispatch(run, agent)
    }
}

/// The outcome of a plan that no tool is asked for.
pub open spec fn settled(plan: ToolPlanView) -> Option<ToolOutcomeView> {
    match (plan.denied, plan.parse_error) {
        (Some(message), _) => Some(ToolOutcomeView::Denied { message }),
        (None, Some(message)) => Some(ToolOutcomeView::Error(message)),
        (None, None) => None,
    }
}

/// The outcomes, with those of settled plans filled in up to the first plan
/// that a tool is asked for.
pub open spec fn filled(
    plans: Seq<ToolPlanView>,
    outcomes: Seq<(ToolOutcomeView, Duration)>,
    zero: Duration,
) -> Seq<(ToolOutcomeView, Duration)>
    decreases plans.len() - outcomes.len(),
{
    if outcomes.len() < plans.len() {
        match settled(plans[outcomes.len() as int]) {
            Some(outcome) => filled(plans, outcomes.push((outcome, zero)), zero),
            None => outcomes,
        }
    } else {
        outcomes
    }
}

/// The elapsed time of a call that no tool was asked for.
pub open spec fn no_time() -> Duration {
    retry::seconds(0)
}

/// The next plan that a tool is asked for; once there is none, the step ends.
pub open spec fn next_dispatch(run: RunView, agent: AgentView) -> Moved {
    let outcomes = filled(run.plans, run.outcomes, no_time());
    let waiting = RunView { outcomes, ..run };
    if outcomes.len() < run.plans.len() {
        silent(RunView { phase: Phase::Dispatching, ..waiting }, agent)
    } else {
        end_step(waiting, agent)
    }
}

/// The outcome of a call came in.
pub open spec fn on_tool_done(
    run: RunView,
    agent: AgentView,
    outcome: ToolOutcomeView,
    elapsed: Duration,
) -> Moved {
    next_dispatch(RunView { outcomes: run.outcomes.push((outcome, elapsed)), ..run }, agent)
}

/// The step ends: its results go into the conversation and are reported, and
/// the middlewares see the step.
pub open spec fn end_step(run: RunView, agent: AgentView) -> Moved {
    let reasoning = if run.acc.reasoning.len() > 0 {
        Some(run.acc.reasoning)
    } else {
        None
    };
    let blocks = step::result_blocks(run.plans, run.outcomes);
    let after = AgentView {
        messages: if blocks.len() > 0 {
            agent.messages.push(MessageView::User(blocks))
        } else {
            agent.messages
        },
        ..agent
    };
    let finished = RunView {
        steps: (run.steps + 1) as u32,
        last_step: Some(
            StepView {
                index: run.steps,
                reasoning,
                text: run.acc.text,
                tool_calls: step::result_records(run.plans, run.outcomes),
                stop: run.acc.stop,
            },
        ),
        ..run
    };
    let report = AgentEventView::StepEnd {
        index: run.steps,
        text: run.acc.text,
        reasoning,
        usage: run.acc.step_usage,
        model: agent.model,
    };
    let moved = if agent.middleware > 0 {
        silent(RunView { phase: Phase::OnStepDone(0), ..finished }, after)
    } else {
        after_step(finished, after)
    };
    Moved {
        events: step::result_events(run.plans, run.outcomes).push(report) + moved.events,
        ..moved
    }
}

/// An `on_step_done` hook is through. An error stops the run by its message.
pub open spec fn on_step_done(
    run: RunView,
    agent: AgentView,
    i: usize,
    flow: Result<FlowView, Seq<char>>,
) -> Moved {
    match flow {
        Ok(FlowView::Continue) => if i + 1 < agent.middleware {
            silent(RunView { phase: Phase::OnStepDone((i + 1) as usize), ..run }, agent)
        } else {
            after_step(run, agent)
        },
        Ok(FlowView::Stop(message)) => wind_down_with(run, agent, message),
        Err(e) => wind_down_with(run, agent, "on_step_done error: "@ + e),
    }
}

/// Whether the run goes on: a stop asked for by a decision comes first, then a
/// step without tool calls ends the turn, then the step limit.
pub open spec fn after_step(run: RunView, agent: AgentView) -> Moved {
    match run.tool_stop {
        Some(message) => wind_down(
            RunView {
                final_text: match message {
                    Some(m) => m,
                    None => run.final_text,
                },
                ..run
            },
            agent,
            FinishView::Stopped { message },
        ),
        None => if run.plans.len() == 0 {
            wind_down(run, agent, FinishView::EndTurn)
        } else if run.steps >= DEFAULT_MAX_STEPS {
            wind_down(run, agent, FinishView::Limit(StopCond::StepCountIs(DEFAULT_MAX_STEPS)))
        } else {
            silent(RunView { phase: Phase::CheckCancel, ..run }, agent)
        },
    }
}

/// An `on_finish` hook is through: the next one, or the terminal event.
pub open spec fn on_hook_finished(run: RunView, agent: AgentView, i: usize) -> Moved {
    if i + 1 < run.started {
        silent(RunView { phase: Phase::OnFinish((i + 1) as usize), ..run }, agent)
    } else {
        let finish = match run.finish {
            Some(f) => f,
            None => FinishView::EndTurn,
        };
        Moved {
            run: RunView { phase: Phase::Done, ..run },
            agent,
            events: seq![AgentEventView::Done(outcome_of(run, agent, finish))],
        }
    }
}

/// What a reply does. One that does not fit what the run waits for does
/// nothing.
pub open spec fn transition(run: RunView, agent: AgentView, reply: ReplyView) -> Moved {
    match (run.phase, reply) {
        (Phase::ListSkills, ReplyView::Skills(listed)) => on_skills(run, agent, listed),
        (Phase::DeriveCacheKey, ReplyView::CacheKey(key)) => silent(
            enter_start(RunView { cache_key: key, ..run }, agent),
            agent,
        ),
        (Phase::OnStart(i), ReplyView::Hook(flow)) => on_started(run, agent, i, flow),
        (Phase::CheckCancel, ReplyView::Cancelled(c)) => on_cancel_check(run, agent, c),
        (Phase::OnStep(i), ReplyView::Hook(flow)) => on_step_hook(run, agent, i, flow),
        (Phase::Acquire { slot, attempt }, _) => on_attempt(run, agent, slot, attempt, reply),
        (Phase::Streaming, _) => on_item(run, agent, reply),
        (Phase::Approving { call, middleware }, ReplyView::Approval(decision)) => on_approval(
            run,
            agent,
            call,
            middleware,
            decision,
        ),
        (Phase::Dispatching, ReplyView::ToolDone(outcome, elapsed)) => on_tool_done(
            run,
            agent,
            outcome,
            elapsed,
        ),
        (Phase::OnStepDone(i), ReplyView::Hook(flow)) => on_step_done(run, agent, i, flow),
        (Phase::OnFinish(i), ReplyView::HookFinished) => on_hook_finished(run, agent, i),
        _ => silent(run, agent),
    }
}

impl RunView {
    /// The phase belongs to a step under way, or comes before the first.
    pub open spec fn stepping(self) -> bool {
        !(self.phase is OnStepDone) && !(self.phase is OnFinish) && !(self.phase is Done)
    }

    /// What holds of every run: the step limit is kept, outcomes answer plans,
    /// and only started middlewares are finished.
    pub open spec fn ok(self) -> bool {
        &&& self.steps <= DEFAULT_MAX_STEPS
        &&& self.stepping() ==> self.steps < DEFAULT_MAX_STEPS
        &&& self.outcomes.len() <= self.plans.len()
        &&& self.phase is OnStart ==> self.started == self.phase->OnStart_0 + 1
        &&& self.phase is Dispatching ==> self.outcomes.len() < self.plans.len()
        &&& self.phase is OnFinish ==> self.phase->OnFinish_0 < self.started && self.finish is Some
        &&& self.phase is Done ==> self.finish is Some
    }
}

/// The run, the agent and the events are those of a move.
spec fn is_move(moved: Moved, run: AgentRun, agent: Agent, events: Seq<AgentEvent>) -> bool {
    &&& moved.run == run@
    &&& moved.agent == agent@
    &&& moved.events == views::each(events)
}

fn no_events() -> (events: Vec<AgentEvent>)
    ensures
        views::each(events@) == Seq::<AgentEventView>::empty(),
{
    let events: Vec<AgentEvent> = Vec::new();
    assert(views::each(events@) =~= Seq::empty());
    events
}

fn one_event(event: AgentEvent) -> (events: Vec<AgentEvent>)
    ensures
        views::each(events@) == seq![event@],
{
    let mut events: Vec<AgentEvent> = Vec::new();
    events.push(event);
    assert(views::each(events@) =~= seq![event@]);
    events
}

fn joined(first: Vec<AgentEvent>, second: Vec<AgentEvent>) -> (events: Vec<AgentEvent>)
    ensures
        views::each(events@) == views::each(first@) + views::each(second@),
{
    let mut events = first;
    let mut more = second;
    events.append(&mut more);
    assert(views::each(events@) =~= views::each(first@) + views::each(second@));
    events
}

fn with_prefix(prefix: &str, text: &str) -> (joined: String)
    ensures
        joined@ == prefix@ + text@,
{
    prefix.to_owned().concat(text)
}

impl AgentRun {
    /// Starts a run of `agent`.
    pub fn start(agent: &Agent) -> (run: AgentRun)
        ensures
            run@ == started_run(agent@),
            run@.ok(),
    {
        let mut run = AgentRun {
            phase: Phase::ListSkills,
            skills_active: false,
            tools: Vec::new(),
            cache_key: None,
            started: 0,
            steps: 0,
            final_text: String::new(),
            last_step: None,
            request: None,
            last_class: Retryable::Transient,
            acc: StepAccum::new(),
            denied: None,
            plans: Vec::new(),
            outcomes: Vec::new(),
            tool_stop: None,
            finish: None,
        };
        proof {
            assert(run@.tools =~= Seq::empty());
            assert(run@.final_text =~= Seq::empty());
            assert(run@.plans =~= Seq::empty());
            assert(run@.outcomes =~= Seq::empty());
        }
        if agent.skills_listed() || !agent.loader_set() {
            run.fix_tools(agent);
        }
        run
    }

    /// What the run waits for.
    pub fn phase(&self) -> (phase: Phase)
        ensures
            phase == self@.phase,
    {
        self.phase
    }

    /// Steps taken so far.
    pub fn steps(&self) -> (steps: u32)
        ensures
            steps == self@.steps,
    {
        self.steps
    }

    /// The last step taken.
    pub fn last_step(&self) -> (step: Option<&Step>)
        ensures
            match step {
                Some(s) => self@.last_step == Some(s@),
                None => self@.last_step is None,
            },
    {
        self.last_step.as_ref()
    }

    /// The step index that the hook or decision under way is told: that of the
    /// step just taken after a step, else that of the next one.
    pub fn hook_index(&self) -> (index: u32)
        ensures
            index == (match (self@.phase, self@.last_step) {
                (Phase::OnStart(_), _) => 0,
                (Phase::OnStepDone(_), Some(step)) => step.index,
                _ => self@.steps,
            }),
    {
        match self.phase {
            Phase::OnStart(_) => 0,
            Phase::OnStepDone(_) => match &self.last_step {
                Some(step) => step.index,
                None => self.steps,
            },
            _ => self.steps,
        }
    }

    /// The step that the hook or decision under way is shown: none before the
    /// first and after the last one.
    pub fn hook_step(&self) -> (step: Option<&Step>)
        ensures
            match (self@.phase, step) {
                (Phase::OnStart(_), s) => s is None,
                (Phase::OnFinish(_), s) => s is None,
                (_, Some(s)) => self@.last_step == Some(s@),
                (_, None) => self@.last_step is None,
            },
    {
        match self.phase {
            Phase::OnStart(_) => None,
            Phase::OnFinish(_) => None,
            _ => self.last_step.as_ref(),
        }
    }

    /// The request of the step under way.
    pub fn request(&self) -> (request: Option<&ChatRequest>)
        ensures
            match request {
                Some(r) => self@.request == Some(r@),
                None => self@.request is None,
            },
    {
        self.request.as_ref()
    }

    /// The delay before an attempt: none before the first one of a step.
    pub fn attempt_delay(&self, agent: &Agent) -> (delay: Option<Duration>)
        ensures
            match self@.phase {
                Phase::Acquire { slot, attempt } => if attempt == 0 {
                    delay is None
                } else {
                    delay is Some && retry::nanos(delay->0) == agent@.retry.delay_nanos(
                        (attempt - 1) as u32,
                        self@.last_class,
                    )
                },
                _ => delay is None,
            },
    {
        match self.phase {
            Phase::Acquire { slot: _, attempt } => if attempt == 0 {
                None
            } else {
                Some(agent.retry_policy().retry_delay(attempt - 1, &self.last_class))
            },
            _ => None,
        }
    }

    /// The call that a middleware has to decide on.
    pub fn pending_call(&self) -> (call: Option<PendingToolCall>)
        ensures
            match self@.phase {
                Phase::Approving { call: c, middleware } => if c < self@.acc.tool_calls.len() {
                    views::optional(call) == Some(
                        PendingToolCallView {
                            id: self@.acc.tool_calls[c as int].id,
                            name: self@.acc.tool_calls[c as int].name,
                            args: self@.acc.tool_calls[c as int].args,
                        },
                    )
                } else {
                    call is None
                },
                _ => call is None,
            },
    {
        match self.phase {
            Phase::Approving { call: c, middleware: _ } => if c < self.acc.tool_calls.len() {
                let pending = &self.acc.tool_calls[c];
                Some(
                    PendingToolCall {
                        id: pending.id.clone(),
                        name: pending.name.clone(),
                        args: pending.args.clone(),
                    },
                )
            } else {
                None
            },
            _ => None,
        }
    }

    /// The calls of the step that were decided on, in order.
    pub fn plans(&self) -> (plans: &Vec<ToolPlan>)
        ensures
            views::each(plans@) == self@.plans,
    {
        &self.plans
    }

    /// How many of the planned calls have their outcome.
    pub fn resolved(&self) -> (count: usize)
        ensures
            count == self@.outcomes.len(),
    {
        self.outcomes.len()
    }

    fn fix_tools(&mut self, agent: &Agent)
        ensures
            final(self)@ == enter_run(old(self)@, agent@),
    {
        self.phase = Phase::DeriveCacheKey;
        self.skills_active = agent.has_skills();
        self.tools = agent.run_tools(self.skills_active);
    }

    fn outcome(&self, agent: &Agent, finish: &Finish) -> (outcome: Outcome)
        ensures
            outcome@ == outcome_of(self@, agent@, finish@),
    {
        let text = match finish {
            Finish::Stopped { message: Some(m) } => m.clone(),
            _ => self.final_text.clone(),
        };
        Outcome {
            text,
            usage: *agent.usage(),
            model: agent.current_model().to_owned(),
            steps: self.steps,
            finish: finish.clone(),
        }
    }

    fn wind_down(&mut self, agent: &Agent, finish: Finish) -> (events: Vec<AgentEvent>)
        ensures
            is_move(wind_down(old(self)@, agent@, finish@), *final(self), *agent, events@),
    {
        let done = self.outcome(agent, &finish);
        self.finish = Some(finish);
        if self.started == 0 {
            self.phase = Phase::Done;
            one_event(AgentEvent::Done(done))
        } else {
            self.phase = Phase::OnFinish(0);
            no_events()
        }
    }

    fn stop(&mut self, agent: &Agent, message: String) -> (events: Vec<AgentEvent>)
        ensures
            is_move(
                wind_down(old(self)@, agent@, stopped(message@)),
                *final(self),
                *agent,
                events@,
            ),
    {
        self.wind_down(agent, Finish::Stopped { message: Some(message) })
    }

    fn stop_with(&mut self, agent: &Agent, message: String) -> (events: Vec<AgentEvent>)
        ensures
            is_move(
                wind_down_with(old(self)@, agent@, message@),
                *final(self),
                *agent,
                events@,
            ),
    {
        self.final_text = message.clone();
        self.stop(agent, message)
    }

    fn skills_listed(
        &mut self,
        agent: &mut Agent,
        listed: Result<Vec<Skill>, AgentError>,
    ) -> (events: Vec<AgentEvent>)
        ensures
            is_move(
                on_skills(
                    old(self)@,
                    old(agent)@,
                    match listed {
                        Ok(skills) => Ok(views::each(skills@)),
                        Err(e) => Err(e.shown()),
                    },
                ),
                *final(self),
                *final(agent),
                events@,
            ),
    {
        match listed {
            Ok(skills) => {
                agent.set_skills(skills);
                self.fix_tools(agent);
                no_events()
            },
            Err(e) => {
                let message = with_prefix("skill loader error: ", e.to_text().as_str());
                let finish = Finish::Stopped { message: Some(message) };
                let mut done = self.outcome(agent, &finish);
                done.text = String::new();
                assert(done@.text =~= Seq::empty());
                self.finish = Some(finish);
                self.phase = Phase::Done;
                one_event(AgentEvent::Done(done))
            },
        }
    }

    fn start_hooks(&mut self, agent: &Agent)
        ensures
            final(self)@ == enter_start(old(self)@, agent@),
    {
        if agent.middleware_count() > 0 {
            self.phase = Phase::OnStart(0);
            self.started = 1;
        } else {
            self.phase = Phase::CheckCancel;
        }
    }

    fn hook_started(
        &mut self,
        agent: &Agent,
        i: usize,
        flow: Result<Flow, AgentError>,
    ) -> (events: Vec<AgentEvent>)
        ensures
            is_move(
                on_started(old(self)@, agent@, i, flow_view(flow)),
                *final(self),
                *agent,
                events@,
            ),
    {
        match flow {
            Ok(Flow::Continue) => {
                let count: usize = agent.middleware_count();
                if count > 0 && i < count - 1 {
                    self.phase = Phase::OnStart(i + 1);
                    self.started = i + 2;
                } else {
                    self.phase = Phase::CheckCancel;
                }
                no_events()
            },
            Ok(Flow::Stop(message)) => self.stop_with(agent, message),
            Err(e) => self.stop(agent, with_prefix("on_start error: ", e.to_text().as_str())),
        }
    }

    fn begin_step(&mut self, agent: &Agent) -> (events: Vec<AgentEvent>)
        ensures
            is_move(begin_step(old(self)@, agent@), *final(self), *agent, events@),
    {
        let first = one_event(AgentEvent::StepStart { index: self.steps });
        self.request = Some(agent.build_request(&self.tools, self.skills_active, &self.cache_key));
        self.last_class = Retryable::Transient;
        let rest = match agent.active_provider() {
            Some(slot) => {
                self.phase = Phase::Acquire { slot, attempt: 0 };
                no_events()
            },
            None => {
                let shown = debug_text(agent.current_model());
                let error = AgentError::context(
                    with_prefix("no provider registered for model ", shown.as_str()),
                );
                self.stop(agent, error.to_text())
            },
        };
        joined(first, rest)
    }

    fn cancel_checked(&mut self, agent: &Agent, cancelled: bool) -> (events: Vec<AgentEvent>)
        ensures
            is_move(
                on_cancel_check(old(self)@, agent@, cancelled),
                *final(self),
                *agent,
                events@,
            ),
    {
        if cancelled {
            self.wind_down(agent, Finish::Cancelled)
        } else if agent.middleware_count() > 0 {
            self.phase = Phase::OnStep(0);
            no_events()
        } else {
            self.begin_step(agent)
        }
    }

    fn hook_stepped(
        &mut self,
        agent: &Agent,
        i: usize,
        flow: Result<Flow, AgentError>,
    ) -> (events: Vec<AgentEvent>)
        ensures
            is_move(
                on_step_hook(old(self)@, agent@, i, flow_view(flow)),
                *final(self),
                *agent,
                events@,
            ),
    {
        match flow {
            Ok(Flow::Continue) => {
                let count: usize = agent.middleware_count();
                if count > 0 && i < count - 1 {
                    self.phase = Phase::OnStep(i + 1);
                    no_events()
                } else {
                    self.begin_step(agent)
                }
            },
            Ok(Flow::Stop(message)) => self.stop_with(agent, message),
            Err(e) => self.stop_with(agent, with_prefix("on_step error: ", e.to_text().as_str())),
        }
    }

    fn provider_failed(
        &mut self,
        agent: &Agent,
        error: &ProviderError,
    ) -> (events: Vec<AgentEvent>)
        ensures
            is_move(
                provider_stop(old(self)@, agent@, error@),
                *final(self),
                *agent,
                events@,
            ),
    {
        self.stop(agent, with_prefix("provider error: ", error.to_text().as_str()))
    }

    fn attempt_failed(
        &mut self,
        agent: &Agent,
        slot: usize,
        attempt: u32,
        error: ProviderError,
    ) -> (events: Vec<AgentEvent>)
        ensures
            is_move(
                on_failed_attempt(old(self)@, agent@, slot, attempt, error@),
                *final(self),
                *agent,
                events@,
            ),
    {
        let class = classify(&error);
        assert(class == class_of_view(error@));
        let policy = agent.retry_policy();
        let allowed: u32 = policy.max_retries.saturating_add(1);
        let again = policy.is_retryable(&class);
        self.last_class = class;
        if again && attempt < allowed - 1 {
            self.phase = Phase::Acquire { slot, attempt: attempt + 1 };
            no_events()
        } else {
            self.provider_failed(agent, &error)
        }
    }

    fn event_taken(&mut self, event: StreamEvent) -> (events: Vec<AgentEvent>)
        ensures
            take_event(old(self)@, arbitrary(), event@).run == final(self)@,
            take_event(old(self)@, arbitrary(), event@).events == views::each(events@),
    {
        self.phase = Phase::Streaming;
        match self.acc.apply(event) {
            Some(delta) => one_event(delta),
            None => no_events(),
        }
    }

    fn attempted(
        &mut self,
        agent: &Agent,
        slot: usize,
        attempt: u32,
        result: Attempt,
    ) -> (events: Vec<AgentEvent>)
        ensures
            is_move(
                on_attempt(old(self)@, agent@, slot, attempt, Reply::Attempt(result)@),
                *final(self),
                *agent,
                events@,
            ),
    {
        match result {
            Attempt::Cancelled => self.wind_down(agent, Finish::Cancelled),
            Attempt::TimedOut => self.attempt_failed(
                agent,
                slot,
                attempt,
                ProviderError::Transport("provider call timed out".to_owned()),
            ),
            Attempt::Failed(error) => self.attempt_failed(agent, slot, attempt, error),
            Attempt::Empty => {
                self.acc = StepAccum::new();
                self.event_taken(
                    StreamEvent::End { stop: StopReason::EndTurn, usage: Usage::zero() },
                )
            },
            Attempt::First(event) => {
                self.acc = StepAccum::new();
                self.event_taken(event)
            },
        }
    }

    fn item_arrived(&mut self, agent: &mut Agent, item: Item) -> (events: Vec<AgentEvent>)
        requires
            old(self)@.ok(),
            old(self)@.stepping(),
        ensures
            is_move(
                on_item(old(self)@, old(agent)@, Reply::Item(item)@),
                *final(self),
                *final(agent),
                events@,
            ),
    {
        match item {
            Item::Cancelled => self.wind_down(agent, Finish::Cancelled),
            Item::Failed(error) => self.provider_failed(agent, &error),
            Item::Event(event) => self.event_taken(event),
            Item::Finished => self.stream_ended(agent),
        }
    }

    fn stream_ended(&mut self, agent: &mut Agent) -> (events: Vec<AgentEvent>)
        requires
            old(self)@.ok(),
            old(self)@.stepping(),
        ensures
            is_move(
                end_stream(old(self)@, old(agent)@),
                *final(self),
                *final(agent),
                events@,
            ),
    {
        let blocks = self.acc.assistant_content();
        if !self.acc.text.as_str().is_empty() {
            self.final_text = self.acc.text.clone();
        }
        self.denied = None;
        self.plans = Vec::new();
        self.outcomes = Vec::new();
        self.tool_stop = None;
        assert(self@.plans =~= Seq::empty());
        assert(self@.outcomes =~= Seq::empty());
        agent.push(Message::Assistant(blocks));
        agent.add_usage(&self.acc.step_usage);
        self.ask_next(agent, 0)
    }

    fn plan_for(&self, call: usize, denied: Option<String>) -> (plan: ToolPlan)
        requires
            call < self@.acc.tool_calls.len(),
        ensures
            plan@ == planned(self@.acc.tool_calls[call as int], views::optional(denied)),
    {
        let c = &self.acc.tool_calls[call];
        let approval = match &denied {
            Some(message) => Approval::Deny { message: message.clone() },
            None => Approval::Allow,
        };
        ToolPlan {
            id: c.id.clone(),
            name: c.name.clone(),
            args: c.args.clone(),
            approval,
            denied,
            parse_error: c.parse_error.clone(),
        }
    }

    fn add_plan(&mut self, plan: ToolPlan)
        ensures
            final(self)@ == (RunView { plans: old(self)@.plans.push(plan@), ..old(self)@ }),
    {
        let ghost before = self.plans@;
        self.plans.push(plan);
        assert(views::each(self.plans@) =~= views::each(before).push(plan@));
    }

    fn ask_next(&mut self, agent: &mut Agent, call: usize) -> (events: Vec<AgentEvent>)
        requires
            old(self)@.steps < DEFAULT_MAX_STEPS,
            old(self)@.outcomes.len() <= old(self)@.plans.len(),
            call <= old(self)@.acc.tool_calls.len(),
        ensures
            is_move(
                next_call(old(self)@, old(agent)@, call),
                *final(self),
                *final(agent),
                events@,
            ),
    {
        if call < self.acc.tool_calls.len() && agent.middleware_count() > 0 {
            self.phase = Phase::Approving { call, middleware: 0 };
            self.denied = None;
            return no_events();
        }
        let ghost start = self@;
        let ghost calls = self@.acc.tool_calls;
        let mut i: usize = call;
        assert(start.plans + all_allowed(calls.subrange(call as int, call as int))
            =~= start.plans);
        while i < self.acc.tool_calls.len()
            invariant
                call <= i <= calls.len(),
                calls == self@.acc.tool_calls,
                calls.len() == self.acc.tool_calls@.len(),
                self@ == (RunView {
                    plans: start.plans + all_allowed(calls.subrange(call as int, i as int)),
                    ..start
                }),
            decreases calls.len() - i,
        {
            let plan = self.plan_for(i, None);
            let ghost before = self@.plans;
            self.add_plan(plan);
            assert(before.push(plan@) =~= start.plans + all_allowed(
                calls.subrange(call as int, i + 1),
            ));
            i = i + 1;
        }
        assert(calls.subrange(call as int, i as int) =~= calls.skip(call as int));
        self.dispatch_next(agent)
    }

    fn approval_given(
        &mut self,
        agent: &mut Agent,
        call: usize,
        middleware: usize,
        decision: Result<Approval, AgentError>,
    ) -> (events: Vec<AgentEvent>)
        requires
            old(self)@.ok(),
            old(self)@.stepping(),
        ensures
            is_move(
                on_approval(
                    old(self)@,
                    old(agent)@,
                    call,
                    middleware,
                    match decision {
                        Ok(a) => Ok(a@),
                        Err(e) => Err(e.shown()),
                    },
                ),
                *final(self),
                *final(agent),
                events@,
            ),
    {
        match decision {
            Err(e) => {
                self.tool_stop = Some(
                    Some(with_prefix("on_tool_approve error: ", e.to_text().as_str())),
                );
                self.dispatch_next(agent)
            },
            Ok(Approval::Stop { message }) => {
                self.tool_stop = Some(message);
                self.dispatch_next(agent)
            },
            Ok(Approval::Deny { message }) => {
                if self.denied.is_none() {
                    self.denied = Some(message);
                }
                self.call_decided(agent, call, middleware)
            },
            Ok(Approval::Allow) => self.call_decided(agent, call, middleware),
        }
    }

    fn call_decided(
        &mut self,
        agent: &mut Agent,
        call: usize,
        middleware: usize,
    ) -> (events: Vec<AgentEvent>)
        requires
            old(self)@.steps < DEFAULT_MAX_STEPS,
            old(self)@.outcomes.len() <= old(self)@.plans.len(),
        ensures
            is_move(
                decided(old(self)@, old(agent)@, call, middleware),
                *final(self),
                *final(agent),
                events@,
            ),
    {
        let count: usize = agent.middleware_count();
        if count > 0 && middleware < count - 1 {
            self.phase = Phase::Approving { call, middleware: middleware + 1 };
            no_events()
        } else if call < self.acc.tool_calls.len() {
            let plan = self.plan_for(call, self.denied.clone());
            self.add_plan(plan);
            self.ask_next(agent, call + 1)
        } else {
            self.dispatch_next(agent)
        }
    }

    fn dispatch_next(&mut self, agent: &mut Agent) -> (events: Vec<AgentEvent>)
        requires
            old(self)@.steps < DEFAULT_MAX_STEPS,
            old(self)@.outcomes.len() <= old(self)@.plans.len(),
        ensures
            is_move(
                next_dispatch(old(self)@, old(agent)@),
                *final(self),
                *final(agent),
                events@,
            ),
    {
        let ghost start = self@;
        let mut waiting = false;
        while self.outcomes.len() < self.plans.len() && !waiting
            invariant
                self@.outcomes.len() <= self@.plans.len(),
                self@ == (RunView { outcomes: self@.outcomes, ..start }),
                filled(start.plans, start.outcomes, no_time()) == filled(
                    start.plans,
                    self@.outcomes,
                    no_time(),
                ),
                waiting ==> self@.outcomes.len() < self@.plans.len() && settled(
                    self@.plans[self@.outcomes.len() as int],
                ) is None,
            decreases self@.plans.len() - self@.outcomes.len(), if waiting { 0int } else { 1 },
        {
            let ghost before = self.outcomes@;
            let plan = &self.plans[self.outcomes.len()];
            assert(plan@ == self@.plans[self@.outcomes.len() as int]);
            let known: Option<ToolOutcome> = match &plan.denied {
                Some(message) => Some(ToolOutcome::Denied { message: message.clone() }),
                None => match &plan.parse_error {
                    Some(message) => Some(ToolOutcome::Error(message.clone())),
                    None => None,
                },
            };
            match known {
                Some(outcome) => {
                    self.outcomes.push((outcome, Duration::from_secs(0)));
                    assert(step::outcome_views(self.outcomes@) =~= step::outcome_views(
                        before,
                    ).push((outcome@, no_time())));
                },
                None => {
                    waiting = true;
                },
            }
        }
        if waiting {
            self.phase = Phase::Dispatching;
            no_events()
        } else {
            self.step_ended(agent)
        }
    }

    fn tool_done(
        &mut self,
        agent: &mut Agent,
        outcome: ToolOutcome,
        elapsed: Duration,
    ) -> (events: Vec<AgentEvent>)
        requires
            old(self)@.ok(),
            old(self)@.phase is Dispatching,
        ensures
            is_move(
                on_tool_done(old(self)@, old(agent)@, outcome@, elapsed),
                *final(self),
                *final(agent),
                events@,
            ),
    {
        let ghost before = self.outcomes@;
        self.outcomes.push((outcome, elapsed));
        assert(step::outcome_views(self.outcomes@) =~= step::outcome_views(before).push(
            (outcome@, elapsed),
        ));
        self.dispatch_next(agent)
    }

    fn step_ended(&mut self, agent: &mut Agent) -> (events: Vec<AgentEvent>)
        requires
            old(self)@.steps < DEFAULT_MAX_STEPS,
            old(self)@.outcomes.len() == old(self)@.plans.len(),
        ensures
            is_move(end_step(old(self)@, old(agent)@), *final(self), *final(agent), events@),
    {
        let ghost start = self@;
        let results = collect_results(&self.plans, &self.outcomes);
        let reasoning: Option<String> = if self.acc.reasoning.as_str().is_empty() {
            None
        } else {
            Some(self.acc.reasoning.clone())
        };
        let mut first = results.events;
        let ghost reported = first@;
        let report = AgentEvent::StepEnd {
            index: self.steps,
            text: self.acc.text.clone(),
            reasoning: reasoning.clone(),
            usage: self.acc.step_usage,
            model: agent.current_model().to_owned(),
        };
        first.push(report);
        assert(views::each(first@) =~= views::each(reported).push(report@));
        if results.blocks.len() > 0 {
            agent.push(Message::User(results.blocks));
        }
        self.last_step = Some(
            Step {
                index: self.steps,
                reasoning,
                text: self.acc.text.clone(),
                tool_calls: results.records,
                stop: self.acc.stop.clone(),
            },
        );
        self.steps = self.steps + 1;
        let rest = if agent.middleware_count() > 0 {
            self.phase = Phase::OnStepDone(0);
            no_events()
        } else {
            self.go_on(agent)
        };
        joined(first, rest)
    }

    fn hook_step_done(
        &mut self,
        agent: &Agent,
        i: usize,
        flow: Result<Flow, AgentError>,
    ) -> (events: Vec<AgentEvent>)
        ensures
            is_move(
                on_step_done(old(self)@, agent@, i, flow_view(flow)),
                *final(self),
                *agent,
                events@,
            ),
    {
        match flow {
            Ok(Flow::Continue) => {
                let count: usize = agent.middleware_count();
                if count > 0 && i < count - 1 {
                    self.phase = Phase::OnStepDone(i + 1);
                    no_events()
                } else {
                    self.go_on(agent)
                }
            },
            Ok(Flow::Stop(message)) => self.stop_with(agent, message),
            Err(e) => self.stop_with(
                agent,
                with_prefix("on_step_done error: ", e.to_text().as_str()),
            ),
        }
    }

    fn go_on(&mut self, agent: &Agent) -> (events: Vec<AgentEvent>)
        ensures
            is_move(after_step(old(self)@, agent@), *final(self), *agent, events@),
    {
        match &self.tool_stop {
            Some(message) => {
                let message = message.clone();
                match &message {
                    Some(m) => {
                        self.final_text = m.clone();
                    },
                    None => {},
                }
                self.wind_down(agent, Finish::Stopped { message })
            },
            None => if self.plans.len() == 0 {
                self.wind_down(agent, Finish::EndTurn)
            } else if self.steps >= DEFAULT_MAX_STEPS {
                self.wind_down(agent, Finish::Limit(StopCond::StepCountIs(DEFAULT_MAX_STEPS)))
            } else {
                self.phase = Phase::CheckCancel;
                no_events()
            },
        }
    }

    fn hook_finished(&mut self, agent: &Agent, i: usize) -> (events: Vec<AgentEvent>)
        ensures
            is_move(on_hook_finished(old(self)@, agent@, i), *final(self), *agent, events@),
    {
        if self.started > 0 && i < self.started - 1 {
            self.phase = Phase::OnFinish(i + 1);
            no_events()
        } else {
            let finish = match &self.finish {
                Some(f) => f.clone(),
                None => Finish::EndTurn,
            };
            let done = self.outcome(agent, &finish);
            self.phase = Phase::Done;
            one_event(AgentEvent::Done(done))
        }
    }

    /// Takes what came back of what the run waited for, and returns the events
    /// to emit. A reply that does not fit does nothing.
    pub fn advance(&mut self, agent: &mut Agent, reply: Reply) -> (events: Vec<AgentEvent>)
        requires
            old(self)@.ok(),
        ensures
            ({
                let moved = transition(old(self)@, old(agent)@, reply@);
                &&& final(self)@ == moved.run
                &&& final(agent)@ == moved.agent
                &&& views::each(events@) == moved.events
            }),
            final(self)@.ok(),
    {
        proof {
            every_move_keeps_the_run_ok(self@, agent@, reply@);
        }
        match (self.phase, reply) {
            (Phase::ListSkills, Reply::Skills(listed)) => self.skills_listed(agent, listed),
            (Phase::DeriveCacheKey, Reply::CacheKey(key)) => {
                self.cache_key = key;
                self.start_hooks(agent);
                no_events()
            },
            (Phase::OnStart(i), Reply::Hook(flow)) => self.hook_started(agent, i, flow),
            (Phase::CheckCancel, Reply::Cancelled(c)) => self.cancel_checked(agent, c),
            (Phase::OnStep(i), Reply::Hook(flow)) => self.hook_stepped(agent, i, flow),
            (Phase::Acquire { slot, attempt }, Reply::Attempt(result)) => self.attempted(
                agent,
                slot,
                attempt,
                result,
            ),
            (Phase::Streaming, Reply::Item(item)) => self.item_arrived(agent, item),
            (Phase::Approving { call, middleware }, Reply::Approval(decision)) =>
                self.approval_given(agent, call, middleware, decision),
            (Phase::Dispatching, Reply::ToolDone(outcome, elapsed)) => self.tool_done(
                agent,
                outcome,
                elapsed,
            ),
            (Phase::OnStepDone(i), Reply::Hook(flow)) => self.hook_step_done(agent, i, flow),
            (Phase::OnFinish(i), Reply::HookFinished) => self.hook_finished(agent, i),
            _ => no_events(),
        }
    }
}

/// What a hook's result stands for.
pub open spec fn flow_view(flow: Result<Flow, AgentError>) -> Result<FlowView, Seq<char>> {
    match flow {
        Ok(f) => Ok(f@),
        Err(e) => Err(e.shown()),
    }
}

/// Filling in settled outcomes never passes the plans, and stops at a plan
/// that a tool is asked for.
proof fn lemma_filled(
    plans: Seq<ToolPlanView>,
    outcomes: Seq<(ToolOutcomeView, Duration)>,
    zero: Duration,
)
    requires
        outcomes.len() <= plans.len(),
    ensures
        outcomes.len() <= filled(plans, outcomes, zero).len() <= plans.len(),
        outcomes.is_prefix_of(filled(plans, outcomes, zero)),
    decreases plans.len() - outcomes.len(),
{
    if outcomes.len() < plans.len() {
        match settled(plans[outcomes.len() as int]) {
            Some(outcome) => {
                let more = outcomes.push((outcome, zero));
                lemma_filled(plans, more, zero);
                let all = filled(plans, outcomes, zero);
                assert(more.is_prefix_of(all));
                assert forall|i: int| 0 <= i < outcomes.len() implies outcomes[i] == all[i] by {
                    assert(outcomes[i] == more[i]);
                }
                assert(outcomes =~= all.take(outcomes.len() as int));
            },
            None => {},
        }
    }
}

proof fn lemma_after_step_ok(run: RunView, agent: AgentView)
    requires
        run.steps <= DEFAULT_MAX_STEPS,
        run.outcomes.len() <= run.plans.len(),
    ensures
        after_step(run, agent).run.ok(),
{
}

proof fn lemma_next_dispatch_ok(run: RunView, agent: AgentView)
    requires
        run.steps < DEFAULT_MAX_STEPS,
        run.outcomes.len() <= run.plans.len(),
    ensures
        next_dispatch(run, agent).run.ok(),
{
    lemma_filled(run.plans, run.outcomes, no_time());
    let outcomes = filled(run.plans, run.outcomes, no_time());
    let waiting = RunView { outcomes, ..run };
    let blocks = step::result_blocks(run.plans, outcomes);
    let after = AgentView {
        messages: if blocks.len() > 0 {
            agent.messages.push(MessageView::User(blocks))
        } else {
            agent.messages
        },
        ..agent
    };
    if outcomes.len() == run.plans.len() && agent.middleware == 0 {
        let ended = end_step(waiting, agent);
        let finished = RunView {
            steps: (run.steps + 1) as u32,
            last_step: ended.run.last_step,
            ..waiting
        };
        lemma_after_step_ok(finished, after);
        assert(ended.run == after_step(finished, after).run);
    }
}

proof fn lemma_next_call_ok(run: RunView, agent: AgentView, call: usize)
    requires
        run.steps < DEFAULT_MAX_STEPS,
        run.outcomes.len() <= run.plans.len(),
    ensures
        next_call(run, agent, call).run.ok(),
{
    lemma_next_dispatch_ok(
        RunView {
            plans: run.plans + all_allowed(run.acc.tool_calls.skip(call as int)),
            ..run
        },
        agent,
    );
}

proof fn lemma_approval_ok(
    run: RunView,
    agent: AgentView,
    call: usize,
    middleware: usize,
    decision: Result<ApprovalView, Seq<char>>,
)
    requires
        run.steps < DEFAULT_MAX_STEPS,
        run.outcomes.len() <= run.plans.len(),
    ensures
        on_approval(run, agent, call, middleware, decision).run.ok(),
{
    match decision {
        Err(e) => {
            lemma_next_dispatch_ok(
                RunView { tool_stop: Some(Some("on_tool_approve error: "@ + e)), ..run },
                agent,
            );
        },
        Ok(ApprovalView::Stop { message }) => {
            lemma_next_dispatch_ok(RunView { tool_stop: Some(message), ..run }, agent);
        },
        Ok(ApprovalView::Deny { message }) => {
            let denied = match run.denied {
                Some(before) => Some(before),
                None => Some(message),
            };
            lemma_decided_ok(RunView { denied, ..run }, agent, call, middleware);
        },
        Ok(ApprovalView::Allow) => {
            lemma_decided_ok(run, agent, call, middleware);
        },
    }
}

proof fn lemma_decided_ok(run: RunView, agent: AgentView, call: usize, middleware: usize)
    requires
        run.steps < DEFAULT_MAX_STEPS,
        run.outcomes.len() <= run.plans.len(),
    ensures
        decided(run, agent, call, middleware).run.ok(),
{
    if call < run.acc.tool_calls.len() {
        let plan = planned(run.acc.tool_calls[call as int], run.denied);
        lemma_next_call_ok(
            RunView { plans: run.plans.push(plan), ..run },
            agent,
            (call + 1) as usize,
        );
    }
    lemma_next_dispatch_ok(run, agent);
}

proof fn lemma_begin_step_ok(run: RunView, agent: AgentView)
    requires
        run.steps < DEFAULT_MAX_STEPS,
        run.outcomes.len() <= run.plans.len(),
    ensures
        begin_step(run, agent).run.ok(),
{
}

proof fn lemma_item_ok(run: RunView, agent: AgentView, reply: ReplyView)
    requires
        run.ok(),
        run.phase is Streaming,
    ensures
        on_item(run, agent, reply).run.ok(),
{
    if reply is ItemFinished {
        let moved = end_stream(run, agent);
        let spoken = RunView {
            final_text: if run.acc.text.len() > 0 {
                run.acc.text
            } else {
                run.final_text
            },
            denied: None,
            plans: Seq::empty(),
            outcomes: Seq::empty(),
            tool_stop: None,
            ..run
        };
        let after = AgentView {
            messages: agent.messages.push(MessageView::Assistant(step::turn_content(run.acc))),
            usage: agent.usage.plus(run.acc.step_usage),
            ..agent
        };
        lemma_next_call_ok(spoken, after, 0);
        assert(moved == next_call(spoken, after, 0));
    }
}

proof fn lemma_hooks_ok(run: RunView, agent: AgentView, reply: ReplyView)
    requires
        run.ok(),
        run.phase is OnStart || run.phase is CheckCancel || run.phase is OnStep
            || run.phase is OnStepDone || run.phase is OnFinish || run.phase is Acquire,
    ensures
        transition(run, agent, reply).run.ok(),
{
    if run.stepping() {
        lemma_begin_step_ok(run, agent);
    }
    lemma_after_step_ok(run, agent);
}

/// Whatever comes back, the run keeps what holds of every run: the step limit,
/// an outcome for no more than the plans, and hooks finished only where they
/// were started.
pub proof fn every_move_keeps_the_run_ok(run: RunView, agent: AgentView, reply: ReplyView)
    requires
        run.ok(),
    ensures
        transition(run, agent, reply).run.ok(),
{
    match run.phase {
        Phase::Streaming => {
            lemma_item_ok(run, agent, reply);
        },
        Phase::Approving { call, middleware } => {
            if let ReplyView::Approval(decision) = reply {
                lemma_approval_ok(run, agent, call, middleware, decision);
            }
        },
        Phase::Dispatching => {
            if let ReplyView::ToolDone(outcome, elapsed) = reply {
                lemma_next_dispatch_ok(
                    RunView { outcomes: run.outcomes.push((outcome, elapsed)), ..run },
                    agent,
                );
            }
        },
        Phase::ListSkills => {},
        Phase::DeriveCacheKey => {},
        Phase::Done => {},
        _ => {
            lemma_hooks_ok(run, agent, reply);
        },
    }
}

/// The terminal event stands at the end, where there is to be one, and nowhere
/// else.
pub open spec fn ends_with_done(events: Seq<AgentEventView>, done: bool) -> bool {
    &&& done ==> events.len() > 0
    &&& forall|i: int|
        0 <= i < events.len() ==> ((#[trigger] events[i]) is Done) == (done && i == events.len()
            - 1)
}

/// The agent after a move differs at most by a longer conversation, a larger
/// tally and freshly listed skills.
pub open spec fn grown(before: AgentView, after: AgentView) -> bool {
    &&& before.messages.is_prefix_of(after.messages)
    &&& before.usage.within(after.usage)
    &&& after == (AgentView {
        messages: after.messages,
        usage: after.usage,
        skills: after.skills,
        skills_listed: after.skills_listed,
        ..before
    })
}

/// A move leaves the agent grown at most, and emits the terminal event exactly
/// when the run ends.
pub open spec fn faithful(agent: AgentView, moved: Moved) -> bool {
    &&& grown(agent, moved.agent)
    &&& ends_with_done(moved.events, moved.run.phase is Done)
}

proof fn lemma_grown_refl(agent: AgentView)
    ensures
        grown(agent, agent),
{
    assert(agent.messages =~= agent.messages.take(agent.messages.len() as int));
}

proof fn lemma_grown_trans(a: AgentView, b: AgentView, c: AgentView)
    requires
        grown(a, b),
        grown(b, c),
    ensures
        grown(a, c),
{
    assert(a.messages =~= c.messages.take(a.messages.len() as int)) by {
        assert forall|i: int| 0 <= i < a.messages.len() implies a.messages[i] == c.messages[i] by {
            assert(a.messages[i] == b.messages.take(a.messages.len() as int)[i]);
            assert(b.messages[i] == c.messages.take(b.messages.len() as int)[i]);
        }
    }
}

proof fn lemma_grown_push(agent: AgentView, message: MessageView)
    ensures
        grown(agent, AgentView { messages: agent.messages.push(message), ..agent }),
{
    assert(agent.messages =~= agent.messages.push(message).take(agent.messages.len() as int));
}

proof fn lemma_done_after(first: Seq<AgentEventView>, rest: Seq<AgentEventView>, done: bool)
    requires
        forall|i: int| 0 <= i < first.len() ==> !((#[trigger] first[i]) is Done),
        ends_with_done(rest, done),
    ensures
        ends_with_done(first + rest, done),
{
    let all = first + rest;
    assert forall|i: int| 0 <= i < all.len() implies ((#[trigger] all[i]) is Done) == (done && i
        == all.len() - 1) by {
        if i < first.len() {
            assert(!(first[i] is Done));
        } else {
            assert(rest[i - first.len()] == all[i]);
        }
    }
}

proof fn lemma_after_step_faithful(run: RunView, agent: AgentView)
    ensures
        faithful(agent, after_step(run, agent)),
{
    lemma_grown_refl(agent);
}

proof fn lemma_begin_step_faithful(run: RunView, agent: AgentView)
    ensures
        faithful(agent, begin_step(run, agent)),
{
    lemma_grown_refl(agent);
}

proof fn lemma_end_step_faithful(run: RunView, agent: AgentView)
    ensures
        faithful(agent, end_step(run, agent)),
{
    let moved = end_step(run, agent);
    let blocks = step::result_blocks(run.plans, run.outcomes);
    let after = AgentView {
        messages: if blocks.len() > 0 {
            agent.messages.push(MessageView::User(blocks))
        } else {
            agent.messages
        },
        ..agent
    };
    lemma_grown_refl(agent);
    lemma_grown_push(agent, MessageView::User(blocks));
    assert(grown(agent, after));
    let finished = RunView {
        steps: (run.steps + 1) as u32,
        last_step: moved.run.last_step,
        ..run
    };
    lemma_after_step_faithful(finished, after);
    lemma_grown_trans(agent, after, after_step(finished, after).agent);
    let reasoning = if run.acc.reasoning.len() > 0 {
        Some(run.acc.reasoning)
    } else {
        None
    };
    let report = AgentEventView::StepEnd {
        index: run.steps,
        text: run.acc.text,
        reasoning,
        usage: run.acc.step_usage,
        model: agent.model,
    };
    let first = step::result_events(run.plans, run.outcomes).push(report);
    let rest = if agent.middleware > 0 {
        Seq::empty()
    } else {
        after_step(finished, after).events
    };
    assert(moved.events == first + rest);
    lemma_done_after(first, rest, moved.run.phase is Done);
}

proof fn lemma_next_dispatch_faithful(run: RunView, agent: AgentView)
    ensures
        faithful(agent, next_dispatch(run, agent)),
{
    lemma_grown_refl(agent);
    lemma_end_step_faithful(
        RunView { outcomes: filled(run.plans, run.outcomes, no_time()), ..run },
        agent,
    );
}

proof fn lemma_next_call_faithful(run: RunView, agent: AgentView, call: usize)
    ensures
        faithful(agent, next_call(run, agent, call)),
{
    lemma_grown_refl(agent);
    lemma_next_dispatch_faithful(
        RunView {
            plans: run.plans + all_allowed(run.acc.tool_calls.skip(call as int)),
            ..run
        },
        agent,
    );
}

proof fn lemma_decided_faithful(run: RunView, agent: AgentView, call: usize, middleware: usize)
    ensures
        faithful(agent, decided(run, agent, call, middleware)),
{
    lemma_grown_refl(agent);
    lemma_next_dispatch_faithful(run, agent);
    if call < run.acc.tool_calls.len() {
        let plan = planned(run.acc.tool_calls[call as int], run.denied);
        lemma_next_call_faithful(
            RunView { plans: run.plans.push(plan), ..run },
            agent,
            (call + 1) as usize,
        );
    }
}

proof fn lemma_approval_faithful(
    run: RunView,
    agent: AgentView,
    call: usize,
    middleware: usize,
    decision: Result<ApprovalView, Seq<char>>,
)
    ensures
        faithful(agent, on_approval(run, agent, call, middleware, decision)),
{
    match decision {
        Err(e) => {
            lemma_next_dispatch_faithful(
                RunView { tool_stop: Some(Some("on_tool_approve error: "@ + e)), ..run },
                agent,
            );
        },
        Ok(ApprovalView::Stop { message }) => {
            lemma_next_dispatch_faithful(RunView { tool_stop: Some(message), ..run }, agent);
        },
        Ok(ApprovalView::Deny { message }) => {
            let denied = match run.denied {
                Some(before) => Some(before),
                None => Some(message),
            };
            lemma_decided_faithful(RunView { denied, ..run }, agent, call, middleware);
        },
        Ok(ApprovalView::Allow) => {
            lemma_decided_faithful(run, agent, call, middleware);
        },
    }
}

proof fn lemma_end_stream_faithful(run: RunView, agent: AgentView)
    ensures
        faithful(agent, end_stream(run, agent)),
{
    let turn = MessageView::Assistant(step::turn_content(run.acc));
    let spoken = RunView {
        final_text: if run.acc.text.len() > 0 {
            run.acc.text
        } else {
            run.final_text
        },
        denied: None,
        plans: Seq::empty(),
        outcomes: Seq::empty(),
        tool_stop: None,
        ..run
    };
    let after = AgentView {
        messages: agent.messages.push(turn),
        usage: agent.usage.plus(run.acc.step_usage),
        ..agent
    };
    lemma_grown_push(agent, turn);
    assert(grown(agent, after));
    lemma_next_call_faithful(spoken, after, 0);
    lemma_grown_trans(agent, after, next_call(spoken, after, 0).agent);
}

proof fn lemma_simple_phases_faithful(run: RunView, agent: AgentView, reply: ReplyView)
    requires
        !(run.phase is Done),
        !(run.phase is Streaming),
        !(run.phase is Approving),
        !(run.phase is Dispatching),
    ensures
        faithful(agent, transition(run, agent, reply)),
{
    lemma_grown_refl(agent);
    lemma_begin_step_faithful(run, agent);
    lemma_after_step_faithful(run, agent);
}

/// While a run is under way the loop itself only appends to the conversation
/// and adds to the tally, and leaves the model, the prompt, the tools and the
/// registered providers alone. The terminal event is emitted by the move that
/// ends the run, as its last event, and by no other.
pub proof fn every_move_grows_the_session_and_ends_once(
    run: RunView,
    agent: AgentView,
    reply: ReplyView,
)
    requires
        !(run.phase is Done),
    ensures
        faithful(agent, transition(run, agent, reply)),
{
    lemma_grown_refl(agent);
    match run.phase {
        Phase::Streaming => {
            lemma_end_stream_faithful(run, agent);
        },
        Phase::Approving { call, middleware } => {
            if let ReplyView::Approval(decision) = reply {
                lemma_approval_faithful(run, agent, call, middleware, decision);
            }
        },
        Phase::Dispatching => {
            if let ReplyView::ToolDone(outcome, elapsed) = reply {
                lemma_next_dispatch_faithful(
                    RunView { outcomes: run.outcomes.push((outcome, elapsed)), ..run },
                    agent,
                );
            }
        },
        _ => {
            lemma_simple_phases_faithful(run, agent, reply);
        },
    }
}

/// An ended run stays as it is, whatever comes.
pub proof fn an_ended_run_stays_ended(run: RunView, agent: AgentView, reply: ReplyView)
    requires
        run.phase is Done,
    ensures
        transition(run, agent, reply) == silent(run, agent),
{
}

/// A permanent failure is never retried, and a step makes at most one attempt
/// more than the policy's retries. A retry leaves no trace: nothing is emitted,
/// and the session stays as it is.
pub proof fn retries_are_bounded_and_never_for_a_permanent_failure(
    run: RunView,
    agent: AgentView,
    slot: usize,
    attempt: u32,
    reply: ReplyView,
)
    requires
        run.phase == (Phase::Acquire { slot, attempt }),
        transition(run, agent, reply).run.phase is Acquire,
        transition(run, agent, reply).run.phase != run.phase,
    ensures
        transition(run, agent, reply).run.phase == (Phase::Acquire {
            slot,
            attempt: (attempt + 1) as u32,
        }),
        attempt + 1 <= agent.retry.max_retries,
        reply matches ReplyView::AttemptFailed(error) ==> !(class_of_view(error) is Fatal),
        !(transition(run, agent, reply).run.last_class is Fatal),
        transition(run, agent, reply).events.len() == 0,
        transition(run, agent, reply).agent == agent,
{
}

/// The decisions of the middlewares on one call, in order, put together: the
/// first stop wins, else the first denial, else the call is allowed.
pub open spec fn combined(decisions: Seq<ApprovalView>) -> ApprovalView
    decreases decisions.len(),
{
    if decisions.len() == 0 {
        ApprovalView::Allow
    } else {
        match (combined(decisions.drop_last()), decisions.last()) {
            (ApprovalView::Stop { message }, _) => ApprovalView::Stop { message },
            (_, ApprovalView::Stop { message }) => ApprovalView::Stop { message },
            (ApprovalView::Deny { message }, _) => ApprovalView::Deny { message },
            (_, other) => other,
        }
    }
}

/// The run after middlewares decided on the call under decision, one reply
/// each.
pub open spec fn after_decisions(
    run: RunView,
    agent: AgentView,
    decisions: Seq<ApprovalView>,
) -> Moved
    decreases decisions.len(),
{
    if decisions.len() == 0 {
        silent(run, agent)
    } else {
        let before = after_decisions(run, agent, decisions.drop_last());
        transition(before.run, before.agent, ReplyView::Approval(Ok(decisions.last())))
    }
}

/// Once every middleware has decided on a call, without a stop, the call is
/// planned by the first denial, or allowed; until then the decisions so far are
/// kept.
pub proof fn a_denial_stands_unless_a_stop_comes(
    run: RunView,
    agent: AgentView,
    call: usize,
    decisions: Seq<ApprovalView>,
)
    requires
        run.phase == (Phase::Approving { call, middleware: 0 }),
        run.denied is None,
        call < run.acc.tool_calls.len(),
        decisions.len() <= agent.middleware,
        !(combined(decisions) is Stop),
    ensures
        ({
            let denied = match combined(decisions) {
                ApprovalView::Deny { message } => Some(message),
                _ => None,
            };
            if decisions.len() < agent.middleware {
                after_decisions(run, agent, decisions) == silent(
                    RunView {
                        phase: Phase::Approving { call, middleware: decisions.len() as usize },
                        denied,
                        ..run
                    },
                    agent,
                )
            } else {
                decisions.len() > 0 ==> after_decisions(run, agent, decisions) == next_call(
                    RunView {
                        phase: Phase::Approving { call, middleware: (decisions.len() - 1) as usize },
                        denied,
                        plans: run.plans.push(
                            planned(run.acc.tool_calls[call as int], denied),
                        ),
                        ..run
                    },
                    agent,
                    (call + 1) as usize,
                )
            }
        }),
    decreases decisions.len(),
{
    if decisions.len() > 0 {
        a_denial_stands_unless_a_stop_comes(run, agent, call, decisions.drop_last());
    }
}

/// A stop decided on a call ends the decisions at once: the calls before it are
/// dispatched, it and the calls behind it are not.
pub proof fn a_stop_cuts_off_the_calls_behind_it(
    run: RunView,
    agent: AgentView,
    call: usize,
    middleware: usize,
    message: Option<Seq<char>>,
)
    requires
        run.phase == (Phase::Approving { call, middleware }),
    ensures
        transition(run, agent, ReplyView::Approval(Ok(ApprovalView::Stop { message })))
            == next_dispatch(RunView { tool_stop: Some(message), ..run }, agent),
{
}

/// The plans are those of the first calls of the step, in order.
pub open spec fn plans_follow(plans: Seq<ToolPlanView>, calls: Seq<ParsedCallView>) -> bool {
    &&& plans.len() <= calls.len()
    &&& forall|i: int|
        0 <= i < plans.len() ==> (#[trigger] plans[i]).id == calls[i].id && plans[i].name
            == calls[i].name && plans[i].args == calls[i].args
}

impl RunView {
    /// The plans follow the calls; unless a stop cut them off, there is one for
    /// each call once all were decided on.
    pub open spec fn plans_ok(self) -> bool {
        &&& self.phase is Approving || self.phase is Dispatching ==> plans_follow(
            self.plans,
            self.acc.tool_calls,
        )
        &&& self.phase is Approving ==> self.phase->call == self.plans.len() && self.phase->call
            < self.acc.tool_calls.len() && self.tool_stop is None && self.outcomes.len() == 0
        &&& self.phase is Dispatching && self.tool_stop is None ==> self.plans.len()
            == self.acc.tool_calls.len()
    }
}

/// While its calls are decided on and run, the assistant turn of the step stands
/// at the end of the conversation.
pub open spec fn turn_in_place(run: RunView, agent: AgentView) -> bool {
    run.phase is Approving || run.phase is Dispatching ==> agent.messages.len() > 0
        && agent.messages.last() == MessageView::Assistant(step::turn_content(run.acc))
}

/// The one text of a result block is what its call gave: a string as it is, any
/// other value as JSON, and the message of a denial or an error.
pub open spec fn shows_outcome(block: UserContentView, outcome: ToolOutcomeView) -> bool {
    match (step::only_text(block), outcome) {
        (Some(text), ToolOutcomeView::Success(JsonView::Text(s))) => text == s,
        (Some(text), ToolOutcomeView::Success(value)) => text == crate::json::text_of_json(value),
        (Some(text), ToolOutcomeView::Denied { message }) => text == message,
        (Some(text), ToolOutcomeView::Error(message)) => text == message,
        (None, _) => false,
    }
}

/// A move that ends a step leaves at the end of the conversation the assistant
/// turn with its calls and one user turn with a result for each call, with its
/// id, in the order of the calls. A result shows what its call gave and is no error
/// exactly where that succeeded, and the results are reported in that order too,
/// before anything else.
pub open spec fn calls_answered(run: RunView, moved: Moved) -> bool {
    let calls = run.acc.tool_calls;
    let messages = moved.agent.messages;
    let outcomes = moved.run.outcomes;
    moved.run.steps != run.steps && moved.run.tool_stop is None && calls.len() > 0 ==> {
        &&& messages.len() >= 2
        &&& messages[messages.len() - 2] == MessageView::Assistant(step::turn_content(run.acc))
        &&& step::tool_use_ids(step::turn_content(run.acc)) == calls.map_values(
            |c: ParsedCallView| c.id,
        )
        &&& messages.last() matches MessageView::User(blocks)
        &&& blocks.len() == calls.len()
        &&& outcomes.len() == calls.len()
        &&& moved.events.len() >= calls.len()
        &&& forall|i: int|
            0 <= i < blocks.len() ==> {
                &&& (#[trigger] blocks[i]) is ToolResult
                &&& blocks[i]->id == calls[i].id
                &&& blocks[i]->is_error == !(outcomes[i].0 is Success)
                &&& shows_outcome(blocks[i], outcomes[i].0)
            }
        &&& forall|i: int|
            0 <= i < calls.len() ==> #[trigger] moved.events[i] == (AgentEventView::ToolResult {
                id: calls[i].id,
                name: calls[i].name,
                result: outcomes[i].0,
            })
    }
}

proof fn lemma_next_dispatch_answers(run: RunView, agent: AgentView)
    requires
        run.steps < DEFAULT_MAX_STEPS,
        run.outcomes.len() <= run.plans.len(),
        plans_follow(run.plans, run.acc.tool_calls),
        run.tool_stop is None ==> run.plans.len() == run.acc.tool_calls.len(),
        agent.messages.len() > 0,
        agent.messages.last() == MessageView::Assistant(step::turn_content(run.acc)),
    ensures
        next_dispatch(run, agent).run.plans_ok(),
        turn_in_place(next_dispatch(run, agent).run, next_dispatch(run, agent).agent),
        calls_answered(run, next_dispatch(run, agent)),
{
    lemma_filled(run.plans, run.outcomes, no_time());
    let outcomes = filled(run.plans, run.outcomes, no_time());
    let blocks = step::result_blocks(run.plans, outcomes);
    let events = step::result_events(run.plans, outcomes);
    let moved = next_dispatch(run, agent);
    let calls = run.acc.tool_calls;
    if outcomes.len() == run.plans.len() {
        assert(moved.run.tool_stop == run.tool_stop);
        assert(moved.run.outcomes == outcomes);
        if run.plans.len() > 0 {
            step::the_turn_holds_every_call(run.acc);
            assert(blocks.len() == run.plans.len());
            assert(moved.agent.messages == agent.messages.push(
                crate::message::MessageView::User(blocks),
            ));
            assert(moved.agent.messages.last() == MessageView::User(blocks));
            assert forall|i: int| 0 <= i < blocks.len() implies ((#[trigger] blocks[i])
                is ToolResult && blocks[i]->id == run.plans[i].id && blocks[i]->is_error == !(
            outcomes[i].0 is Success) && shows_outcome(blocks[i], outcomes[i].0)) by {
                step::the_model_sees_what_came_of_a_call(run.plans, outcomes, i);
            }
            assert(moved.events.take(events.len() as int) =~= events);
            if run.tool_stop is None {
                assert forall|i: int| 0 <= i < calls.len() implies #[trigger] moved.events[i] == (
                AgentEventView::ToolResult {
                    id: calls[i].id,
                    name: calls[i].name,
                    result: outcomes[i].0,
                }) by {
                    assert(moved.events[i] == moved.events.take(events.len() as int)[i]);
                    assert(run.plans[i].id == calls[i].id);
                }
            }
        }
    }
}

proof fn lemma_next_call_answers(run: RunView, agent: AgentView, call: usize)
    requires
        run.steps < DEFAULT_MAX_STEPS,
        run.outcomes.len() == 0,
        plans_follow(run.plans, run.acc.tool_calls),
        run.plans.len() == call,
        run.tool_stop is None,
        agent.messages.len() > 0,
        agent.messages.last() == MessageView::Assistant(step::turn_content(run.acc)),
    ensures
        next_call(run, agent, call).run.plans_ok(),
        turn_in_place(next_call(run, agent, call).run, next_call(run, agent, call).agent),
        calls_answered(run, next_call(run, agent, call)),
{
    let calls = run.acc.tool_calls;
    let all = run.plans + all_allowed(calls.skip(call as int));
    assert forall|i: int| 0 <= i < all.len() implies (#[trigger] all[i]).id == calls[i].id
        && all[i].name == calls[i].name && all[i].args == calls[i].args by {
        if i < call {
            assert(all[i] == run.plans[i]);
        } else {
            assert(all[i] == planned(calls.skip(call as int)[i - call], None));
        }
    }
    lemma_next_dispatch_answers(RunView { plans: all, ..run }, agent);
}

/// Every call of a step is answered, unless a decision stopped the run: the
/// assistant turn with the calls is followed by one user turn with one result for
/// each, in the order of the calls. Hooks that decide on a call only read the
/// conversation, so the assistant turn is in place when the results come.
pub proof fn every_call_is_answered_in_order(run: RunView, agent: AgentView, reply: ReplyView)
    requires
        run.ok(),
        run.plans_ok(),
        turn_in_place(run, agent),
        run.acc.tool_calls.len() <= usize::MAX,
    ensures
        started_run(agent).plans_ok(),
        turn_in_place(started_run(agent), agent),
        transition(run, agent, reply).run.plans_ok(),
        turn_in_place(transition(run, agent, reply).run, transition(run, agent, reply).agent),
        calls_answered(run, transition(run, agent, reply)),
{
    let calls = run.acc.tool_calls;
    match run.phase {
        Phase::Streaming => {
            if reply is ItemFinished {
                let spoken = RunView {
                    final_text: if run.acc.text.len() > 0 {
                        run.acc.text
                    } else {
                        run.final_text
                    },
                    denied: None,
                    plans: Seq::empty(),
                    outcomes: Seq::empty(),
                    tool_stop: None,
                    ..run
                };
                let after = AgentView {
                    messages: agent.messages.push(
                        MessageView::Assistant(step::turn_content(run.acc)),
                    ),
                    usage: agent.usage.plus(run.acc.step_usage),
                    ..agent
                };
                lemma_next_call_answers(spoken, after, 0);
            }
        },
        Phase::Approving { call, middleware } => {
            if let ReplyView::Approval(decision) = reply {
                lemma_approval_answers(run, agent, call, middleware, decision);
            }
        },
        Phase::Dispatching => {
            if let ReplyView::ToolDone(outcome, elapsed) = reply {
                lemma_next_dispatch_answers(
                    RunView { outcomes: run.outcomes.push((outcome, elapsed)), ..run },
                    agent,
                );
            }
        },
        _ => {},
    }
}

proof fn lemma_approval_answers(
    run: RunView,
    agent: AgentView,
    call: usize,
    middleware: usize,
    decision: Result<ApprovalView, Seq<char>>,
)
    requires
        run.ok(),
        run.plans_ok(),
        turn_in_place(run, agent),
        run.acc.tool_calls.len() <= usize::MAX,
        run.phase == (Phase::Approving { call, middleware }),
    ensures
        on_approval(run, agent, call, middleware, decision).run.plans_ok(),
        turn_in_place(
            on_approval(run, agent, call, middleware, decision).run,
            on_approval(run, agent, call, middleware, decision).agent,
        ),
        calls_answered(run, on_approval(run, agent, call, middleware, decision)),
{
    let calls = run.acc.tool_calls;
    let denied = match (run.denied, decision) {
        (None, Ok(ApprovalView::Deny { message })) => Some(message),
        _ => run.denied,
    };
    let more = run.plans.push(planned(calls[call as int], denied));
    assert forall|i: int| 0 <= i < more.len() implies (#[trigger] more[i]).id == calls[i].id
        && more[i].name == calls[i].name && more[i].args == calls[i].args by {
        if i < call {
            assert(more[i] == run.plans[i]);
        }
    }
    match decision {
        Err(e) => {
            lemma_next_dispatch_answers(
                RunView { tool_stop: Some(Some("on_tool_approve error: "@ + e)), ..run },
                agent,
            );
        },
        Ok(ApprovalView::Stop { message }) => {
            lemma_next_dispatch_answers(RunView { tool_stop: Some(message), ..run }, agent);
        },
        _ => {
            lemma_next_call_answers(
                RunView { denied, plans: more, ..run },
                agent,
                (call + 1) as usize,
            );
        },
    }
}

/// The run after `n` finish hooks are through.
pub open spec fn after_finish_hooks(run: RunView, agent: AgentView, n: nat) -> Moved
    decreases n,
{
    if n == 0 {
        silent(run, agent)
    } else {
        let before = after_finish_hooks(run, agent, (n - 1) as nat);
        transition(before.run, before.agent, ReplyView::HookFinished)
    }
}

/// Once the skills were listed, even to none, no later run lists them again.
pub proof fn skills_are_listed_once(
    run: RunView,
    agent: AgentView,
    skills: Seq<SkillView>,
    later: AgentView,
)
    requires
        run.phase is ListSkills,
        later.skills_listed == transition(
            run,
            agent,
            ReplyView::Skills(Ok(skills)),
        ).agent.skills_listed,
    ensures
        !(started_run(later).phase is ListSkills),
{
}

/// However a run ends, the finish hooks of exactly those middlewares run that
/// were started, in order; then, and not before, it is done.
pub proof fn finish_hooks_mirror_start_hooks(
    run: RunView,
    agent: AgentView,
    finish: FinishView,
    n: nat,
)
    requires
        n <= run.started,
    ensures
        ({
            let ending = wind_down(run, agent, finish);
            let after = after_finish_hooks(ending.run, ending.agent, n);
            &&& after.agent == agent
            &&& after.run == (RunView {
                phase: if n < run.started {
                    Phase::OnFinish(n as usize)
                } else {
                    Phase::Done
                },
                finish: Some(finish),
                ..run
            })
        }),
    decreases n,
{
    if n > 0 {
        finish_hooks_mirror_start_hooks(run, agent, finish, (n - 1) as nat);
    }
}

/// How far the events of a run have come.
#[verifier::ext_equal]
pub struct Progress {
    /// Steps that ended.
    pub steps: nat,
    /// Whether a step was started that has not ended.
    pub open: bool,
    /// The text of that step so far.
    pub text: Seq<char>,
    /// Whether the terminal event came.
    pub done: bool,
}

impl Progress {
    /// Before the first event.
    pub open spec fn start() -> Progress {
        Progress { steps: 0, open: false, text: Seq::empty(), done: false }
    }
}

/// One event, where it is in order. Steps start and end in turn, from zero; what
/// a step says comes between; the text at its end is what was said; nothing
/// comes after the terminal event, which gives the number of steps that ended.
pub open spec fn noted(progress: Progress, event: AgentEventView) -> Option<Progress> {
    if progress.done {
        None
    } else {
        match event {
            AgentEventView::StepStart { index } => if !progress.open && index == progress.steps {
                Some(Progress { open: true, text: Seq::empty(), ..progress })
            } else {
                None
            },
            AgentEventView::MessageDelta(t) => if progress.open {
                Some(Progress { text: progress.text + t, ..progress })
            } else {
                None
            },
            AgentEventView::StepEnd { index, text, reasoning, usage, model } => if progress.open
                && index == progress.steps && text == progress.text {
                Some(Progress { steps: progress.steps + 1, open: false, ..progress })
            } else {
                None
            },
            AgentEventView::Done(outcome) => if outcome.steps == progress.steps {
                Some(Progress { done: true, ..progress })
            } else {
                None
            },
            _ => if progress.open {
                Some(progress)
            } else {
                None
            },
        }
    }
}

/// Events in turn; `None` where one is out of order.
pub open spec fn noted_all(
    progress: Option<Progress>,
    events: Seq<AgentEventView>,
) -> Option<Progress>
    decreases events.len(),
{
    if events.len() == 0 {
        progress
    } else {
        match noted_all(progress, events.drop_last()) {
            Some(so_far) => noted(so_far, events.last()),
            None => None,
        }
    }
}

/// What the events have come to fits what the run waits for.
pub open spec fn in_step(progress: Progress, run: RunView) -> bool {
    &&& progress.steps == run.steps
    &&& progress.done == (run.phase is Done)
    &&& run.phase is Acquire ==> progress.open && progress.text == Seq::<char>::empty()
    &&& run.phase is Streaming || run.phase is Approving || run.phase is Dispatching
        ==> progress.open && progress.text == run.acc.text
    &&& run.phase is ListSkills || run.phase is DeriveCacheKey || run.phase is OnStart
        || run.phase is CheckCancel || run.phase is OnStep || run.phase is OnStepDone
        ==> !progress.open
}

proof fn lemma_noted_one(progress: Progress, event: AgentEventView)
    ensures
        noted_all(Some(progress), seq![event]) == noted(progress, event),
        noted_all(Some(progress), Seq::empty()) == Some(progress),
{
    reveal_with_fuel(noted_all, 2);
    assert(seq![event].drop_last() =~= Seq::empty());
}

proof fn lemma_noted_split(
    progress: Option<Progress>,
    first: Seq<AgentEventView>,
    second: Seq<AgentEventView>,
)
    ensures
        noted_all(progress, first + second) == noted_all(noted_all(progress, first), second),
    decreases second.len(),
{
    if second.len() == 0 {
        assert(first + second =~= first);
    } else {
        lemma_noted_split(progress, first, second.drop_last());
        assert((first + second).drop_last() =~= first + second.drop_last());
    }
}

/// The events of a move are in order, and bring the progress to where the run
/// stands.
pub open spec fn in_order(progress: Progress, moved: Moved) -> bool {
    match noted_all(Some(progress), moved.events) {
        Some(after) => in_step(after, moved.run),
        None => false,
    }
}

proof fn lemma_wind_down_in_order(
    progress: Progress,
    run: RunView,
    agent: AgentView,
    finish: FinishView,
)
    requires
        !progress.done,
        progress.steps == run.steps,
    ensures
        in_order(progress, wind_down(run, agent, finish)),
{
    lemma_noted_one(progress, AgentEventView::Done(outcome_of(run, agent, finish)));
}

proof fn lemma_begin_step_in_order(progress: Progress, run: RunView, agent: AgentView)
    requires
        !progress.done,
        !progress.open,
        progress.steps == run.steps,
    ensures
        in_order(progress, begin_step(run, agent)),
{
    let event = AgentEventView::StepStart { index: run.steps };
    let opened = Progress { open: true, text: Seq::empty(), ..progress };
    let asked = RunView {
        request: Some(
            agent::step_request(agent, run.tools, run.skills_active, run.cache_key),
        ),
        last_class: Retryable::Transient,
        ..run
    };
    lemma_noted_one(progress, event);
    lemma_noted_one(opened, event);
    let finish = stopped(
        "context error: "@ + ("no provider registered for model "@ + text::quoted(agent.model)),
    );
    lemma_wind_down_in_order(opened, asked, agent, finish);
    let rest = match collections::lookup(agent.providers, agent.model) {
        Some(slot) => Seq::empty(),
        None => wind_down(asked, agent, finish).events,
    };
    assert(begin_step(run, agent).events == seq![event] + rest);
    lemma_noted_split(Some(progress), seq![event], rest);
}

proof fn lemma_take_event_in_order(
    progress: Progress,
    run: RunView,
    agent: AgentView,
    event: StreamEventView,
)
    requires
        !progress.done,
        progress.open,
        progress.steps == run.steps,
        progress.text == run.acc.text,
    ensures
        in_order(progress, take_event(run, agent, event)),
{
    let (acc, delta) = step::applied(run.acc, event);
    match delta {
        Some(d) => {
            lemma_noted_one(progress, d);
        },
        None => {
            lemma_noted_one(progress, AgentEventView::StepStart { index: 0 });
        },
    }
}

proof fn lemma_results_in_order(
    progress: Progress,
    plans: Seq<ToolPlanView>,
    outcomes: Seq<(ToolOutcomeView, Duration)>,
    n: int,
)
    requires
        !progress.done,
        progress.open,
        0 <= n <= plans.len(),
    ensures
        noted_all(Some(progress), step::result_events(plans, outcomes).take(n)) == Some(progress),
    decreases n,
{
    let events = step::result_events(plans, outcomes);
    if n > 0 {
        lemma_results_in_order(progress, plans, outcomes, n - 1);
        assert(events.take(n).drop_last() =~= events.take(n - 1));
    }
}

proof fn lemma_after_step_in_order(progress: Progress, run: RunView, agent: AgentView)
    requires
        !progress.done,
        !progress.open,
        progress.steps == run.steps,
    ensures
        in_order(progress, after_step(run, agent)),
{
    lemma_noted_one(progress, AgentEventView::StepStart { index: 0 });
    match run.tool_stop {
        Some(message) => {
            let ended = RunView {
                final_text: match message {
                    Some(m) => m,
                    None => run.final_text,
                },
                ..run
            };
            lemma_wind_down_in_order(progress, ended, agent, FinishView::Stopped { message });
        },
        None => {
            lemma_wind_down_in_order(progress, run, agent, FinishView::EndTurn);
            lemma_wind_down_in_order(
                progress,
                run,
                agent,
                FinishView::Limit(StopCond::StepCountIs(DEFAULT_MAX_STEPS)),
            );
        },
    }
}

proof fn lemma_end_step_in_order(progress: Progress, run: RunView, agent: AgentView)
    requires
        run.steps < DEFAULT_MAX_STEPS,
        !progress.done,
        progress.open,
        progress.steps == run.steps,
        progress.text == run.acc.text,
    ensures
        in_order(progress, end_step(run, agent)),
{
    let moved = end_step(run, agent);
    let results = step::result_events(run.plans, run.outcomes);
    lemma_results_in_order(progress, run.plans, run.outcomes, run.plans.len() as int);
    assert(results.take(run.plans.len() as int) =~= results);
    let reasoning = if run.acc.reasoning.len() > 0 {
        Some(run.acc.reasoning)
    } else {
        None
    };
    let report = AgentEventView::StepEnd {
        index: run.steps,
        text: run.acc.text,
        reasoning,
        usage: run.acc.step_usage,
        model: agent.model,
    };
    let closed = Progress { steps: progress.steps + 1, open: false, ..progress };
    assert(results.push(report).drop_last() =~= results);
    assert(noted_all(Some(progress), results.push(report)) == Some(closed));
    let blocks = step::result_blocks(run.plans, run.outcomes);
    let after = AgentView {
        messages: if blocks.len() > 0 {
            agent.messages.push(MessageView::User(blocks))
        } else {
            agent.messages
        },
        ..agent
    };
    let finished = RunView {
        steps: (run.steps + 1) as u32,
        last_step: moved.run.last_step,
        ..run
    };
    lemma_after_step_in_order(closed, finished, after);
    lemma_noted_one(closed, report);
    let rest = if agent.middleware > 0 {
        Seq::empty()
    } else {
        after_step(finished, after).events
    };
    assert(moved.events == results.push(report) + rest);
    lemma_noted_split(Some(progress), results.push(report), rest);
}

proof fn lemma_next_dispatch_in_order(progress: Progress, run: RunView, agent: AgentView)
    requires
        run.steps < DEFAULT_MAX_STEPS,
        !progress.done,
        progress.open,
        progress.steps == run.steps,
        progress.text == run.acc.text,
    ensures
        in_order(progress, next_dispatch(run, agent)),
{
    lemma_noted_one(progress, AgentEventView::StepStart { index: 0 });
    lemma_end_step_in_order(
        progress,
        RunView { outcomes: filled(run.plans, run.outcomes, no_time()), ..run },
        agent,
    );
}

proof fn lemma_next_call_in_order(
    progress: Progress,
    run: RunView,
    agent: AgentView,
    call: usize,
)
    requires
        run.steps < DEFAULT_MAX_STEPS,
        !progress.done,
        progress.open,
        progress.steps == run.steps,
        progress.text == run.acc.text,
    ensures
        in_order(progress, next_call(run, agent, call)),
{
    lemma_noted_one(progress, AgentEventView::StepStart { index: 0 });
    lemma_next_dispatch_in_order(
        progress,
        RunView {
            plans: run.plans + all_allowed(run.acc.tool_calls.skip(call as int)),
            ..run
        },
        agent,
    );
}

proof fn lemma_approval_in_order(
    progress: Progress,
    run: RunView,
    agent: AgentView,
    call: usize,
    middleware: usize,
    decision: Result<ApprovalView, Seq<char>>,
)
    requires
        run.steps < DEFAULT_MAX_STEPS,
        !progress.done,
        progress.open,
        progress.steps == run.steps,
        progress.text == run.acc.text,
    ensures
        in_order(progress, on_approval(run, agent, call, middleware, decision)),
{
    lemma_noted_one(progress, AgentEventView::StepStart { index: 0 });
    let denied = match (run.denied, decision) {
        (None, Ok(ApprovalView::Deny { message })) => Some(message),
        _ => run.denied,
    };
    match decision {
        Err(e) => {
            lemma_next_dispatch_in_order(
                progress,
                RunView { tool_stop: Some(Some("on_tool_approve error: "@ + e)), ..run },
                agent,
            );
        },
        Ok(ApprovalView::Stop { message }) => {
            lemma_next_dispatch_in_order(
                progress,
                RunView { tool_stop: Some(message), ..run },
                agent,
            );
        },
        _ => {
            let now = RunView { denied, ..run };
            lemma_next_dispatch_in_order(progress, now, agent);
            if call < run.acc.tool_calls.len() {
                let plan = planned(run.acc.tool_calls[call as int], denied);
                lemma_next_call_in_order(
                    progress,
                    RunView { plans: run.plans.push(plan), ..now },
                    agent,
                    (call + 1) as usize,
                );
            }
        },
    }
}

proof fn lemma_hooks_in_order(
    progress: Progress,
    run: RunView,
    agent: AgentView,
    reply: ReplyView,
)
    requires
        run.ok(),
        in_step(progress, run),
        run.phase is OnStart || run.phase is CheckCancel || run.phase is OnStep
            || run.phase is OnStepDone || run.phase is OnFinish,
    ensures
        in_order(progress, transition(run, agent, reply)),
{
    lemma_noted_one(progress, AgentEventView::StepStart { index: 0 });
    if let ReplyView::Hook(flow) = reply {
        let by_error = match run.phase {
            Phase::OnStep(_) => "on_step error: "@,
            _ => "on_step_done error: "@,
        };
        match flow {
            Ok(FlowView::Stop(message)) => {
                lemma_wind_down_in_order(
                    progress,
                    RunView { final_text: message, ..run },
                    agent,
                    stopped(message),
                );
            },
            Err(e) => {
                lemma_wind_down_in_order(progress, run, agent, stopped("on_start error: "@ + e));
                lemma_wind_down_in_order(
                    progress,
                    RunView { final_text: by_error + e, ..run },
                    agent,
                    stopped(by_error + e),
                );
            },
            Ok(FlowView::Continue) => {},
        }
    }
    lemma_wind_down_in_order(progress, run, agent, FinishView::Cancelled);
    if run.phase is CheckCancel || run.phase is OnStep {
        lemma_begin_step_in_order(progress, run, agent);
    }
    if run.phase is OnStepDone {
        lemma_after_step_in_order(progress, run, agent);
    }
    let finish = match run.finish {
        Some(f) => f,
        None => FinishView::EndTurn,
    };
    lemma_noted_one(progress, AgentEventView::Done(outcome_of(run, agent, finish)));
}

proof fn lemma_attempt_in_order(
    progress: Progress,
    run: RunView,
    agent: AgentView,
    slot: usize,
    attempt: u32,
    reply: ReplyView,
)
    requires
        in_step(progress, run),
        run.phase == (Phase::Acquire { slot, attempt }),
    ensures
        in_order(progress, on_attempt(run, agent, slot, attempt, reply)),
{
    lemma_noted_one(progress, AgentEventView::StepStart { index: 0 });
    lemma_wind_down_in_order(progress, run, agent, FinishView::Cancelled);
    let error = match reply {
        ReplyView::AttemptFailed(error) => error,
        _ => ProviderErrorView::Transport("provider call timed out"@),
    };
    let failed = RunView { last_class: class_of_view(error), ..run };
    lemma_wind_down_in_order(
        progress,
        failed,
        agent,
        stopped("provider error: "@ + error.shown()),
    );
    let event = match reply {
        ReplyView::AttemptFirst(event) => event,
        _ => StreamEventView::End { stop: StopReasonView::EndTurn, usage: Usage::nothing() },
    };
    lemma_take_event_in_order(
        progress,
        RunView { acc: StepAccumView::start(), ..run },
        agent,
        event,
    );
}

proof fn lemma_move_in_order(
    progress: Progress,
    run: RunView,
    agent: AgentView,
    reply: ReplyView,
)
    requires
        run.ok(),
        in_step(progress, run),
    ensures
        in_order(progress, transition(run, agent, reply)),
{
    lemma_noted_one(progress, AgentEventView::StepStart { index: 0 });
    match run.phase {
        Phase::ListSkills => {
            if let ReplyView::Skills(Err(message)) = reply {
                let finish = stopped("skill loader error: "@ + message);
                lemma_noted_one(
                    progress,
                    AgentEventView::Done(
                        OutcomeView { text: Seq::empty(), ..outcome_of(run, agent, finish) },
                    ),
                );
            }
        },
        Phase::DeriveCacheKey => {},
        Phase::Done => {},
        Phase::Acquire { slot, attempt } => {
            lemma_attempt_in_order(progress, run, agent, slot, attempt, reply);
        },
        Phase::Streaming => {
            lemma_wind_down_in_order(progress, run, agent, FinishView::Cancelled);
            match reply {
                ReplyView::ItemFailed(error) => {
                    lemma_wind_down_in_order(
                        progress,
                        run,
                        agent,
                        stopped("provider error: "@ + error.shown()),
                    );
                },
                ReplyView::ItemEvent(event) => {
                    lemma_take_event_in_order(progress, run, agent, event);
                },
                ReplyView::ItemFinished => {
                    let spoken = RunView {
                        final_text: if run.acc.text.len() > 0 {
                            run.acc.text
                        } else {
                            run.final_text
                        },
                        denied: None,
                        plans: Seq::empty(),
                        outcomes: Seq::empty(),
                        tool_stop: None,
                        ..run
                    };
                    let after = AgentView {
                        messages: agent.messages.push(
                            MessageView::Assistant(step::turn_content(run.acc)),
                        ),
                        usage: agent.usage.plus(run.acc.step_usage),
                        ..agent
                    };
                    lemma_next_call_in_order(progress, spoken, after, 0);
                },
                _ => {},
            }
        },
        Phase::Approving { call, middleware } => {
            if let ReplyView::Approval(decision) = reply {
                lemma_approval_in_order(progress, run, agent, call, middleware, decision);
            }
        },
        Phase::Dispatching => {
            if let ReplyView::ToolDone(outcome, elapsed) = reply {
                lemma_next_dispatch_in_order(
                    progress,
                    RunView { outcomes: run.outcomes.push((outcome, elapsed)), ..run },
                    agent,
                );
            }
        },
        _ => {
            lemma_hooks_in_order(progress, run, agent, reply);
        },
    }
}

/// One exchange of a run: the session as the reply found it (a hook may have
/// changed it), and the reply.
#[verifier::ext_equal]
pub struct Exchange {
    /// The session.
    pub agent: AgentView,
    /// The reply.
    pub reply: ReplyView,
}

/// A run after exchanges.
pub open spec fn played(start: RunView, exchanges: Seq<Exchange>) -> RunView
    decreases exchanges.len(),
{
    if exchanges.len() == 0 {
        start
    } else {
        let last = exchanges.last();
        transition(played(start, exchanges.drop_last()), last.agent, last.reply).run
    }
}

/// The events of a run, over exchanges.
pub open spec fn played_events(start: RunView, exchanges: Seq<Exchange>) -> Seq<AgentEventView>
    decreases exchanges.len(),
{
    if exchanges.len() == 0 {
        Seq::empty()
    } else {
        let last = exchanges.last();
        played_events(start, exchanges.drop_last()) + transition(
            played(start, exchanges.drop_last()),
            last.agent,
            last.reply,
        ).events
    }
}

/// Over a whole run the events are in order: the steps start and end in turn,
/// numbered from zero, each with the text of its deltas, and the one terminal
/// event comes last, with the number of steps that ended.
pub proof fn the_events_of_a_run_are_in_order(agent: AgentView, exchanges: Seq<Exchange>)
    ensures
        played(started_run(agent), exchanges).ok(),
        match noted_all(
            Some(Progress::start()),
            played_events(started_run(agent), exchanges),
        ) {
            Some(progress) => in_step(progress, played(started_run(agent), exchanges)),
            None => false,
        },
    decreases exchanges.len(),
{
    let start = started_run(agent);
    if exchanges.len() > 0 {
        let before = exchanges.drop_last();
        let last = exchanges.last();
        the_events_of_a_run_are_in_order(agent, before);
        let run = played(start, before);
        let events = played_events(start, before);
        let progress = noted_all(Some(Progress::start()), events)->0;
        every_move_keeps_the_run_ok(run, last.agent, last.reply);
        lemma_move_in_order(progress, run, last.agent, last.reply);
        lemma_noted_split(
            Some(Progress::start()),
            events,
            transition(run, last.agent, last.reply).events,
        );
    }
}

/// The ids of the tool results that were reported, in order.
pub open spec fn reported(events: Seq<AgentEventView>) -> Seq<Seq<char>>
    decreases events.len(),
{
    if events.len() == 0 {
        Seq::empty()
    } else {
        let before = reported(events.drop_last());
        match events.last() {
            AgentEventView::ToolResult { id, name, result } => before.push(id),
            _ => before,
        }
    }
}

/// The ids of the calls that a move answers: where it ends the step, those of the
/// calls that were decided on, which are the first of the step's calls.
pub open spec fn answered_by(run: RunView, moved: Moved) -> Seq<Seq<char>> {
    if moved.run.steps == run.steps {
        Seq::empty()
    } else {
        run.acc.tool_calls.take(moved.run.plans.len() as int).map_values(|c: ParsedCallView| c.id)
    }
}

/// The ids of the calls that were answered, over exchanges: step by step, in the
/// order of the calls.
pub open spec fn answered(start: RunView, exchanges: Seq<Exchange>) -> Seq<Seq<char>>
    decreases exchanges.len(),
{
    if exchanges.len() == 0 {
        Seq::empty()
    } else {
        let last = exchanges.last();
        let run = played(start, exchanges.drop_last());
        answered(start, exchanges.drop_last()) + answered_by(
            run,
            transition(run, last.agent, last.reply),
        )
    }
}

/// The session as the exchanges left it.
pub open spec fn left_by(agent: AgentView, exchanges: Seq<Exchange>) -> AgentView {
    if exchanges.len() == 0 {
        agent
    } else {
        let last = exchanges.last();
        transition(
            played(started_run(agent), exchanges.drop_last()),
            last.agent,
            last.reply,
        ).agent
    }
}

/// While the calls of a step are decided on and run, nobody but the run changes
/// the conversation: each such reply finds it as the exchange before left it.
pub open spec fn decisions_only_read(agent: AgentView, exchanges: Seq<Exchange>) -> bool {
    forall|k: int|
        #![trigger exchanges[k]]
        0 <= k < exchanges.len() && (played(started_run(agent), exchanges.take(k)).phase
            is Approving || played(started_run(agent), exchanges.take(k)).phase is Dispatching)
            ==> exchanges[k].agent.messages == left_by(agent, exchanges.take(k)).messages
}

/// No step has more calls than can be counted.
pub open spec fn calls_countable(agent: AgentView, exchanges: Seq<Exchange>) -> bool {
    forall|k: int|
        #![trigger exchanges.take(k)]
        0 <= k <= exchanges.len() ==> played(
            started_run(agent),
            exchanges.take(k),
        ).acc.tool_calls.len() <= usize::MAX
}

/// What a move reports is what it answers, and unless a decision stopped the run
/// that is every call of the step.
spec fn reports(run: RunView, moved: Moved) -> bool {
    &&& reported(moved.events) == answered_by(run, moved)
    &&& moved.run.steps != run.steps ==> {
        &&& moved.run.plans.len() <= run.acc.tool_calls.len()
        &&& moved.run.tool_stop is None ==> moved.run.plans.len() == run.acc.tool_calls.len()
    }
}

proof fn lemma_reported_split(first: Seq<AgentEventView>, rest: Seq<AgentEventView>)
    ensures
        reported(first + rest) == reported(first) + reported(rest),
    decreases rest.len(),
{
    if rest.len() == 0 {
        assert(first + rest =~= first);
        assert(reported(first) + reported(rest) =~= reported(first));
    } else {
        assert((first + rest).drop_last() =~= first + rest.drop_last());
        lemma_reported_split(first, rest.drop_last());
        assert(reported(first + rest) =~= reported(first) + reported(rest));
    }
}

proof fn lemma_nothing_reported(events: Seq<AgentEventView>)
    requires
        forall|i: int| 0 <= i < events.len() ==> !((#[trigger] events[i]) is ToolResult),
    ensures
        reported(events) == Seq::<Seq<char>>::empty(),
    decreases events.len(),
{
    if events.len() > 0 {
        assert(events.last() == events[events.len() - 1]);
        assert forall|i: int| 0 <= i < events.drop_last().len() implies !((
        #[trigger] events.drop_last()[i]) is ToolResult) by {
            assert(events.drop_last()[i] == events[i]);
        }
        lemma_nothing_reported(events.drop_last());
    }
}

proof fn lemma_results_reported(
    plans: Seq<ToolPlanView>,
    outcomes: Seq<(ToolOutcomeView, Duration)>,
    n: int,
)
    requires
        0 <= n <= plans.len(),
    ensures
        reported(step::result_events(plans, outcomes).take(n)) == plans.take(n).map_values(
            |p: ToolPlanView| p.id,
        ),
    decreases n,
{
    let events = step::result_events(plans, outcomes);
    let ids = plans.take(n).map_values(|p: ToolPlanView| p.id);
    if n > 0 {
        lemma_results_reported(plans, outcomes, n - 1);
        assert(events.take(n).drop_last() =~= events.take(n - 1));
        assert(events.take(n).last() == events[n - 1]);
        let before = plans.take(n - 1).map_values(|p: ToolPlanView| p.id);
        assert(ids =~= before.push(plans[n - 1].id));
    } else {
        assert(ids =~= Seq::empty());
    }
}

proof fn lemma_end_step_reports(run: RunView, agent: AgentView)
    requires
        run.steps < DEFAULT_MAX_STEPS,
        plans_follow(run.plans, run.acc.tool_calls),
        run.tool_stop is None ==> run.plans.len() == run.acc.tool_calls.len(),
    ensures
        reports(run, end_step(run, agent)),
{
    let moved = end_step(run, agent);
    let results = step::result_events(run.plans, run.outcomes);
    let n = run.plans.len() as int;
    lemma_results_reported(run.plans, run.outcomes, n);
    assert(results.take(n) =~= results);
    let rest = moved.events.skip(n);
    assert(moved.events =~= results + rest);
    assert forall|i: int| 0 <= i < rest.len() implies !((#[trigger] rest[i]) is ToolResult) by {
        assert(rest[i] == moved.events[n + i]);
    }
    lemma_nothing_reported(rest);
    lemma_reported_split(results, rest);
    assert(moved.run.plans == run.plans);
    assert(reported(moved.events) =~= answered_by(run, moved));
}

proof fn lemma_next_dispatch_reports(run: RunView, agent: AgentView)
    requires
        run.steps < DEFAULT_MAX_STEPS,
        plans_follow(run.plans, run.acc.tool_calls),
        run.tool_stop is None ==> run.plans.len() == run.acc.tool_calls.len(),
    ensures
        reports(run, next_dispatch(run, agent)),
{
    let waiting = RunView { outcomes: filled(run.plans, run.outcomes, no_time()), ..run };
    lemma_end_step_reports(waiting, agent);
    lemma_nothing_reported(Seq::empty());
}

proof fn lemma_next_call_reports(run: RunView, agent: AgentView, call: usize)
    requires
        run.steps < DEFAULT_MAX_STEPS,
        plans_follow(run.plans, run.acc.tool_calls),
        run.plans.len() == call,
    ensures
        reports(run, next_call(run, agent, call)),
{
    let calls = run.acc.tool_calls;
    let all = run.plans + all_allowed(calls.skip(call as int));
    assert forall|i: int| 0 <= i < all.len() implies (#[trigger] all[i]).id == calls[i].id
        && all[i].name == calls[i].name && all[i].args == calls[i].args by {
        if i < call {
            assert(all[i] == run.plans[i]);
        } else {
            assert(all[i] == planned(calls.skip(call as int)[i - call], None));
        }
    }
    lemma_next_dispatch_reports(RunView { plans: all, ..run }, agent);
    lemma_nothing_reported(Seq::empty());
}

proof fn lemma_approval_reports(
    run: RunView,
    agent: AgentView,
    call: usize,
    middleware: usize,
    decision: Result<ApprovalView, Seq<char>>,
)
    requires
        run.ok(),
        run.plans_ok(),
        run.acc.tool_calls.len() <= usize::MAX,
        run.phase == (Phase::Approving { call, middleware }),
    ensures
        reports(run, on_approval(run, agent, call, middleware, decision)),
{
    let calls = run.acc.tool_calls;
    let denied = match (run.denied, decision) {
        (None, Ok(ApprovalView::Deny { message })) => Some(message),
        _ => run.denied,
    };
    let more = run.plans.push(planned(calls[call as int], denied));
    assert forall|i: int| 0 <= i < more.len() implies (#[trigger] more[i]).id == calls[i].id
        && more[i].name == calls[i].name && more[i].args == calls[i].args by {
        if i < call {
            assert(more[i] == run.plans[i]);
        }
    }
    lemma_nothing_reported(Seq::empty());
    match decision {
        Err(e) => {
            lemma_next_dispatch_reports(
                RunView { tool_stop: Some(Some("on_tool_approve error: "@ + e)), ..run },
                agent,
            );
        },
        Ok(ApprovalView::Stop { message }) => {
            lemma_next_dispatch_reports(RunView { tool_stop: Some(message), ..run }, agent);
        },
        _ => {
            lemma_next_call_reports(
                RunView { denied, plans: more, ..run },
                agent,
                (call + 1) as usize,
            );
        },
    }
}

/// Outside the phases that end a step, no result is reported.
proof fn lemma_other_phases_report(run: RunView, agent: AgentView, reply: ReplyView)
    requires
        !(run.phase is Approving),
        !(run.phase is Dispatching),
        !(run.phase is Streaming && reply is ItemFinished),
    ensures
        reports(run, transition(run, agent, reply)),
{
    let moved = transition(run, agent, reply);
    assert(moved.run.steps == run.steps);
    lemma_nothing_reported(moved.events);
}

proof fn lemma_move_reports(run: RunView, agent: AgentView, reply: ReplyView)
    requires
        run.ok(),
        run.plans_ok(),
        run.acc.tool_calls.len() <= usize::MAX,
    ensures
        reports(run, transition(run, agent, reply)),
{
    lemma_nothing_reported(Seq::empty());
    match run.phase {
        Phase::Approving { call, middleware } => {
            if let ReplyView::Approval(decision) = reply {
                lemma_approval_reports(run, agent, call, middleware, decision);
            }
        },
        Phase::Dispatching => {
            if let ReplyView::ToolDone(outcome, elapsed) = reply {
                lemma_next_dispatch_reports(
                    RunView { outcomes: run.outcomes.push((outcome, elapsed)), ..run },
                    agent,
                );
            }
        },
        _ => {
            if run.phase is Streaming && reply is ItemFinished {
                let spoken = RunView {
                    final_text: if run.acc.text.len() > 0 {
                        run.acc.text
                    } else {
                        run.final_text
                    },
                    denied: None,
                    plans: Seq::empty(),
                    outcomes: Seq::empty(),
                    tool_stop: None,
                    ..run
                };
                let after = AgentView {
                    messages: agent.messages.push(
                        MessageView::Assistant(step::turn_content(run.acc)),
                    ),
                    usage: agent.usage.plus(run.acc.step_usage),
                    ..agent
                };
                lemma_next_call_reports(spoken, after, 0);
            } else {
                lemma_other_phases_report(run, agent, reply);
            }
        },
    }
}

/// What a law on answers says of the exchange at `k`.
pub open spec fn answers_at(agent: AgentView, exchanges: Seq<Exchange>, k: int) -> bool {
    let run = played(started_run(agent), exchanges.take(k));
    let moved = transition(run, exchanges[k].agent, exchanges[k].reply);
    &&& calls_answered(run, moved)
    &&& moved.run.steps != run.steps && moved.run.tool_stop is None ==> answered_by(run, moved)
        == run.acc.tool_calls.map_values(|c: ParsedCallView| c.id)
}

/// Over a whole run every call is answered once, and in order. Each move that ends
/// a step leaves the assistant turn with its calls at the end of the conversation,
/// followed by one user turn with a result for each, unless a decision stopped the
/// run; and the results that the run reported, first to last, are those of the
/// calls that its steps answered, step by step. The conversation is the run's own
/// while calls are decided on: hooks that decide only read it.
pub proof fn every_call_of_a_run_is_answered_once(agent: AgentView, exchanges: Seq<Exchange>)
    requires
        decisions_only_read(agent, exchanges),
        calls_countable(agent, exchanges),
    ensures
        reported(played_events(started_run(agent), exchanges)) == answered(
            started_run(agent),
            exchanges,
        ),
        forall|k: int| 0 <= k < exchanges.len() ==> #[trigger] answers_at(agent, exchanges, k),
{
    reveal(run_is_left_alone);
    reveal(all_answered);
    lemma_answers_stand(agent, exchanges);
}

/// The conditions of the law on answers.
#[verifier::opaque]
spec fn run_is_left_alone(agent: AgentView, exchanges: Seq<Exchange>) -> bool {
    decisions_only_read(agent, exchanges) && calls_countable(agent, exchanges)
}

/// Every exchange is answered.
#[verifier::opaque]
spec fn all_answered(agent: AgentView, exchanges: Seq<Exchange>) -> bool {
    forall|k: int| 0 <= k < exchanges.len() ==> #[trigger] answers_at(agent, exchanges, k)
}

/// What holds of all exchanges holds of those before the last.
proof fn lemma_conditions_before(agent: AgentView, exchanges: Seq<Exchange>)
    requires
        run_is_left_alone(agent, exchanges),
        exchanges.len() > 0,
    ensures
        run_is_left_alone(agent, exchanges.drop_last()),
{
    reveal(run_is_left_alone);
    let start = started_run(agent);
    let before = exchanges.drop_last();
    assert forall|k: int| 0 <= k <= before.len() implies #[trigger] before.take(k)
        == exchanges.take(k) by {
        assert(before.take(k) =~= exchanges.take(k));
    }
    assert forall|k: int|
        #![trigger before[k]]
        0 <= k < before.len() && (played(start, before.take(k)).phase is Approving || played(
            start,
            before.take(k),
        ).phase is Dispatching) implies before[k].agent.messages == left_by(
        agent,
        before.take(k),
    ).messages by {
        assert(before[k] == exchanges[k]);
    }
}

/// The last exchange is answered, given how the exchanges before left the run.
proof fn lemma_last_answers(agent: AgentView, exchanges: Seq<Exchange>)
    requires
        run_is_left_alone(agent, exchanges),
        exchanges.len() > 0,
        played(started_run(agent), exchanges.drop_last()).ok(),
        played(started_run(agent), exchanges.drop_last()).plans_ok(),
        turn_in_place(
            played(started_run(agent), exchanges.drop_last()),
            left_by(agent, exchanges.drop_last()),
        ),
    ensures
        played(started_run(agent), exchanges).plans_ok(),
        turn_in_place(played(started_run(agent), exchanges), left_by(agent, exchanges)),
        answers_at(agent, exchanges, exchanges.len() - 1),
        reports(
            played(started_run(agent), exchanges.drop_last()),
            transition(
                played(started_run(agent), exchanges.drop_last()),
                exchanges.last().agent,
                exchanges.last().reply,
            ),
        ),
{
    reveal(run_is_left_alone);
    let n = exchanges.len() - 1;
    let last = exchanges.last();
    let run = played(started_run(agent), exchanges.drop_last());
    assert(exchanges.take(n) =~= exchanges.drop_last());
    assert(exchanges[n] == last);
    assert(turn_in_place(run, last.agent));
    every_call_is_answered_in_order(run, last.agent, last.reply);
    lemma_move_reports(run, last.agent, last.reply);
    lemma_answers_of(run, transition(run, last.agent, last.reply));
}

proof fn lemma_answers_of(run: RunView, moved: Moved)
    requires
        reports(run, moved),
    ensures
        moved.run.steps != run.steps && moved.run.tool_stop is None ==> answered_by(run, moved)
            == run.acc.tool_calls.map_values(|c: ParsedCallView| c.id),
{
    let calls = run.acc.tool_calls;
    assert(calls.take(calls.len() as int) =~= calls);
}

/// The exchanges are answered where those before the last are, and the last is.
proof fn lemma_all_answered(agent: AgentView, exchanges: Seq<Exchange>)
    requires
        exchanges.len() > 0 ==> all_answered(agent, exchanges.drop_last()) && answers_at(
            agent,
            exchanges,
            exchanges.len() - 1,
        ),
    ensures
        all_answered(agent, exchanges),
{
    reveal(all_answered);
    assert forall|k: int| 0 <= k < exchanges.len() implies #[trigger] answers_at(
        agent,
        exchanges,
        k,
    ) by {
        if k < exchanges.len() - 1 {
            assert(answers_at(agent, exchanges.drop_last(), k));
            assert(exchanges.drop_last().take(k) =~= exchanges.take(k));
            assert(exchanges.drop_last()[k] == exchanges[k]);
        }
    }
}

proof fn lemma_answers_stand(agent: AgentView, exchanges: Seq<Exchange>)
    requires
        run_is_left_alone(agent, exchanges),
    ensures
        played(started_run(agent), exchanges).plans_ok(),
        turn_in_place(played(started_run(agent), exchanges), left_by(agent, exchanges)),
        reported(played_events(started_run(agent), exchanges)) == answered(
            started_run(agent),
            exchanges,
        ),
        all_answered(agent, exchanges),
    decreases exchanges.len(),
{
    let start = started_run(agent);
    if exchanges.len() > 0 {
        let before = exchanges.drop_last();
        let last = exchanges.last();
        lemma_conditions_before(agent, exchanges);
        lemma_answers_stand(agent, before);
        the_events_of_a_run_are_in_order(agent, before);
        lemma_last_answers(agent, exchanges);
        lemma_reported_split(
            played_events(start, before),
            transition(played(start, before), last.agent, last.reply).events,
        );
    }
    lemma_all_answered(agent, exchanges);
}

/// The middlewares whose `on_start` hook ran, over exchanges, in order.
pub open spec fn start_hooks(start: RunView, exchanges: Seq<Exchange>) -> Seq<int>
    decreases exchanges.len(),
{
    if exchanges.len() == 0 {
        Seq::empty()
    } else {
        let before = start_hooks(start, exchanges.drop_last());
        match (played(start, exchanges.drop_last()).phase, exchanges.last().reply) {
            (Phase::OnStart(i), ReplyView::Hook(_)) => before.push(i as int),
            _ => before,
        }
    }
}

/// The middlewares whose `on_finish` hook ran, over exchanges, in order.
pub open spec fn finish_hooks(start: RunView, exchanges: Seq<Exchange>) -> Seq<int>
    decreases exchanges.len(),
{
    if exchanges.len() == 0 {
        Seq::empty()
    } else {
        let before = finish_hooks(start, exchanges.drop_last());
        match (played(start, exchanges.drop_last()).phase, exchanges.last().reply) {
            (Phase::OnFinish(i), ReplyView::HookFinished) => before.push(i as int),
            _ => before,
        }
    }
}

/// The first `n` positions.
pub open spec fn first_positions(n: nat) -> Seq<int> {
    Seq::new(n, |i: int| i)
}

/// Where the hooks of a run stand.
spec fn hooks_stand(run: RunView, starts: Seq<int>, finishes: Seq<int>) -> bool {
    &&& starts == first_positions(
        match run.phase {
            Phase::OnStart(i) => i as nat,
            _ => run.started as nat,
        },
    )
    &&& finishes == first_positions(
        match run.phase {
            Phase::OnFinish(i) => i as nat,
            Phase::Done => run.started as nat,
            _ => 0,
        },
    )
}

/// What a move of the steps does to the hooks: no start hook is next, and winding
/// down begins at the first finish hook.
spec fn keeps_hooks(run: RunView, after: RunView) -> bool {
    &&& after.started == run.started
    &&& !(after.phase is OnStart) && !(after.phase is ListSkills) && !(
    after.phase is DeriveCacheKey)
    &&& after.phase is OnFinish ==> after.phase == Phase::OnFinish(0)
    &&& after.phase is Done ==> after.started == 0
}

proof fn lemma_after_step_keeps_hooks(run: RunView, agent: AgentView)
    ensures
        keeps_hooks(run, after_step(run, agent).run),
{
}

proof fn lemma_end_step_keeps_hooks(run: RunView, agent: AgentView)
    ensures
        keeps_hooks(run, end_step(run, agent).run),
{
    let moved = end_step(run, agent);
    let blocks = step::result_blocks(run.plans, run.outcomes);
    let after = AgentView {
        messages: if blocks.len() > 0 {
            agent.messages.push(MessageView::User(blocks))
        } else {
            agent.messages
        },
        ..agent
    };
    lemma_after_step_keeps_hooks(
        RunView { steps: (run.steps + 1) as u32, last_step: moved.run.last_step, ..run },
        after,
    );
}

proof fn lemma_next_dispatch_keeps_hooks(run: RunView, agent: AgentView)
    ensures
        keeps_hooks(run, next_dispatch(run, agent).run),
{
    lemma_end_step_keeps_hooks(
        RunView { outcomes: filled(run.plans, run.outcomes, no_time()), ..run },
        agent,
    );
}

proof fn lemma_next_call_keeps_hooks(run: RunView, agent: AgentView, call: usize)
    ensures
        keeps_hooks(run, next_call(run, agent, call).run),
{
    lemma_next_dispatch_keeps_hooks(
        RunView {
            plans: run.plans + all_allowed(run.acc.tool_calls.skip(call as int)),
            ..run
        },
        agent,
    );
}

proof fn lemma_approval_keeps_hooks(
    run: RunView,
    agent: AgentView,
    call: usize,
    middleware: usize,
    decision: Result<ApprovalView, Seq<char>>,
)
    ensures
        keeps_hooks(run, on_approval(run, agent, call, middleware, decision).run),
{
    let denied = match (run.denied, decision) {
        (None, Ok(ApprovalView::Deny { message })) => Some(message),
        _ => run.denied,
    };
    match decision {
        Err(e) => {
            lemma_next_dispatch_keeps_hooks(
                RunView { tool_stop: Some(Some("on_tool_approve error: "@ + e)), ..run },
                agent,
            );
        },
        Ok(ApprovalView::Stop { message }) => {
            lemma_next_dispatch_keeps_hooks(RunView { tool_stop: Some(message), ..run }, agent);
        },
        _ => {
            let now = RunView { denied, ..run };
            lemma_next_dispatch_keeps_hooks(now, agent);
            if call < run.acc.tool_calls.len() {
                let plan = planned(run.acc.tool_calls[call as int], denied);
                lemma_next_call_keeps_hooks(
                    RunView { plans: run.plans.push(plan), ..now },
                    agent,
                    (call + 1) as usize,
                );
            }
        },
    }
}

proof fn lemma_end_stream_keeps_hooks(run: RunView, agent: AgentView)
    ensures
        keeps_hooks(run, end_stream(run, agent).run),
{
    let spoken = RunView {
        final_text: if run.acc.text.len() > 0 {
            run.acc.text
        } else {
            run.final_text
        },
        denied: None,
        plans: Seq::empty(),
        outcomes: Seq::empty(),
        tool_stop: None,
        ..run
    };
    let after = AgentView {
        messages: agent.messages.push(MessageView::Assistant(step::turn_content(run.acc))),
        usage: agent.usage.plus(run.acc.step_usage),
        ..agent
    };
    lemma_next_call_keeps_hooks(spoken, after, 0);
}

/// What a move does to the hooks: it goes on to the next one at most.
spec fn hook_move(run: RunView, reply: ReplyView, after: RunView) -> bool {
    match run.phase {
        Phase::ListSkills => after.started == run.started && (after.phase is ListSkills
            || after.phase is DeriveCacheKey || after.phase is Done),
        Phase::DeriveCacheKey => after == run || after.phase == Phase::OnStart(0) || (
        after.phase is CheckCancel && after.started == run.started),
        Phase::OnStart(i) => if reply is Hook {
            (after.phase == Phase::OnStart((i + 1) as usize) && i + 1 <= usize::MAX) || keeps_hooks(
                run,
                after,
            )
        } else {
            after == run
        },
        Phase::OnFinish(i) => if reply is HookFinished {
            after.started == run.started && after.phase == (if i + 1 < run.started {
                Phase::OnFinish((i + 1) as usize)
            } else {
                Phase::Done
            })
        } else {
            after == run
        },
        Phase::Done => after == run,
        _ => keeps_hooks(run, after),
    }
}

proof fn lemma_hook_move(run: RunView, agent: AgentView, reply: ReplyView)
    requires
        run.ok(),
    ensures
        hook_move(run, reply, transition(run, agent, reply).run),
{
    match run.phase {
        Phase::Streaming => {
            lemma_end_stream_keeps_hooks(run, agent);
        },
        Phase::Approving { call, middleware } => {
            if let ReplyView::Approval(decision) = reply {
                lemma_approval_keeps_hooks(run, agent, call, middleware, decision);
            }
        },
        Phase::Dispatching => {
            if let ReplyView::ToolDone(outcome, elapsed) = reply {
                lemma_next_dispatch_keeps_hooks(
                    RunView { outcomes: run.outcomes.push((outcome, elapsed)), ..run },
                    agent,
                );
            }
        },
        Phase::OnStepDone(_) => {
            lemma_after_step_keeps_hooks(run, agent);
        },
        _ => {},
    }
}

/// A run that has not come to its start hooks has started none.
spec fn unstarted(run: RunView) -> bool {
    run.phase is ListSkills || run.phase is DeriveCacheKey ==> run.started == 0
}

proof fn lemma_hooks_go_on(
    run: RunView,
    reply: ReplyView,
    after: RunView,
    starts: Seq<int>,
    finishes: Seq<int>,
)
    requires
        run.ok(),
        after.ok(),
        unstarted(run),
        hook_move(run, reply, after),
        hooks_stand(run, starts, finishes),
    ensures
        unstarted(after),
        hooks_stand(
            after,
            match (run.phase, reply) {
                (Phase::OnStart(i), ReplyView::Hook(_)) => starts.push(i as int),
                _ => starts,
            },
            match (run.phase, reply) {
                (Phase::OnFinish(i), ReplyView::HookFinished) => finishes.push(i as int),
                _ => finishes,
            },
        ),
{
    assert(first_positions(0) =~= Seq::empty());
    match run.phase {
        Phase::OnStart(i) => {
            if reply is Hook {
                assert(starts.push(i as int) =~= first_positions((i + 1) as nat));
            }
        },
        Phase::OnFinish(i) => {
            if reply is HookFinished {
                assert(finishes.push(i as int) =~= first_positions((i + 1) as nat));
            }
        },
        _ => {},
    }
}

/// Over a whole run, once it is done, the finish hook ran exactly once for each
/// middleware whose start hook ran, in registration order, and for no other.
/// Until then no finish hook ran ahead.
pub proof fn finish_hooks_match_start_hooks(agent: AgentView, exchanges: Seq<Exchange>)
    ensures
        ({
            let run = played(started_run(agent), exchanges);
            let starts = start_hooks(started_run(agent), exchanges);
            let finishes = finish_hooks(started_run(agent), exchanges);
            &&& starts == first_positions(starts.len())
            &&& finishes.is_prefix_of(starts)
            &&& run.phase is Done ==> finishes == starts
            &&& !(run.phase is OnFinish) && !(run.phase is Done) ==> finishes.len() == 0
        }),
{
    lemma_hooks_stand(agent, exchanges);
    let starts = start_hooks(started_run(agent), exchanges);
    let finishes = finish_hooks(started_run(agent), exchanges);
    the_events_of_a_run_are_in_order(agent, exchanges);
    assert(starts =~= first_positions(starts.len()));
    assert(finishes =~= starts.take(finishes.len() as int));
    if played(started_run(agent), exchanges).phase is Done {
        assert(finishes =~= starts);
    }
}

proof fn lemma_hooks_stand(agent: AgentView, exchanges: Seq<Exchange>)
    ensures
        played(started_run(agent), exchanges).ok(),
        unstarted(played(started_run(agent), exchanges)),
        hooks_stand(
            played(started_run(agent), exchanges),
            start_hooks(started_run(agent), exchanges),
            finish_hooks(started_run(agent), exchanges),
        ),
    decreases exchanges.len(),
{
    let start = started_run(agent);
    if exchanges.len() == 0 {
        assert(first_positions(0) =~= Seq::empty());
    } else {
        let before = exchanges.drop_last();
        let last = exchanges.last();
        let run = played(start, before);
        let after = played(start, exchanges);
        lemma_hooks_stand(agent, before);
        every_move_keeps_the_run_ok(run, last.agent, last.reply);
        lemma_hook_move(run, last.agent, last.reply);
        lemma_hooks_go_on(
            run,
            last.reply,
            after,
            start_hooks(start, before),
            finish_hooks(start, before),
        );
    }
}

/// A start hook that stops, or fails, keeps every later middleware from
/// starting: the run winds down at once.
pub proof fn a_failed_start_starts_no_other(
    run: RunView,
    agent: AgentView,
    i: usize,
    flow: Result<FlowView, Seq<char>>,
)
    requires
        run.ok(),
        run.phase == Phase::OnStart(i),
        flow != Ok::<FlowView, Seq<char>>(FlowView::Continue),
    ensures
        ({
            let after = transition(run, agent, ReplyView::Hook(flow)).run;
            &&& after.phase == Phase::OnFinish(0)
            &&& after.started == i + 1
            &&& after.finish is Some
        }),
{
}

/// A failure that may pass: a broken connection, a time-out, too many requests, or
/// any status from 500 up.
pub open spec fn may_pass(reply: ReplyView) -> bool {
    match reply {
        ReplyView::AttemptTimedOut => true,
        ReplyView::AttemptFailed(error) => match error {
            ProviderErrorView::Transport(_) => true,
            ProviderErrorView::Api { status, kind, message, retry_after } => status == 429
                || status >= 500,
            _ => false,
        },
        _ => false,
    }
}

/// A failure that may pass is tried again with the same provider and the same
/// request, as long as an attempt is left. Any other failure ends the run at once,
/// and so does one that comes when no attempt is left: with the provider's own
/// error.
pub proof fn a_failure_that_may_pass_is_tried_again(
    run: RunView,
    agent: AgentView,
    slot: usize,
    attempt: u32,
    reply: ReplyView,
)
    requires
        run.phase == (Phase::Acquire { slot, attempt }),
        reply is AttemptFailed || reply is AttemptTimedOut,
        agent.retry.max_retries < u32::MAX,
    ensures
        may_pass(reply) && attempt < agent.retry.max_retries ==> {
            let moved = transition(run, agent, reply);
            &&& moved.run.phase == (Phase::Acquire { slot, attempt: (attempt + 1) as u32 })
            &&& moved.run.request == run.request
            &&& moved.agent == agent
            &&& moved.events.len() == 0
        },
        !may_pass(reply) || attempt >= agent.retry.max_retries ==> {
            let moved = transition(run, agent, reply);
            &&& moved.run.phase is OnFinish || moved.run.phase is Done
            &&& moved.run.finish matches Some(FinishView::Stopped { message })
            &&& message is Some
            &&& reply matches ReplyView::AttemptFailed(error) ==> message->0 == "provider error: "@
                + error.shown()
        },
{
}

/// What the wait before the next attempt depends on is the failure that came last:
/// a rate limit with the delay that the server asked for, and nothing else.
pub proof fn a_retry_remembers_the_failure(
    run: RunView,
    agent: AgentView,
    slot: usize,
    attempt: u32,
    error: ProviderErrorView,
)
    requires
        run.phase == (Phase::Acquire { slot, attempt }),
        transition(run, agent, ReplyView::AttemptFailed(error)).run.phase is Acquire,
    ensures
        ({
            let class = transition(run, agent, ReplyView::AttemptFailed(error)).run.last_class;
            match error {
                ProviderErrorView::Api { status, kind, message, retry_after } => if status == 429 {
                    class == (Retryable::RateLimited { retry_after })
                } else {
                    class is Transient
                },
                _ => class is Transient,
            }
        }),
{
}

/// A step asks the provider of the active model, with the whole conversation as it
/// stands, the tools of the run and the settings of the session. Where the model
/// has no provider, nobody is asked and the run ends.
pub proof fn a_step_asks_with_the_whole_conversation(
    run: RunView,
    agent: AgentView,
    reply: ReplyView,
)
    requires
        run.phase is CheckCancel || run.phase is OnStep,
        transition(run, agent, reply).run.phase is Acquire,
    ensures
        ({
            let after = transition(run, agent, reply).run;
            &&& after.phase->attempt == 0
            &&& exists|i: int|
                0 <= i < agent.providers.len() && #[trigger] agent.providers[i] == (
                    agent.model,
                    after.phase->slot,
                )
            &&& after.request matches Some(request)
            &&& request.model == agent.model
            &&& request.messages == agent.messages
            &&& request.tools == run.tools
            &&& request.max_tokens == agent.max_tokens
            &&& request.cache == agent.cache
            &&& request.cache_key == run.cache_key
            &&& !run.skills_active ==> match (request.system, agent.system) {
                (Some(prompt), Some(base)) => prompt.text == base,
                (None, None) => true,
                _ => false,
            }
            &&& run.skills_active ==> request.system is Some
            &&& transition(run, agent, reply).events == seq![
                AgentEventView::StepStart { index: run.steps },
            ]
        }),
{
    collections::lemma_position(agent.providers, agent.model);
    let slot = transition(run, agent, reply).run.phase->slot;
    let i = collections::position(agent.providers, agent.model)->0;
    assert(agent.providers[i] == (agent.model, slot));
    assert(transition(run, agent, reply).events =~= seq![
        AgentEventView::StepStart { index: run.steps },
    ]);
}

/// What the model used is added to the tally once, when its stream ends, and at no
/// other time.
#[verifier::rlimit(40)]
pub proof fn usage_is_tallied_once_a_step(run: RunView, agent: AgentView, reply: ReplyView)
    ensures
        run.phase is Streaming && reply is ItemFinished ==> {
            let after = transition(run, agent, reply).agent.usage;
            let used = run.acc.step_usage;
            &&& agent.usage.input_tokens + used.input_tokens <= u64::MAX ==> after.input_tokens
                == agent.usage.input_tokens + used.input_tokens
            &&& agent.usage.output_tokens + used.output_tokens <= u64::MAX ==> after.output_tokens
                == agent.usage.output_tokens + used.output_tokens
            &&& agent.usage.cache_read_tokens + used.cache_read_tokens <= u64::MAX
                ==> after.cache_read_tokens == agent.usage.cache_read_tokens
                + used.cache_read_tokens
            &&& agent.usage.cache_create_tokens + used.cache_create_tokens <= u64::MAX
                ==> after.cache_create_tokens == agent.usage.cache_create_tokens
                + used.cache_create_tokens
            &&& agent.usage.reasoning_tokens + used.reasoning_tokens <= u64::MAX
                ==> after.reasoning_tokens == agent.usage.reasoning_tokens + used.reasoning_tokens
        },
        !(run.phase is Streaming && reply is ItemFinished) ==> transition(
            run,
            agent,
            reply,
        ).agent.usage == agent.usage,
{
}

/// After a step the run goes on exactly where the model called tools, nobody asked
/// to stop, and fewer than sixteen steps were taken. It ends the turn where no tool
/// was called, and reports the limit at the sixteenth step.
pub proof fn a_run_goes_on_while_tools_are_called(run: RunView, agent: AgentView)
    requires
        run.finish is None,
    ensures
        after_step(run, agent).run.phase is CheckCancel <==> (run.tool_stop is None
            && run.plans.len() > 0 && run.steps < 16),
        after_step(run, agent).run.finish == (match run.tool_stop {
            Some(message) => Some(FinishView::Stopped { message }),
            None => if run.plans.len() == 0 {
                Some(FinishView::EndTurn)
            } else if run.steps >= 16 {
                Some(FinishView::Limit(StopCond::StepCountIs(16)))
            } else {
                None
            },
        }),
{
}

/// A cancelled run asks nobody any more: it ends as cancelled, wherever it was.
pub proof fn a_cancelled_run_ends(run: RunView, agent: AgentView, reply: ReplyView)
    requires
        (run.phase is CheckCancel && reply == ReplyView::Cancelled(true)) || (run.phase is Acquire
            && reply is AttemptCancelled) || (run.phase is Streaming && reply is ItemCancelled),
    ensures
        transition(run, agent, reply).run.finish == Some(FinishView::Cancelled),
        transition(run, agent, reply).run.phase is OnFinish || transition(
            run,
            agent,
            reply,
        ).run.phase is Done,
        transition(run, agent, reply).agent == agent,
{
}

/// A hook that stops the run ends it with its own message, which is also the text
/// of the outcome; one that fails ends it with the error.
pub proof fn a_hook_may_stop_the_run(run: RunView, agent: AgentView, message: Seq<char>)
    requires
        run.phase is OnStart || run.phase is OnStep || run.phase is OnStepDone,
    ensures
        ({
            let stop = transition(run, agent, ReplyView::Hook(Ok(FlowView::Stop(message)))).run;
            let failure = transition(run, agent, ReplyView::Hook(Err(message))).run;
            &&& stop.finish == Some(FinishView::Stopped { message: Some(message) })
            &&& stop.final_text == message
            &&& stop.phase is OnFinish || stop.phase is Done
            &&& failure.phase is OnFinish || failure.phase is Done
            &&& failure.finish matches Some(FinishView::Stopped { message: Some(told) })
            &&& message.is_suffix_of(told)
        }),
{
    let told = transition(run, agent, ReplyView::Hook(Err(message))).run.finish->0->message->0;
    assert(told.subrange(told.len() - message.len(), told.len() as int) =~= message);
}

/// The outcome tells how the run ended: the text is the message of a stop, or else
/// the last text that the model gave; usage and model are the session's, and the
/// steps those taken.
pub proof fn the_outcome_tells_how_the_run_ended(
    run: RunView,
    agent: AgentView,
    finish: FinishView,
)
    ensures
        ({
            let outcome = outcome_of(run, agent, finish);
            &&& outcome.finish == finish
            &&& outcome.steps == run.steps
            &&& outcome.usage == agent.usage
            &&& outcome.model == agent.model
            &&& match finish {
                FinishView::Stopped { message: Some(m) } => outcome.text == m,
                _ => outcome.text == run.final_text,
            }
        }),
        run.acc.text.len() > 0 ==> end_stream(run, agent).run.final_text == run.acc.text,
        run.acc.text.len() == 0 ==> end_stream(run, agent).run.final_text == run.final_text,
{
}

/// A plan is its call: the id, the name, the arguments and what was wrong with them,
/// with the decision of the middlewares beside it.
pub proof fn a_plan_is_its_call(call: ParsedCallView, reason: Seq<char>)
    ensures
        ({
            let allowed = planned(call, None);
            let refused = planned(call, Some(reason));
            &&& allowed.id == call.id && refused.id == call.id
            &&& allowed.name == call.name && refused.name == call.name
            &&& allowed.args == call.args && refused.args == call.args
            &&& allowed.parse_error == call.parse_error && refused.parse_error == call.parse_error
            &&& allowed.denied is None && allowed.approval is Allow
            &&& refused.denied == Some(reason)
            &&& refused.approval == (ApprovalView::Deny { message: reason })
        }),
{
}

/// Without middlewares every call of the model is planned as it stands, in order.
pub proof fn calls_that_nobody_decides_on_are_allowed(calls: Seq<ParsedCallView>, i: int)
    ensures
        all_allowed(calls).len() == calls.len(),
        0 <= i < calls.len() ==> {
            let plan = all_allowed(calls)[i];
            &&& plan.id == calls[i].id
            &&& plan.name == calls[i].name
            &&& plan.args == calls[i].args
            &&& plan.parse_error == calls[i].parse_error
            &&& plan.denied is None
        },
{
}

/// A call is answered without a tool exactly where it was denied or its arguments are
/// malformed, and with that reason.
pub open spec fn needs_no_tool(plan: ToolPlanView) -> bool {
    plan.denied is Some || plan.parse_error is Some
}

/// The answer to a call that needs no tool.
pub open spec fn answer_without_tool(plan: ToolPlanView, outcome: ToolOutcomeView) -> bool {
    match plan.denied {
        Some(reason) => outcome == (ToolOutcomeView::Denied { message: reason }),
        None => plan.parse_error matches Some(reason) && outcome == ToolOutcomeView::Error(reason),
    }
}

/// Outcomes that came in are kept, each call behind them that needs no tool is answered
/// with its reason, in order and in no time, and the next call that needs one waits
/// for it.
pub proof fn outcomes_are_kept_and_filled_in_order(
    plans: Seq<ToolPlanView>,
    outcomes: Seq<(ToolOutcomeView, Duration)>,
    zero: Duration,
)
    requires
        outcomes.len() <= plans.len(),
    ensures
        ({
            let after = filled(plans, outcomes, zero);
            &&& outcomes.len() <= after.len() <= plans.len()
            &&& outcomes.is_prefix_of(after)
            &&& forall|i: int|
                outcomes.len() <= i < after.len() ==> answer_without_tool(
                    plans[i],
                    (#[trigger] after[i]).0,
                ) && after[i].1 == zero
            &&& after.len() < plans.len() ==> !needs_no_tool(plans[after.len() as int])
        }),
    decreases plans.len() - outcomes.len(),
{
    if outcomes.len() < plans.len() {
        let n: int = outcomes.len() as int;
        match settled(plans[n]) {
            Some(outcome) => {
                let next = outcomes.push((outcome, zero));
                outcomes_are_kept_and_filled_in_order(plans, next, zero);
                let after = filled(plans, outcomes, zero);
                assert(after == filled(plans, next, zero));
                assert(next =~= after.subrange(0, n + 1));
                assert(after.take(n) =~= outcomes) by {
                    assert(after.take(n + 1) =~= next);
                    assert forall|i: int| 0 <= i < n implies after[i] == outcomes[i] by {
                        assert(after.take(n + 1)[i] == next[i]);
                    }
                }
                assert(after[n] == next[n]) by {
                    assert(after.take(n + 1)[n] == next[n]);
                }
                assert(outcomes.is_prefix_of(after));
                assert forall|i: int| outcomes.len() <= i < after.len() implies answer_without_tool(
                    plans[i],
                    (#[trigger] after[i]).0,
                ) && after[i].1 == zero by {
                    if i == n {
                        assert(after[i] == (outcome, zero));
                        assert(settled(plans[n]) == Some(outcome));
                    } else {
                        assert(next.len() <= i < filled(plans, next, zero).len());
                        assert(answer_without_tool(plans[i], filled(plans, next, zero)[i].0));
                    }
                }
            },
            None => {
                assert(filled(plans, outcomes, zero) == outcomes);
                assert(outcomes.take(n) =~= outcomes);
                assert(!needs_no_tool(plans[n]));
            },
        }
    } else {
        assert(outcomes.take(outcomes.len() as int) =~= outcomes);
    }
}

/// What a tool gave is the outcome of the call that waited for it.
pub proof fn an_outcome_answers_the_waiting_call(
    run: RunView,
    agent: AgentView,
    outcome: ToolOutcomeView,
    elapsed: Duration,
)
    requires
        run.ok(),
        run.phase is Dispatching,
    ensures
        ({
            let after = transition(run, agent, ReplyView::ToolDone(outcome, elapsed)).run;
            let at = run.outcomes.len() as int;
            &&& after.plans == run.plans
            &&& run.outcomes.is_prefix_of(after.outcomes)
            &&& at < after.outcomes.len()
            &&& after.outcomes[at] == (outcome, elapsed)
        }),
{
    let next = run.outcomes.push((outcome, elapsed));
    let after = filled(run.plans, next, no_time());
    let at: int = run.outcomes.len() as int;
    outcomes_are_kept_and_filled_in_order(run.plans, next, no_time());
    assert(after.take(at + 1) =~= next);
    assert(after[at] == next[at]) by {
        assert(after.take(at + 1)[at] == next[at]);
    }
    assert(after.take(at) =~= run.outcomes) by {
        assert forall|i: int| 0 <= i < at implies after[i] == run.outcomes[i] by {
            assert(after.take(at + 1)[i] == next[i]);
        }
    }
}

/// A step takes its events as they come, the first one onto nothing, and emits the
/// delta of each at once.
pub proof fn a_step_takes_its_events_as_they_come(
    run: RunView,
    agent: AgentView,
    event: StreamEventView,
)
    ensures
        run.phase is Acquire ==> {
            let moved = transition(run, agent, ReplyView::AttemptFirst(event));
            &&& moved.run.phase is Streaming
            &&& moved.run.acc == step::folded(seq![event])
            &&& moved.events == step::emitted(seq![event])
            &&& moved.agent == agent
        },
        run.phase is Streaming ==> {
            let moved = transition(run, agent, ReplyView::ItemEvent(event));
            &&& moved.run.phase is Streaming
            &&& moved.agent == agent
            &&& forall|before: Seq<StreamEventView>|
                run.acc == #[trigger] step::folded(before) ==> moved.run.acc == step::folded(
                    before.push(event),
                )
        },
{
    reveal_with_fuel(step::folded, 2);
    reveal_with_fuel(step::emitted, 2);
    assert(seq![event].drop_last() =~= Seq::<StreamEventView>::empty());
    if run.phase is Acquire {
        assert(transition(run, agent, ReplyView::AttemptFirst(event)).events =~= step::emitted(
            seq![event],
        ));
    }
    assert forall|before: Seq<StreamEventView>|
        run.phase is Streaming && run.acc == #[trigger] step::folded(before) implies transition(
        run,
        agent,
        ReplyView::ItemEvent(event),
    ).run.acc == step::folded(before.push(event)) by {
        assert(before.push(event).drop_last() =~= before);
    }
}

/// When a stream ends, what the model said goes into the conversation as one turn,
/// behind all that was said before.
pub proof fn a_turn_goes_into_the_conversation(run: RunView, agent: AgentView)
    requires
        run.phase is Streaming,
    ensures
        ({
            let after = transition(run, agent, ReplyView::ItemFinished).agent.messages;
            let n = agent.messages.len() as int;
            &&& after.len() > n
            &&& agent.messages.is_prefix_of(after)
            &&& after[n] == MessageView::Assistant(step::turn_content(run.acc))
        }),
{
    let after = transition(run, agent, ReplyView::ItemFinished).agent.messages;
    assert(after.take(agent.messages.len() as int) =~= agent.messages);
}

/// A step is reported as it went: its results in order, then its end with its text,
/// its reasoning where there was any, its usage and its model. The record of the step
/// says the same, and one more step is counted.
pub proof fn a_step_is_reported_as_it_went(run: RunView, agent: AgentView)
    ensures
        ({
            let moved = end_step(run, agent);
            let n = run.plans.len() as int;
            &&& moved.events.len() > n
            &&& forall|i: int|
                0 <= i < n ==> #[trigger] moved.events[i] == (AgentEventView::ToolResult {
                    id: run.plans[i].id,
                    name: run.plans[i].name,
                    result: run.outcomes[i].0,
                })
            &&& moved.events[n] matches AgentEventView::StepEnd {
                index,
                text,
                reasoning,
                usage,
                model,
            } && index == run.steps && text == run.acc.text && usage == run.acc.step_usage && model
                == agent.model && (run.acc.reasoning.len() > 0 ==> reasoning == Some(
                run.acc.reasoning,
            )) && (run.acc.reasoning.len() == 0 ==> reasoning is None)
            &&& moved.run.last_step matches Some(record) && record.index == run.steps && record.text
                == run.acc.text && record.stop == run.acc.stop && (run.acc.reasoning.len() > 0
                ==> record.reasoning == Some(run.acc.reasoning)) && (run.acc.reasoning.len() == 0
                ==> record.reasoning is None) && record.tool_calls.len() == n
            &&& run.steps < u32::MAX ==> moved.run.steps == run.steps + 1
        }),
{
}

/// Skills that were listed take effect at once: they are the session's, and with any
/// of them the run offers the skill tools. A loader that failed ends the run with its
/// message.
pub proof fn listed_skills_take_effect(
    run: RunView,
    agent: AgentView,
    skills: Seq<SkillView>,
    message: Seq<char>,
)
    requires
        run.phase is ListSkills,
    ensures
        ({
            let moved = transition(run, agent, ReplyView::Skills(Ok(skills)));
            &&& moved.agent.skills == skills
            &&& moved.agent.skills_listed
            &&& moved.agent.messages == agent.messages
            &&& moved.run.skills_active <==> skills.len() > 0
            &&& moved.run.tools == agent::offered_tools(agent.tools, skills.len() > 0)
            &&& moved.run.phase is DeriveCacheKey
        }),
        ({
            let moved = transition(run, agent, ReplyView::Skills(Err(message)));
            &&& moved.run.phase is Done
            &&& moved.agent == agent
            &&& moved.run.finish == Some(
                FinishView::Stopped { message: Some("skill loader error: "@ + message) },
            )
            &&& moved.events.len() == 1
            &&& moved.events[0] is Done
        }),
{
}

/// Where the active model has no provider, nobody is asked: the run ends with a message
/// that names the model.
pub proof fn a_model_without_a_provider_ends_the_run(run: RunView, agent: AgentView)
    requires
        run.phase is CheckCancel,
        agent.middleware == 0,
        forall|i: int| 0 <= i < agent.providers.len() ==> (#[trigger] agent.providers[i]).0
            != agent.model,
    ensures
        ({
            let moved = transition(run, agent, ReplyView::Cancelled(false));
            &&& moved.run.phase is OnFinish || moved.run.phase is Done
            &&& moved.run.finish matches Some(FinishView::Stopped { message: Some(told) })
                && text::holds_text(told, text::quoted(agent.model))
            &&& moved.agent == agent
        }),
{
    collections::lemma_position(agent.providers, agent.model);
    let head = "no provider registered for model "@;
    let none = Seq::<char>::empty();
    text::a_text_holds_its_parts(head, text::quoted(agent.model), none);
    text::what_a_part_holds_the_text_holds(
        "context error: "@,
        head + text::quoted(agent.model),
        none,
        text::quoted(agent.model),
    );
}

/// A new run has done nothing yet, lists the skills exactly where there is a loader
/// that no run asked before, and otherwise offers its tools right away.
pub proof fn a_new_run_has_done_nothing(agent: AgentView)
    ensures
        ({
            let run = started_run(agent);
            &&& run.steps == 0
            &&& run.started == 0
            &&& run.plans.len() == 0
            &&& run.outcomes.len() == 0
            &&& run.final_text.len() == 0
            &&& run.last_step is None
            &&& run.request is None
            &&& run.finish is None
            &&& run.tool_stop is None
            &&& run.cache_key is None
            &&& run.phase is ListSkills <==> agent.has_loader && !agent.skills_listed
            &&& !(run.phase is ListSkills) ==> run.phase is DeriveCacheKey && run.tools
                == agent::offered_tools(agent.tools, agent.skills.len() > 0) && (run.skills_active
                <==> agent.skills.len() > 0)
        }),
{
}

} // verus!
