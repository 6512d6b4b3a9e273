use stakit::agent::{loaded_skill, Agent, Job};
use stakit::agent_cx::AgentCx;
use stakit::agent_run::{AgentRun, Attempt, Item, Phase, Reply, DEFAULT_MAX_STEPS};
use stakit::control::{Approval, Flow};
use stakit::error::{AgentError, ProviderError};
use stakit::json::Json;
use stakit::loop_event::{AgentEvent, Finish, Outcome, PendingToolCall, StopCond, ToolOutcome};
use stakit::message::{Message, UserContent};
use stakit::provider::{ChatRequest, StopReason, StreamEvent, ToolDef};
use stakit::skill::{Skill, SkillContent};
use stakit::usage::Usage;
use std::cell::{Cell, RefCell};
use std::collections::VecDeque;
use std::rc::Rc;
use std::time::Duration;

trait Hooks {
    fn on_start(&mut self, _cx: &mut AgentCx<'_, ()>) -> Result<Flow, AgentError> {
        Ok(Flow::Continue)
    }
    fn on_step(&mut self, _cx: &mut AgentCx<'_, ()>) -> Result<Flow, AgentError> {
        Ok(Flow::Continue)
    }
    fn on_tool_approve(&mut self, _call: &PendingToolCall) -> Result<Approval, AgentError> {
        Ok(Approval::Allow)
    }
    fn on_step_done(&mut self, _cx: &mut AgentCx<'_, ()>) -> Result<Flow, AgentError> {
        Ok(Flow::Continue)
    }
    fn on_finish(&mut self) {}
}

type Events = Vec<Result<StreamEvent, ProviderError>>;
type ProviderFn = Box<dyn FnMut(&ChatRequest) -> Result<Events, ProviderError>>;
type ToolFn = Box<dyn FnMut(&Json) -> ToolOutcome>;

struct World {
    providers: Vec<ProviderFn>,
    tools: Vec<ToolFn>,
    hooks: Vec<Box<dyn Hooks>>,
    skills: Vec<Skill>,
    loads: Rc<RefCell<Vec<String>>>,
    cancelled: Rc<Cell<bool>>,
    hangs: bool,
    delays: Vec<Option<Duration>>,
}

fn world() -> World {
    World {
        providers: Vec::new(),
        tools: Vec::new(),
        hooks: Vec::new(),
        skills: Vec::new(),
        loads: Rc::new(RefCell::new(Vec::new())),
        cancelled: Rc::new(Cell::new(false)),
        hangs: false,
        delays: Vec::new(),
    }
}

fn drive(agent: &mut Agent, world: &mut World) -> (Vec<AgentEvent>, Outcome) {
    let mut run = AgentRun::start(agent);
    let mut stream: VecDeque<Result<StreamEvent, ProviderError>> = VecDeque::new();
    let mut events = Vec::new();
    loop {
        let reply = match run.phase() {
            Phase::Done => break,
            Phase::ListSkills => Reply::Skills(Ok(world.skills.clone())),
            Phase::DeriveCacheKey => Reply::CacheKey(None),
            Phase::CheckCancel => Reply::Cancelled(world.cancelled.get()),
            Phase::OnStart(i) | Phase::OnStep(i) | Phase::OnStepDone(i) => {
                let phase = run.phase();
                let usage = *agent.usage();
                let (messages, model, system) = agent.parts_mut();
                let mut cx = AgentCx::new(
                    &(),
                    messages,
                    model,
                    system,
                    &usage,
                    run.hook_index(),
                    run.hook_step(),
                    world.cancelled.get(),
                );
                let hook = &mut world.hooks[i];
                Reply::Hook(match phase {
                    Phase::OnStart(_) => hook.on_start(&mut cx),
                    Phase::OnStep(_) => hook.on_step(&mut cx),
                    _ => hook.on_step_done(&mut cx),
                })
            }
            Phase::Acquire { slot, .. } => {
                world.delays.push(run.attempt_delay(agent));
                if world.hangs {
                    Reply::Attempt(Attempt::TimedOut)
                } else {
                    let request = run.request().expect("request");
                    Reply::Attempt(match (world.providers[slot])(request) {
                        Err(e) => Attempt::Failed(e),
                        Ok(list) => {
                            stream = list.into();
                            match stream.pop_front() {
                                None => Attempt::Empty,
                                Some(Ok(e)) => Attempt::First(e),
                                Some(Err(e)) => Attempt::Failed(e),
                            }
                        }
                    })
                }
            }
            Phase::Streaming => Reply::Item(match stream.pop_front() {
                None => Item::Finished,
                Some(Ok(e)) => Item::Event(e),
                Some(Err(e)) => Item::Failed(e),
            }),
            Phase::Approving { middleware, .. } => {
                let call = run.pending_call().expect("pending call");
                Reply::Approval(world.hooks[middleware].on_tool_approve(&call))
            }
            Phase::Dispatching => {
                let plan = &run.plans()[run.resolved()];
                let outcome = match agent.job(plan) {
                    Job::Settled(o) | Job::Answer(o) => o,
                    Job::LoadSkill(id) => {
                        world.loads.borrow_mut().push(id.clone());
                        loaded_skill(if id == "ghost" {
                            Err(AgentError::Skill("no such skill: ghost".into()))
                        } else {
                            Ok(SkillContent {
                                body: format!("body for {id}"),
                                references: Vec::new(),
                            })
                        })
                    }
                    Job::Call(i) => (world.tools[i])(&plan.args),
                };
                Reply::ToolDone(outcome, Duration::ZERO)
            }
            Phase::OnFinish(i) => {
                world.hooks[i].on_finish();
                Reply::HookFinished
            }
        };
        events.extend(run.advance(agent, reply));
    }
    let outcome = match events.last() {
        Some(AgentEvent::Done(o)) => o.clone(),
        _ => panic!("the last event is the outcome"),
    };
    (events, outcome)
}

fn echo_def() -> ToolDef {
    ToolDef::new("echo".into(), "Echo".into(), Json::empty_object())
}

fn echo_tool() -> ToolFn {
    Box::new(|args| match args.str_at("text") {
        Some(t) => ToolOutcome::Success(Json::text(t)),
        None => ToolOutcome::Error("missing text".into()),
    })
}

fn call(id: &str, name: &str, arguments: &str) -> Result<StreamEvent, ProviderError> {
    Ok(StreamEvent::ToolCall {
        id: id.into(),
        name: name.into(),
        arguments: arguments.into(),
    })
}

fn end(stop: StopReason, input: u64, output: u64) -> Result<StreamEvent, ProviderError> {
    Ok(StreamEvent::End {
        stop,
        usage: Usage {
            input_tokens: input,
            output_tokens: output,
            ..Usage::default()
        },
    })
}

fn text(t: &str) -> Result<StreamEvent, ProviderError> {
    Ok(StreamEvent::TextDelta(t.into()))
}

/// First a call of the tool, then the text "done".
fn two_step(tool: &'static str, arguments: &'static str) -> (ProviderFn, Rc<RefCell<Vec<ChatRequest>>>) {
    let seen: Rc<RefCell<Vec<ChatRequest>>> = Rc::new(RefCell::new(Vec::new()));
    let log = Rc::clone(&seen);
    let provider: ProviderFn = Box::new(move |r| {
        log.borrow_mut().push(r.clone());
        Ok(if log.borrow().len() == 1 {
            vec![
                Ok(StreamEvent::Start {
                    usage: Usage {
                        input_tokens: 10,
                        ..Usage::default()
                    },
                }),
                call("t1", tool, arguments),
                end(StopReason::ToolUse, 10, 5),
            ]
        } else {
            vec![text("done"), end(StopReason::EndTurn, 20, 3)]
        })
    });
    (provider, seen)
}

fn scripted() -> (Agent, World, Rc<RefCell<Vec<ChatRequest>>>) {
    let (provider, seen) = two_step("echo", r#"{ "text": "hi" }"#);
    let mut w = world();
    w.providers.push(provider);
    w.tools.push(echo_tool());
    let agent = Agent::new()
        .provider("scripted".into(), 0)
        .register_tool(echo_def())
        .with_context(vec![Message::user_text("hi".into())]);
    (agent, w, seen)
}

fn with_hooks(agent: Agent, w: &mut World, hooks: Vec<Box<dyn Hooks>>) -> Agent {
    let mut agent = agent;
    for h in hooks {
        w.hooks.push(h);
        agent = agent.register_middleware();
    }
    agent
}

#[test]
fn provider_registers_and_sets_default_model() {
    let agent = Agent::new().provider("flaky".into(), 0);
    assert!(agent.has_provider("flaky"));
    assert!(!agent.has_provider("missing"));
    assert_eq!(agent.current_model(), "flaky");
}

#[test]
fn agentcx_exposes_ctx_messages_and_model() {
    let mut msgs = vec![Message::user_text("hi".into())];
    let mut model = String::from("gpt-5");
    let mut system: Option<String> = None;
    let usage = Usage::default();
    let mut cx = AgentCx::new(
        &7u32, &mut msgs, &mut model, &mut system, &usage, 0, None, false,
    );
    assert_eq!(*cx.ctx(), 7);
    cx.messages_mut().push(Message::user_text("again".into()));
    assert_eq!(cx.messages().len(), 2);
    cx.set_model("opus".into());
    assert_eq!(cx.model(), "opus");
    assert_eq!(cx.index(), 0);
    assert!(cx.step().is_none());
    assert!(!cx.is_cancelled());
    assert_eq!(*cx.usage(), Usage::default());
}

#[test]
fn run_executes_tool_then_ends_and_streams() {
    let (mut agent, mut w, _) = scripted();
    let (events, out) = drive(&mut agent, &mut w);
    assert!(events
        .iter()
        .any(|e| matches!(e, AgentEvent::ToolResult { .. })));
    assert_eq!(out.text, "done");
    assert!(matches!(out.finish, Finish::EndTurn));
}

#[test]
fn run_accumulates_usage_across_steps() {
    let (mut agent, mut w, _) = scripted();
    let (_, out) = drive(&mut agent, &mut w);
    assert_eq!(out.usage.input_tokens, 30);
    assert_eq!(out.usage.output_tokens, 8);
    assert_eq!(out.steps, 2);
    let tool_result = agent.messages().iter().any(|m| {
        matches!(m, Message::User(parts) if parts.iter().any(|p| matches!(
            p,
            UserContent::ToolResult { is_error: false, .. }
        )))
    });
    assert!(
        tool_result,
        "expected a tool-result message in the conversation"
    );
}

struct DenyTools;
impl Hooks for DenyTools {
    fn on_tool_approve(&mut self, call: &PendingToolCall) -> Result<Approval, AgentError> {
        Ok(Approval::Deny {
            message: format!("{} not allowed", call.name),
        })
    }
}

struct Deny(&'static str);
impl Hooks for Deny {
    fn on_tool_approve(&mut self, _call: &PendingToolCall) -> Result<Approval, AgentError> {
        Ok(Approval::Deny {
            message: self.0.to_string(),
        })
    }
}

struct Halt;
impl Hooks for Halt {
    fn on_tool_approve(&mut self, _call: &PendingToolCall) -> Result<Approval, AgentError> {
        Ok(Approval::Stop {
            message: Some("approval-halted".into()),
        })
    }
}

struct AllowAll;
impl Hooks for AllowAll {}

#[test]
fn denied_tool_yields_error_result_and_continues() {
    let (agent, mut w, _) = scripted();
    let mut agent = with_hooks(agent, &mut w, vec![Box::new(DenyTools)]);
    let (events, out) = drive(&mut agent, &mut w);
    assert!(events.iter().any(|e| matches!(
        e,
        AgentEvent::ToolResult { result: ToolOutcome::Denied { message }, .. } if message == "echo not allowed"
    )));
    assert_eq!(out.text, "done");
}

struct StopAtStart;
impl Hooks for StopAtStart {
    fn on_start(&mut self, _cx: &mut AgentCx<'_, ()>) -> Result<Flow, AgentError> {
        Ok(Flow::stop("halted before any model call".into()))
    }
}

#[test]
fn middleware_stop_in_on_start_halts_with_message() {
    let (agent, mut w, _) = scripted();
    let mut agent = with_hooks(agent, &mut w, vec![Box::new(StopAtStart)]);
    let (_, out) = drive(&mut agent, &mut w);
    assert!(matches!(out.finish, Finish::Stopped { .. }));
    assert_eq!(out.text, "halted before any model call");
    assert_eq!(out.steps, 0);
}

struct Seed;
impl Hooks for Seed {
    fn on_start(&mut self, cx: &mut AgentCx<'_, ()>) -> Result<Flow, AgentError> {
        cx.messages_mut()
            .insert(0, Message::user_text("seeded".into()));
        Ok(Flow::Continue)
    }
}

#[test]
fn middleware_on_start_prepends_conversation() {
    let (agent, mut w, seen) = scripted();
    let mut agent = with_hooks(agent, &mut w, vec![Box::new(Seed)]);
    drive(&mut agent, &mut w);
    assert_eq!(seen.borrow()[0].messages.len(), 2);
}

struct Logged {
    name: &'static str,
    log: Rc<RefCell<Vec<String>>>,
    stop_start: bool,
    stop_step: Option<&'static str>,
}
impl Logged {
    fn note(&self, what: &str) {
        self.log.borrow_mut().push(format!("{what}:{}", self.name));
    }
}
impl Hooks for Logged {
    fn on_start(&mut self, _cx: &mut AgentCx<'_, ()>) -> Result<Flow, AgentError> {
        self.note("on_start");
        Ok(if self.stop_start {
            Flow::Stop("halted".into())
        } else {
            Flow::Continue
        })
    }
    fn on_step(&mut self, _cx: &mut AgentCx<'_, ()>) -> Result<Flow, AgentError> {
        self.note("on_step");
        Ok(match self.stop_step {
            Some(m) => Flow::Stop(m.into()),
            None => Flow::Continue,
        })
    }
    fn on_step_done(&mut self, _cx: &mut AgentCx<'_, ()>) -> Result<Flow, AgentError> {
        self.note("on_step_done");
        Ok(Flow::Continue)
    }
    fn on_finish(&mut self) {
        self.note("on_finish");
    }
}

fn logged(
    name: &'static str,
    log: &Rc<RefCell<Vec<String>>>,
    stop_start: bool,
    stop_step: Option<&'static str>,
) -> Box<dyn Hooks> {
    Box::new(Logged {
        name,
        log: Rc::clone(log),
        stop_start,
        stop_step,
    })
}

#[test]
fn on_finish_runs_for_started_middleware() {
    let (agent, mut w, _) = scripted();
    let log = Rc::new(RefCell::new(Vec::new()));
    let mut agent = with_hooks(agent, &mut w, vec![logged("M", &log, false, None)]);
    drive(&mut agent, &mut w);
    let entries = log.borrow();
    assert_eq!(entries.iter().filter(|e| *e == "on_start:M").count(), 1);
    assert_eq!(entries.iter().filter(|e| *e == "on_finish:M").count(), 1);
}

#[test]
fn hooks_run_in_registration_order() {
    let (agent, mut w, _) = scripted();
    let log = Rc::new(RefCell::new(Vec::new()));
    let mut agent = with_hooks(
        agent,
        &mut w,
        vec![logged("A", &log, false, None), logged("B", &log, false, None)],
    );
    drive(&mut agent, &mut w);
    let entries = log.borrow();
    let at = |what: &str| entries.iter().position(|e| e == what).expect(what);
    assert!(at("on_start:A") < at("on_start:B"));
    assert!(at("on_step:A") < at("on_step:B"));
    assert!(at("on_step_done:A") < at("on_step_done:B"));
    assert!(at("on_finish:A") < at("on_finish:B"));
}

#[test]
fn first_stop_in_on_step_skips_later_middlewares() {
    let (agent, mut w, _) = scripted();
    let log = Rc::new(RefCell::new(Vec::new()));
    let mut agent = with_hooks(
        agent,
        &mut w,
        vec![logged("A", &log, false, Some("a")), logged("B", &log, false, None)],
    );
    let (_, out) = drive(&mut agent, &mut w);
    assert!(matches!(&out.finish, Finish::Stopped { message: Some(m) } if m == "a"));
    assert_eq!(out.text, "a");
    assert!(!log.borrow().contains(&"on_step:B".to_string()));
}

#[test]
fn on_finish_runs_for_all_started_middlewares_after_step_stop() {
    let (agent, mut w, _) = scripted();
    let log = Rc::new(RefCell::new(Vec::new()));
    let mut agent = with_hooks(
        agent,
        &mut w,
        vec![
            logged("A", &log, false, Some("stopped")),
            logged("B", &log, false, None),
        ],
    );
    let (_, out) = drive(&mut agent, &mut w);
    assert!(matches!(out.finish, Finish::Stopped { .. }));
    for e in ["on_start:A", "on_start:B", "on_finish:A", "on_finish:B"] {
        assert!(log.borrow().contains(&e.to_string()), "{e} missing");
    }
}

#[test]
fn on_finish_only_for_started_middlewares_when_on_start_stops() {
    let (agent, mut w, _) = scripted();
    let log = Rc::new(RefCell::new(Vec::new()));
    let mut agent = with_hooks(
        agent,
        &mut w,
        vec![logged("A", &log, true, None), logged("B", &log, false, None)],
    );
    let (_, out) = drive(&mut agent, &mut w);
    assert!(matches!(out.finish, Finish::Stopped { .. }));
    assert_eq!(
        *log.borrow(),
        vec!["on_start:A".to_string(), "on_finish:A".to_string()]
    );
}

#[test]
fn deny_beats_allow_in_tool_approve() {
    let (agent, mut w, _) = scripted();
    let mut agent = with_hooks(
        agent,
        &mut w,
        vec![Box::new(AllowAll), Box::new(Deny("not-allowed"))],
    );
    let (events, _) = drive(&mut agent, &mut w);
    let result = events
        .iter()
        .find_map(|e| match e {
            AgentEvent::ToolResult { result, .. } => Some(result),
            _ => None,
        })
        .expect("tool result must be produced");
    assert!(matches!(result, ToolOutcome::Denied { message } if message == "not-allowed"));
}

#[test]
fn stop_beats_deny_in_tool_approve() {
    let (agent, mut w, _) = scripted();
    let mut agent = with_hooks(agent, &mut w, vec![Box::new(Deny("denied")), Box::new(Halt)]);
    let (_, out) = drive(&mut agent, &mut w);
    assert!(matches!(out.finish, Finish::Stopped { .. }));
}

#[test]
fn stop_beats_allow_in_tool_approve() {
    let (agent, mut w, _) = scripted();
    let mut agent = with_hooks(agent, &mut w, vec![Box::new(AllowAll), Box::new(Halt)]);
    let (_, out) = drive(&mut agent, &mut w);
    assert!(matches!(out.finish, Finish::Stopped { .. }));
}

#[test]
fn approval_stop_halts_run_not_just_tool() {
    let (agent, mut w, seen) = scripted();
    let mut agent = with_hooks(agent, &mut w, vec![Box::new(Halt)]);
    let (events, out) = drive(&mut agent, &mut w);
    assert!(matches!(out.finish, Finish::Stopped { .. }));
    assert!(!events.iter().any(|e| matches!(
        e,
        AgentEvent::ToolResult {
            result: ToolOutcome::Denied { .. },
            ..
        }
    )));
    assert_eq!(seen.borrow().len(), 1, "provider must be called only once on Stop");
}

struct StopInDone;
impl Hooks for StopInDone {
    fn on_step_done(&mut self, _cx: &mut AgentCx<'_, ()>) -> Result<Flow, AgentError> {
        Ok(Flow::Stop("step-done-stop".into()))
    }
}

#[test]
fn flow_stop_from_on_step_done_halts_after_results() {
    let (agent, mut w, _) = scripted();
    let mut agent = with_hooks(agent, &mut w, vec![Box::new(StopInDone)]);
    let (events, out) = drive(&mut agent, &mut w);
    assert!(events
        .iter()
        .any(|e| matches!(e, AgentEvent::ToolResult { .. })));
    assert!(matches!(&out.finish, Finish::Stopped { message: Some(m) } if m == "step-done-stop"));
    assert_eq!(out.text, "step-done-stop");
    assert_eq!(out.steps, 1);
}

struct SetSystem;
impl Hooks for SetSystem {
    fn on_step(&mut self, cx: &mut AgentCx<'_, ()>) -> Result<Flow, AgentError> {
        if cx.index() == 1 {
            cx.set_system("NEW".into());
        }
        Ok(Flow::Continue)
    }
}

#[test]
fn set_system_mid_run_affects_next_provider_request() {
    let (agent, mut w, seen) = scripted();
    let mut agent = with_hooks(
        agent.system("ORIGINAL".into()),
        &mut w,
        vec![Box::new(SetSystem)],
    );
    drive(&mut agent, &mut w);
    let seen = seen.borrow();
    assert_eq!(seen.len(), 2, "expected exactly 2 provider calls");
    let system = |i: usize| seen[i].system.as_ref().unwrap().text.clone();
    assert!(system(0).contains("ORIGINAL"));
    assert!(system(1).contains("NEW"));
    assert!(!system(1).contains("ORIGINAL"));
}

#[test]
fn every_call_of_a_turn_is_answered_in_order() {
    let (mut agent, mut w, _) = scripted();
    let mut first = true;
    w.providers[0] = Box::new(move |_| {
        let list = if first {
            vec![
                call("a", "echo", r#"{"text":"1"}"#),
                call("b", "nope", "{}"),
                call("c", "echo", r#"{"text":"2"}"#),
                end(StopReason::ToolUse, 0, 0),
            ]
        } else {
            vec![text("done"), end(StopReason::EndTurn, 0, 0)]
        };
        first = false;
        Ok(list)
    });
    let (events, _) = drive(&mut agent, &mut w);
    let ids: Vec<&str> = events
        .iter()
        .filter_map(|e| match e {
            AgentEvent::ToolResult { id, .. } => Some(id.as_str()),
            _ => None,
        })
        .collect();
    assert_eq!(ids, vec!["a", "b", "c"]);
    let answered: Vec<String> = agent
        .messages()
        .iter()
        .filter_map(|m| match m {
            Message::User(parts) => Some(parts),
            _ => None,
        })
        .flatten()
        .filter_map(|p| match p {
            UserContent::ToolResult { id, .. } => Some(id.clone()),
            _ => None,
        })
        .collect();
    assert_eq!(answered, vec!["a", "b", "c"]);
}

struct Cancels(Rc<Cell<bool>>);
impl Hooks for Cancels {
    fn on_start(&mut self, _cx: &mut AgentCx<'_, ()>) -> Result<Flow, AgentError> {
        self.0.set(true);
        Ok(Flow::Continue)
    }
}

#[test]
fn cancelled_run_finishes_cancelled() {
    let (agent, mut w, _) = scripted();
    let flag = Rc::clone(&w.cancelled);
    let mut agent = with_hooks(agent, &mut w, vec![Box::new(Cancels(flag))]);
    let (_, out) = drive(&mut agent, &mut w);
    assert!(matches!(out.finish, Finish::Cancelled));
    assert_eq!(out.steps, 0);
}

#[test]
fn no_provider_for_model_stops_with_error() {
    let mut agent = Agent::new()
        .model("ghost".into())
        .with_context(vec![Message::user_text("hi".into())]);
    let (_, out) = drive(&mut agent, &mut world());
    let Finish::Stopped { message } = out.finish else {
        panic!("expected Stopped");
    };
    assert!(message.unwrap_or_default().contains("ghost"));
}

#[test]
fn provider_sets_default_model() {
    let agent = Agent::new().provider("scripted".into(), 0);
    assert_eq!(agent.current_model(), "scripted");
    let agent = agent.register_provider("parallel".into(), 1);
    assert_eq!(agent.current_model(), "scripted");
}

#[test]
fn step_cap_runs_exactly_default_max_steps() {
    let (mut agent, mut w, _) = scripted();
    let calls = Rc::new(Cell::new(0));
    let count = Rc::clone(&calls);
    w.providers[0] = Box::new(move |_| {
        count.set(count.get() + 1);
        Ok(vec![
            call("x", "echo", r#"{"text":"x"}"#),
            end(StopReason::ToolUse, 0, 0),
        ])
    });
    let (_, out) = drive(&mut agent, &mut w);
    assert_eq!(DEFAULT_MAX_STEPS, 16);
    assert_eq!(calls.get(), 16);
    assert_eq!(out.steps, 16);
    assert!(matches!(out.finish, Finish::Limit(StopCond::StepCountIs(16))));
}

#[test]
fn malformed_tool_args_yield_error_not_empty_call() {
    let (provider, _) = two_step("spy", r#"{"text": "oo"#);
    let seen = Rc::new(Cell::new(0));
    let count = Rc::clone(&seen);
    let mut w = world();
    w.providers.push(provider);
    w.tools.push(Box::new(move |_| {
        count.set(count.get() + 1);
        ToolOutcome::Success(Json::text("ok"))
    }));
    let mut agent = Agent::new()
        .provider("malformed".into(), 0)
        .register_tool(ToolDef::new("spy".into(), "spy".into(), Json::empty_object()))
        .with_context(vec![Message::user_text("hi".into())]);
    let (events, _) = drive(&mut agent, &mut w);
    assert!(events.iter().any(|e| matches!(
        e,
        AgentEvent::ToolResult { result: ToolOutcome::Error(msg), .. } if msg.contains("malformed tool arguments")
    )));
    assert_eq!(seen.get(), 0);
}

#[test]
fn streaming_deltas_are_yielded_live_and_in_order() {
    let mut agent = Agent::new()
        .provider("ripple".into(), 0)
        .model("ripple".into())
        .with_context(vec![Message::user_text("hi".into())]);
    let mut dripple: VecDeque<StreamEvent> = VecDeque::new();
    for event in [text("a"), text("b"), text("c"), end(StopReason::EndTurn, 0, 0)] {
        dripple.push_back(event.ok().expect("event"));
    }
    let mut run = AgentRun::start(&agent);
    let mut produced = 0;
    let mut produced_at_first_delta = None;
    let mut deltas: Vec<String> = Vec::new();
    let mut delta_count_at_step_end = None;
    loop {
        let reply = match run.phase() {
            Phase::Done => break,
            Phase::DeriveCacheKey => Reply::CacheKey(None),
            Phase::CheckCancel => Reply::Cancelled(false),
            Phase::Acquire { .. } => {
                produced += 1;
                Reply::Attempt(Attempt::First(dripple.pop_front().expect("first event")))
            }
            Phase::Streaming => Reply::Item(match dripple.pop_front() {
                Some(event) => {
                    produced += 1;
                    Item::Event(event)
                }
                None => Item::Finished,
            }),
            _ => unreachable!("no hooks, skills or tools"),
        };
        for event in run.advance(&mut agent, reply) {
            match event {
                AgentEvent::MessageDelta(d) => {
                    if produced_at_first_delta.is_none() {
                        produced_at_first_delta = Some(produced);
                    }
                    deltas.push(d);
                }
                AgentEvent::StepEnd { text, .. } => {
                    delta_count_at_step_end = Some(deltas.len());
                    assert_eq!(text, "abc");
                }
                _ => {}
            }
        }
    }
    assert_eq!(produced_at_first_delta, Some(1));
    assert_eq!(deltas, vec!["a", "b", "c"]);
    assert_eq!(deltas.concat(), "abc");
    assert_eq!(delta_count_at_step_end, Some(3));
}

fn skill(id: &str, name: &str, description: &str) -> Skill {
    Skill {
        id: id.into(),
        name: name.into(),
        description: description.into(),
    }
}

fn skilled(tool: &'static str, arguments: &'static str) -> (Agent, World, Rc<RefCell<Vec<ChatRequest>>>) {
    let (provider, seen) = two_step(tool, arguments);
    let mut w = world();
    w.providers.push(provider);
    w.skills = vec![
        skill("s1", "Skill One", "first"),
        skill("s2", "Second", "about CSV files"),
    ];
    let agent = Agent::new()
        .provider("skills".into(), 0)
        .skills()
        .with_context(vec![Message::user_text("hi".into())]);
    (agent, w, seen)
}

fn first_result(events: &[AgentEvent]) -> ToolOutcome {
    events
        .iter()
        .find_map(|e| match e {
            AgentEvent::ToolResult { result, .. } => Some(result.clone()),
            _ => None,
        })
        .expect("a tool result was produced")
}

#[test]
fn load_skill_without_id_errors() {
    let (mut agent, mut w, _) = skilled("load_skill", "{}");
    let (events, _) = drive(&mut agent, &mut w);
    assert!(matches!(
        first_result(&events),
        ToolOutcome::Error(msg) if msg.contains("missing required argument: id")
    ));
    assert!(w.loads.borrow().is_empty());
}

#[test]
fn load_skill_returns_body_on_known_id() {
    let (mut agent, mut w, seen) = skilled("load_skill", r#"{"id":"s1"}"#);
    let (events, _) = drive(&mut agent, &mut w);
    assert_eq!(*w.loads.borrow(), vec!["s1".to_string()]);
    match first_result(&events) {
        ToolOutcome::Success(v) => assert!(v.render().contains("body for s1")),
        _ => panic!("expected a body"),
    }
    let seen = seen.borrow();
    let system = &seen[0].system.as_ref().unwrap().text;
    assert!(system.contains("Skill One") && system.contains("s2"));
    let names: Vec<&str> = seen[0].tools.iter().map(|t| t.name.as_str()).collect();
    assert!(names.contains(&"load_skill") && names.contains(&"search_skills"));
}

#[test]
fn load_skill_with_unknown_id_yields_error_not_panic() {
    let (mut agent, mut w, _) = skilled("load_skill", r#"{"id":"ghost"}"#);
    let (events, _) = drive(&mut agent, &mut w);
    assert!(matches!(first_result(&events), ToolOutcome::Error(m) if m.contains("ghost")));
}

#[test]
fn search_skills_returns_matches_for_query() {
    let (mut agent, mut w, _) = skilled("search_skills", r#"{"query":"csv"}"#);
    let (events, _) = drive(&mut agent, &mut w);
    match first_result(&events) {
        ToolOutcome::Success(v) => {
            let shown = v.render();
            assert!(shown.contains("s2") && !shown.contains("s1"), "{shown}");
        }
        _ => panic!("expected matches"),
    }
    assert!(w.loads.borrow().is_empty());
}

struct Switch(&'static str, u32);
impl Hooks for Switch {
    fn on_step(&mut self, cx: &mut AgentCx<'_, ()>) -> Result<Flow, AgentError> {
        if cx.index() >= self.1 {
            cx.set_model(self.0.into());
        }
        Ok(Flow::Continue)
    }
}

#[test]
fn set_model_switches_provider_mid_run() {
    let calls_a = Rc::new(Cell::new(0));
    let calls_b = Rc::new(Cell::new(0));
    let (ca, cb) = (Rc::clone(&calls_a), Rc::clone(&calls_b));
    let mut w = world();
    w.providers.push(Box::new(move |_| {
        ca.set(ca.get() + 1);
        Ok(vec![call("noop1", "noop", "{}"), end(StopReason::ToolUse, 5, 2)])
    }));
    w.providers.push(Box::new(move |_| {
        cb.set(cb.get() + 1);
        Ok(vec![text("from-b"), end(StopReason::EndTurn, 5, 3)])
    }));
    w.tools.push(Box::new(|_| ToolOutcome::Success(Json::text("ok"))));
    let agent = Agent::new()
        .provider("a".into(), 0)
        .register_provider("b".into(), 1)
        .model("a".into())
        .register_tool(ToolDef::new("noop".into(), "noop".into(), Json::empty_object()))
        .with_context(vec![Message::user_text("go".into())]);
    let mut agent = with_hooks(agent, &mut w, vec![Box::new(Switch("b", 1))]);
    let (_, out) = drive(&mut agent, &mut w);
    assert!(out.text.contains("from-b"));
    assert!(calls_b.get() > 0);
    assert_eq!(calls_a.get(), 1);
    assert!(matches!(out.finish, Finish::EndTurn));
}

#[test]
fn register_provider_does_not_steal_default_model() {
    let agent = Agent::new()
        .provider("a".into(), 0)
        .register_provider("b".into(), 1);
    assert_eq!(agent.current_model(), "a");
}

#[test]
fn set_model_to_unregistered_stops_with_error() {
    let (agent, mut w, _) = scripted();
    let mut agent = with_hooks(agent, &mut w, vec![Box::new(Switch("ghost", 0))]);
    let (_, out) = drive(&mut agent, &mut w);
    let Finish::Stopped { message } = out.finish else {
        panic!("expected Stopped");
    };
    assert!(message.unwrap_or_default().contains("ghost"));
}

fn flaky(fail_times: u32, error: fn() -> ProviderError) -> (Agent, World, Rc<Cell<u32>>) {
    let calls = Rc::new(Cell::new(0));
    let count = Rc::clone(&calls);
    let mut w = world();
    w.providers.push(Box::new(move |_| {
        count.set(count.get() + 1);
        if count.get() <= fail_times {
            Err(error())
        } else {
            Ok(vec![text("recovered"), end(StopReason::EndTurn, 0, 0)])
        }
    }));
    let agent = Agent::new()
        .provider("flaky".into(), 0)
        .with_context(vec![Message::user_text("hi".into())]);
    (agent, w, calls)
}

fn transport() -> ProviderError {
    ProviderError::Transport("transient error".into())
}

fn bad_request() -> ProviderError {
    ProviderError::Api {
        status: 400,
        kind: "invalid_request_error".into(),
        message: "bad request".into(),
        retry_after: None,
    }
}

#[test]
fn transient_then_succeeds() {
    let (agent, mut w, calls) = flaky(2, transport);
    let (_, out) = drive(&mut agent.with_retries(3), &mut w);
    assert_eq!(out.text, "recovered");
    assert!(matches!(out.finish, Finish::EndTurn));
    assert_eq!(calls.get(), 3);
    assert_eq!(
        w.delays,
        vec![
            None,
            Some(Duration::from_millis(250)),
            Some(Duration::from_millis(500)),
        ]
    );
}

#[test]
fn fatal_4xx_not_retried() {
    let (agent, mut w, calls) = flaky(9, bad_request);
    let (_, out) = drive(&mut agent.with_retries(5), &mut w);
    assert!(matches!(out.finish, Finish::Stopped { .. }));
    assert_eq!(calls.get(), 1);
}

#[test]
fn retries_exhausted_stops_after_cap() {
    let (agent, mut w, calls) = flaky(10, transport);
    let (_, out) = drive(&mut agent.with_retries(2), &mut w);
    assert!(matches!(out.finish, Finish::Stopped { .. }));
    assert_eq!(calls.get(), 3);
}

#[test]
fn hung_provider_trips_timeout() {
    let (agent, mut w, _) = flaky(0, transport);
    w.hangs = true;
    let mut agent = agent.with_retries(1).with_timeout(Duration::from_millis(50));
    let (_, out) = drive(&mut agent, &mut w);
    assert!(!matches!(out.finish, Finish::EndTurn));
    assert_eq!(w.delays.len(), 2);
}

#[test]
fn an_ended_run_stays_ended() {
    let (mut agent, mut w, _) = scripted();
    drive(&mut agent, &mut w);
    let mut agent = Agent::new().model("ghost".into());
    let mut run = AgentRun::start(&agent);
    while run.phase() != Phase::Done {
        let reply = match run.phase() {
            Phase::CheckCancel => Reply::Cancelled(false),
            Phase::DeriveCacheKey => Reply::CacheKey(None),
            _ => Reply::HookFinished,
        };
        run.advance(&mut agent, reply);
    }
    assert!(run.advance(&mut agent, Reply::Cancelled(true)).is_empty());
    assert_eq!(run.phase(), Phase::Done);
}

#[test]
fn skills_are_listed_by_the_first_run_alone() {
    let (mut agent, mut w, seen) = skilled("load_skill", r#"{"id":"s1"}"#);
    drive(&mut agent, &mut w);
    w.skills = vec![skill("s3", "Third", "later")];
    agent.push(Message::user_text("again".into()));
    drive(&mut agent, &mut w);
    let seen = seen.borrow();
    let system = &seen.last().unwrap().system.as_ref().unwrap().text;
    assert!(system.contains("s1") && !system.contains("s3"));
}

#[test]
fn steps_are_numbered_from_zero_and_counted() {
    let (mut agent, mut w, _) = scripted();
    let (events, out) = drive(&mut agent, &mut w);
    let steps: Vec<(bool, u32)> = events
        .iter()
        .filter_map(|e| match e {
            AgentEvent::StepStart { index } => Some((true, *index)),
            AgentEvent::StepEnd { index, .. } => Some((false, *index)),
            _ => None,
        })
        .collect();
    assert_eq!(steps, vec![(true, 0), (false, 0), (true, 1), (false, 1)]);
    assert_eq!(out.steps, 2);
    assert_eq!(
        events
            .iter()
            .filter(|e| matches!(e, AgentEvent::Done(_)))
            .count(),
        1
    );
}
