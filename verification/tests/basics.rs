use stakit::cache::CacheStrategy;
use stakit::context::FsContextLoader;
use stakit::control::{Approval, Flow};
use stakit::error::{AgentError, ProviderError, ToolError};
use stakit::loop_event::{AgentEvent, Finish, Outcome};
use stakit::message::{Message, SystemPrompt, UserContent};
use stakit::retry::{classify, RetryPolicy, Retryable};
use stakit::usage::Usage;
use std::time::Duration;

#[test]
fn default_strategy_is_auto() {
    assert_eq!(CacheStrategy::default(), CacheStrategy::Auto);
}

#[test]
fn flow_stop_carries_message() {
    assert!(matches!(Flow::stop("done".into()), Flow::Stop(ref m) if m == "done"));
}

#[test]
fn approval_variants_exist() {
    let _ = (
        Approval::Allow,
        Approval::Deny {
            message: "no".into(),
        },
        Approval::Stop { message: None },
    );
}

#[test]
fn tool_error_displays_message() {
    let e = ToolError::new("boom".into());
    assert_eq!(e.to_text(), "boom");
    assert_eq!(e.message(), "boom");
}

#[test]
fn provider_error_flows_into_agent_error() {
    let ai: AgentError = ProviderError::Cancelled.into();
    assert!(matches!(ai, AgentError::Provider(ProviderError::Cancelled)));
}

#[test]
fn decode_debug_truncates_raw_body() {
    let body = format!("SECRET-LEAK-{}", "x".repeat(500));
    let err = ProviderError::Decode {
        err: "expected value".into(),
        body: body.clone(),
    };
    let dbg = err.debug_text();
    assert!(
        !dbg.contains(&body),
        "raw body leaked verbatim into Debug: {dbg}"
    );
    assert!(dbg.contains("body_len"), "Debug must report the body length");
    assert!(
        dbg.len() < body.len(),
        "Debug must be shorter than the raw body"
    );
}

#[test]
fn decode_debug_truncates_on_char_boundary_for_multibyte_body() {
    let body = "é".repeat(200);
    let err = ProviderError::Decode {
        err: "bad".into(),
        body,
    };
    let dbg = err.debug_text();
    assert!(dbg.contains(&"é".repeat(32)));
    assert!(!dbg.contains(&"é".repeat(33)));
    assert!(dbg.contains("body_len: 400"));
    let err = ProviderError::Decode {
        err: "bad".into(),
        body: "€".repeat(100),
    };
    let dbg = err.debug_text();
    assert!(dbg.contains(&"€".repeat(21)));
    assert!(!dbg.contains(&"€".repeat(22)));
}

#[test]
fn debug_text_of_each_provider_error() {
    let api = ProviderError::Api {
        status: 429,
        kind: "rate_limit_error".into(),
        message: "slow \"down\"".into(),
        retry_after: Some(Duration::from_secs(2)),
    };
    assert_eq!(
        api.debug_text(),
        "Api { status: 429, kind: \"rate_limit_error\", message: \"slow \\\"down\\\"\", retry_after: Some(2s) }"
    );
    assert_eq!(ProviderError::Cancelled.debug_text(), "Cancelled");
    assert_eq!(
        ProviderError::Transport("reset".into()).debug_text(),
        "Transport(\"reset\")"
    );
    assert_eq!(
        ProviderError::InvalidArgument("no".into()).debug_text(),
        "InvalidArgument(\"no\")"
    );
}

#[test]
fn agent_error_texts() {
    assert_eq!(AgentError::context("disk".into()).to_text(), "context error: disk");
    assert!(AgentError::Schema("bad".into()).to_text().contains("bad"));
    assert!(AgentError::Mcp("bad".into()).to_text().contains("bad"));
    assert!(AgentError::Skill("bad".into()).to_text().contains("bad"));
    assert!(AgentError::Tool(ToolError::new("bad".into())).to_text().contains("bad"));
    let decode = AgentError::Provider(ProviderError::Decode {
        err: "expected value".into(),
        body: "hidden".into(),
    });
    assert!(!decode.to_text().contains("hidden"));
}

#[test]
fn user_text_builds_single_text_block() {
    assert_eq!(
        Message::user_text("hi".into()),
        Message::User(vec![UserContent::Text("hi".into())])
    );
}

#[test]
fn system_prompt_from_str_has_no_cache_breakpoint() {
    let sp = SystemPrompt::from("you are helpful");
    assert_eq!(sp.text, "you are helpful");
    assert!(!sp.cache);
}

#[test]
fn outcome_and_event_shapes() {
    let out = Outcome {
        text: "hi".into(),
        usage: Usage::default(),
        model: "m".into(),
        steps: 1,
        finish: Finish::EndTurn,
    };
    assert_eq!(out.steps, 1);
    assert!(matches!(
        AgentEvent::MessageDelta("a".into()),
        AgentEvent::MessageDelta(_)
    ));
    assert!(matches!(AgentEvent::Done(out), AgentEvent::Done(_)));
}

#[test]
fn defaults_and_classification() {
    let p = RetryPolicy::default();
    assert_eq!(p.max_retries, 2);
    assert!(p.is_retryable(&Retryable::Transient));
    assert!(!p.is_retryable(&Retryable::Fatal));
    assert!(p.backoff(1) >= p.base_backoff);
    assert!(p.backoff(100) <= p.max_backoff);
}

#[test]
fn classify_transport_is_transient() {
    let err = ProviderError::Transport("connection reset".into());
    assert!(matches!(classify(&err), Retryable::Transient));
}

#[test]
fn classify_429_is_rate_limited() {
    let err = ProviderError::Api {
        status: 429,
        kind: "rate_limit_error".into(),
        message: "too many requests".into(),
        retry_after: None,
    };
    assert!(matches!(
        classify(&err),
        Retryable::RateLimited { retry_after: None }
    ));
}

#[test]
fn classify_429_surfaces_retry_after() {
    let err = ProviderError::Api {
        status: 429,
        kind: "rate_limit_error".into(),
        message: "too many requests".into(),
        retry_after: Some(Duration::from_secs(2)),
    };
    assert!(matches!(
        classify(&err),
        Retryable::RateLimited {
            retry_after: Some(d)
        } if d == Duration::from_secs(2)
    ));
}

#[test]
fn classify_5xx_is_transient() {
    let err = ProviderError::Api {
        status: 503,
        kind: "overloaded_error".into(),
        message: "service unavailable".into(),
        retry_after: None,
    };
    assert!(matches!(classify(&err), Retryable::Transient));
}

#[test]
fn classify_4xx_non_429_is_fatal() {
    let err = ProviderError::Api {
        status: 400,
        kind: "invalid_request_error".into(),
        message: "bad request".into(),
        retry_after: None,
    };
    assert!(matches!(classify(&err), Retryable::Fatal));
}

#[test]
fn classify_cancelled_is_fatal() {
    let err = ProviderError::Cancelled;
    assert!(matches!(classify(&err), Retryable::Fatal));
}

#[test]
fn classify_decode_is_fatal() {
    let err = ProviderError::Decode {
        err: "unexpected field".into(),
        body: "{}".into(),
    };
    assert!(matches!(classify(&err), Retryable::Fatal));
}

#[test]
fn backoff_is_exponential_and_capped() {
    let p = RetryPolicy::default();
    assert_eq!(p.backoff(0), Duration::from_millis(250));
    assert_eq!(p.backoff(1), Duration::from_millis(500));
    assert_eq!(p.backoff(2), Duration::from_secs(1));
    assert_eq!(p.backoff(100), p.max_backoff);
}

#[test]
fn backoff_keeps_growing_up_to_the_ceiling() {
    let p = RetryPolicy::default();
    for n in 0..40 {
        assert!(p.backoff(n) <= p.backoff(n + 1));
        assert!(p.backoff(n) <= p.max_backoff);
        assert!(p.backoff(n) >= p.base_backoff.min(p.max_backoff));
    }
}

#[test]
fn retry_delay_honors_retry_after_over_backoff() {
    let p = RetryPolicy::default();
    let delay = p.retry_delay(
        0,
        &Retryable::RateLimited {
            retry_after: Some(Duration::from_secs(2)),
        },
    );
    assert_eq!(delay, Duration::from_secs(2));
}

#[test]
fn retry_delay_uses_backoff_when_retry_after_smaller() {
    let p = RetryPolicy::default();
    let delay = p.retry_delay(
        2,
        &Retryable::RateLimited {
            retry_after: Some(Duration::from_millis(10)),
        },
    );
    assert_eq!(delay, Duration::from_secs(1));
}

#[test]
fn retry_delay_falls_back_to_backoff_for_transient() {
    let p = RetryPolicy::default();
    assert_eq!(p.retry_delay(1, &Retryable::Transient), p.backoff(1));
}

#[test]
fn merge_sums_each_field() {
    let mut a = Usage {
        input_tokens: 10,
        output_tokens: 5,
        cache_read_tokens: 2,
        ..Usage::default()
    };
    a.merge(&Usage {
        input_tokens: 3,
        output_tokens: 4,
        reasoning_tokens: 1,
        ..Usage::default()
    });
    assert_eq!(a.input_tokens, 13);
    assert_eq!(a.output_tokens, 9);
    assert_eq!(a.cache_read_tokens, 2);
    assert_eq!(a.reasoning_tokens, 1);
}

#[test]
fn merge_saturates_instead_of_overflowing() {
    let mut a = Usage {
        input_tokens: u64::MAX,
        output_tokens: u64::MAX - 1,
        ..Usage::default()
    };
    a.merge(&Usage {
        input_tokens: 10,
        output_tokens: 5,
        ..Usage::default()
    });
    assert_eq!(a.input_tokens, u64::MAX);
    assert_eq!(a.output_tokens, u64::MAX);
}

#[test]
fn merge_order_does_not_matter() {
    let x = Usage {
        input_tokens: u64::MAX - 3,
        ..Usage::default()
    };
    let y = Usage {
        input_tokens: 2,
        output_tokens: 1,
        ..Usage::default()
    };
    let z = Usage {
        input_tokens: 9,
        ..Usage::default()
    };
    let mut a = x;
    a.merge(&y);
    a.merge(&z);
    let mut b = z;
    b.merge(&x);
    b.merge(&y);
    assert_eq!(a, b);
}

#[test]
fn total_input_sums_all_tiers() {
    let u = Usage {
        input_tokens: 100,
        cache_create_tokens: 20,
        cache_read_tokens: 30,
        ..Usage::default()
    };
    assert_eq!(u.total_input(), 150);
}

#[test]
fn total_input_saturates_instead_of_overflowing() {
    let u = Usage {
        input_tokens: u64::MAX,
        cache_create_tokens: u64::MAX,
        cache_read_tokens: u64::MAX,
        ..Usage::default()
    };
    assert_eq!(u.total_input(), u64::MAX);
}

#[test]
fn a_context_file_becomes_the_system_prompt() {
    let loader = FsContextLoader::new("AGENTS.md".into());
    assert_eq!(loader.path(), "AGENTS.md");
    let loaded = loader.loaded(Ok("rules".into())).ok().unwrap();
    assert_eq!(loaded.system.as_deref(), Some("rules"));
    assert!(loaded.messages.is_empty());
    assert!(matches!(
        loader.loaded(Err("not found".into())),
        Err(AgentError::Skill(m)) if m == "context file AGENTS.md: not found"
    ));
}
