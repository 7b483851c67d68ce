use crabbybot_core::agent::AgentError;
use crabbybot_core::rounds::{Effect, Outbound, Request, RoundEvent, RoundLoop, Step, ToolCall};

type Ev = RoundEvent<String, ()>;

fn call(id: &str, name: &str) -> ToolCall<()> {
    ToolCall { id: id.to_string(), name: name.to_string(), arguments: () }
}

fn answer(text: Option<&str>, calls: Vec<ToolCall<()>>) -> Ev {
    RoundEvent::Answered {
        message: format!("assistant:{}", text.unwrap_or("")),
        content: text.map(|t| t.to_string()),
        tool_calls: calls,
    }
}

fn failed(msg: &str) -> Ev {
    RoundEvent::Failed { error: anyhow::Error::msg(msg.to_string()), text: msg.to_string() }
}

fn published(step: &Step<String, ()>) -> Vec<String> {
    step.effects
        .iter()
        .filter_map(|e| match e {
            Effect::Publish(Outbound::Typing { channel, chat_id }) => {
                Some(format!("Typing({}, {})", channel, chat_id))
            }
            Effect::Publish(Outbound::Progress { channel, chat_id, text }) => {
                Some(format!("Progress({}, {}, {})", channel, chat_id, text))
            }
            Effect::Publish(Outbound::Reply { channel, chat_id, content }) => {
                Some(format!("Reply({}, {}, {})", channel, chat_id, content))
            }
            _ => None,
        })
        .collect()
}

fn recorded(step: &Step<String, ()>) -> Vec<String> {
    step.effects
        .iter()
        .filter_map(|e| match e {
            Effect::RecordText { role, content } => Some(format!("{}={}", role, content)),
            Effect::RecordMessage(m) => Some(m.clone()),
            _ => None,
        })
        .collect()
}

#[test]
fn round_loop_bus_events_session_and_tool_order() {
    let mut bus = Vec::new();
    let mut session = Vec::new();
    let (lp, st) = RoundLoop::start(
        "telegram:42",
        "do it",
        vec!["system".to_string(), "user:do it".to_string()],
        5,
        true,
    );
    bus.extend(published(&st));
    session.extend(recorded(&st));
    assert!(matches!(st.request, Request::CallModel));

    let (lp, st) = lp.step(answer(None, vec![call("1", "a"), call("2", "b")]));
    bus.extend(published(&st));
    session.extend(recorded(&st));
    let calls = match st.request {
        Request::RunTools(calls) => calls,
        other => panic!("expected tools to run, got {:?}", other),
    };
    let ids: Vec<&str> = calls.iter().map(|c| c.id.as_str()).collect();
    assert_eq!(ids, vec!["1", "2"]);

    // Results out of call order are refused.
    let (lp, st) = lp.step(Ev::ToolResults(vec![
        ("2".to_string(), "tool:b".to_string()),
        ("1".to_string(), "tool:a".to_string()),
    ]));
    assert!(matches!(st.request, Request::Ignore));
    // So are too few results.
    let (lp, st) = lp.step(Ev::ToolResults(vec![("1".to_string(), "tool:a".to_string())]));
    assert!(matches!(st.request, Request::Ignore));

    let (lp, st) = lp.step(Ev::ToolResults(vec![
        ("1".to_string(), "tool:a".to_string()),
        ("2".to_string(), "tool:b".to_string()),
    ]));
    bus.extend(published(&st));
    session.extend(recorded(&st));
    assert!(matches!(st.request, Request::CallModel));
    assert_eq!(lp.iterations(), 2);

    let (lp, st) = lp.step(answer(Some("c"), vec![]));
    bus.extend(published(&st));
    session.extend(recorded(&st));
    assert!(matches!(st.request, Request::SaveSession));
    let (_, st) = lp.step(Ev::Saved);
    bus.extend(published(&st));
    match st.request {
        Request::Finish(r) => assert_eq!(r.content, "c"),
        other => panic!("expected a final reply, got {:?}", other),
    }

    assert_eq!(
        bus,
        vec![
            "Typing(telegram, 42)",
            "Typing(telegram, 42)",
            "Progress(telegram, 42, ⚙️ Running 2 tools in parallel: `a`, `b`…)",
            "Typing(telegram, 42)",
            "Reply(telegram, 42, c)",
        ]
    );
    assert_eq!(
        session,
        vec!["user=do it", "assistant:", "tool:a", "tool:b", "assistant:c"]
    );
}

#[test]
fn round_loop_without_bus_publishes_nothing() {
    let (lp, st) = RoundLoop::<String>::start::<()>("cli:direct", "Hi", vec!["s".to_string()], 5, false);
    assert!(published(&st).is_empty());
    let (lp, st) = lp.step(answer(Some("Hello!"), vec![]));
    assert!(published(&st).is_empty());
    let (lp, st) = lp.step(Ev::Saved);
    assert!(published(&st).is_empty());
    match st.request {
        Request::Finish(r) => assert_eq!(r.content, "Hello!"),
        other => panic!("expected a final reply, got {:?}", other),
    }
    let (_, st) = lp.step(Ev::Saved);
    assert!(matches!(st.request, Request::Ignore));
}

#[test]
fn round_loop_marker_stays_in_session_but_not_in_reply() {
    let (lp, _) = RoundLoop::<String>::start::<()>("t:1", "buy", vec!["s".to_string()], 5, true);
    let (lp, st) = lp.step(answer(Some("Sure [UI_CONFIRM_BUY: M | 1]"), vec![]));
    assert_eq!(recorded(&st), vec!["assistant:Sure [UI_CONFIRM_BUY: M | 1]"]);
    let (_, st) = lp.step(Ev::Saved);
    assert_eq!(published(&st), vec!["Reply(t, 1, Sure)"]);
    match st.request {
        Request::Finish(r) => {
            assert_eq!(r.content, "Sure");
            assert_eq!(r.buttons.map(|b| b.len()), Some(2));
        }
        other => panic!("expected a final reply, got {:?}", other),
    }
}

#[test]
fn round_loop_stops_after_max_iterations() {
    let (mut lp, mut st) = RoundLoop::<String>::start::<()>("cli:direct", "loop forever", vec!["s".to_string()], 3, false);
    let mut rounds = 0;
    let mut session = recorded(&st);
    loop {
        match st.request {
            Request::CallModel => {
                rounds += 1;
                let (l, s1) = lp.step(answer(None, vec![call(&rounds.to_string(), "counter_a")]));
                session.extend(recorded(&s1));
                let (l, s2) = l.step(Ev::ToolResults(vec![(rounds.to_string(), "ok".to_string())]));
                session.extend(recorded(&s2));
                lp = l;
                st = s2;
            }
            Request::SaveSession => {
                let (l, s) = lp.step(Ev::Saved);
                lp = l;
                st = s;
            }
            Request::Fail(error) => {
                assert!(
                    matches!(error, AgentError::MaxIterationsExceeded(3)),
                    "expected MaxIterationsExceeded(3), got: {:?}",
                    error
                );
                break;
            }
            other => panic!("unexpected request {:?}", other),
        }
    }
    assert_eq!(rounds, 3);
    assert_eq!(
        session.last().unwrap(),
        "assistant=I've reached the maximum number of tool iterations. Please review the actions taken above."
    );
}

#[test]
fn round_loop_zero_limit_never_calls_the_model() {
    let (lp, st) = RoundLoop::<String>::start::<()>("cli:direct", "x", vec!["s".to_string()], 0, false);
    assert!(matches!(st.request, Request::SaveSession));
    let (_, st) = lp.step(Ev::Saved);
    assert!(matches!(st.request, Request::Fail(AgentError::MaxIterationsExceeded(0))));
}

#[test]
fn round_loop_failed_save_is_session_error() {
    let (lp, _) = RoundLoop::<String>::start::<()>("cli:direct", "x", vec!["s".to_string()], 5, false);
    let (lp, _) = lp.step(answer(Some("done"), vec![]));
    let (_, st) = lp.step(Ev::SaveFailed(anyhow::Error::msg("disk full")));
    match st.request {
        Request::Fail(AgentError::Session(e)) => assert_eq!(e.to_string(), "disk full"),
        other => panic!("expected a session error, got {:?}", other),
    }
}

#[test]
fn round_loop_retries_too_large_once_per_round() {
    let msgs: Vec<String> = (0..6).map(|i| format!("m{}", i)).collect();
    let (lp, _) = RoundLoop::<String>::start::<()>("cli:direct", "x", msgs, 5, true);
    let (lp, st) = lp.step(failed("HTTP 413 Payload Too Large"));
    assert!(matches!(st.request, Request::CallModelTrimmed));
    assert!(st.effects.is_empty());
    assert_eq!(lp.messages(), &vec!["m0".to_string(), "m4".to_string(), "m5".to_string()]);
    let (_, st) = lp.step(failed("HTTP 413 again"));
    assert!(matches!(st.request, Request::Fail(AgentError::Provider(_))));
}

#[test]
fn round_loop_retry_resets_in_the_next_round() {
    let (lp, _) = RoundLoop::<String>::start::<()>("cli:direct", "x", vec!["s".to_string(), "u".to_string()], 5, false);
    let (lp, st) = lp.step(failed("413"));
    assert!(matches!(st.request, Request::CallModelTrimmed));
    let (lp, _) = lp.step(answer(None, vec![call("t1", "t")]));
    let (lp, st) = lp.step(Ev::ToolResults(vec![("t1".to_string(), "r".to_string())]));
    assert!(matches!(st.request, Request::CallModel));
    let (_, st) = lp.step(failed("413"));
    assert!(matches!(st.request, Request::CallModelTrimmed));
}

#[test]
fn round_loop_other_failure_is_provider_error() {
    let (lp, _) = RoundLoop::<String>::start::<()>("cli:direct", "x", vec!["s".to_string()], 5, false);
    let (_, st) = lp.step(failed("rate limited (429)"));
    match st.request {
        Request::Fail(AgentError::Provider(e)) => assert_eq!(e.to_string(), "rate limited (429)"),
        other => panic!("expected a provider error, got {:?}", other),
    }
}

#[test]
fn round_loop_ignores_out_of_phase_events() {
    let (lp, _) = RoundLoop::<String>::start::<()>("cli:direct", "x", vec!["s".to_string()], 5, false);
    let (lp, st) = lp.step(Ev::ToolResults(vec![("x".to_string(), "y".to_string())]));
    assert!(matches!(st.request, Request::Ignore));
    let (_, st) = lp.step(Ev::Saved);
    assert!(matches!(st.request, Request::Ignore));
}
