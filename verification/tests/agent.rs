use crabbybot_core::agent::{
    final_result, history_budget, is_payload_too_large, next_iteration,
    progress_message, service_status, session_route, trim_for_retry, AgentError,
};
use crabbybot_core::restart::{request_restart, take_restart_request};

#[test]
fn session_route_splits_channel_and_chat() {
    assert_eq!(
        session_route("telegram:12345"),
        ("telegram".to_string(), "12345".to_string())
    );
    assert_eq!(session_route("cli"), ("cli".to_string(), "direct".to_string()));
    assert_eq!(session_route("a:b:c"), ("a".to_string(), "b:c".to_string()));
    assert_eq!(session_route(":x"), ("".to_string(), "x".to_string()));
}

#[test]
fn history_budget_subtracts_overhead() {
    // 400 bytes of prompt = 100 tokens, 40 bytes of message = 10 tokens, + 50.
    let prompt = "p".repeat(400);
    let msg = "m".repeat(40);
    assert_eq!(history_budget(30_000, &prompt, &msg), 30_000 - 160);
    assert_eq!(history_budget(100, &prompt, &msg), 0);
    assert_eq!(history_budget(160, &prompt, &msg), 0);
    assert_eq!(history_budget(161, &prompt, &msg), 1);
    // Bytes, not characters: 'é' is two bytes.
    assert_eq!(history_budget(100, &"é".repeat(4), ""), 48);
}

#[test]
fn next_iteration_stops_after_max() {
    assert_eq!(next_iteration(0, 3).ok(), Some(1));
    assert_eq!(next_iteration(2, 3).ok(), Some(3));
    match next_iteration(3, 3) {
        Err(AgentError::MaxIterationsExceeded(3)) => {}
        other => panic!("expected MaxIterationsExceeded(3), got: {:?}", other),
    }
    assert!(next_iteration(0, 0).is_err());
}

#[test]
fn max_iterations_round_count() {
    // With a limit of 3 the loop runs exactly three rounds.
    let mut it = 0u32;
    let mut rounds = 0;
    loop {
        match next_iteration(it, 3) {
            Ok(n) => {
                it = n;
                rounds += 1;
            }
            Err(e) => {
                assert!(matches!(e, AgentError::MaxIterationsExceeded(3)));
                break;
            }
        }
    }
    assert_eq!(rounds, 3);
}

#[test]
fn trim_for_retry_keeps_system_and_last_two() {
    assert_eq!(trim_for_retry(vec![1]), vec![1]);
    assert_eq!(trim_for_retry(vec![1, 2]), vec![1, 2]);
    assert_eq!(trim_for_retry(vec![1, 2, 3]), vec![1, 2, 3]);
    assert_eq!(trim_for_retry(vec![1, 2, 3, 4, 5]), vec![1, 4, 5]);
}

#[test]
fn final_result_without_marker_is_unchanged() {
    let r = final_result("  Hello!  ");
    assert_eq!(r.content, "  Hello!  ");
    assert!(r.buttons.is_none());
}

#[test]
fn final_result_turns_marker_into_buttons() {
    let r = final_result("Buy this token?\n[UI_CONFIRM_BUY: Mint123 | 0.5 ]");
    assert_eq!(r.content, "Buy this token?");
    assert!(!r.content.contains("[UI_CONFIRM_BUY:"));
    let b = r.buttons.expect("buttons");
    assert_eq!(b.len(), 2);
    assert_eq!(b[0].text, "Confirm Buy ✅");
    assert_eq!(b[0].data.as_deref(), Some("Confirm Buy Mint123 0.5"));
    assert_eq!(b[0].url, None);
    assert_eq!(b[1].text, "Cancel ❌");
    assert_eq!(b[1].data.as_deref(), Some("Cancel Buy"));
}

#[test]
fn final_result_needs_bar_and_bracket() {
    let r = final_result("x [UI_CONFIRM_BUY: mint 5]");
    assert_eq!(r.content, "x [UI_CONFIRM_BUY: mint 5]");
    assert!(r.buttons.is_none());
    let r = final_result("x [UI_CONFIRM_BUY: mint | 5");
    assert_eq!(r.content, "x [UI_CONFIRM_BUY: mint | 5");
    assert!(r.buttons.is_none());
}

#[test]
fn progress_message_names_tools() {
    assert_eq!(progress_message(&["web_search".to_string()]), "⚙️ Running tool: `web_search`…");
    assert_eq!(
        progress_message(&["a".to_string(), "b".to_string()]),
        "⚙️ Running 2 tools in parallel: `a`, `b`…"
    );
    let many: Vec<String> = (0..12).map(|i| format!("t{}", i)).collect();
    let msg = progress_message(&many);
    assert!(msg.starts_with("⚙️ Running 12 tools in parallel: `t0`, `t1`"));
    assert!(msg.ends_with("`t11`…"));
}

#[test]
fn restart_request_is_taken_once() {
    let mut flag = false;
    assert!(!take_restart_request(&mut flag));
    request_restart(&mut flag);
    assert!(take_restart_request(&mut flag));
    assert!(!take_restart_request(&mut flag));
}

#[test]
fn payload_too_large_is_recognised() {
    assert!(is_payload_too_large("HTTP status 413"));
    assert!(is_payload_too_large("error: Payload Too Large"));
    assert!(!is_payload_too_large("payload too large"));
    assert!(!is_payload_too_large("HTTP 429 Too Many Requests"));
    assert!(!is_payload_too_large(""));
}

#[test]
fn service_status_reports_discovery() {
    assert_eq!(service_status(None), "Pump.fun Discovery: INACTIVE");
    assert_eq!(
        service_status(Some("42")),
        "Pump.fun Discovery: ACTIVE (sending to 42)"
    );
}
