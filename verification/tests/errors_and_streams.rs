use eko_core::graph::compiled::{invoke_thread, require_saver, resume_thread};
use eko_core::graph::node::{jittered, should_retry, Interrupts};
use eko_core::graph::task::Task;
use eko_core::{AgentError, InterruptData, JsonValue, MessageType, StreamEvent, StreamMode, StreamModeSet};

#[test]
fn error_messages() {
    assert_eq!(AgentError::Llm("x".into()).display(), "LLM error: x");
    assert_eq!(AgentError::Config("x".into()).display(), "Configuration error: x");
    assert_eq!(AgentError::Tool("x".into()).display(), "Tool error: x");
    assert_eq!(AgentError::Session("x".into()).display(), "Session error: x");
    assert_eq!(AgentError::GraphError("x".into()).display(), "Graph error: x");
    let d = InterruptData { index: 3, value: JsonValue::Null, node_name: "n".into() };
    assert_eq!(AgentError::Interrupt(d).display(), "Node interrupted at index 3");
    assert_eq!(
        AgentError::RecursionLimit { limit: 100, step: 101 }.display(),
        "Recursion limit exceeded: reached step 101 (limit 100)"
    );
    assert_eq!(
        AgentError::InvalidUpdate { channel: "c".into(), reason: "r".into() }.display(),
        "Invalid update on channel 'c': r"
    );
    assert_eq!(AgentError::UnreachableNode("n".into()).display(), "Unreachable node: 'n' has no outgoing edge");
    assert_eq!(AgentError::Other("plain".into()).display(), "plain");
}

#[test]
fn timeout_messages_follow_duration_debug() {
    let t = |ms: u64| AgentError::NodeTimeout { node: "slow".into(), duration_ms: ms }.display();
    assert_eq!(t(0), "Node 'slow' timed out after 0ns");
    assert_eq!(t(50), "Node 'slow' timed out after 50ms");
    assert_eq!(t(1000), "Node 'slow' timed out after 1s");
    assert_eq!(t(1500), "Node 'slow' timed out after 1.5s");
    assert_eq!(t(1050), "Node 'slow' timed out after 1.05s");
    assert_eq!(t(1005), "Node 'slow' timed out after 1.005s");
    assert_eq!(t(30000), "Node 'slow' timed out after 30s");
}

#[test]
fn only_llm_and_other_errors_are_retryable() {
    assert!(AgentError::Llm("x".into()).is_retryable());
    assert!(AgentError::Other("x".into()).is_retryable());
    assert!(!AgentError::Config("x".into()).is_retryable());
    assert!(!AgentError::GraphError("x".into()).is_retryable());
    assert!(should_retry(&AgentError::Llm("x".into()), 0, 3));
    assert!(!should_retry(&AgentError::Llm("x".into()), 3, 3));
    assert!(!should_retry(&AgentError::Tool("x".into()), 0, 3));
}

#[test]
fn jitter_stays_within_one_interval() {
    assert_eq!(jittered(100, 0), 100);
    assert_eq!(jittered(100, 250), 150);
    assert_eq!(jittered(0, 7), 0);
    assert_eq!(jittered(1, 7), 1);
}

#[test]
fn interrupts_answer_in_order() {
    let mut intr = Interrupts::new("node".to_string(), vec![JsonValue::Str("first".into())]);
    assert_eq!(intr.interrupt(JsonValue::Int(1)).unwrap(), JsonValue::Str("first".into()));
    match intr.interrupt(JsonValue::Int(2)) {
        Err(AgentError::Interrupt(d)) => {
            assert_eq!(d.index, 1);
            assert_eq!(d.value, JsonValue::Int(2));
            assert_eq!(d.node_name, "node");
        }
        other => panic!("expected an interrupt, got {:?}", other),
    }
    let again = intr.restart();
    let mut again = again;
    assert_eq!(again.interrupt(JsonValue::Null).unwrap(), JsonValue::Str("first".into()));
}

#[test]
fn default_modes_and_filtering() {
    let d = StreamMode::default_set();
    assert_eq!(d.len(), 4);
    assert!(d.contains(StreamMode::Values));
    assert!(d.contains(StreamMode::Updates));
    assert!(d.contains(StreamMode::Messages));
    assert!(d.contains(StreamMode::Tools));
    assert!(!d.contains(StreamMode::Debug));
    assert_eq!(StreamMode::all().len(), 7);

    let started = StreamEvent::TaskStarted { node: "a".into() };
    assert_eq!(started.mode(), Some(StreamMode::Debug));
    assert!(!started.passes(&d));
    assert!(started.passes(&StreamMode::all()));
    let done = StreamEvent::done("t".into());
    assert_eq!(done.mode(), None);
    assert!(done.passes(&StreamModeSet::empty()));
    let text = StreamEvent::text("hi".into());
    assert!(matches!(text, StreamEvent::Message { message_type: MessageType::Text, ref content, .. } if content == "hi"));
    assert_eq!(text.mode(), Some(StreamMode::Messages));
}

#[test]
fn stream_mode_set_edits() {
    let mut s = StreamModeSet::empty();
    assert!(s.insert(StreamMode::Custom));
    assert!(!s.insert(StreamMode::Custom));
    assert_eq!(s.len(), 1);
    assert!(s.remove(StreamMode::Custom));
    assert!(!s.remove(StreamMode::Custom));
    assert_eq!(s.len(), 0);
}

#[test]
fn task_ids_are_fresh_uuids() {
    let a = Task::pull("n");
    let b = Task::pull("n");
    assert_eq!(a.id.len(), 36);
    assert_ne!(a.id, b.id);
    assert_eq!(a.node_name, "n");
}

#[test]
fn thread_and_store_requirements() {
    assert_eq!(invoke_thread(Some("t".into())), "t");
    assert_eq!(invoke_thread(None).len(), 36);
    assert_eq!(resume_thread(Some("t".into()), true).unwrap(), "t");
    match resume_thread(None, false) {
        Err(e) => assert_eq!(e.display(), "Graph error: thread_id required for resume"),
        Ok(_) => panic!("expected an error"),
    }
    match resume_thread(Some("t".into()), false) {
        Err(e) => assert_eq!(e.display(), "Graph error: Checkpointer required for resume"),
        Ok(_) => panic!("expected an error"),
    }
    assert!(require_saver(true, "get_state").is_ok());
    match require_saver(false, "get_state") {
        Err(e) => assert_eq!(e.display(), "Graph error: Checkpointer required for get_state"),
        Ok(_) => panic!("expected an error"),
    }
}
