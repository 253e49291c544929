use std::collections::HashMap;

use eko_core::graph::compiled::{invoke_thread, Prepared};
use eko_core::graph::node::Interrupts;
use eko_core::graph::pregel::run::{After, Begin, Checked, Run, Stepped};
use eko_core::{
    AgentError, BinaryOperatorAggregate, Channel, ChannelValues, Command, CompiledGraph, Durability,
    EphemeralValue, GraphResult, InterruptReason, JsonValue, LastValue, MemorySaver, NodeOutput,
    RouteDecision, Send, State, StateGraph, StreamEvent, StreamMode, StreamModeSet, StrMap, END, START,
};

type Reducer = fn(JsonValue, JsonValue) -> Result<JsonValue, String>;
type NodeFn = Box<dyn Fn(ChannelValues, &mut Interrupts) -> Result<NodeOutput, AgentError>>;
type RouterFn = Box<dyn Fn(&ChannelValues) -> RouteDecision>;

fn append(old: JsonValue, new: JsonValue) -> Result<JsonValue, String> {
    match old {
        JsonValue::Array(mut items) => {
            items.push(new);
            Ok(JsonValue::Array(items))
        }
        other => Ok(JsonValue::Array(vec![other, new])),
    }
}

fn text(s: &str) -> JsonValue {
    JsonValue::Str(s.to_string())
}

fn values(pairs: &[(&str, JsonValue)]) -> ChannelValues {
    let mut m = StrMap::new();
    for (k, v) in pairs {
        m.insert(k.to_string(), v.copy());
    }
    m
}

fn last_value_channels(names: &[&str]) -> StrMap<Channel<Reducer>> {
    let mut m = StrMap::new();
    for n in names {
        m.insert(n.to_string(), Channel::LastValue(LastValue::new()));
    }
    m
}

/// A graph with its node functions and routers, run step by step on the library's run machine.
struct Harness {
    compiled: CompiledGraph<Reducer>,
    nodes: HashMap<String, NodeFn>,
    routers: Vec<RouterFn>,
    saver: Option<MemorySaver>,
    durability: Durability,
    modes: StreamModeSet,
    events: Vec<StreamEvent>,
}

impl Harness {
    fn new(
        builder: StateGraph<Reducer>,
        nodes: Vec<(&str, NodeFn)>,
        routers: Vec<RouterFn>,
        with_saver: bool,
        before: Vec<&str>,
        after: Vec<&str>,
    ) -> Harness {
        let compiled = builder
            .compile(before.iter().map(|s| s.to_string()).collect(), after.iter().map(|s| s.to_string()).collect())
            .expect("graph compiles");
        Harness {
            compiled,
            nodes: nodes.into_iter().map(|(n, f)| (n.to_string(), f)).collect(),
            routers,
            saver: if with_saver { Some(MemorySaver::new()) } else { None },
            durability: Durability::Sync,
            modes: StreamMode::default_set(),
            events: Vec::new(),
        }
    }

    fn store(&mut self, thread: &str, c: Option<(eko_core::Checkpoint, eko_core::CheckpointMetadata)>) -> Option<String> {
        match (c, self.saver.as_mut()) {
            (Some((cp, md)), Some(s)) => Some(s.put(thread, cp, md)),
            _ => None,
        }
    }

    fn invoke(&mut self, input: ChannelValues, thread: &str) -> Result<GraphResult, AgentError> {
        let thread = invoke_thread(Some(thread.to_string()));
        let existing = self.saver.as_ref().and_then(|s| s.get_tuple(&thread, None));
        let Prepared { mut run, checkpoint } =
            self.compiled.begin_invoke(thread.clone(), input, existing, self.durability, self.modes, self.saver.is_some())?;
        let stored = self.store(&thread, checkpoint).map(Ok);
        let routers = &self.routers;
        let route = |id: usize, v: &ChannelValues| (routers[id])(v);
        run.input_stored(self.compiled.pregel(), &route, stored)?;
        let result = self.execute(run)?;
        Ok(self.compiled.filter_output_result(result))
    }

    fn resume(&mut self, thread: &str, command: Option<Command>) -> Result<GraphResult, AgentError> {
        let tuple = self.saver.as_ref().and_then(|s| s.get_tuple(thread, None));
        let routers = &self.routers;
        let route = |id: usize, v: &ChannelValues| (routers[id])(v);
        let Prepared { mut run, checkpoint } =
            self.compiled.begin_resume(&route, thread.to_string(), tuple, command, self.durability, self.modes)?;
        let id = self.store(thread, checkpoint).expect("a store is configured");
        run.resume_stored(Ok(id))?;
        let result = self.execute(run)?;
        Ok(self.compiled.filter_output_result(result))
    }

    /// Runs the tasks on their inputs, handing the outputs back in reverse
    /// order of completion to show that each is credited by its position.
    fn run_tasks(&self, run: &Run<Reducer>, inputs: Vec<ChannelValues>) -> Result<Vec<(usize, NodeOutput)>, AgentError> {
        let mut outs = Vec::new();
        for (i, (task, state)) in run.pending.iter().zip(inputs).enumerate() {
            let node = self.nodes.get(&task.node_name).expect("node exists");
            let mut intr = Interrupts::new(task.node_name.clone(), run.resume_values.iter().map(|v| v.copy()).collect());
            outs.push((i, node(state, &mut intr)?));
        }
        outs.reverse();
        Ok(outs)
    }

    fn put_writes(&mut self, run: &Run<Reducer>, writes: Vec<eko_core::PendingWrite>) {
        if let Some(s) = self.saver.as_mut() {
            if !writes.is_empty() {
                s.put_writes(&run.thread_id, &run.last_checkpoint_id, writes, "interrupt");
            }
        }
    }

    fn execute(&mut self, mut run: Run<Reducer>) -> Result<GraphResult, AgentError> {
        loop {
            match run.begin_round() {
                Begin::Limit(e) => return Err(e),
                Begin::Complete(c) => {
                    let thread = run.thread_id.clone();
                    let result = match self.store(&thread, c) {
                        Some(id) => run.complete(Ok(id)),
                        None => Ok(run.done()),
                    };
                    self.events.push(StreamEvent::done(thread));
                    return result;
                }
                Begin::CheckCancel => {}
            }
            let inputs = match run.checked_cancel(self.compiled.pregel(), false) {
                Checked::Stop { writes, result } => {
                    self.put_writes(&run, writes);
                    return Ok(result);
                }
                Checked::Run { events, inputs } => {
                    self.events.extend(events);
                    inputs
                }
            };
            let outcome = self.run_tasks(&run, inputs);
            match run.tasks_done(outcome) {
                Stepped::Stop { events, writes, result } => {
                    self.events.extend(events);
                    self.put_writes(&run, writes);
                    return result;
                }
                Stepped::Store { events, checkpoint, wait } => {
                    self.events.extend(events);
                    let thread = run.thread_id.clone();
                    let id = self.store(&thread, checkpoint);
                    let stored = if wait { id.map(Ok) } else { None };
                    let routers = &self.routers;
                    let route = |id: usize, v: &ChannelValues| (routers[id])(v);
                    match run.stored(self.compiled.pregel(), &route, stored) {
                        After::Next { events } => self.events.extend(events),
                        After::Stop { events, writes, result } => {
                            self.events.extend(events);
                            self.put_writes(&run, writes);
                            return result;
                        }
                    }
                }
            }
        }
    }
}

fn done_values(result: Result<GraphResult, AgentError>) -> ChannelValues {
    match result {
        Ok(GraphResult::Done { values, .. }) => values,
        other => panic!("Expected Done, got {:?}", other),
    }
}

fn node(f: impl Fn(ChannelValues, &mut Interrupts) -> Result<NodeOutput, AgentError> + 'static) -> NodeFn {
    Box::new(f)
}

fn int_of(v: Option<&JsonValue>) -> i64 {
    match v {
        Some(JsonValue::Int(i)) => *i,
        _ => 0,
    }
}

fn str_of(v: Option<&JsonValue>) -> String {
    match v {
        Some(JsonValue::Str(s)) => s.clone(),
        _ => String::new(),
    }
}

#[test]
fn linear_chain_a_b_end() {
    let mut g = StateGraph::new(last_value_channels(&["counter"]));
    g.add_node("a".to_string());
    g.add_node("b".to_string());
    g.add_edge(START, "a");
    g.add_edge("a", "b");
    g.add_edge("b", END);
    let nodes = vec![
        ("a", node(|mut s, _| {
            let v = int_of(s.get("counter"));
            s.insert("counter".to_string(), JsonValue::Int(v + 1));
            Ok(NodeOutput::Update(s))
        })),
        ("b", node(|mut s, _| {
            let v = int_of(s.get("counter"));
            s.insert("counter".to_string(), JsonValue::Int(v + 10));
            Ok(NodeOutput::Update(s))
        })),
    ];
    let mut h = Harness::new(g, nodes, Vec::new(), false, vec![], vec![]);
    let out = done_values(h.invoke(values(&[("counter", JsonValue::Int(0))]), "test-thread"));
    assert_eq!(out.get("counter"), Some(&JsonValue::Int(11)));
}

fn classify_graph(score: i64) -> ChannelValues {
    let mut g = StateGraph::new(last_value_channels(&["score", "result"]));
    g.add_node("classify".to_string());
    g.add_node("high".to_string());
    g.add_node("low".to_string());
    g.add_edge(START, "classify");
    g.add_conditional_edge("classify", 0);
    g.add_edge("high", END);
    g.add_edge("low", END);
    let nodes = vec![
        ("classify", node(|s, _| Ok(NodeOutput::Update(s)))),
        ("high", node(|mut s, _| {
            s.insert("result".to_string(), text("high_path"));
            Ok(NodeOutput::Update(s))
        })),
        ("low", node(|mut s, _| {
            s.insert("result".to_string(), text("low_path"));
            Ok(NodeOutput::Update(s))
        })),
    ];
    let routers: Vec<RouterFn> = vec![Box::new(|s: &ChannelValues| {
        if int_of(s.get("score")) >= 80 {
            RouteDecision::Next("high".to_string())
        } else {
            RouteDecision::Next("low".to_string())
        }
    })];
    let mut h = Harness::new(g, nodes, routers, false, vec![], vec![]);
    done_values(h.invoke(values(&[("score", JsonValue::Int(score))]), "test-thread"))
}

#[test]
fn conditional_routing_high() {
    let out = classify_graph(90);
    assert_eq!(out.get("result"), Some(&text("high_path")));
}

#[test]
fn conditional_routing_low() {
    let out = classify_graph(50);
    assert_eq!(out.get("result"), Some(&text("low_path")));
}

#[test]
fn command_goto_overrides_edge() {
    let mut g = StateGraph::new(last_value_channels(&["result"]));
    g.add_node("start_node".to_string());
    g.add_node("wrong_target".to_string());
    g.add_node("target".to_string());
    g.add_edge(START, "start_node");
    g.add_edge("start_node", "wrong_target");
    g.add_edge("wrong_target", END);
    g.add_edge("target", END);
    let nodes = vec![
        ("start_node", node(|_s, _| Ok(NodeOutput::command(Some(values(&[("result", text("via_goto"))])), "target".to_string())))),
        ("wrong_target", node(|mut s, _| {
            s.insert("result".to_string(), text("wrong"));
            Ok(NodeOutput::Update(s))
        })),
        ("target", node(|s, _| Ok(NodeOutput::Update(s)))),
    ];
    let mut h = Harness::new(g, nodes, Vec::new(), false, vec![], vec![]);
    let out = done_values(h.invoke(StrMap::new(), "test-thread"));
    assert_eq!(out.get("result"), Some(&text("via_goto")));
}

#[test]
fn send_parallel_fan_out() {
    let mut ch: StrMap<Channel<Reducer>> = StrMap::new();
    ch.insert("results".to_string(), Channel::BinaryOperatorAggregate(BinaryOperatorAggregate::new(append as Reducer)));
    let mut g = StateGraph::new(ch);
    g.add_node("dispatcher".to_string());
    g.add_node("worker".to_string());
    g.add_edge(START, "dispatcher");
    g.add_conditional_edge("dispatcher", 0);
    g.add_edge("worker", END);
    let nodes = vec![
        ("dispatcher", node(|_s, _| Ok(NodeOutput::Update(StrMap::new())))),
        ("worker", node(|s, _| {
            let item = match s.get("item") {
                Some(JsonValue::Str(i)) => i.clone(),
                _ => "unknown".to_string(),
            };
            Ok(NodeOutput::Update(values(&[("results", text(&format!("processed:{item}")))])))
        })),
    ];
    let routers: Vec<RouterFn> = vec![Box::new(|_s: &ChannelValues| {
        RouteDecision::Send(vec![
            Send::new("worker".to_string(), JsonValue::Object(vec![("item".to_string(), text("alpha"))])),
            Send::new("worker".to_string(), JsonValue::Object(vec![("item".to_string(), text("beta"))])),
        ])
    })];
    let mut h = Harness::new(g, nodes, routers, false, vec![], vec![]);
    let out = done_values(h.invoke(StrMap::new(), "test-thread"));
    assert_eq!(
        out.get("results"),
        Some(&JsonValue::Array(vec![text("processed:alpha"), text("processed:beta")]))
    );
}

fn data_graph(names: [&'static str; 2], second: &'static str) -> (StateGraph<Reducer>, Vec<(&'static str, NodeFn)>) {
    let mut g = StateGraph::new(last_value_channels(&["data"]));
    g.add_node(names[0].to_string());
    g.add_node(names[1].to_string());
    g.add_edge(START, names[0]);
    g.add_edge(names[0], names[1]);
    g.add_edge(names[1], END);
    let first_done = format!("{}_done", names[0]);
    let nodes = vec![
        (names[0], node(move |mut s, _| {
            s.insert("data".to_string(), text(&first_done));
            Ok(NodeOutput::Update(s))
        })),
        (names[1], node(move |mut s, _| {
            let prev = str_of(s.get("data"));
            s.insert("data".to_string(), text(&format!("{prev}{second}")));
            Ok(NodeOutput::Update(s))
        })),
    ];
    (g, nodes)
}

#[test]
fn interrupt_before_node() {
    let (g, nodes) = data_graph(["safe", "dangerous"], "+danger");
    let mut h = Harness::new(g, nodes, Vec::new(), true, vec!["dangerous"], vec![]);
    match h.invoke(StrMap::new(), "test-thread") {
        Ok(GraphResult::Interrupted { resume_node, reason, values, .. }) => {
            assert_eq!(resume_node, "dangerous");
            assert!(matches!(reason, InterruptReason::InterruptBefore(ref n) if n == "dangerous"));
            assert_eq!(values.get("data"), Some(&text("safe_done")));
        }
        other => panic!("Expected Interrupted, got {:?}", other),
    }
}

#[test]
fn interrupt_after_node() {
    let (g, nodes) = data_graph(["monitored", "next"], "+next");
    let mut h = Harness::new(g, nodes, Vec::new(), true, vec![], vec!["monitored"]);
    match h.invoke(StrMap::new(), "test-thread") {
        Ok(GraphResult::Interrupted { resume_node, reason, values, .. }) => {
            assert_eq!(resume_node, "monitored");
            assert!(matches!(reason, InterruptReason::InterruptAfter(ref n) if n == "monitored"));
            assert_eq!(values.get("data"), Some(&text("monitored_done")));
        }
        other => panic!("Expected Interrupted, got {:?}", other),
    }
}

#[test]
fn resume_after_interrupt_before() {
    let (g, nodes) = data_graph(["safe", "review"], "+reviewed");
    let mut h = Harness::new(g, nodes, Vec::new(), true, vec!["review"], vec![]);
    assert!(matches!(h.invoke(StrMap::new(), "test-thread"), Ok(GraphResult::Interrupted { .. })));
    let out = done_values(h.resume("test-thread", None));
    assert_eq!(out.get("data"), Some(&text("safe_done+reviewed")));
}

#[test]
fn node_interrupt_single_pause_and_resume() {
    let mut g = StateGraph::new(last_value_channels(&["data"]));
    g.add_node("review".to_string());
    g.add_edge(START, "review");
    g.add_edge("review", END);
    let nodes = vec![("review", node(|_s, intr| {
        let answer = intr.interrupt(JsonValue::Object(vec![("question".to_string(), text("approve?"))]))?;
        let a = match answer {
            JsonValue::Str(a) => a,
            _ => String::new(),
        };
        Ok(NodeOutput::Update(values(&[("data", text(&format!("approved:{}", a)))])))
    }))];
    let mut h = Harness::new(g, nodes, Vec::new(), true, vec![], vec![]);
    match h.invoke(StrMap::new(), "test-thread") {
        Ok(GraphResult::Interrupted { resume_node, reason, .. }) => {
            assert_eq!(resume_node, "review");
            match reason {
                InterruptReason::NodeInterrupt { value } => {
                    assert_eq!(value, JsonValue::Object(vec![("question".to_string(), text("approve?"))]));
                }
                other => panic!("Expected NodeInterrupt reason, got {:?}", other),
            }
        }
        other => panic!("Expected Interrupted, got {:?}", other),
    }
    let cmd = Command { resume: Some(text("yes")), update: None };
    let out = done_values(h.resume("test-thread", Some(cmd)));
    assert_eq!(out.get("data"), Some(&text("approved:yes")));
}

#[test]
fn node_interrupt_multiple_pauses_and_resumes() {
    let mut g = StateGraph::new(last_value_channels(&["data"]));
    g.add_node("multi_step".to_string());
    g.add_edge(START, "multi_step");
    g.add_edge("multi_step", END);
    let nodes = vec![("multi_step", node(|_s, intr| {
        let a = str_of(Some(&intr.interrupt(text("step"))?));
        let b = str_of(Some(&intr.interrupt(text("step"))?));
        Ok(NodeOutput::Update(values(&[("data", text(&format!("{}+{}", a, b)))])))
    }))];
    let mut h = Harness::new(g, nodes, Vec::new(), true, vec![], vec![]);
    assert!(matches!(h.invoke(StrMap::new(), "test-thread"), Ok(GraphResult::Interrupted { .. })));
    let r = h.resume("test-thread", Some(Command { resume: Some(text("a")), update: None }));
    assert!(matches!(r, Ok(GraphResult::Interrupted { .. })));
    let out = done_values(h.resume("test-thread", Some(Command { resume: Some(text("b")), update: None })));
    assert_eq!(out.get("data"), Some(&text("a+b")));
}

#[test]
fn barrier_join_waits_for_all_sources() {
    let mut ch: StrMap<Channel<Reducer>> = StrMap::new();
    ch.insert("results".to_string(), Channel::BinaryOperatorAggregate(BinaryOperatorAggregate::new(append as Reducer)));
    ch.insert("final".to_string(), Channel::LastValue(LastValue::new()));
    let mut g = StateGraph::new(ch);
    for n in ["dispatcher", "a", "b", "merge"] {
        g.add_node(n.to_string());
    }
    g.add_edge(START, "dispatcher");
    g.add_conditional_edge("dispatcher", 0);
    g.add_edge_join(&["a", "b"], "merge");
    g.add_edge("merge", END);
    let nodes = vec![
        ("dispatcher", node(|_s, _| Ok(NodeOutput::Update(StrMap::new())))),
        ("a", node(|_s, _| Ok(NodeOutput::Update(values(&[("results", text("a_done"))]))))),
        ("b", node(|_s, _| Ok(NodeOutput::Update(values(&[("results", text("b_done"))]))))),
        ("merge", node(|_s, _| Ok(NodeOutput::Update(values(&[("final", text("merged"))]))))),
    ];
    let routers: Vec<RouterFn> = vec![Box::new(|_s: &ChannelValues| {
        RouteDecision::Send(vec![
            Send::new("a".to_string(), JsonValue::Object(vec![])),
            Send::new("b".to_string(), JsonValue::Object(vec![])),
        ])
    })];
    let mut h = Harness::new(g, nodes, routers, false, vec![], vec![]);
    let out = done_values(h.invoke(StrMap::new(), "test-thread"));
    assert_eq!(out.get("final"), Some(&text("merged")));
    assert_eq!(out.get("results"), Some(&JsonValue::Array(vec![text("a_done"), text("b_done")])));
}

#[test]
fn recursion_limit_returns_typed_error() {
    let mut g = StateGraph::new(last_value_channels(&["counter"]));
    g.add_node("loop_node".to_string());
    g.add_edge(START, "loop_node");
    g.add_edge("loop_node", "loop_node");
    let nodes = vec![("loop_node", node(|mut s, _| {
        let v = int_of(s.get("counter"));
        s.insert("counter".to_string(), JsonValue::Int(v + 1));
        Ok(NodeOutput::Update(s))
    }))];
    let mut h = Harness::new(g, nodes, Vec::new(), false, vec![], vec![]);
    match h.invoke(StrMap::new(), "test-thread") {
        Err(AgentError::RecursionLimit { limit, step }) => {
            assert_eq!(limit, 100);
            assert_eq!(step, 101);
        }
        other => panic!("expected RecursionLimit, got: {:?}", other),
    }
}

#[test]
fn ephemeral_channel_not_persisted_to_checkpoint() {
    let mut ch: StrMap<Channel<Reducer>> = StrMap::new();
    ch.insert("persistent".to_string(), Channel::LastValue(LastValue::new()));
    ch.insert("ephemeral".to_string(), Channel::EphemeralValue(EphemeralValue::new()));
    let mut g = StateGraph::new(ch);
    g.add_node("writer".to_string());
    g.add_edge(START, "writer");
    g.add_edge("writer", END);
    let nodes = vec![("writer", node(|_s, _| {
        Ok(NodeOutput::Update(values(&[("persistent", text("kept")), ("ephemeral", text("temporary"))])))
    }))];
    let mut h = Harness::new(g, nodes, Vec::new(), true, vec![], vec![]);
    let out = done_values(h.invoke(StrMap::new(), "test-thread"));
    assert_eq!(out.get("ephemeral"), Some(&text("temporary")));
    let latest = h.saver.as_ref().unwrap().get_tuple("test-thread", None).unwrap();
    assert_eq!(latest.checkpoint.channel_values.get("persistent"), Some(&text("kept")));
    assert!(latest.checkpoint.channel_values.get("ephemeral").is_none());
}

#[test]
fn durability_exit_saves_only_at_end() {
    let mut g = StateGraph::new(last_value_channels(&["step"]));
    for n in ["a", "b"] {
        g.add_node(n.to_string());
    }
    g.add_edge(START, "a");
    g.add_edge("a", "b");
    g.add_edge("b", END);
    let nodes = vec![
        ("a", node(|_s, _| Ok(NodeOutput::Update(values(&[("step", JsonValue::Int(1))]))))),
        ("b", node(|_s, _| Ok(NodeOutput::Update(values(&[("step", JsonValue::Int(2))]))))),
    ];
    let mut h = Harness::new(g, nodes, Vec::new(), true, vec![], vec![]);
    h.durability = Durability::Exit;
    let result = h.invoke(StrMap::new(), "dur-exit");
    assert!(matches!(result, Ok(GraphResult::Done { .. })));
    let list = h.saver.as_ref().unwrap().list("dur-exit", None);
    // the input checkpoint and the one stored at exit
    assert_eq!(list.len(), 2);
}

#[test]
fn stream_mode_filters_events() {
    let (g, nodes) = data_graph(["first", "second"], "+2");
    let mut h = Harness::new(g, nodes, Vec::new(), false, vec![], vec![]);
    let mut modes = StreamModeSet::empty();
    modes.insert(StreamMode::Debug);
    h.modes = modes;
    let _ = done_values(h.invoke(StrMap::new(), "stream-filter-test"));
    assert!(h.events.iter().all(|e| matches!(
        e,
        StreamEvent::TaskStarted { .. } | StreamEvent::TaskCompleted { .. } | StreamEvent::Done { .. }
    )));
    let started = h.events.iter().filter(|e| matches!(e, StreamEvent::TaskStarted { .. })).count();
    assert_eq!(started, 2);
}

#[test]
fn update_state_injects_values() {
    let (g, nodes) = data_graph(["noop", "other"], "");
    let h = Harness::new(g, nodes, Vec::new(), true, vec![], vec![]);
    let (cp, md) = h
        .compiled
        .prepare_update(None, values(&[("data", text("injected"))]), Some("noop"))
        .unwrap();
    assert_eq!(cp.channel_values.get("data"), Some(&text("injected")));
    assert!(cp.versions_seen.contains_key("noop"));
    assert_eq!(md.step, 0);
}

#[test]
fn three_node_chain() {
    let mut g = StateGraph::new(last_value_channels(&["x"]));
    for n in ["step1", "step2", "step3"] {
        g.add_node(n.to_string());
    }
    g.add_edge(START, "step1");
    g.add_edge("step1", "step2");
    g.add_edge("step2", "step3");
    g.add_edge("step3", END);
    let nodes = vec![
        ("step1", node(|mut s, _| {
            s.insert("x".to_string(), text("step1"));
            Ok(NodeOutput::Update(s))
        })),
        ("step2", node(|mut s, _| {
            let prev = str_of(s.get("x"));
            s.insert("x".to_string(), text(&format!("{prev}->step2")));
            Ok(NodeOutput::Update(s))
        })),
        ("step3", node(|mut s, _| {
            let prev = str_of(s.get("x"));
            s.insert("x".to_string(), text(&format!("{prev}->step3")));
            Ok(NodeOutput::Update(s))
        })),
    ];
    let mut h = Harness::new(g, nodes, Vec::new(), false, vec![], vec![]);
    let out = done_values(h.invoke(StrMap::new(), "test-thread"));
    assert_eq!(out.get("x"), Some(&text("step1->step2->step3")));
}

#[test]
fn add_sequence_chains_nodes_automatically() {
    let mut g = StateGraph::new(last_value_channels(&["x"]));
    g.add_sequence(vec!["s1".to_string(), "s2".to_string(), "s3".to_string()]);
    g.add_edge(START, "s1");
    g.add_edge("s3", END);
    let nodes = vec![
        ("s1", node(|mut s, _| {
            s.insert("x".to_string(), text("s1"));
            Ok(NodeOutput::Update(s))
        })),
        ("s2", node(|mut s, _| {
            let prev = str_of(s.get("x"));
            s.insert("x".to_string(), text(&format!("{prev}->s2")));
            Ok(NodeOutput::Update(s))
        })),
        ("s3", node(|mut s, _| {
            let prev = str_of(s.get("x"));
            s.insert("x".to_string(), text(&format!("{prev}->s3")));
            Ok(NodeOutput::Update(s))
        })),
    ];
    let mut h = Harness::new(g, nodes, Vec::new(), false, vec![], vec![]);
    let out = done_values(h.invoke(StrMap::new(), "test-thread"));
    assert_eq!(out.get("x"), Some(&text("s1->s2->s3")));
}

#[test]
fn loop_with_conditional_exit() {
    let mut g = StateGraph::new(last_value_channels(&["count"]));
    g.add_node("increment".to_string());
    g.add_edge(START, "increment");
    g.add_conditional_edge("increment", 0);
    let nodes = vec![("increment", node(|mut s, _| {
        let v = int_of(s.get("count"));
        s.insert("count".to_string(), JsonValue::Int(v + 1));
        Ok(NodeOutput::Update(s))
    }))];
    let routers: Vec<RouterFn> = vec![Box::new(|s: &ChannelValues| {
        if int_of(s.get("count")) >= 5 { RouteDecision::End } else { RouteDecision::Next("increment".to_string()) }
    })];
    let mut h = Harness::new(g, nodes, routers, false, vec![], vec![]);
    let out = done_values(h.invoke(StrMap::new(), "test-thread"));
    assert_eq!(out.get("count"), Some(&JsonValue::Int(5)));
}

#[test]
fn conditional_start_routing() {
    let mut g = StateGraph::new(last_value_channels(&["mode", "result"]));
    g.add_node("fast".to_string());
    g.add_node("slow".to_string());
    g.add_conditional_edge(START, 0);
    g.add_edge("fast", END);
    g.add_edge("slow", END);
    let nodes = vec![
        ("fast", node(|_s, _| Ok(NodeOutput::Update(values(&[("result", text("fast_mode"))]))))),
        ("slow", node(|_s, _| Ok(NodeOutput::Update(values(&[("result", text("slow_mode"))]))))),
    ];
    let routers: Vec<RouterFn> = vec![Box::new(|s: &ChannelValues| {
        if str_of(s.get("mode")) == "fast" { RouteDecision::Next("fast".to_string()) } else { RouteDecision::Next("slow".to_string()) }
    })];
    let mut h = Harness::new(g, nodes, routers, false, vec![], vec![]);
    let out = done_values(h.invoke(values(&[("mode", text("fast"))]), "test-thread"));
    assert_eq!(out.get("result"), Some(&text("fast_mode")));
}

#[test]
fn conditional_start_resolving_to_end_fails() {
    let mut g = StateGraph::new(last_value_channels(&["x"]));
    g.add_node("a".to_string());
    g.add_conditional_edge(START, 0);
    g.add_edge("a", END);
    let nodes = vec![("a", node(|s, _| Ok(NodeOutput::Update(s))))];
    let routers: Vec<RouterFn> = vec![Box::new(|_s: &ChannelValues| RouteDecision::End)];
    let mut h = Harness::new(g, nodes, routers, false, vec![], vec![]);
    match h.invoke(StrMap::new(), "t") {
        Err(e) => assert_eq!(e.display(), "Graph error: START conditional edge resolved to END"),
        other => panic!("expected an error, got {:?}", other),
    }
}

#[test]
fn path_map_routing() {
    let mut g = StateGraph::new(last_value_channels(&["action", "output"]));
    for n in ["router", "create", "delete"] {
        g.add_node(n.to_string());
    }
    g.add_edge(START, "router");
    g.add_conditional_edge_with_map("router", 0);
    g.add_edge("create", END);
    g.add_edge("delete", END);
    let nodes = vec![
        ("router", node(|s, _| Ok(NodeOutput::Update(s)))),
        ("create", node(|_s, _| Ok(NodeOutput::Update(values(&[("output", text("created"))]))))),
        ("delete", node(|_s, _| Ok(NodeOutput::Update(values(&[("output", text("deleted"))]))))),
    ];
    let mut path_map: StrMap<String> = StrMap::new();
    path_map.insert("create".to_string(), "create".to_string());
    path_map.insert("delete".to_string(), "delete".to_string());
    path_map.insert("none".to_string(), END.to_string());
    let routers: Vec<RouterFn> = vec![Box::new(move |s: &ChannelValues| {
        let key = str_of(s.get("action"));
        eko_core::graph::edge::resolve_path(&path_map, &key)
    })];
    let mut h = Harness::new(g, nodes, routers, false, vec![], vec![]);
    let out = done_values(h.invoke(values(&[("action", text("delete"))]), "test-thread"));
    assert_eq!(out.get("output"), Some(&text("deleted")));
}

#[test]
fn binop_channel_accumulates_across_nodes() {
    let mut ch: StrMap<Channel<Reducer>> = StrMap::new();
    ch.insert("log".to_string(), Channel::BinaryOperatorAggregate(BinaryOperatorAggregate::new(append as Reducer)));
    let mut g = StateGraph::new(ch);
    g.add_node("a".to_string());
    g.add_node("b".to_string());
    g.add_edge(START, "a");
    g.add_edge("a", "b");
    g.add_edge("b", END);
    let nodes = vec![
        ("a", node(|_s, _| Ok(NodeOutput::Update(values(&[("log", text("from_a"))]))))),
        ("b", node(|_s, _| Ok(NodeOutput::Update(values(&[("log", text("from_b"))]))))),
    ];
    let mut h = Harness::new(g, nodes, Vec::new(), false, vec![], vec![]);
    let out = done_values(h.invoke(values(&[("log", JsonValue::Array(vec![]))]), "test-thread"));
    assert_eq!(out.get("log"), Some(&JsonValue::Array(vec![text("from_a"), text("from_b")])));
}

#[test]
fn unreachable_node_is_reported() {
    let mut g = StateGraph::new(last_value_channels(&["x"]));
    g.add_node("a".to_string());
    g.add_node("b".to_string());
    g.add_edge(START, "a");
    g.add_edge("a", END);
    g.add_edge("b", END);
    // "a" jumps to a node that exists but routes the run through an output with no edge
    let nodes = vec![
        ("a", node(|_s, _| Ok(NodeOutput::command(None, "c".to_string())))),
        ("b", node(|s, _| Ok(NodeOutput::Update(s)))),
        ("c", node(|s, _| Ok(NodeOutput::Update(s)))),
    ];
    let mut h = Harness::new(g, nodes, Vec::new(), false, vec![], vec![]);
    match h.invoke(StrMap::new(), "t") {
        Err(AgentError::UnreachableNode(n)) => assert_eq!(n, "c"),
        other => panic!("expected UnreachableNode, got {:?}", other),
    }
}

#[test]
fn get_state_history_has_multiple_entries() {
    let (g, nodes) = data_graph(["one", "two"], "+2");
    let mut h = Harness::new(g, nodes, Vec::new(), true, vec![], vec![]);
    let _ = done_values(h.invoke(StrMap::new(), "test-thread"));
    let tuples = h.saver.as_ref().unwrap().list("test-thread", None);
    // the input checkpoint and one per step
    assert_eq!(tuples.len(), 3);
    let routers = &h.routers;
    let route = |id: usize, v: &ChannelValues| (routers[id])(v);
    let latest = h.compiled.snapshot(&route, h.saver.as_ref().unwrap().get_tuple("test-thread", None).unwrap());
    assert_eq!(latest.values.get("data"), Some(&text("one_done+2")));
    assert!(latest.next.is_empty());
}

#[test]
fn cancel_interrupts_execution() {
    let (g, nodes) = data_graph(["slow", "done"], "+done");
    let mut h = Harness::new(g, nodes, Vec::new(), false, vec![], vec![]);
    let Prepared { mut run, checkpoint } = h
        .compiled
        .begin_invoke("cancel-test".to_string(), StrMap::new(), None, Durability::Sync, StreamMode::default_set(), false)
        .unwrap();
    assert!(checkpoint.is_none());
    let routers = &h.routers;
    let route = |id: usize, v: &ChannelValues| (routers[id])(v);
    run.input_stored(h.compiled.pregel(), &route, None).unwrap();
    assert!(matches!(run.begin_round(), Begin::CheckCancel));
    match run.checked_cancel(h.compiled.pregel(), true) {
        Checked::Stop { writes, result: GraphResult::Interrupted { resume_node, reason, .. } } => {
            assert!(writes.is_empty());
            assert_eq!(resume_node, "slow");
            assert!(matches!(reason, InterruptReason::UserCancelled));
        }
        _ => panic!("expected a cancelled run"),
    }
}

#[test]
fn conditional_edge_to_end() {
    let mut g = StateGraph::new(last_value_channels(&["done"]));
    g.add_node("check".to_string());
    g.add_edge(START, "check");
    g.add_conditional_edge("check", 0);
    let nodes = vec![("check", node(|s, _| Ok(NodeOutput::Update(s))))];
    let routers: Vec<RouterFn> = vec![Box::new(|_s: &ChannelValues| RouteDecision::End)];
    let mut h = Harness::new(g, nodes, routers, false, vec![], vec![]);
    let result = h.invoke(values(&[("done", JsonValue::Bool(true))]), "test-thread").unwrap();
    assert!(matches!(result, GraphResult::Done { .. }));
}

#[test]
fn checkpoint_saves_and_restores() {
    let mut g = StateGraph::new(last_value_channels(&["counter"]));
    g.add_node("inc".to_string());
    g.add_edge(START, "inc");
    g.add_edge("inc", END);
    let nodes = vec![("inc", node(|mut s, _| {
        let v = int_of(s.get("counter"));
        s.insert("counter".to_string(), JsonValue::Int(v + 1));
        Ok(NodeOutput::Update(s))
    }))];
    let mut h = Harness::new(g, nodes, Vec::new(), true, vec![], vec![]);
    h.invoke(values(&[("counter", JsonValue::Int(0))]), "test-thread").unwrap();
    let tuple = h.saver.as_ref().unwrap().get_tuple("test-thread", None).unwrap();
    let routers = &h.routers;
    let route = |id: usize, v: &ChannelValues| (routers[id])(v);
    let state = h.compiled.snapshot(&route, tuple);
    assert_eq!(state.values.get("counter"), Some(&JsonValue::Int(1)));
}

#[test]
fn subgraph_execution() {
    let mut outer = StateGraph::new(last_value_channels(&["val"]));
    outer.add_node("setup".to_string());
    outer.add_subgraph("inner_graph".to_string());
    outer.add_edge(START, "setup");
    outer.add_edge("setup", "inner_graph");
    outer.add_edge("inner_graph", END);
    let nodes = vec![
        ("setup", node(|mut s, _| {
            s.insert("val".to_string(), JsonValue::Int(5));
            Ok(NodeOutput::Update(s))
        })),
        ("inner_graph", node(|s, _| {
            let mut inner = StateGraph::new(last_value_channels(&["val"]));
            inner.add_node("double".to_string());
            inner.add_edge(START, "double");
            inner.add_edge("double", END);
            let inner_nodes = vec![("double", node(|mut s, _| {
                let v = int_of(s.get("val"));
                s.insert("val".to_string(), JsonValue::Int(v * 2));
                Ok(NodeOutput::Update(s))
            }))];
            let mut sub = Harness::new(inner, inner_nodes, Vec::new(), false, vec![], vec![]);
            let result = sub.invoke(s, "inner_graph")?;
            Ok(eko_core::graph::subgraph::subgraph_output(result))
        })),
    ];
    let mut h = Harness::new(outer, nodes, Vec::new(), false, vec![], vec![]);
    let out = done_values(h.invoke(StrMap::new(), "test-thread"));
    assert_eq!(out.get("val"), Some(&JsonValue::Int(10)));
}

#[test]
fn runs_without_checkpointer() {
    let mut g = StateGraph::new(last_value_channels(&["out"]));
    g.add_node("node".to_string());
    g.add_edge(START, "node");
    g.add_edge("node", END);
    let nodes = vec![("node", node(|mut s, _| {
        s.insert("out".to_string(), text("ok"));
        Ok(NodeOutput::Update(s))
    }))];
    let mut h = Harness::new(g, nodes, Vec::new(), false, vec![], vec![]);
    let out = done_values(h.invoke(StrMap::new(), "test-thread"));
    assert_eq!(out.get("out"), Some(&text("ok")));
}

#[test]
fn command_goto_sends_fan_out() {
    let mut ch: StrMap<Channel<Reducer>> = StrMap::new();
    ch.insert("results".to_string(), Channel::BinaryOperatorAggregate(BinaryOperatorAggregate::new(append as Reducer)));
    let mut g = StateGraph::new(ch);
    g.add_node("router".to_string());
    g.add_node("worker".to_string());
    g.add_edge(START, "router");
    g.add_edge("router", END);
    g.add_edge("worker", END);
    let nodes = vec![
        ("router", node(|_s, _| {
            Ok(NodeOutput::command_with_sends(
                None,
                vec![
                    Send::new("worker".to_string(), JsonValue::Object(vec![("id".to_string(), JsonValue::Int(1))])),
                    Send::new("worker".to_string(), JsonValue::Object(vec![("id".to_string(), JsonValue::Int(2))])),
                ],
            ))
        })),
        ("worker", node(|s, _| {
            let id = int_of(s.get("id"));
            Ok(NodeOutput::Update(values(&[("results", text(&format!("done:{id}")))])))
        })),
    ];
    let mut h = Harness::new(g, nodes, Vec::new(), false, vec![], vec![]);
    let out = done_values(h.invoke(StrMap::new(), "test-thread"));
    let results = out.get("results").expect("results should exist");
    let arr = match results {
        JsonValue::Array(a) => a,
        _ => panic!("should be array"),
    };
    assert_eq!(arr.len(), 2);
    assert!(arr.contains(&text("done:1")));
    assert!(arr.contains(&text("done:2")));
}

#[test]
fn barrier_join_uneven_branches() {
    let mut ch: StrMap<Channel<Reducer>> = StrMap::new();
    ch.insert("results".to_string(), Channel::BinaryOperatorAggregate(BinaryOperatorAggregate::new(append as Reducer)));
    ch.insert("final".to_string(), Channel::LastValue(LastValue::new()));
    let mut g = StateGraph::new(ch);
    for n in ["a", "b", "b2", "c", "d"] {
        g.add_node(n.to_string());
    }
    g.add_edge(START, "a");
    g.add_conditional_edge("a", 0);
    g.add_edge("b", "b2");
    g.add_edge_join(&["b2", "c"], "d");
    g.add_edge("d", END);
    let nodes = vec![
        ("a", node(|_s, _| Ok(NodeOutput::Update(StrMap::new())))),
        ("b", node(|_s, _| Ok(NodeOutput::Update(values(&[("results", text("b_done"))]))))),
        ("b2", node(|_s, _| Ok(NodeOutput::Update(values(&[("results", text("b2_done"))]))))),
        ("c", node(|_s, _| Ok(NodeOutput::Update(values(&[("results", text("c_done"))]))))),
        ("d", node(|s, _| {
            let n = match s.get("results") {
                Some(JsonValue::Array(a)) => a.len(),
                _ => 0,
            };
            Ok(NodeOutput::Update(values(&[("final", text(&format!("merged_{n}_items")))])))
        })),
    ];
    let routers: Vec<RouterFn> = vec![Box::new(|_s: &ChannelValues| {
        RouteDecision::Send(vec![
            Send::new("b".to_string(), JsonValue::Object(vec![])),
            Send::new("c".to_string(), JsonValue::Object(vec![])),
        ])
    })];
    let mut h = Harness::new(g, nodes, routers, false, vec![], vec![]);
    let out = match h.invoke(StrMap::new(), "test-thread") {
        Ok(GraphResult::Done { values, .. }) => values,
        other => panic!("Expected Done, got: {other:?}"),
    };
    let final_val = out.get("final").expect("final should exist");
    let strings: Vec<String> = match out.get("results") {
        Some(JsonValue::Array(a)) => a.iter().map(|v| str_of(Some(v))).collect(),
        _ => panic!("results should be an array"),
    };
    assert!(strings.contains(&"b_done".to_string()), "should contain b_done, got: {strings:?}");
    assert!(strings.contains(&"b2_done".to_string()), "should contain b2_done, got: {strings:?}");
    assert!(strings.contains(&"c_done".to_string()), "should contain c_done, got: {strings:?}");
    assert_eq!(final_val, &text("merged_3_items"));
}

fn extend_arrays(left: JsonValue, right: JsonValue) -> Result<JsonValue, String> {
    match (left, right) {
        (JsonValue::Array(mut arr), JsonValue::Array(new)) => {
            arr.extend(new);
            Ok(JsonValue::Array(arr))
        }
        _ => Err("expected arrays".to_string()),
    }
}

fn string_field(values: &ChannelValues, key: &str) -> Result<String, AgentError> {
    match values.get(key) {
        Some(JsonValue::Str(s)) => Ok(s.clone()),
        Some(_) => Err(AgentError::GraphError(format!("{key} is not a string"))),
        None => Ok(String::new()),
    }
}

#[derive(Debug, Clone, PartialEq)]
struct TestState {
    query: String,
    items: Vec<String>,
    scratch: Option<String>,
}

impl State for TestState {
    type Reducer = Reducer;

    fn channels() -> StrMap<Channel<Reducer>> {
        let mut m = StrMap::new();
        m.insert("query".to_string(), Channel::LastValue(LastValue::new()));
        m.insert(
            "items".to_string(),
            Channel::BinaryOperatorAggregate(BinaryOperatorAggregate::new(extend_arrays as Reducer)),
        );
        m.insert("scratch".to_string(), Channel::EphemeralValue(EphemeralValue::new()));
        m
    }

    fn from_channel_values(values: &ChannelValues) -> Result<Self, AgentError> {
        let query = string_field(values, "query")?;
        let mut items = Vec::new();
        match values.get("items") {
            Some(JsonValue::Array(a)) => {
                for v in a {
                    match v {
                        JsonValue::Str(s) => items.push(s.clone()),
                        _ => return Err(AgentError::GraphError("items holds a non-string".to_string())),
                    }
                }
            }
            Some(_) => return Err(AgentError::GraphError("items is not an array".to_string())),
            None => {}
        }
        let scratch = match values.get("scratch") {
            Some(JsonValue::Str(s)) => Some(s.clone()),
            Some(JsonValue::Null) | None => None,
            Some(_) => return Err(AgentError::GraphError("scratch is not a string".to_string())),
        };
        Ok(TestState { query, items, scratch })
    }

    fn to_channel_values(&self) -> ChannelValues {
        let mut m = StrMap::new();
        m.insert("query".to_string(), text(&self.query));
        m.insert("items".to_string(), JsonValue::Array(self.items.iter().map(|s| text(s)).collect()));
        m.insert(
            "scratch".to_string(),
            match &self.scratch {
                Some(s) => text(s),
                None => JsonValue::Null,
            },
        );
        m
    }

    fn keys() -> Vec<&'static str> {
        vec!["query", "items", "scratch"]
    }
}

/// A state of string fields, each held by a last-value channel.
fn string_channels(keys: &[&str]) -> StrMap<Channel<Reducer>> {
    last_value_channels(keys)
}

fn string_values(pairs: Vec<(&str, &String)>) -> ChannelValues {
    let mut m = StrMap::new();
    for (k, v) in pairs {
        m.insert(k.to_string(), text(v));
    }
    m
}

#[derive(Debug, Clone)]
struct FullState {
    query: String,
    internal_scratch: String,
    answer: String,
}

impl State for FullState {
    type Reducer = Reducer;

    fn channels() -> StrMap<Channel<Reducer>> {
        string_channels(&Self::keys())
    }

    fn from_channel_values(values: &ChannelValues) -> Result<Self, AgentError> {
        Ok(FullState {
            query: string_field(values, "query")?,
            internal_scratch: string_field(values, "internal_scratch")?,
            answer: string_field(values, "answer")?,
        })
    }

    fn to_channel_values(&self) -> ChannelValues {
        string_values(vec![("query", &self.query), ("internal_scratch", &self.internal_scratch), ("answer", &self.answer)])
    }

    fn keys() -> Vec<&'static str> {
        vec!["query", "internal_scratch", "answer"]
    }
}

#[derive(Debug, Clone)]
struct InputSchema {
    query: String,
}

impl State for InputSchema {
    type Reducer = Reducer;

    fn channels() -> StrMap<Channel<Reducer>> {
        string_channels(&Self::keys())
    }

    fn from_channel_values(values: &ChannelValues) -> Result<Self, AgentError> {
        Ok(InputSchema { query: string_field(values, "query")? })
    }

    fn to_channel_values(&self) -> ChannelValues {
        string_values(vec![("query", &self.query)])
    }

    fn keys() -> Vec<&'static str> {
        vec!["query"]
    }
}

#[derive(Debug, Clone)]
struct OutputSchema {
    answer: String,
}

impl State for OutputSchema {
    type Reducer = Reducer;

    fn channels() -> StrMap<Channel<Reducer>> {
        string_channels(&Self::keys())
    }

    fn from_channel_values(values: &ChannelValues) -> Result<Self, AgentError> {
        Ok(OutputSchema { answer: string_field(values, "answer")? })
    }

    fn to_channel_values(&self) -> ChannelValues {
        string_values(vec![("answer", &self.answer)])
    }

    fn keys() -> Vec<&'static str> {
        vec!["answer"]
    }
}

fn single_node(g: StateGraph<Reducer>, f: NodeFn) -> Harness {
    let mut g = g;
    g.add_node("process".to_string());
    g.add_edge(START, "process");
    g.add_edge("process", END);
    Harness::new(g, vec![("process", f)], Vec::new(), false, vec![], vec![])
}

fn expect_done(result: Result<GraphResult, AgentError>) -> ChannelValues {
    match result {
        Ok(GraphResult::Done { values, .. }) => values,
        other => panic!("Expected Done, got: {other:?}"),
    }
}

#[test]
fn from_state_creates_graph_with_correct_channels() {
    let g = StateGraph::from_state::<TestState>();
    let mut h = single_node(g, node(|state, _| {
        let s = TestState::from_channel_values(&state)?;
        let items = JsonValue::Array(vec![text(&format!("processed:{}", s.query))]);
        Ok(NodeOutput::Update(values(&[("items", items)])))
    }));
    let out = expect_done(h.invoke(values(&[("query", text("test"))]), "test-thread"));
    assert_eq!(out.get("items"), Some(&JsonValue::Array(vec![text("processed:test")])));
}

#[test]
fn input_keys_filters_extra_fields() {
    let g = StateGraph::from_state::<FullState>().with_input_keys(&["query"]);
    let mut h = single_node(g, node(|state, _| {
        let query = str_of(state.get("query"));
        let scratch = match state.get("internal_scratch") {
            Some(JsonValue::Str(s)) => s.clone(),
            _ => "empty".to_string(),
        };
        Ok(NodeOutput::Update(values(&[("answer", text(&format!("{query}:{scratch}")))])))
    }));
    let input = values(&[("query", text("hello")), ("internal_scratch", text("SHOULD_BE_IGNORED"))]);
    let out = expect_done(h.invoke(input, "test-thread"));
    assert_eq!(out.get("answer"), Some(&text("hello:empty")));
}

#[test]
fn output_keys_filters_internal_fields() {
    let g = StateGraph::from_state::<FullState>().with_output_keys(&["answer"]);
    let mut h = single_node(g, node(|state, _| {
        let query = str_of(state.get("query"));
        Ok(NodeOutput::Update(values(&[
            ("internal_scratch", text("secret_data")),
            ("answer", text(&format!("answer:{query}"))),
        ])))
    }));
    let out = expect_done(h.invoke(values(&[("query", text("test"))]), "test-thread"));
    assert_eq!(out.get("answer"), Some(&text("answer:test")));
    assert!(out.get("internal_scratch").is_none(), "internal_scratch should be filtered out");
    assert!(out.get("query").is_none(), "query should be filtered out");
}

#[test]
fn with_input_output_state_types() {
    let g = StateGraph::from_state::<FullState>().with_input::<InputSchema>().with_output::<OutputSchema>();
    let mut h = single_node(g, node(|state, _| {
        let query = str_of(state.get("query"));
        Ok(NodeOutput::Update(values(&[
            ("internal_scratch", text("temp")),
            ("answer", text(&format!("done:{query}"))),
        ])))
    }));
    let input = values(&[("query", text("world")), ("answer", text("SHOULD_BE_IGNORED"))]);
    let out = expect_done(h.invoke(input, "test-thread"));
    assert_eq!(out.get("answer"), Some(&text("done:world")));
    assert!(out.get("query").is_none());
    assert!(out.get("internal_scratch").is_none());
}

#[test]
fn run_of_exactly_the_step_limit_completes() {
    let mut g = StateGraph::new(last_value_channels(&["count"]));
    g.add_node("inc".to_string());
    g.add_edge(START, "inc");
    g.add_conditional_edge("inc", 0);
    let nodes = vec![("inc", node(|mut s, _| {
        let v = int_of(s.get("count"));
        s.insert("count".to_string(), JsonValue::Int(v + 1));
        Ok(NodeOutput::Update(s))
    }))];
    let routers: Vec<RouterFn> = vec![Box::new(|s: &ChannelValues| {
        if int_of(s.get("count")) >= 100 { RouteDecision::End } else { RouteDecision::Next("inc".to_string()) }
    })];
    let mut h = Harness::new(g, nodes, routers, false, vec![], vec![]);
    match h.invoke(values(&[("count", JsonValue::Int(0))]), "t") {
        Ok(GraphResult::Done { values, checkpoint_id }) => {
            assert_eq!(values.get("count"), Some(&JsonValue::Int(100)));
            assert_eq!(checkpoint_id, "");
        }
        other => panic!("Expected Done, got {:?}", other),
    }
}

#[test]
fn interrupt_before_a_later_parallel_node() {
    let mut g = StateGraph::new(last_value_channels(&["data"]));
    for n in ["dispatcher", "fine", "guarded"] {
        g.add_node(n.to_string());
    }
    g.add_edge(START, "dispatcher");
    g.add_conditional_edge("dispatcher", 0);
    g.add_edge("fine", END);
    g.add_edge("guarded", END);
    let nodes = vec![
        ("dispatcher", node(|_s, _| Ok(NodeOutput::Update(StrMap::new())))),
        ("fine", node(|_s, _| Ok(NodeOutput::Update(values(&[("data", text("fine_done"))]))))),
        ("guarded", node(|_s, _| Ok(NodeOutput::Update(values(&[("data", text("guarded_done"))]))))),
    ];
    let routers: Vec<RouterFn> = vec![Box::new(|_s: &ChannelValues| {
        RouteDecision::Send(vec![
            Send::new("fine".to_string(), JsonValue::Object(vec![])),
            Send::new("guarded".to_string(), JsonValue::Object(vec![])),
        ])
    })];
    let mut h = Harness::new(g, nodes, routers, true, vec!["guarded"], vec![]);
    match h.invoke(StrMap::new(), "par") {
        Ok(GraphResult::Interrupted { resume_node, reason, values, checkpoint_id }) => {
            assert_eq!(resume_node, "guarded");
            assert!(matches!(reason, InterruptReason::InterruptBefore(ref n) if n == "guarded"));
            // neither task of the paused step ran
            assert_eq!(values.get("data"), None);
            let tuple = h.saver.as_ref().unwrap().get_tuple("par", Some(checkpoint_id.as_str())).unwrap();
            assert_eq!(tuple.pending_writes.len(), 1);
            assert_eq!(tuple.pending_writes[0].channel, "guarded");
        }
        other => panic!("Expected Interrupted, got {:?}", other),
    }
}

#[test]
fn resume_after_interrupt_after_goes_on() {
    let (g, nodes) = data_graph(["monitored", "next"], "+next");
    let mut h = Harness::new(g, nodes, Vec::new(), true, vec![], vec!["monitored"]);
    assert!(matches!(h.invoke(StrMap::new(), "test-thread"), Ok(GraphResult::Interrupted { .. })));
    let out = done_values(h.resume("test-thread", None));
    assert_eq!(out.get("data"), Some(&text("monitored_done+next")));
}

#[test]
fn state_after_interrupt_before_lists_next_node() {
    let (g, nodes) = data_graph(["safe", "dangerous"], "+danger");
    let mut h = Harness::new(g, nodes, Vec::new(), true, vec!["dangerous"], vec![]);
    assert!(matches!(h.invoke(StrMap::new(), "test-thread"), Ok(GraphResult::Interrupted { .. })));
    let tuple = h.saver.as_ref().unwrap().get_tuple("test-thread", None).unwrap();
    let routers = &h.routers;
    let route = |id: usize, v: &ChannelValues| (routers[id])(v);
    let state = h.compiled.snapshot(&route, tuple);
    assert_eq!(state.values.get("data"), Some(&text("safe_done")));
    assert_eq!(state.next, vec!["dangerous".to_string()]);
}

#[test]
fn durability_async_parent_is_previous_checkpoint() {
    let (g, nodes) = data_graph(["one", "two"], "+2");
    let mut h = Harness::new(g, nodes, Vec::new(), true, vec![], vec![]);
    h.durability = Durability::Async;
    let _ = done_values(h.invoke(StrMap::new(), "async-thread"));
    let list = h.saver.as_ref().unwrap().list("async-thread", None);
    assert_eq!(list.len(), 3);
    for t in &list {
        if let Some(p) = t.metadata.parents.get("") {
            assert_ne!(p, &t.checkpoint.id);
        }
    }
    let ids: Vec<String> = list.iter().map(|t| t.checkpoint.id.clone()).collect();
    for t in &list {
        if let Some(p) = t.metadata.parents.get("") {
            assert!(ids.contains(p));
        }
    }
}

#[test]
fn durability_exit_without_store_has_no_checkpoint_id() {
    let (g, nodes) = data_graph(["one", "two"], "+2");
    let mut h = Harness::new(g, nodes, Vec::new(), false, vec![], vec![]);
    h.durability = Durability::Exit;
    match h.invoke(StrMap::new(), "exit-thread") {
        Ok(GraphResult::Done { checkpoint_id, .. }) => assert_eq!(checkpoint_id, ""),
        other => panic!("Expected Done, got {:?}", other),
    }
}

#[test]
fn outputs_not_matching_tasks_are_refused() {
    let (g, nodes) = data_graph(["first", "second"], "+2");
    let h = Harness::new(g, nodes, Vec::new(), false, vec![], vec![]);
    let Prepared { mut run, .. } = h
        .compiled
        .begin_invoke("pairing".to_string(), StrMap::new(), None, Durability::Sync, StreamMode::default_set(), false)
        .unwrap();
    let routers = &h.routers;
    let route = |id: usize, v: &ChannelValues| (routers[id])(v);
    run.input_stored(h.compiled.pregel(), &route, None).unwrap();
    assert!(matches!(run.begin_round(), Begin::CheckCancel));
    match run.checked_cancel(h.compiled.pregel(), false) {
        Checked::Run { inputs, .. } => assert_eq!(inputs.len(), 1),
        _ => panic!("expected the round to run"),
    }
    // an output credited to a task that does not exist
    match run.tasks_done(Ok(vec![(1, NodeOutput::Update(StrMap::new()))])) {
        Stepped::Stop { result: Err(e), .. } => assert_eq!(e.display(), "Graph error: each task needs exactly one output"),
        _ => panic!("expected the outputs to be refused"),
    }
}
