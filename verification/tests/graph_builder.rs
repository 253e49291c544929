use eko_core::{
    BinaryOperatorAggregate, Channel, JsonValue, LastValue, StateGraph, StrMap, END, START,
};

type Reducer = fn(JsonValue, JsonValue) -> Result<JsonValue, String>;

fn make_channels() -> StrMap<Channel<Reducer>> {
    let mut ch = StrMap::new();
    ch.insert("value".to_string(), Channel::LastValue(LastValue::new()));
    ch
}

fn refusal_text(g: StateGraph<Reducer>) -> String {
    match g.compile(Vec::new(), Vec::new()) {
        Ok(_) => panic!("expected a compile error"),
        Err(e) => e.display(),
    }
}

#[test]
fn compile_simple_linear_graph() {
    let mut g = StateGraph::new(make_channels());
    g.add_node("a".to_string());
    g.add_node("b".to_string());
    g.add_edge(START, "a");
    g.add_edge("a", "b");
    g.add_edge("b", END);
    let result = g.compile(Vec::new(), Vec::new());
    assert!(result.is_ok());
}

#[test]
fn compile_single_node() {
    let mut g = StateGraph::new(make_channels());
    g.add_node("only".to_string());
    g.add_edge(START, "only");
    g.add_edge("only", END);
    assert!(g.compile(Vec::new(), Vec::new()).is_ok());
}

#[test]
fn compile_with_conditional_edge() {
    let mut g = StateGraph::new(make_channels());
    g.add_node("a".to_string());
    g.add_node("b".to_string());
    g.add_edge(START, "a");
    g.add_conditional_edge("a", 0);
    g.add_edge("b", END);
    assert!(g.compile(Vec::new(), Vec::new()).is_ok());
}

#[test]
fn compile_with_conditional_start() {
    let mut g = StateGraph::new(make_channels());
    g.add_node("a".to_string());
    g.add_node("b".to_string());
    g.add_conditional_edge(START, 0);
    g.add_edge("a", "b");
    g.add_edge("b", END);
    assert!(g.compile(Vec::new(), Vec::new()).is_ok());
}

#[test]
fn compile_with_path_map() {
    let mut g = StateGraph::new(make_channels());
    g.add_node("hello".to_string());
    g.add_node("goodbye".to_string());
    g.add_edge(START, "hello");
    g.add_conditional_edge_with_map("hello", 0);
    g.add_edge("goodbye", END);
    assert!(g.compile(Vec::new(), Vec::new()).is_ok());

    let mut path_map: StrMap<String> = StrMap::new();
    path_map.insert("next".to_string(), "goodbye".to_string());
    path_map.insert("end".to_string(), END.to_string());
    assert!(matches!(
        eko_core::graph::edge::resolve_path(&path_map, "next"),
        eko_core::RouteDecision::Next(ref n) if n == "goodbye"
    ));
    assert!(matches!(eko_core::graph::edge::resolve_path(&path_map, "end"), eko_core::RouteDecision::End));
}

#[test]
fn compile_with_fn_node() {
    let mut g = StateGraph::new(make_channels());
    g.add_node("my_fn".to_string());
    g.add_edge(START, "my_fn");
    g.add_edge("my_fn", END);
    assert!(g.compile(Vec::new(), Vec::new()).is_ok());
}

fn log_reducer(old: JsonValue, new: JsonValue) -> Result<JsonValue, String> {
    match old {
        JsonValue::Array(mut items) => {
            items.push(new);
            Ok(JsonValue::Array(items))
        }
        other => Ok(JsonValue::Array(vec![other, new])),
    }
}

#[test]
fn compile_with_binop_channel() {
    let mut ch: StrMap<Channel<Reducer>> = StrMap::new();
    ch.insert(
        "log".to_string(),
        Channel::BinaryOperatorAggregate(BinaryOperatorAggregate::new(log_reducer as Reducer)),
    );
    let mut g = StateGraph::new(ch);
    g.add_node("node".to_string());
    g.add_edge(START, "node");
    g.add_edge("node", END);
    assert!(g.compile(Vec::new(), Vec::new()).is_ok());
}

#[test]
fn compile_fail_no_entry() {
    let mut g = StateGraph::new(make_channels());
    g.add_node("a".to_string());
    g.add_edge("a", END);
    let err_msg = refusal_text(g);
    assert!(err_msg.contains("No entry node"));
}

#[test]
fn compile_fail_entry_not_found() {
    let mut g = StateGraph::new(make_channels());
    g.add_node("a".to_string());
    g.add_edge(START, "nonexistent");
    g.add_edge("a", END);
    let err_msg = refusal_text(g);
    assert!(err_msg.contains("Entry node 'nonexistent' not found"));
}

#[test]
fn compile_fail_static_edge_to_nonexistent_node() {
    let mut g = StateGraph::new(make_channels());
    g.add_node("a".to_string());
    g.add_edge(START, "a");
    g.add_edge("a", "ghost");
    let err_msg = refusal_text(g);
    assert!(err_msg.contains("ghost"));
}

#[test]
fn compile_fail_edge_from_nonexistent_node() {
    let mut g = StateGraph::new(make_channels());
    g.add_node("a".to_string());
    g.add_edge(START, "a");
    g.add_edge("a", END);
    g.add_edge("phantom", "a");
    let err_msg = refusal_text(g);
    assert!(err_msg.contains("phantom"));
}

#[test]
fn compile_fail_node_without_outgoing_edge() {
    let mut g = StateGraph::new(make_channels());
    g.add_node("a".to_string());
    g.add_node("orphan".to_string());
    g.add_edge(START, "a");
    g.add_edge("a", END);
    let err_msg = refusal_text(g);
    assert!(err_msg.contains("orphan") && err_msg.contains("no outgoing edge"));
}

#[test]
fn compile_fail_entry_not_a_node_beside_conditional_start() {
    let mut g = StateGraph::new(make_channels());
    g.add_node("a".to_string());
    g.add_conditional_edge(START, 0);
    g.add_edge(START, "nonexistent");
    g.add_edge("a", END);
    let err_msg = refusal_text(g);
    assert_eq!(err_msg, "Graph error: Entry node 'nonexistent' not found in nodes");
}

#[test]
fn compile_fail_join_to_nonexistent_node() {
    let mut g = StateGraph::new(make_channels());
    g.add_node("a".to_string());
    g.add_edge(START, "a");
    g.add_edge_join(&["a"], "ghost");
    let err_msg = refusal_text(g);
    assert_eq!(err_msg, "Graph error: Join target 'ghost' is not a registered node");
}

#[test]
fn compile_join_to_end() {
    let mut g = StateGraph::new(make_channels());
    g.add_node("a".to_string());
    g.add_edge(START, "a");
    g.add_edge_join(&["a"], END);
    assert!(g.compile(Vec::new(), Vec::new()).is_ok());
}
