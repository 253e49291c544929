use eko_core::{
    AnyChannel, BinaryOperatorAggregate, DynamicBarrierValue, EphemeralValue, JsonValue, LastValue,
    NamedBarrierValue, Topic,
};

fn num(i: i64) -> JsonValue {
    JsonValue::Int(i)
}

fn text(s: &str) -> JsonValue {
    JsonValue::Str(s.to_string())
}

fn arr(items: Vec<JsonValue>) -> JsonValue {
    JsonValue::Array(items)
}

fn obj(key: &str, value: JsonValue) -> JsonValue {
    JsonValue::Object(vec![(key.to_string(), value)])
}

// LastValue

#[test]
fn last_value_empty_by_default() {
    let ch = LastValue::new();
    assert!(ch.get().is_none());
    assert!(ch.checkpoint().is_none());
}

#[test]
fn last_value_single_update() {
    let mut ch = LastValue::new();
    let changed = ch.update(vec![num(42)]).unwrap();
    assert!(changed);
    assert_eq!(ch.get(), Some(num(42)));
}

#[test]
fn last_value_takes_last_from_batch() {
    let mut ch = LastValue::new();
    ch.update(vec![num(1), num(2), num(3)]).unwrap();
    assert_eq!(ch.get(), Some(num(3)));
}

#[test]
fn last_value_empty_batch_no_change() {
    let mut ch = LastValue::new();
    let changed = ch.update(vec![]).unwrap();
    assert!(!changed);
    assert!(ch.get().is_none());
}

#[test]
fn last_value_checkpoint_matches_get() {
    let mut ch = LastValue::new();
    ch.update(vec![text("hello")]).unwrap();
    assert_eq!(ch.get(), ch.checkpoint());
}

#[test]
fn last_value_from_checkpoint_restores() {
    let ch = LastValue::new();
    let restored = ch.from_checkpoint(Some(num(99)));
    assert_eq!(restored.get(), Some(num(99)));
}

#[test]
fn last_value_from_checkpoint_none() {
    let ch = LastValue::new();
    let restored = ch.from_checkpoint(None);
    assert!(restored.get().is_none());
}

// BinaryOperatorAggregate

fn append_reducer(existing: JsonValue, new: JsonValue) -> Result<JsonValue, String> {
    match existing {
        JsonValue::Array(mut items) => {
            items.push(new);
            Ok(JsonValue::Array(items))
        }
        other => Ok(JsonValue::Array(vec![other, new])),
    }
}

type Reducer = fn(JsonValue, JsonValue) -> Result<JsonValue, String>;

fn appender() -> BinaryOperatorAggregate<Reducer> {
    BinaryOperatorAggregate::new(append_reducer as Reducer)
}

#[test]
fn binop_empty_by_default() {
    let ch = appender();
    assert!(ch.get().is_none());
}

#[test]
fn binop_first_write_sets_value() {
    let mut ch = appender();
    ch.update(vec![text("a")]).unwrap();
    assert_eq!(ch.get(), Some(text("a")));
}

#[test]
fn binop_reducer_accumulates() {
    let mut ch = appender();
    ch.update(vec![arr(vec![num(1)])]).unwrap();
    ch.update(vec![num(2)]).unwrap();
    ch.update(vec![num(3)]).unwrap();
    assert_eq!(ch.get(), Some(arr(vec![num(1), num(2), num(3)])));
}

#[test]
fn binop_batch_update_applies_sequentially() {
    let mut ch = appender();
    ch.update(vec![arr(vec![]), num(1), num(2)]).unwrap();
    assert_eq!(ch.get(), Some(arr(vec![num(1), num(2)])));
}

#[test]
fn binop_empty_batch_no_change() {
    let mut ch = appender();
    let changed = ch.update(vec![]).unwrap();
    assert!(!changed);
}

#[test]
fn binop_checkpoint_matches_get() {
    let mut ch = appender();
    ch.update(vec![num(42)]).unwrap();
    assert_eq!(ch.get(), ch.checkpoint());
}

#[test]
fn binop_from_checkpoint_preserves_reducer() {
    let ch = appender();
    let mut restored = ch.from_checkpoint(Some(arr(vec![num(1), num(2)])));
    assert_eq!(restored.get(), Some(arr(vec![num(1), num(2)])));
    restored.update(vec![num(3)]).unwrap();
    assert_eq!(restored.get(), Some(arr(vec![num(1), num(2), num(3)])));
}

// EphemeralValue

#[test]
fn ephemeral_empty_by_default() {
    let ch = EphemeralValue::new();
    assert!(ch.get().is_none());
}

#[test]
fn ephemeral_update_and_get() {
    let mut ch = EphemeralValue::new();
    ch.update(vec![text("temp")]).unwrap();
    assert_eq!(ch.get(), Some(text("temp")));
}

#[test]
fn ephemeral_takes_last_from_batch() {
    let mut ch = EphemeralValue::new();
    ch.update(vec![num(1), num(2)]).unwrap();
    assert_eq!(ch.get(), Some(num(2)));
}

#[test]
fn ephemeral_checkpoint_returns_none() {
    let mut ch = EphemeralValue::new();
    ch.update(vec![num(42)]).unwrap();
    assert!(ch.checkpoint().is_none());
}

#[test]
fn ephemeral_not_persistent() {
    let ch = EphemeralValue::new();
    assert!(!ch.is_persistent());
}

#[test]
fn ephemeral_consume_takes_value() {
    let mut ch = EphemeralValue::new();
    ch.update(vec![text("data")]).unwrap();
    let val = ch.consume();
    assert_eq!(val, Some(text("data")));
    assert!(ch.get().is_none());
}

#[test]
fn ephemeral_from_checkpoint_always_empty() {
    let ch = EphemeralValue::new();
    let restored = ch.from_checkpoint(Some(text("should_be_ignored")));
    assert!(restored.get().is_none());
}

// Topic

#[test]
fn topic_empty_by_default() {
    let ch = Topic::new();
    assert!(ch.get().is_none());
}

#[test]
fn topic_appends_values() {
    let mut ch = Topic::new();
    ch.update(vec![num(1)]).unwrap();
    ch.update(vec![num(2), num(3)]).unwrap();
    assert_eq!(ch.get(), Some(arr(vec![num(1), num(2), num(3)])));
}

#[test]
fn topic_empty_batch_no_change() {
    let mut ch = Topic::new();
    let changed = ch.update(vec![]).unwrap();
    assert!(!changed);
}

#[test]
fn topic_drain_takes_all() {
    let mut ch = Topic::new();
    ch.update(vec![text("a"), text("b")]).unwrap();
    let drained = ch.drain();
    assert_eq!(drained, vec![text("a"), text("b")]);
    assert!(ch.get().is_none());
}

#[test]
fn topic_checkpoint_returns_none() {
    let mut ch = Topic::new();
    ch.update(vec![num(1)]).unwrap();
    assert!(ch.checkpoint().is_none());
}

#[test]
fn topic_not_persistent() {
    let ch = Topic::new();
    assert!(!ch.is_persistent());
}

#[test]
fn topic_from_checkpoint_always_empty() {
    let ch = Topic::new();
    let restored = ch.from_checkpoint(Some(arr(vec![num(1), num(2), num(3)])));
    assert!(restored.get().is_none());
}

// NamedBarrierValue

#[test]
fn barrier_empty_by_default() {
    let ch = NamedBarrierValue::new(&["a", "b"]);
    assert!(ch.get().is_none());
}

#[test]
fn barrier_not_satisfied_with_partial() {
    let mut ch = NamedBarrierValue::new(&["a", "b"]);
    let changed = ch.update(vec![text("a")]).unwrap();
    assert!(changed);
    assert!(ch.get().is_none());
}

#[test]
fn barrier_satisfied_when_all_seen() {
    let mut ch = NamedBarrierValue::new(&["a", "b"]);
    ch.update(vec![text("a")]).unwrap();
    ch.update(vec![text("b")]).unwrap();
    assert!(ch.get().is_some());
}

#[test]
fn barrier_ignores_unknown_names() {
    let mut ch = NamedBarrierValue::new(&["a", "b"]);
    let changed = ch.update(vec![text("c")]).unwrap();
    assert!(!changed);
    assert!(ch.get().is_none());
}

#[test]
fn barrier_duplicate_update_no_change() {
    let mut ch = NamedBarrierValue::new(&["a", "b"]);
    ch.update(vec![text("a")]).unwrap();
    let changed = ch.update(vec![text("a")]).unwrap();
    assert!(!changed);
    assert!(ch.get().is_none());
}

#[test]
fn barrier_not_persistent() {
    let ch = NamedBarrierValue::new(&["a"]);
    assert!(!ch.is_persistent());
    assert!(ch.checkpoint().is_none());
}

#[test]
fn barrier_from_checkpoint_resets() {
    let mut ch = NamedBarrierValue::new(&["a", "b"]);
    ch.update(vec![text("a"), text("b")]).unwrap();
    assert!(ch.get().is_some());

    let reset = ch.from_checkpoint(None);
    assert!(reset.get().is_none());
}

#[test]
fn barrier_batch_update_multiple_names() {
    let mut ch = NamedBarrierValue::new(&["x", "y"]);
    let changed = ch.update(vec![text("x"), text("y")]).unwrap();
    assert!(changed);
    assert!(ch.get().is_some());
}

// DynamicBarrierValue

#[test]
fn dynamic_barrier_empty_by_default() {
    let ch = DynamicBarrierValue::new();
    assert!(ch.get().is_none());
}

#[test]
fn dynamic_barrier_not_persistent() {
    let ch = DynamicBarrierValue::new();
    assert!(!ch.is_persistent());
    assert!(ch.checkpoint().is_none());
}

#[test]
fn dynamic_barrier_set_names_then_satisfy() {
    let mut ch = DynamicBarrierValue::new();
    ch.update(vec![obj("__wait_for__", arr(vec![text("a"), text("b")]))]).unwrap();
    assert!(ch.get().is_none());

    ch.update(vec![text("a")]).unwrap();
    assert!(ch.get().is_none());

    ch.update(vec![text("b")]).unwrap();
    assert!(ch.get().is_some());
}

#[test]
fn dynamic_barrier_ignores_signals_before_priming() {
    let mut ch = DynamicBarrierValue::new();
    let changed = ch.update(vec![text("a")]).unwrap();
    assert!(!changed);
    assert!(ch.get().is_none());
}

#[test]
fn dynamic_barrier_ignores_unknown_signals() {
    let mut ch = DynamicBarrierValue::new();
    ch.update(vec![obj("__wait_for__", arr(vec![text("a")]))]).unwrap();
    let changed = ch.update(vec![text("unknown")]).unwrap();
    assert!(!changed);
    assert!(ch.get().is_none());
}

#[test]
fn dynamic_barrier_reset_on_new_wait_for() {
    let mut ch = DynamicBarrierValue::new();
    ch.update(vec![obj("__wait_for__", arr(vec![text("a")]))]).unwrap();
    ch.update(vec![text("a")]).unwrap();
    assert!(ch.get().is_some());

    ch.update(vec![obj("__wait_for__", arr(vec![text("x"), text("y")]))]).unwrap();
    assert!(ch.get().is_none());
}

#[test]
fn dynamic_barrier_from_checkpoint_resets() {
    let mut ch = DynamicBarrierValue::new();
    ch.update(vec![obj("__wait_for__", arr(vec![text("a")]))]).unwrap();
    ch.update(vec![text("a")]).unwrap();
    assert!(ch.get().is_some());

    let reset = ch.from_checkpoint(None);
    assert!(reset.get().is_none());
}

// Overwrite

fn push_reducer(a: JsonValue, b: JsonValue) -> Result<JsonValue, String> {
    let mut items = match a {
        JsonValue::Array(items) => items,
        _ => Vec::new(),
    };
    items.push(b);
    Ok(JsonValue::Array(items))
}

#[test]
fn binop_overwrite_bypasses_reducer() {
    let mut ch = BinaryOperatorAggregate::new(push_reducer as Reducer);

    ch.update(vec![arr(vec![text("first")])]).unwrap();
    ch.update(vec![text("second")]).unwrap();
    assert_eq!(ch.get(), Some(arr(vec![text("first"), text("second")])));

    ch.update(vec![obj("__overwrite__", text("replaced"))]).unwrap();
    assert_eq!(ch.get(), Some(text("replaced")));
}

#[test]
fn binop_overwrite_then_normal_continues_reducing() {
    let mut ch = BinaryOperatorAggregate::new(push_reducer as Reducer);

    ch.update(vec![obj("__overwrite__", arr(vec![text("base")]))]).unwrap();
    assert_eq!(ch.get(), Some(arr(vec![text("base")])));

    ch.update(vec![text("added")]).unwrap();
    assert_eq!(ch.get(), Some(arr(vec![text("base"), text("added")])));
}

#[test]
fn overwrite_helper_constructs_correct_value() {
    let val = eko_core::overwrite(num(42));
    assert_eq!(val, obj("__overwrite__", num(42)));
}

fn refusing_reducer(_old: JsonValue, _new: JsonValue) -> Result<JsonValue, String> {
    Err("values do not combine".to_string())
}

#[test]
fn binop_reducer_failure_carries_its_message() {
    let mut ch = BinaryOperatorAggregate::new(refusing_reducer as fn(JsonValue, JsonValue) -> Result<JsonValue, String>);
    assert!(matches!(ch.update(vec![num(1)]), Ok(true)));
    match ch.update(vec![num(2)]) {
        Err(eko_core::AgentError::Other(m)) => assert_eq!(m, "values do not combine"),
        other => panic!("expected the reducer's error, got {:?}", other),
    }
    assert_eq!(ch.get(), Some(num(1)));
}

#[test]
fn restored_barrier_reopens_after_all_names() {
    let mut b = NamedBarrierValue::new(&["a", "b"]);
    b.update(vec![text("a"), text("b")]).unwrap();
    assert_eq!(b.get(), Some(JsonValue::Bool(true)));
    let mut restored = b.from_checkpoint(b.checkpoint());
    assert_eq!(restored.get(), None);
    restored.update(vec![text("b")]).unwrap();
    assert_eq!(restored.get(), None);
    restored.update(vec![text("a")]).unwrap();
    assert_eq!(restored.get(), Some(JsonValue::Bool(true)));
}
