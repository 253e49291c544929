use eko_core::{
    Checkpoint, CheckpointMetadata, CheckpointSource, JsonValue, MemorySaver, PendingWrite, StrMap,
};

fn make_checkpoint(id: &str, ts: &str) -> Checkpoint {
    let mut channel_values = StrMap::new();
    channel_values.insert("key".to_string(), JsonValue::Str(id.to_string()));
    Checkpoint {
        v: 1,
        id: id.to_string(),
        ts: ts.to_string(),
        channel_values,
        channel_versions: StrMap::new(),
        versions_seen: StrMap::new(),
        pending_sends: Vec::new(),
    }
}

fn make_metadata(step: i64, parent_id: Option<&str>) -> CheckpointMetadata {
    let mut parents = StrMap::new();
    if let Some(pid) = parent_id {
        parents.insert(String::new(), pid.to_string());
    }
    CheckpointMetadata { source: CheckpointSource::Loop, step, writes: StrMap::new(), parents }
}

fn write(task: &str, channel: &str, value: JsonValue) -> PendingWrite {
    PendingWrite { task_id: task.to_string(), channel: channel.to_string(), value }
}

#[test]
fn put_and_get_by_id() {
    let mut saver = MemorySaver::new();
    let id = saver.put("thread-1", make_checkpoint("ckpt-1", "2025-01-01T00:00:00Z"), make_metadata(0, None));
    assert_eq!(id, "ckpt-1");

    let tuple = saver.get_tuple("thread-1", Some("ckpt-1")).unwrap();
    assert_eq!(tuple.thread_id, "thread-1");
    assert_eq!(tuple.checkpoint.id, "ckpt-1");
    assert_eq!(tuple.checkpoint.channel_values.get("key"), Some(&JsonValue::Str("ckpt-1".to_string())));
}

#[test]
fn get_latest_without_id() {
    let mut saver = MemorySaver::new();
    saver.put("thread-1", make_checkpoint("old", "2025-01-01T00:00:00Z"), make_metadata(0, None));
    saver.put("thread-1", make_checkpoint("new", "2025-01-02T00:00:00Z"), make_metadata(1, Some("old")));

    let tuple = saver.get_tuple("thread-1", None).unwrap();
    assert_eq!(tuple.checkpoint.id, "new");
    assert_eq!(tuple.parent_checkpoint_id, Some("old".to_string()));
}

#[test]
fn get_nonexistent_thread_returns_none() {
    let saver = MemorySaver::new();
    assert!(saver.get_tuple("ghost", None).is_none());
}

#[test]
fn get_nonexistent_checkpoint_returns_none() {
    let mut saver = MemorySaver::new();
    saver.put("t", make_checkpoint("c1", "2025-01-01T00:00:00Z"), make_metadata(0, None));
    assert!(saver.get_tuple("t", Some("c999")).is_none());
}

#[test]
fn put_writes_appears_in_tuple() {
    let mut saver = MemorySaver::new();
    saver.put("t", make_checkpoint("c1", "2025-01-01T00:00:00Z"), make_metadata(0, None));
    saver.put_writes("t", "c1", vec![write("task-1", "tool_node", JsonValue::Null)], "task-1");

    let tuple = saver.get_tuple("t", Some("c1")).unwrap();
    assert_eq!(tuple.pending_writes.len(), 1);
    assert_eq!(tuple.pending_writes[0].channel, "tool_node");
}

#[test]
fn multiple_put_writes_accumulate() {
    let mut saver = MemorySaver::new();
    saver.put("t", make_checkpoint("c1", "2025-01-01T00:00:00Z"), make_metadata(0, None));
    saver.put_writes("t", "c1", vec![write("t1", "ch1", JsonValue::Int(1))], "t1");
    saver.put_writes("t", "c1", vec![write("t2", "ch2", JsonValue::Int(2))], "t2");

    let tuple = saver.get_tuple("t", Some("c1")).unwrap();
    assert_eq!(tuple.pending_writes.len(), 2);
}

#[test]
fn list_returns_descending_order() {
    let mut saver = MemorySaver::new();
    for i in 0..5i64 {
        let ts = format!("2025-01-0{}T00:00:00Z", i + 1);
        let parent = if i > 0 { Some(format!("c{}", i - 1)) } else { None };
        saver.put("t", make_checkpoint(&format!("c{i}"), &ts), make_metadata(i, parent.as_deref()));
    }

    let list = saver.list("t", None);
    assert_eq!(list.len(), 5);
    assert_eq!(list[0].checkpoint.id, "c4");
    assert_eq!(list[4].checkpoint.id, "c0");
}

#[test]
fn list_with_limit() {
    let mut saver = MemorySaver::new();
    for i in 0..5i64 {
        let ts = format!("2025-01-0{}T00:00:00Z", i + 1);
        saver.put("t", make_checkpoint(&format!("c{i}"), &ts), make_metadata(i, None));
    }

    let list = saver.list("t", Some(2));
    assert_eq!(list.len(), 2);
}

#[test]
fn list_empty_thread() {
    let saver = MemorySaver::new();
    assert!(saver.list("nonexistent", None).is_empty());
}

#[test]
fn delete_thread_removes_all() {
    let mut saver = MemorySaver::new();
    saver.put("t", make_checkpoint("c1", "2025-01-01T00:00:00Z"), make_metadata(0, None));
    saver.put_writes("t", "c1", vec![write("t1", "ch", JsonValue::Int(1))], "t1");

    saver.delete_thread("t");

    assert!(saver.get_tuple("t", None).is_none());
    assert!(saver.list("t", None).is_empty());
}

#[test]
fn delete_nonexistent_thread_is_ok() {
    let mut saver = MemorySaver::new();
    saver.delete_thread("ghost");
    assert!(saver.get_tuple("ghost", None).is_none());
}

#[test]
fn different_threads_are_isolated() {
    let mut saver = MemorySaver::new();
    saver.put("thread-a", make_checkpoint("ca", "2025-01-01T00:00:00Z"), make_metadata(0, None));
    saver.put("thread-b", make_checkpoint("cb", "2025-01-01T00:00:00Z"), make_metadata(0, None));

    let a = saver.get_tuple("thread-a", None).unwrap();
    let b = saver.get_tuple("thread-b", None).unwrap();
    assert_eq!(a.checkpoint.id, "ca");
    assert_eq!(b.checkpoint.id, "cb");

    saver.delete_thread("thread-a");
    assert!(saver.get_tuple("thread-a", None).is_none());
    assert!(saver.get_tuple("thread-b", None).is_some());
}

#[test]
fn put_writes_take_the_call_task_id() {
    let mut saver = MemorySaver::new();
    saver.put("t", make_checkpoint("c1", "2025-01-01T00:00:00Z"), make_metadata(0, None));
    saver.put_writes("t", "c1", vec![write("ignored", "ch", JsonValue::Int(7))], "interrupt");
    let tuple = saver.get_tuple("t", None).unwrap();
    assert_eq!(tuple.pending_writes[0].task_id, "interrupt");
    assert_eq!(tuple.pending_writes[0].value, JsonValue::Int(7));
}

#[test]
fn list_records_carry_no_writes() {
    let mut saver = MemorySaver::new();
    saver.put("t", make_checkpoint("c1", "2025-01-01T00:00:00Z"), make_metadata(0, None));
    saver.put_writes("t", "c1", vec![write("x", "ch", JsonValue::Int(1))], "x");
    let list = saver.list("t", None);
    assert_eq!(list.len(), 1);
    assert!(list[0].pending_writes.is_empty());
}
