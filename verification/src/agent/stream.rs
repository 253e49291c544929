//! The events an agent streams to its client, and the modes that filter them.

use vstd::prelude::*;
use crate::agent::interaction::InteractionRequest;
use crate::agent::message::ToolCall as ToolCallData;
use crate::json::JsonValue;
use crate::strmap::StrMap;

verus! {

/// An event streamed to the client.
#[derive(Debug)]
pub enum StreamEvent {
    /// A conversation stream begins.
    Start { thread_id: String, timestamp: i64 },
    /// A piece of text or of reasoning.
    Message { message_type: MessageType, content: String, timestamp: i64 },
    /// A complete tool call.
    ToolCall { id: String, name: String, args: JsonValue, timestamp: i64 },
    /// A piece of the arguments of a tool call being built.
    ToolCallChunk { id: String, name: Option<String>, args: String, index: usize, timestamp: i64 },
    /// The result of a tool.
    ToolResult { tool_call_id: String, name: String, result: JsonValue, success: bool, timestamp: i64 },
    /// The graph paused so that the application runs these tool calls.
    ToolCallRequested { thread_id: String, tool_calls: Vec<ToolCallData> },
    /// The graph paused for another reason.
    Interrupt { node: String, reason: String },
    /// The task list changed.
    Todos { todos: Vec<TodoItem>, timestamp: i64 },
    /// A file operation.
    Filesystem { operation: FilesystemOp, timestamp: i64 },
    /// The stream ends.
    Done { thread_id: String },
    /// An error.
    Error { error: String, timestamp: i64 },
    /// An event of a subgraph, under the subgraph's namespace.
    SubgraphEvent { namespace: String, event: Box<StreamEvent> },
    /// The whole state after a step.
    StateValues { values: StrMap<JsonValue>, step: i64 },
    /// What one node wrote.
    StateUpdate { node: String, updates: StrMap<JsonValue> },
    /// A checkpoint was stored.
    CheckpointSaved { checkpoint_id: String, step: i64 },
    /// A node task starts.
    TaskStarted { node: String },
    /// A node task finished.
    TaskCompleted { node: String },
    /// An event a node emitted itself.
    Custom { name: String, data: JsonValue },
    /// A node asks for outside interaction.
    InteractionRequired { request: InteractionRequest },
}

/// Whether a message carries text or reasoning.
#[derive(Debug, Clone, Copy, PartialEq, Eq, Structural)]
pub enum MessageType {
    Text,
    Thinking,
}

/// A tool call waiting to be run, and whether it runs without asking.
#[derive(Debug)]
pub struct ActionRequest {
    pub tool_call_id: String,
    pub tool_name: String,
    pub args: JsonValue,
    pub auto_execute: bool,
}

/// An item of a task list.
#[derive(Debug)]
pub struct TodoItem {
    pub content: String,
    pub status: TodoStatus,
}

/// The state of a task.
#[derive(Debug, Clone, Copy, PartialEq, Eq, Structural)]
pub enum TodoStatus {
    Pending,
    InProgress,
    Completed,
    Cancelled,
}

/// A file operation.
#[derive(Debug)]
pub struct FilesystemOp {
    pub op_type: FilesystemOpType,
    pub path: String,
    pub content: Option<String>,
}

/// The kind of a file operation.
#[derive(Debug, Clone, Copy, PartialEq, Eq, Structural)]
pub enum FilesystemOpType {
    Create,
    Write,
    Delete,
}

/// A class of events a client may ask for.
#[derive(Debug, Clone, Copy, PartialEq, Eq, Hash, Structural)]
pub enum StreamMode {
    /// The whole state after each step.
    Values,
    /// What each node wrote.
    Updates,
    /// Model text.
    Messages,
    /// Tool calls and their results.
    Tools,
    /// Events nodes emit themselves.
    Custom,
    /// Task start and completion.
    Debug,
    /// Stored checkpoints.
    Checkpoints,
}

/// A set of stream modes.
#[derive(Debug, Clone, Copy)]
pub struct StreamModeSet {
    values: bool,
    updates: bool,
    messages: bool,
    tools: bool,
    custom: bool,
    debug: bool,
    checkpoints: bool,
}

impl StreamModeSet {
    /// Whether the set holds `m`.
    pub closed spec fn has(&self, m: StreamMode) -> bool {
        match m {
            StreamMode::Values => self.values,
            StreamMode::Updates => self.updates,
            StreamMode::Messages => self.messages,
            StreamMode::Tools => self.tools,
            StreamMode::Custom => self.custom,
            StreamMode::Debug => self.debug,
            StreamMode::Checkpoints => self.checkpoints,
        }
    }
}

impl View for StreamModeSet {
    type V = Set<StreamMode>;

    open spec fn view(&self) -> Set<StreamMode> {
        Set::new(|m: StreamMode| self.has(m))
    }
}

/// Every stream mode.
pub open spec fn all_modes() -> Set<StreamMode> {
    set![
        StreamMode::Values,
        StreamMode::Updates,
        StreamMode::Messages,
        StreamMode::Tools,
        StreamMode::Custom,
        StreamMode::Debug,
        StreamMode::Checkpoints,
    ]
}

/// The modes a client gets when it asks for none.
pub open spec fn default_modes() -> Set<StreamMode> {
    set![StreamMode::Values, StreamMode::Updates, StreamMode::Messages, StreamMode::Tools]
}

impl StreamModeSet {
    /// The empty set.
    pub fn empty() -> (r: StreamModeSet)
        ensures
            r@ == Set::<StreamMode>::empty(),
    {
        let r = StreamModeSet {
            values: false,
            updates: false,
            messages: false,
            tools: false,
            custom: false,
            debug: false,
            checkpoints: false,
        };
        assert(r@ =~= Set::<StreamMode>::empty());
        r
    }

    /// Whether the set holds `m`.
    pub fn contains(&self, m: StreamMode) -> (r: bool)
        ensures
            r == self@.contains(m),
    {
        match m {
            StreamMode::Values => self.values,
            StreamMode::Updates => self.updates,
            StreamMode::Messages => self.messages,
            StreamMode::Tools => self.tools,
            StreamMode::Custom => self.custom,
            StreamMode::Debug => self.debug,
            StreamMode::Checkpoints => self.checkpoints,
        }
    }

    /// Adds `m`; says whether it was new.
    pub fn insert(&mut self, m: StreamMode) -> (r: bool)
        ensures
            final(self)@ == old(self)@.insert(m),
            r == !old(self)@.contains(m),
    {
        let was = self.contains(m);
        match m {
            StreamMode::Values => self.values = true,
            StreamMode::Updates => self.updates = true,
            StreamMode::Messages => self.messages = true,
            StreamMode::Tools => self.tools = true,
            StreamMode::Custom => self.custom = true,
            StreamMode::Debug => self.debug = true,
            StreamMode::Checkpoints => self.checkpoints = true,
        }
        assert(self@ =~= old(self)@.insert(m));
        !was
    }

    /// Removes `m`; says whether it was there.
    pub fn remove(&mut self, m: StreamMode) -> (r: bool)
        ensures
            final(self)@ == old(self)@.remove(m),
            r == old(self)@.contains(m),
    {
        let was = self.contains(m);
        match m {
            StreamMode::Values => self.values = false,
            StreamMode::Updates => self.updates = false,
            StreamMode::Messages => self.messages = false,
            StreamMode::Tools => self.tools = false,
            StreamMode::Custom => self.custom = false,
            StreamMode::Debug => self.debug = false,
            StreamMode::Checkpoints => self.checkpoints = false,
        }
        assert(self@ =~= old(self)@.remove(m));
        was
    }

    /// How many modes the set holds.
    pub fn len(&self) -> (r: usize)
        ensures
            r == self@.len(),
    {
        let mut s = StreamModeSet::empty();
        let mut n: usize = 0;
        if self.values { s.insert(StreamMode::Values); n = n + 1; }
        if self.updates { s.insert(StreamMode::Updates); n = n + 1; }
        if self.messages { s.insert(StreamMode::Messages); n = n + 1; }
        if self.tools { s.insert(StreamMode::Tools); n = n + 1; }
        if self.custom { s.insert(StreamMode::Custom); n = n + 1; }
        if self.debug { s.insert(StreamMode::Debug); n = n + 1; }
        if self.checkpoints { s.insert(StreamMode::Checkpoints); n = n + 1; }
        assert(s@ =~= self@);
        n
    }
}

impl StreamMode {
    /// The modes a client gets when it asks for none: values, updates, messages
    /// and tools.
    pub fn default_set() -> (r: StreamModeSet)
        ensures
            r@ == default_modes(),
    {
        let mut r = StreamModeSet::empty();
        r.insert(StreamMode::Values);
        r.insert(StreamMode::Updates);
        r.insert(StreamMode::Messages);
        r.insert(StreamMode::Tools);
        r
    }

    /// Every mode.
    pub fn all() -> (r: StreamModeSet)
        ensures
            r@ == all_modes(),
    {
        let mut r = StreamMode::default_set();
        r.insert(StreamMode::Custom);
        r.insert(StreamMode::Debug);
        r.insert(StreamMode::Checkpoints);
        r
    }
}

/// The mode an event belongs to; `None` for events every client gets.
pub open spec fn event_mode(e: StreamEvent) -> Option<StreamMode> {
    match e {
        StreamEvent::StateValues { .. } => Some(StreamMode::Values),
        StreamEvent::StateUpdate { .. } => Some(StreamMode::Updates),
        StreamEvent::Message { .. } => Some(StreamMode::Messages),
        StreamEvent::ToolCall { .. } | StreamEvent::ToolCallChunk { .. } | StreamEvent::ToolResult { .. }
        | StreamEvent::ToolCallRequested { .. } => Some(StreamMode::Tools),
        StreamEvent::Custom { .. } => Some(StreamMode::Custom),
        StreamEvent::TaskStarted { .. } | StreamEvent::TaskCompleted { .. } => Some(StreamMode::Debug),
        StreamEvent::CheckpointSaved { .. } => Some(StreamMode::Checkpoints),
        _ => None,
    }
}

/// Whether a client that asked for `modes` gets event `e`: events without a
/// mode always pass, the others when their mode was asked for.
pub open spec fn passes(e: StreamEvent, modes: Set<StreamMode>) -> bool {
    match event_mode(e) {
        Some(m) => modes.contains(m),
        None => true,
    }
}

impl StreamEvent {
    /// The mode this event belongs to, used to filter the stream; `None` for
    /// events every client gets.
    pub fn mode(&self) -> (r: Option<StreamMode>)
        ensures
            r == event_mode(*self),
    {
        match self {
            StreamEvent::StateValues { .. } => Some(StreamMode::Values),
            StreamEvent::StateUpdate { .. } => Some(StreamMode::Updates),
            StreamEvent::Message { .. } => Some(StreamMode::Messages),
            StreamEvent::ToolCall { .. } => Some(StreamMode::Tools),
            StreamEvent::ToolCallChunk { .. } => Some(StreamMode::Tools),
            StreamEvent::ToolResult { .. } => Some(StreamMode::Tools),
            StreamEvent::ToolCallRequested { .. } => Some(StreamMode::Tools),
            StreamEvent::Custom { .. } => Some(StreamMode::Custom),
            StreamEvent::TaskStarted { .. } => Some(StreamMode::Debug),
            StreamEvent::TaskCompleted { .. } => Some(StreamMode::Debug),
            StreamEvent::CheckpointSaved { .. } => Some(StreamMode::Checkpoints),
            _ => None,
        }
    }

    /// Whether a client that asked for `modes` gets this event.
    pub fn passes(&self, modes: &StreamModeSet) -> (r: bool)
        ensures
            r == passes(*self, modes@),
    {
        match self.mode() {
            Some(m) => modes.contains(m),
            None => true,
        }
    }

    /// The current UTC time in milliseconds since the Unix epoch, read with
    /// `chrono::Utc::now().timestamp_millis()`. Nothing is stated of it: it is
    /// the clock.
    #[verifier::external_body]
    pub fn now() -> (r: i64) {
        chrono::Utc::now().timestamp_millis()
    }

    /// The start of a stream, stamped with the current time.
    pub fn start(thread_id: String) -> (r: StreamEvent)
        ensures
            r matches StreamEvent::Start { thread_id: t, .. } && t == thread_id,
    {
        StreamEvent::Start { thread_id, timestamp: StreamEvent::now() }
    }

    /// A message of the given type, stamped with the current time.
    pub fn message(message_type: MessageType, content: String) -> (r: StreamEvent)
        ensures
            r matches StreamEvent::Message { message_type: m, content: c, .. } && m == message_type && c == content,
    {
        StreamEvent::Message { message_type, content, timestamp: StreamEvent::now() }
    }

    /// A text message, stamped with the current time.
    pub fn text(content: String) -> (r: StreamEvent)
        ensures
            r matches StreamEvent::Message { message_type: m, content: c, .. } && m == MessageType::Text && c == content,
    {
        StreamEvent::message(MessageType::Text, content)
    }

    /// A tool call, stamped with the current time.
    pub fn tool_call(id: String, name: String, args: JsonValue) -> (r: StreamEvent)
        ensures
            r matches StreamEvent::ToolCall { id: i, name: n, args: a, .. } && i == id && n == name && a == args,
    {
        StreamEvent::ToolCall { id, name, args, timestamp: StreamEvent::now() }
    }

    /// The result of a tool, stamped with the current time.
    pub fn tool_result(tool_call_id: String, name: String, result: JsonValue, success: bool) -> (r: StreamEvent)
        ensures
            r matches StreamEvent::ToolResult { tool_call_id: i, name: n, result: x, success: s, .. }
                && i == tool_call_id && n == name && x == result && s == success,
    {
        StreamEvent::ToolResult { tool_call_id, name, result, success, timestamp: StreamEvent::now() }
    }

    /// The end of a stream.
    pub fn done(thread_id: String) -> (r: StreamEvent)
        ensures
            r matches StreamEvent::Done { thread_id: t } && t == thread_id,
    {
        StreamEvent::Done { thread_id }
    }

    /// An error, stamped with the current time.
    pub fn error(error: String) -> (r: StreamEvent)
        ensures
            r matches StreamEvent::Error { error: e, .. } && e == error,
    {
        StreamEvent::Error { error, timestamp: StreamEvent::now() }
    }
}

/// Each kind of event belongs to the mode named after it: the whole state to
/// `Values`, a node's update to `Updates`, message pieces to `Messages`, tool
/// events to `Tools`, a node's own events to `Custom`, task starts and ends to
/// `Debug`, stored checkpoints to `Checkpoints`; every other event belongs to
/// no mode and reaches every client.
pub proof fn lemma_event_kinds(e: StreamEvent)
    ensures
        e is StateValues ==> event_mode(e) == Some(StreamMode::Values),
        e is StateUpdate ==> event_mode(e) == Some(StreamMode::Updates),
        e is Message ==> event_mode(e) == Some(StreamMode::Messages),
        (e is ToolCall || e is ToolCallChunk || e is ToolResult || e is ToolCallRequested)
            ==> event_mode(e) == Some(StreamMode::Tools),
        e is Custom ==> event_mode(e) == Some(StreamMode::Custom),
        (e is TaskStarted || e is TaskCompleted) ==> event_mode(e) == Some(StreamMode::Debug),
        e is CheckpointSaved ==> event_mode(e) == Some(StreamMode::Checkpoints),
        (e is Start || e is Interrupt || e is Todos || e is Filesystem || e is Done || e is Error
            || e is SubgraphEvent || e is InteractionRequired) ==> event_mode(e) is None,
        e is Custom ==> forall|modes: Set<StreamMode>| passes(e, modes) <==> modes.contains(StreamMode::Custom),
{
}

/// A client that asked for every mode gets every event, and one that asked for
/// none gets exactly the events that belong to no mode.
pub proof fn lemma_filter_extremes(e: StreamEvent)
    ensures
        passes(e, all_modes()),
        passes(e, Set::empty()) <==> event_mode(e) is None,
{
}

/// A client gets an event under a larger set of modes whenever it gets it under a
/// smaller one.
pub proof fn lemma_filter_monotone(e: StreamEvent, small: Set<StreamMode>, large: Set<StreamMode>)
    requires
        small.subset_of(large),
    ensures
        passes(e, small) ==> passes(e, large),
{
}

} // verus!
