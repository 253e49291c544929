//! The superstep engine: the graph's topology and the decisions of a run.

use vstd::prelude::*;
use crate::agent::error::AgentError;
use crate::channels::base::{AnyChannel, ChannelValues};
use crate::channels::channel::Channel;
use crate::checkpoint::types::{CheckpointTuple, PendingWriteView};
use crate::graph::builder::opt_text;
use crate::graph::command::{GotoTarget, NodeOutput};
use crate::graph::edge::{
    Edge, EdgeView, RouteDecision, RouteView, RouterId, START, lemma_route_view, route_view,
    router_ok, sends_view, view_next,
};
use crate::graph::pregel::channel_ops::{apply_batch_at, channels_ready, read_channels, read_spec};
use crate::graph::task::{Task, TaskType};
use crate::graph::types::{Command, JoinEdge, JoinView, joins_view};
use crate::json::{JsonValue, JsonView, seq_view, str_eq};
use crate::strmap::StrMap;

verus! {

/// The most steps one invocation or resume may take.
pub const MAX_SUPERSTEPS: usize = 100;

/// The compiled topology of a graph: its nodes, edges, joins, interrupt points
/// and entry.
pub struct PregelLoop {
    nodes: StrMap<()>,
    edges: StrMap<Edge>,
    joins: Vec<JoinEdge>,
    interrupt_before: StrMap<()>,
    interrupt_after: StrMap<()>,
    entry: String,
}

impl PregelLoop {
    /// The registered node names.
    pub closed spec fn nodes(&self) -> Set<Seq<char>> {
        self.nodes@.dom()
    }

    /// The edge leaving each node (and `START`, for a conditional entry).
    pub closed spec fn edges(&self) -> Map<Seq<char>, EdgeView> {
        self.edges@
    }

    /// The joins, in the order they were added.
    pub closed spec fn joins(&self) -> Seq<JoinView> {
        joins_view(self.joins@)
    }

    /// The nodes to pause before.
    pub closed spec fn interrupt_before(&self) -> Set<Seq<char>> {
        self.interrupt_before@.dom()
    }

    /// The nodes to pause after.
    pub closed spec fn interrupt_after(&self) -> Set<Seq<char>> {
        self.interrupt_after@.dom()
    }

    /// The entry node, or `START` when a conditional edge decides it.
    pub closed spec fn entry(&self) -> Seq<char> {
        self.entry@
    }

    /// A topology made of the given parts.
    pub fn new(
        nodes: StrMap<()>,
        edges: StrMap<Edge>,
        entry: String,
        interrupt_before: StrMap<()>,
        interrupt_after: StrMap<()>,
        joins: Vec<JoinEdge>,
    ) -> (r: Self)
        ensures
            r.nodes() == nodes@.dom(),
            r.edges() == edges@,
            r.entry() == entry@,
            r.interrupt_before() == interrupt_before@.dom(),
            r.interrupt_after() == interrupt_after@.dom(),
            r.joins() == joins_view(joins@),
    {
        PregelLoop { nodes, edges, joins, interrupt_before, interrupt_after, entry }
    }
}

/// Where the edge leaving `from` leads on values `values`: the target of a fixed
/// edge, the node a router names, or nowhere (an end edge, a router that ends or
/// fans out, or no edge at all).
pub open spec fn next_of<R: Fn(RouterId, &ChannelValues) -> RouteDecision>(
    edges: Map<Seq<char>, EdgeView>,
    route: R,
    from: Seq<char>,
    values: Map<Seq<char>, JsonView>,
) -> Option<Seq<char>> {
    if !edges.contains_key(from) {
        None
    } else {
        match edges[from] {
            EdgeView::Static(to) => Some(to),
            EdgeView::Conditional(id) => view_next(route_view(route, id, values)),
            EdgeView::End => None,
        }
    }
}

/// The message of a conditional entry that decided to end at once.
pub open spec fn entry_ends_message() -> Seq<char> {
    "START conditional edge resolved to END"@
}

/// The first write on channel `ch`.
pub open spec fn first_on(ws: Seq<PendingWriteView>, ch: Seq<char>) -> Option<PendingWriteView>
    decreases ws.len(),
{
    if ws.len() == 0 {
        None
    } else if ws[0].channel == ch {
        Some(ws[0])
    } else {
        first_on(ws.drop_first(), ch)
    }
}

/// The string under `node_name` in an object value.
pub open spec fn named_node(v: JsonView) -> Option<Seq<char>> {
    match v.get("node_name"@) {
        Some(n) => n.str_of(),
        None => None,
    }
}

/// The node named by the first node-interrupt record: the first write on
/// `__interrupt__` whose value names a node.
pub open spec fn interrupted_node(ws: Seq<PendingWriteView>) -> Option<Seq<char>>
    decreases ws.len(),
{
    if ws.len() == 0 {
        None
    } else if ws[0].channel == "__interrupt__"@ && named_node(ws[0].value) is Some {
        named_node(ws[0].value)
    } else {
        interrupted_node(ws.drop_first())
    }
}

/// The node a pause record points at: the first write on a channel that names a
/// node to pause before (resume at that node), or on a node to pause after
/// whose edge leads somewhere (resume at that next node).
pub open spec fn paused_node<R: Fn(RouterId, &ChannelValues) -> RouteDecision>(
    ws: Seq<PendingWriteView>,
    before: Set<Seq<char>>,
    after: Set<Seq<char>>,
    edges: Map<Seq<char>, EdgeView>,
    route: R,
    values: Map<Seq<char>, JsonView>,
) -> Option<Seq<char>>
    decreases ws.len(),
{
    if ws.len() == 0 {
        None
    } else if before.contains(ws[0].channel) {
        Some(ws[0].channel)
    } else if after.contains(ws[0].channel) && next_of(edges, route, ws[0].channel, values) is Some {
        next_of(edges, route, ws[0].channel, values)
    } else {
        paused_node(ws.drop_first(), before, after, edges, route, values)
    }
}

/// The values a resume hands to the interrupted node: those kept with the
/// checkpoint (the array of the first write on `__resume__`), then the value
/// the resume command carries.
pub open spec fn resume_values(ws: Seq<PendingWriteView>, command: Option<Command>) -> Seq<JsonView> {
    let kept = match first_on(ws, "__resume__"@) {
        Some(w) => match w.value {
            JsonView::Array(items) => items,
            _ => Seq::empty(),
        },
        None => Seq::empty(),
    };
    match command {
        Some(c) => match c.resume {
            Some(v) => kept.push(v@),
            None => kept,
        },
        None => kept,
    }
}

/// The node a checkpoint's pause records say runs next: the node that
/// interrupted itself, else the node a pause record points at.
pub open spec fn pause_target<R: Fn(RouterId, &ChannelValues) -> RouteDecision>(
    pl: PregelLoop,
    route: R,
    t: CheckpointTuple,
) -> Option<Seq<char>> {
    let ws = t@.pending_writes;
    if interrupted_node(ws) is Some {
        interrupted_node(ws)
    } else {
        paused_node(ws, pl.interrupt_before(), pl.interrupt_after(), pl.edges(), route, t@.checkpoint.channel_values)
    }
}

/// The node a resume starts at: the node the checkpoint's pause records say
/// runs next, else the entry.
pub open spec fn resume_node_of<R: Fn(RouterId, &ChannelValues) -> RouteDecision>(
    pl: PregelLoop,
    route: R,
    t: CheckpointTuple,
) -> Seq<char> {
    match pause_target(pl, route, t) {
        Some(n) => n,
        None => pl.entry(),
    }
}

impl PregelLoop {
    /// Whether the run pauses before `node`.
    pub fn pauses_before(&self, node: &str) -> (r: bool)
        ensures
            r == self.interrupt_before().contains(node@),
    {
        self.interrupt_before.contains_key(node)
    }

    /// Whether the run pauses after `node`.
    pub fn pauses_after(&self, node: &str) -> (r: bool)
        ensures
            r == self.interrupt_after().contains(node@),
    {
        self.interrupt_after.contains_key(node)
    }

    /// The node the edge leaving `from` leads to on `values`.
    pub fn resolve_next<R: Fn(RouterId, &ChannelValues) -> RouteDecision>(
        &self,
        route: &R,
        from: &str,
        values: &ChannelValues,
    ) -> (r: Option<String>)
        requires
            router_ok(*route),
        ensures
            opt_text(r) == next_of(self.edges(), *route, from@, values@),
    {
        match self.edges.get(from) {
            None => None,
            Some(edge) => match edge {
                Edge::Static(to) => Some(to.clone()),
                Edge::Conditional(id) => {
                    let d = route(*id, values);
                    proof {
                        lemma_route_view(*route, *id, values, d);
                    }
                    match d {
                        RouteDecision::Next(n) => Some(n),
                        _ => None,
                    }
                },
                Edge::End => None,
            },
        }
    }

    /// The node a run starts at: the entry, or, for a conditional entry, the
    /// node its router names on `values`.
    pub fn resolve_entry_node<R: Fn(RouterId, &ChannelValues) -> RouteDecision>(
        &self,
        route: &R,
        values: &ChannelValues,
    ) -> (r: Result<String, AgentError>)
        requires
            router_ok(*route),
        ensures
            self.entry() != START@ ==> (r matches Ok(n) && n@ == self.entry()),
            self.entry() == START@ ==> match next_of(self.edges(), *route, START@, values@) {
                Some(n) => r matches Ok(m) && m@ == n,
                None => r matches Err(AgentError::GraphError(msg)) && msg@ == entry_ends_message(),
            },
    {
        if str_eq(self.entry.as_str(), START) {
            match self.resolve_next(route, START, values) {
                Some(n) => Ok(n),
                None => Err(AgentError::GraphError(String::from_str("START conditional edge resolved to END"))),
            }
        } else {
            Ok(self.entry.clone())
        }
    }

    /// The values a resume hands to the interrupted node.
    pub fn extract_resume_values(tuple: &CheckpointTuple, command: &Option<Command>) -> (r: Vec<JsonValue>)
        ensures
            seq_view(r@) == resume_values(tuple@.pending_writes, *command),
    {
        let ghost ws = tuple@.pending_writes;
        let mut out: Vec<JsonValue> = Vec::new();
        let mut i: usize = 0;
        assert(ws.skip(0) =~= ws);
        while i < tuple.pending_writes.len()
            invariant
                i <= tuple.pending_writes.len(),
                ws == tuple@.pending_writes,
                ws.len() == tuple.pending_writes.len(),
                first_on(ws, "__resume__"@) == first_on(ws.skip(i as int), "__resume__"@),
                out@.len() == 0,
            decreases tuple.pending_writes.len() - i,
        {
            let w = &tuple.pending_writes[i];
            assert(ws.skip(i as int)[0] == w@);
            assert(ws.skip(i as int).drop_first() =~= ws.skip(i + 1));
            if str_eq(w.channel.as_str(), "__resume__") {
                match &w.value {
                    JsonValue::Array(items) => {
                        let mut k: usize = 0;
                        proof {
                            crate::json::lemma_view_seq(items@);
                        }
                        while k < items.len()
                            invariant
                                k <= items.len(),
                                out@.len() == k,
                                crate::json::json_view_seq(items@).len() == items.len(),
                                forall|x: int| 0 <= x < items.len() ==> #[trigger] crate::json::json_view_seq(items@)[x] == items@[x]@,
                                forall|x: int| 0 <= x < k ==> #[trigger] out@[x]@ == items@[x]@,
                            decreases items.len() - k,
                        {
                            out.push(items[k].copy());
                            k = k + 1;
                        }
                        assert(seq_view(out@) =~= crate::json::json_view_seq(items@));
                    },
                    _ => {
                        assert(seq_view(out@) =~= Seq::<JsonView>::empty());
                    },
                }
                let ghost kept = seq_view(out@);
                match command {
                    Some(c) => match &c.resume {
                        Some(v) => {
                            out.push(v.copy());
                            assert(seq_view(out@) =~= kept.push(v@));
                        },
                        None => {},
                    },
                    None => {},
                }
                return out;
            }
            i = i + 1;
        }
        assert(seq_view(out@) =~= Seq::<JsonView>::empty());
        let ghost kept = seq_view(out@);
        match command {
            Some(c) => match &c.resume {
                Some(v) => {
                    out.push(v.copy());
                    assert(seq_view(out@) =~= kept.push(v@));
                },
                None => {},
            },
            None => {},
        }
        out
    }

    /// The node a checkpoint's pause records say runs next, if any.
    pub fn pause_target_of<R: Fn(RouterId, &ChannelValues) -> RouteDecision>(
        &self,
        route: &R,
        tuple: &CheckpointTuple,
    ) -> (r: Option<String>)
        requires
            router_ok(*route),
        ensures
            opt_text(r) == pause_target(*self, *route, *tuple),
    {
        let ghost ws = tuple@.pending_writes;
        let n = tuple.pending_writes.len();
        let mut i: usize = 0;
        assert(ws.skip(0) =~= ws);
        while i < n
            invariant
                i <= n,
                n == tuple.pending_writes.len(),
                ws == tuple@.pending_writes,
                ws.len() == n,
                interrupted_node(ws) == interrupted_node(ws.skip(i as int)),
            decreases n - i,
        {
            let w = &tuple.pending_writes[i];
            assert(ws.skip(i as int)[0] == w@);
            assert(ws.skip(i as int).drop_first() =~= ws.skip(i + 1));
            if str_eq(w.channel.as_str(), "__interrupt__") {
                match w.value.get("node_name") {
                    Some(v) => match v.as_str() {
                        Some(name) => {
                            return Some(name.clone());
                        },
                        None => {},
                    },
                    None => {},
                }
            }
            i = i + 1;
        }
        assert(ws.skip(n as int) =~= Seq::<PendingWriteView>::empty());
        let ghost before = self.interrupt_before();
        let ghost after = self.interrupt_after();
        let ghost vals = tuple@.checkpoint.channel_values;
        let mut i: usize = 0;
        while i < n
            invariant
                i <= n,
                n == tuple.pending_writes.len(),
                ws == tuple@.pending_writes,
                ws.len() == n,
                interrupted_node(ws) is None,
                router_ok(*route),
                before == self.interrupt_before(),
                after == self.interrupt_after(),
                vals == tuple@.checkpoint.channel_values,
                paused_node(ws, before, after, self.edges(), *route, vals)
                    == paused_node(ws.skip(i as int), before, after, self.edges(), *route, vals),
            decreases n - i,
        {
            let w = &tuple.pending_writes[i];
            assert(ws.skip(i as int)[0] == w@);
            assert(ws.skip(i as int).drop_first() =~= ws.skip(i + 1));
            if self.interrupt_before.contains_key(w.channel.as_str()) {
                assert(before.contains(w.channel@));
                assert(paused_node(ws.skip(i as int), before, after, self.edges(), *route, vals) == Some(w.channel@));
                return Some(w.channel.clone());
            }
            if self.interrupt_after.contains_key(w.channel.as_str()) {
                match self.resolve_next(route, w.channel.as_str(), &tuple.checkpoint.channel_values) {
                    Some(next) => {
                        return Some(next);
                    },
                    None => {},
                }
            }
            i = i + 1;
        }
        assert(ws.skip(n as int) =~= Seq::<PendingWriteView>::empty());
        None
    }

    /// The node a resume starts at: the node the checkpoint's pause records
    /// say runs next, else the entry.
    pub fn determine_resume_node<R: Fn(RouterId, &ChannelValues) -> RouteDecision>(
        &self,
        route: &R,
        tuple: &CheckpointTuple,
    ) -> (r: Result<String, AgentError>)
        requires
            router_ok(*route),
        ensures
            r matches Ok(n) && n@ == resume_node_of(*self, *route, *tuple),
    {
        match self.pause_target_of(route, tuple) {
            Some(n) => Ok(n),
            None => Ok(self.entry.clone()),
        }
    }

    /// The nodes that would run after a checkpoint: the node its pause records
    /// say runs next, if any.
    pub fn determine_next_nodes<R: Fn(RouterId, &ChannelValues) -> RouteDecision>(
        &self,
        route: &R,
        tuple: &CheckpointTuple,
    ) -> (r: Vec<String>)
        requires
            router_ok(*route),
        ensures
            match pause_target(*self, *route, *tuple) {
                Some(n) => r@.len() == 1 && r@[0]@ == n,
                None => r@.len() == 0,
            },
    {
        match self.pause_target_of(route, tuple) {
            Some(n) => vec![n],
            None => Vec::new(),
        }
    }
}

/// A task as the engine schedules it: its node and, for a PUSH task, its
/// arguments (the id is random).
pub struct TaskView {
    pub node: Seq<char>,
    pub args: Option<JsonView>,
}

/// The view of a task.
pub open spec fn task_view(t: Task) -> TaskView {
    TaskView {
        node: t.node_name@,
        args: match t.task_type {
            TaskType::Pull => None,
            TaskType::Push(a) => Some(a@),
        },
    }
}

/// The views of a sequence of tasks.
pub open spec fn tasks_view(s: Seq<Task>) -> Seq<TaskView> {
    s.map_values(|t: Task| task_view(t))
}

/// A PULL task of node `n`.
pub open spec fn pull_view(n: Seq<char>) -> TaskView {
    TaskView { node: n, args: None }
}

/// One PUSH task per fan-out directive, in order.
pub open spec fn send_tasks(s: Seq<(Seq<char>, JsonView)>) -> Seq<TaskView> {
    s.map_values(|p: (Seq<char>, JsonView)| TaskView { node: p.0, args: Some(p.1) })
}

/// The view of where a command goes.
pub enum GotoView {
    Node(Seq<char>),
    Sends(Seq<(Seq<char>, JsonView)>),
}

/// Where a node's output sends the graph, if it is a command with a target.
pub open spec fn goto_view(o: NodeOutput) -> Option<GotoView> {
    match o.target_of() {
        Some(GotoTarget::Node(n)) => Some(GotoView::Node(n@)),
        Some(GotoTarget::Sends(s)) => Some(GotoView::Sends(sends_view(s@))),
        None => None,
    }
}

/// The tasks a command's target starts.
pub open spec fn goto_tasks(g: GotoView) -> Seq<TaskView> {
    match g {
        GotoView::Node(n) => seq![pull_view(n)],
        GotoView::Sends(s) => send_tasks(s),
    }
}

/// The tasks a router's decision starts.
pub open spec fn decision_tasks(d: RouteView) -> Seq<TaskView> {
    match d {
        RouteView::Next(n) => seq![pull_view(n)],
        RouteView::End => Seq::empty(),
        RouteView::Send(s) => send_tasks(s),
    }
}

/// The tasks the edge leaving `node` starts on `values`.
pub open spec fn edge_tasks<R: Fn(RouterId, &ChannelValues) -> RouteDecision>(
    edges: Map<Seq<char>, EdgeView>,
    route: R,
    values: Map<Seq<char>, JsonView>,
    node: Seq<char>,
) -> Seq<TaskView> {
    match edges[node] {
        EdgeView::Static(n) => seq![pull_view(n)],
        EdgeView::Conditional(id) => decision_tasks(route_view(route, id, values)),
        EdgeView::End => Seq::empty(),
    }
}

/// Join `j` once for each time `node` occurs among the sources `srcs`.
pub open spec fn occ_in(j: JoinView, srcs: Seq<Seq<char>>, node: Seq<char>) -> Seq<JoinView>
    decreases srcs.len(),
{
    if srcs.len() == 0 {
        Seq::empty()
    } else {
        occ_in(j, srcs.drop_last(), node) + if srcs.last() == node { seq![j] } else { Seq::empty() }
    }
}

/// The joins `node` is a source of, in order, each once per occurrence of
/// `node` among its sources.
pub open spec fn join_occ(joins: Seq<JoinView>, node: Seq<char>) -> Seq<JoinView>
    decreases joins.len(),
{
    if joins.len() == 0 {
        Seq::empty()
    } else {
        join_occ(joins.drop_last(), node) + occ_in(joins.last(), joins.last().sources, node)
    }
}

/// A node's output leads nowhere: no command target, no join, no edge.
pub open spec fn unroutable(edges: Map<Seq<char>, EdgeView>, joins: Seq<JoinView>, out: (String, NodeOutput)) -> bool {
    &&& goto_view(out.1) is None
    &&& join_occ(joins, out.0@).len() == 0
    &&& !edges.contains_key(out.0@)
}

/// The state of scheduling: the channels, the joins already fired in this step
/// (by channel name) and the tasks scheduled so far.
pub struct PrepState<F> {
    pub chs: Map<Seq<char>, Channel<F>>,
    pub fired: Set<Seq<char>>,
    pub tasks: Seq<TaskView>,
}

/// One join signal: `node` is written to the join's barrier; if the barrier is
/// then open and the join has not fired in this step, its target is scheduled
/// and the barrier starts afresh. A join whose barrier channel is missing is
/// ignored.
pub open spec fn join_step<F: Fn(JsonValue, JsonValue) -> Result<JsonValue, String> + Copy>(
    j: JoinView,
    node: Seq<char>,
    a: PrepState<F>,
    b: PrepState<F>,
) -> bool {
    if !a.chs.contains_key(j.channel_name) {
        b == a
    } else {
        exists|mid: Channel<F>, out: Result<bool, AgentError>|
            #[trigger] a.chs[j.channel_name].applies(seq![JsonView::Str(node)], mid, out)
            && if mid.current() is Some && !a.fired.contains(j.channel_name) {
                &&& b.chs.contains_key(j.channel_name)
                &&& mid.restores(None, b.chs[j.channel_name])
                &&& b.chs == a.chs.insert(j.channel_name, b.chs[j.channel_name])
                &&& b.fired == a.fired.insert(j.channel_name)
                &&& b.tasks == a.tasks.push(pull_view(j.target))
            } else {
                &&& b.chs == a.chs.insert(j.channel_name, mid)
                &&& b.fired == a.fired
                &&& b.tasks == a.tasks
            }
    }
}

/// The join signals of `node` over the joins `occ`, one after the other, lead
/// from `a` to `b`.
pub open spec fn joins_trace<F: Fn(JsonValue, JsonValue) -> Result<JsonValue, String> + Copy>(
    occ: Seq<JoinView>,
    node: Seq<char>,
    a: PrepState<F>,
    b: PrepState<F>,
) -> bool {
    exists|st: Seq<PrepState<F>>| {
        &&& st.len() == occ.len() + 1
        &&& st[0] == a
        &&& st[occ.len() as int] == b
        &&& forall|k: int| 0 <= k < occ.len() ==> #[trigger] join_step(occ[k], node, st[k], st[k + 1])
    }
}

/// Scheduling after one node's output: a command's target wins; else the
/// node's joins are signalled; else its edge decides on the values read at the
/// start of scheduling.
pub open spec fn output_step<F: Fn(JsonValue, JsonValue) -> Result<JsonValue, String> + Copy, R: Fn(RouterId, &ChannelValues) -> RouteDecision>(
    edges: Map<Seq<char>, EdgeView>,
    joins: Seq<JoinView>,
    route: R,
    values: Map<Seq<char>, JsonView>,
    out: (String, NodeOutput),
    a: PrepState<F>,
    b: PrepState<F>,
) -> bool {
    match goto_view(out.1) {
        Some(g) => b == PrepState { chs: a.chs, fired: a.fired, tasks: a.tasks + goto_tasks(g) },
        None => if join_occ(joins, out.0@).len() > 0 {
            joins_trace(join_occ(joins, out.0@), out.0@, a, b)
        } else {
            &&& edges.contains_key(out.0@)
            &&& b == PrepState { chs: a.chs, fired: a.fired, tasks: a.tasks + edge_tasks(edges, route, values, out.0@) }
        },
    }
}

/// Scheduling after the first `n` outputs leads from `a` to `b`.
pub open spec fn prepared<F: Fn(JsonValue, JsonValue) -> Result<JsonValue, String> + Copy, R: Fn(RouterId, &ChannelValues) -> RouteDecision>(
    edges: Map<Seq<char>, EdgeView>,
    joins: Seq<JoinView>,
    route: R,
    values: Map<Seq<char>, JsonView>,
    outs: Seq<(String, NodeOutput)>,
    n: int,
    a: PrepState<F>,
    b: PrepState<F>,
) -> bool {
    exists|st: Seq<PrepState<F>>| {
        &&& st.len() == n + 1
        &&& st[0] == a
        &&& st[n] == b
        &&& forall|i: int| 0 <= i < n ==> #[trigger] output_step(edges, joins, route, values, outs[i], st[i], st[i + 1])
    }
}

/// Scheduling after all of `outs`, starting from the channels `chs0` with no
/// join fired and no task, ends with the channels `chs` and the tasks `tasks`.
pub open spec fn scheduled<F: Fn(JsonValue, JsonValue) -> Result<JsonValue, String> + Copy, R: Fn(RouterId, &ChannelValues) -> RouteDecision>(
    edges: Map<Seq<char>, EdgeView>,
    joins: Seq<JoinView>,
    route: R,
    outs: Seq<(String, NodeOutput)>,
    chs0: Map<Seq<char>, Channel<F>>,
    chs: Map<Seq<char>, Channel<F>>,
    tasks: Seq<Task>,
) -> bool {
    exists|f: Set<Seq<char>>| prepared(edges, joins, route, read_spec(chs0), outs, outs.len() as int,
        prep_state(chs0, Set::empty(), Seq::empty()), #[trigger] prep_state(chs, f, tasks))
}

/// The state of scheduling made of the given parts.
pub open spec fn prep_state<F>(chs: Map<Seq<char>, Channel<F>>, fired: Set<Seq<char>>, tasks: Seq<Task>) -> PrepState<F> {
    PrepState { chs, fired, tasks: tasks_view(tasks) }
}

/// Appends one PULL task.
fn push_pull(tasks: &mut Vec<Task>, node: &str)
    ensures
        tasks_view(final(tasks)@) == tasks_view(old(tasks)@).push(pull_view(node@)),
{
    let ghost before = tasks@;
    tasks.push(Task::pull(node));
    assert(tasks_view(tasks@) =~= tasks_view(before).push(pull_view(node@)));
}

/// Appends one PUSH task per fan-out directive.
fn push_sends(tasks: &mut Vec<Task>, sends: &Vec<crate::graph::send::Send>)
    ensures
        tasks_view(final(tasks)@) == tasks_view(old(tasks)@) + send_tasks(sends_view(sends@)),
{
    let ghost before = tasks_view(tasks@);
    let mut k: usize = 0;
    while k < sends.len()
        invariant
            k <= sends.len(),
            tasks_view(tasks@) == before + send_tasks(sends_view(sends@)).take(k as int),
        decreases sends.len() - k,
    {
        let ghost t0 = tasks@;
        tasks.push(Task::push(sends[k].node.as_str(), sends[k].args.copy()));
        assert(tasks_view(tasks@) =~= tasks_view(t0).push(TaskView { node: sends@[k as int].node@, args: Some(sends@[k as int].args@) }));
        assert(send_tasks(sends_view(sends@)).take(k + 1) =~= send_tasks(sends_view(sends@)).take(k as int).push(
            TaskView { node: sends@[k as int].node@, args: Some(sends@[k as int].args@) }));
        k = k + 1;
    }
    assert(send_tasks(sends_view(sends@)).take(sends.len() as int) =~= send_tasks(sends_view(sends@)));
}

/// Signals `node` to the barrier of one join, scheduling the join's target if
/// that opens it.
fn signal_join<F: Fn(JsonValue, JsonValue) -> Result<JsonValue, String> + Copy>(
    channels: &mut StrMap<Channel<F>>,
    fired: &mut StrMap<()>,
    tasks: &mut Vec<Task>,
    join: &JoinEdge,
    node: &str,
)
    requires
        channels_ready(old(channels)@),
    ensures
        channels_ready(final(channels)@),
        join_step(join@, node@,
            prep_state(old(channels)@, old(fired)@.dom(), old(tasks)@),
            prep_state(final(channels)@, final(fired)@.dom(), final(tasks)@)),
{
    let ghost a = prep_state(channels@, fired@.dom(), tasks@);
    let _ = channels.len();
    match channels.index_of(join.channel_name.as_str()) {
        None => {},
        Some(j) => {
            let ghost key = channels.keys_seq()[j as int];
            let ghost ch0 = channels@[key];
            let batch = vec![JsonValue::Str(String::from_str(node))];
            assert(seq_view(batch@) =~= seq![JsonView::Str(node@)]);
            let res = apply_batch_at(channels, j, batch);
            let ghost mid = channels@[key];
            assert(ch0.applies(seq![JsonView::Str(node@)], mid, res));
            let _ = channels.len();
            let open = channels.value_at(j).get().is_some();
            if open && !fired.contains_key(join.channel_name.as_str()) {
                let fresh = channels.value_at(j).from_checkpoint(None);
                let _ = channels.replace_at(j, fresh);
                fired.insert(join.channel_name.clone(), ());
                push_pull(tasks, join.target.as_str());
                proof {
                    assert(channels@ =~= a.chs.insert(key, channels@[key]));
                    assert forall|k: Seq<char>| #[trigger] channels@.contains_key(k) implies channels@[k].can_update() by {
                        if k != key {
                            assert(a.chs.contains_key(k));
                        }
                    }
                    assert(fired@.dom() =~= a.fired.insert(key));
                }
            } else {
                proof {
                    assert(channels@ =~= a.chs.insert(key, mid));
                }
            }
        },
    }
}

/// Signals `node` to every join it is a source of, in order; says whether it is
/// a source of any.
fn signal_joins<F: Fn(JsonValue, JsonValue) -> Result<JsonValue, String> + Copy>(
    joins: &Vec<JoinEdge>,
    channels: &mut StrMap<Channel<F>>,
    fired: &mut StrMap<()>,
    tasks: &mut Vec<Task>,
    node: &str,
) -> (any: bool)
    requires
        channels_ready(old(channels)@),
    ensures
        channels_ready(final(channels)@),
        any == (join_occ(joins_view(joins@), node@).len() > 0),
        joins_trace(join_occ(joins_view(joins@), node@), node@,
            prep_state(old(channels)@, old(fired)@.dom(), old(tasks)@),
            prep_state(final(channels)@, final(fired)@.dom(), final(tasks)@)),
{
    let ghost jv = joins_view(joins@);
    let ghost a = prep_state(channels@, fired@.dom(), tasks@);
    let ghost mut st: Seq<PrepState<F>> = seq![a];
    let ghost mut occ: Seq<JoinView> = Seq::empty();
    let mut any = false;
    let mut j: usize = 0;
    assert(jv.take(0) =~= Seq::<JoinView>::empty());
    while j < joins.len()
        invariant
            j <= joins.len(),
            jv == joins_view(joins@),
            jv.len() == joins.len(),
            occ == join_occ(jv.take(j as int), node@),
            any == (occ.len() > 0),
            st.len() == occ.len() + 1,
            st[0] == a,
            st[occ.len() as int] == prep_state(channels@, fired@.dom(), tasks@),
            forall|k: int| 0 <= k < occ.len() ==> #[trigger] join_step(occ[k], node@, st[k], st[k + 1]),
            channels_ready(channels@),
        decreases joins.len() - j,
    {
        let join = &joins[j];
        let ghost jj = jv[j as int];
        assert(jj == join@);
        let ghost srcs = jj.sources;
        let ghost base = occ;
        let mut s: usize = 0;
        assert(srcs.take(0) =~= Seq::<Seq<char>>::empty());
        assert(base + occ_in(jj, srcs.take(0), node@) =~= base);
        while s < join.sources.len()
            invariant
                s <= join.sources.len(),
                srcs == join@.sources,
                srcs.len() == join.sources.len(),
                forall|x: int| 0 <= x < srcs.len() ==> #[trigger] srcs[x] == join.sources@[x]@,
                jj == join@,
                occ == base + occ_in(jj, srcs.take(s as int), node@),
                any == (occ.len() > 0),
                st.len() == occ.len() + 1,
                st[0] == a,
                st[occ.len() as int] == prep_state(channels@, fired@.dom(), tasks@),
                forall|k: int| 0 <= k < occ.len() ==> #[trigger] join_step(occ[k], node@, st[k], st[k + 1]),
                channels_ready(channels@),
            decreases join.sources.len() - s,
        {
            assert(srcs.take(s + 1).drop_last() =~= srcs.take(s as int));
            assert(srcs.take(s + 1).last() == srcs[s as int]);
            if str_eq(join.sources[s].as_str(), node) {
                let ghost before = prep_state(channels@, fired@.dom(), tasks@);
                signal_join(channels, fired, tasks, join, node);
                let ghost after = prep_state(channels@, fired@.dom(), tasks@);
                proof {
                    let old_occ = occ;
                    occ = occ.push(jj);
                    st = st.push(after);
                    assert(occ =~= base + occ_in(jj, srcs.take(s + 1), node@));
                    assert forall|k: int| 0 <= k < occ.len() implies #[trigger] join_step(occ[k], node@, st[k], st[k + 1]) by {
                        if k < old_occ.len() {
                            assert(occ[k] == old_occ[k]);
                        } else {
                            assert(occ[k] == jj);
                            assert(st[k] == before);
                        }
                    }
                }
                any = true;
            } else {
                assert(occ =~= base + occ_in(jj, srcs.take(s + 1), node@));
            }
            s = s + 1;
        }
        proof {
            assert(srcs.take(srcs.len() as int) =~= srcs);
            assert(jv.take(j + 1).drop_last() =~= jv.take(j as int));
            assert(jv.take(j + 1).last() == jj);
            assert(occ == join_occ(jv.take(j + 1), node@));
        }
        j = j + 1;
    }
    assert(jv.take(joins.len() as int) =~= jv);
    any
}

impl PregelLoop {
    /// The tasks of the next step, from the outputs of this one, in order:
    /// a command's target wins; else a node that feeds joins signals their
    /// barriers (each join fires at most once per step, and its barrier starts
    /// afresh when it fires); else the node's edge decides on the values read
    /// before any barrier was touched. A node with none of these is an error.
    #[verifier::loop_isolation(false)]
    pub fn prepare_next_tasks<F: Fn(JsonValue, JsonValue) -> Result<JsonValue, String> + Copy, R: Fn(RouterId, &ChannelValues) -> RouteDecision>(
        &self,
        route: &R,
        channels: &mut StrMap<Channel<F>>,
        task_outputs: &Vec<(String, NodeOutput)>,
    ) -> (r: Result<Vec<Task>, AgentError>)
        requires
            router_ok(*route),
            channels_ready(old(channels)@),
        ensures
            channels_ready(final(channels)@),
            (r is Ok) <==> (forall|i: int| 0 <= i < task_outputs@.len() ==> !#[trigger] unroutable(self.edges(), self.joins(), task_outputs@[i])),
            match r {
                Ok(tasks) => scheduled(self.edges(), self.joins(), *route, task_outputs@, old(channels)@, final(channels)@, tasks@),
                Err(e) => exists|i: int| 0 <= i < task_outputs@.len() && #[trigger] unroutable(self.edges(), self.joins(), task_outputs@[i])
                    && (forall|k: int| 0 <= k < i ==> !unroutable(self.edges(), self.joins(), task_outputs@[k]))
                    && (e matches AgentError::UnreachableNode(n) && n@ == task_outputs@[i].0@),
            },
    {
        let values = read_channels(channels);
        let ghost chs0 = channels@;
        let ghost a = prep_state(chs0, Set::<Seq<char>>::empty(), Seq::<Task>::empty());
        let mut next_tasks: Vec<Task> = Vec::new();
        let mut fired: StrMap<()> = StrMap::new();
        let ghost mut st: Seq<PrepState<F>> = seq![a];
        assert(fired@.dom() =~= Set::<Seq<char>>::empty());
        let n = task_outputs.len();
        let mut i: usize = 0;
        while i < n
            invariant
                i <= n,
                n == task_outputs@.len(),
                values@ == read_spec(chs0),
                st.len() == i + 1,
                st[0] == a,
                st[i as int] == prep_state(channels@, fired@.dom(), next_tasks@),
                forall|k: int| 0 <= k < i ==> #[trigger] output_step(self.edges(), self.joins(), *route, values@, task_outputs@[k], st[k], st[k + 1]),
                forall|k: int| 0 <= k < i ==> !#[trigger] unroutable(self.edges(), self.joins(), task_outputs@[k]),
                channels_ready(channels@),
            decreases n - i,
        {
            let node_name = &task_outputs[i].0;
            let output = &task_outputs[i].1;
            let ghost cur = prep_state(channels@, fired@.dom(), next_tasks@);
            match output.goto_target() {
                Some(GotoTarget::Node(name)) => {
                    push_pull(&mut next_tasks, name.as_str());
                    assert(tasks_view(next_tasks@) =~= cur.tasks + goto_tasks(GotoView::Node(name@)));
                },
                Some(GotoTarget::Sends(sends)) => {
                    push_sends(&mut next_tasks, sends);
                },
                None => {
                    let any = signal_joins(&self.joins, channels, &mut fired, &mut next_tasks, node_name.as_str());
                    if !any {
                        proof {
                            let w = choose|w: Seq<PrepState<F>>| {
                                &&& w.len() == join_occ(self.joins(), node_name@).len() + 1
                                &&& w[0] == cur
                                &&& w[join_occ(self.joins(), node_name@).len() as int] == prep_state(channels@, fired@.dom(), next_tasks@)
                                &&& forall|k: int| 0 <= k < join_occ(self.joins(), node_name@).len() ==> #[trigger] join_step(join_occ(self.joins(), node_name@)[k], node_name@, w[k], w[k + 1])
                            };
                            assert(cur == prep_state(channels@, fired@.dom(), next_tasks@));
                        }
                        match self.edges.get(node_name.as_str()) {
                            None => {
                                assert(unroutable(self.edges(), self.joins(), task_outputs@[i as int]));
                                return Err(AgentError::UnreachableNode(node_name.clone()));
                            },
                            Some(edge) => {
                                match edge {
                                    Edge::Static(next) => {
                                        push_pull(&mut next_tasks, next.as_str());
                                        assert(tasks_view(next_tasks@) =~= cur.tasks + seq![pull_view(next@)]);
                                    },
                                    Edge::Conditional(id) => {
                                        let d = route(*id, &values);
                                        proof {
                                            lemma_route_view(*route, *id, &values, d);
                                        }
                                        match d {
                                            RouteDecision::Next(nn) => {
                                                push_pull(&mut next_tasks, nn.as_str());
                                                assert(tasks_view(next_tasks@) =~= cur.tasks + seq![pull_view(nn@)]);
                                            },
                                            RouteDecision::End => {
                                                assert(tasks_view(next_tasks@) =~= cur.tasks + Seq::<TaskView>::empty());
                                            },
                                            RouteDecision::Send(sends) => {
                                                push_sends(&mut next_tasks, &sends);
                                            },
                                        }
                                    },
                                    Edge::End => {
                                        assert(tasks_view(next_tasks@) =~= cur.tasks + Seq::<TaskView>::empty());
                                    },
                                }
                            },
                        }
                    }
                },
            }
            proof {
                let nxt = prep_state(channels@, fired@.dom(), next_tasks@);
                let old_st = st;
                st = st.push(nxt);
                assert(output_step(self.edges(), self.joins(), *route, values@, task_outputs@[i as int], st[i as int], st[i + 1]));
                assert forall|k: int| 0 <= k < i + 1 implies #[trigger] output_step(self.edges(), self.joins(), *route, values@, task_outputs@[k], st[k], st[k + 1]) by {
                    if k < i {
                        assert(st[k] == old_st[k]);
                        assert(st[k + 1] == old_st[k + 1]);
                    }
                }
            }
            i = i + 1;
        }
        proof {
            assert(chs0 == old(channels)@);
            assert(prepared(self.edges(), self.joins(), *route, read_spec(chs0), task_outputs@, n as int, a,
                prep_state(channels@, fired@.dom(), next_tasks@)));
            assert(scheduled(self.edges(), self.joins(), *route, task_outputs@, old(channels)@, channels@, next_tasks@));
        }
        Ok(next_tasks)
    }
}

/// A command's target decides where the graph goes: neither the node's joins
/// nor its edge are consulted, and no channel changes.
pub proof fn lemma_goto_wins<F: Fn(JsonValue, JsonValue) -> Result<JsonValue, String> + Copy, R: Fn(RouterId, &ChannelValues) -> RouteDecision>(
    edges: Map<Seq<char>, EdgeView>,
    joins: Seq<JoinView>,
    route: R,
    values: Map<Seq<char>, JsonView>,
    out: (String, NodeOutput),
    a: PrepState<F>,
    b: PrepState<F>,
)
    requires
        goto_view(out.1) is Some,
        output_step(edges, joins, route, values, out, a, b),
    ensures
        b.tasks == a.tasks + goto_tasks(goto_view(out.1)->0),
        b.chs == a.chs,
        b.fired == a.fired,
{
}

/// A join that already fired in a step schedules nothing more in that step.
pub proof fn lemma_join_fires_once<F: Fn(JsonValue, JsonValue) -> Result<JsonValue, String> + Copy>(
    j: JoinView,
    node: Seq<char>,
    a: PrepState<F>,
    b: PrepState<F>,
)
    requires
        a.fired.contains(j.channel_name),
        join_step(j, node, a, b),
    ensures
        b.tasks == a.tasks,
        b.fired == a.fired,
{
}

/// A join whose barrier opens schedules its target once.
pub proof fn lemma_join_schedules_target<F: Fn(JsonValue, JsonValue) -> Result<JsonValue, String> + Copy>(
    j: JoinView,
    node: Seq<char>,
    a: PrepState<F>,
    b: PrepState<F>,
)
    requires
        a.chs.contains_key(j.channel_name),
        !a.fired.contains(j.channel_name),
        join_step(j, node, a, b),
    ensures
        b.tasks == a.tasks || b.tasks == a.tasks.push(pull_view(j.target)),
        b.tasks == a.tasks.push(pull_view(j.target)) ==> b.fired == a.fired.insert(j.channel_name),
{
    assert(a.tasks.push(pull_view(j.target)).len() == a.tasks.len() + 1);
}

/// A node that paused itself is resumed where it paused, and the resume value
/// answers its pending pause: after the pause records of a node interrupt with
/// the resume values `rv`, a resume with the value `v` hands the node `rv`
/// followed by `v`.
pub proof fn lemma_resume_answers_interrupt(
    record: JsonView,
    node: Seq<char>,
    rv: Seq<JsonView>,
    cmd: Command,
    v: JsonValue,
)
    requires
        named_node(record) == Some(node),
        cmd.resume == Some(v),
    ensures
        interrupted_node(seq![
            PendingWriteView { task_id: "interrupt"@, channel: "__interrupt__"@, value: record },
            PendingWriteView { task_id: "interrupt"@, channel: "__resume__"@, value: JsonView::Array(rv) },
        ]) == Some(node),
        resume_values(seq![
            PendingWriteView { task_id: "interrupt"@, channel: "__interrupt__"@, value: record },
            PendingWriteView { task_id: "interrupt"@, channel: "__resume__"@, value: JsonView::Array(rv) },
        ], Some(cmd)) == rv.push(v@),
{
    let ws = seq![
        PendingWriteView { task_id: "interrupt"@, channel: "__interrupt__"@, value: record },
        PendingWriteView { task_id: "interrupt"@, channel: "__resume__"@, value: JsonView::Array(rv) },
    ];
    reveal_strlit("__interrupt__");
    reveal_strlit("__resume__");
    assert("__interrupt__"@ != "__resume__"@) by {
        assert("__interrupt__"@[2] != "__resume__"@[2]);
    }
    assert(ws.drop_first()[0] == ws[1]);
    assert(ws.drop_first().len() == 1);
    assert(first_on(ws.drop_first(), "__resume__"@) == Some(ws[1]));
    assert(first_on(ws, "__resume__"@) == Some(ws[1]));
}

} // verus!
