//! One run of a graph, step by step.
//!
//! A `Run` holds the state of an invocation or a resume between the outside
//! actions it asks for: running the pending tasks, storing a checkpoint,
//! storing pending writes, sending stream events. The caller performs each
//! action and hands back what came of it; every decision is taken here.

use vstd::prelude::*;
use crate::agent::error::{AgentError, InterruptData};
use crate::agent::stream::{StreamEvent, StreamMode, StreamModeSet};
use crate::channels::base::{ChannelValues, ChannelVersions};
use crate::channels::channel::Channel;
use crate::checkpoint::types::{
    CHECKPOINT_VERSION, Checkpoint, CheckpointMetadata, CheckpointSource, PendingWrite, PendingWriteView,
};
use crate::graph::command::{CommandGraph, NodeOutput};
use crate::graph::edge::{RouteDecision, RouterId, router_ok};
use crate::graph::pregel::channel_ops::{
    apply_grouped_updates, build_task_state, channels_ready, group_batches, read_channels, read_spec, snapshot_channels,
    task_input,
    snapshot_spec, update_failed, updates_applied, versions_below_max,
};
use crate::graph::pregel::engine::{MAX_SUPERSTEPS, PregelLoop, next_of, scheduled, unroutable};
use crate::graph::task::Task;
use crate::graph::types::{Durability, GraphResult, InterruptReason};
use crate::ids::{new_id, now_rfc3339};
use crate::json::{JsonValue, JsonView, seq_view};
use crate::text::{decimal, u64_text};
use crate::strmap::{Duplicate, StrMap};

verus! {

/// The state of a run between two outside actions.
pub struct Run<F> {
    /// The thread the run belongs to.
    pub thread_id: String,
    /// The channels, by name.
    pub channels: StrMap<Channel<F>>,
    /// The version of each channel.
    pub versions: ChannelVersions,
    /// The channel versions each node last saw.
    pub versions_seen: StrMap<ChannelVersions>,
    /// The current step number.
    pub step: i64,
    /// The id of the last checkpoint ("" when none was stored).
    pub last_checkpoint_id: String,
    /// Whether the next round is the first of a resumed run (which does not
    /// pause before its first node again).
    pub first_iteration: bool,
    /// The values handed to interrupted nodes in the next round.
    pub resume_values: Vec<JsonValue>,
    /// The tasks of the next round.
    pub pending: Vec<Task>,
    /// The rounds completed so far.
    pub rounds: usize,
    /// When checkpoints are stored.
    pub durability: Durability,
    /// The stream modes the client asked for.
    pub modes: StreamModeSet,
    /// Whether a checkpoint store is configured.
    pub saving: bool,
    /// The outputs of the last round that take part in routing, with their nodes.
    pub outputs: Vec<(String, NodeOutput)>,
}

/// A checkpoint to store: a fresh random id, the current time, the persisted
/// channel values, the versions, and metadata with the given source, step,
/// writes and parent.
pub open spec fn checkpoint_made<F: Fn(JsonValue, JsonValue) -> Result<JsonValue, String> + Copy>(
    cp: Checkpoint,
    md: CheckpointMetadata,
    chs: Map<Seq<char>, Channel<F>>,
    versions: Map<Seq<char>, u64>,
    seen: Map<Seq<char>, Map<Seq<char>, u64>>,
    source: CheckpointSource,
    step: i64,
    parent: Option<Seq<char>>,
    writes: Map<Seq<char>, JsonView>,
) -> bool {
    &&& cp@.v == CHECKPOINT_VERSION
    &&& cp@.channel_values == snapshot_spec(chs)
    &&& cp@.channel_versions == versions
    &&& cp@.versions_seen == seen
    &&& cp@.pending_sends == Seq::<JsonView>::empty()
    &&& md@.source == source
    &&& md@.step == step
    &&& md@.writes == writes
    &&& md@.parents == match parent {
        Some(p) => map![Seq::<char>::empty() => p],
        None => Map::<Seq<char>, Seq<char>>::empty(),
    }
}

/// Builds a checkpoint of the channels and its metadata.
pub fn make_checkpoint<F: Fn(JsonValue, JsonValue) -> Result<JsonValue, String> + Copy>(
    channels: &StrMap<Channel<F>>,
    versions: &ChannelVersions,
    versions_seen: &StrMap<ChannelVersions>,
    source: CheckpointSource,
    step: i64,
    parent: Option<&str>,
    writes: ChannelValues,
) -> (r: (Checkpoint, CheckpointMetadata))
    ensures
        checkpoint_made(r.0, r.1, channels@, versions@, versions_seen@, source, step,
            match parent { Some(p) => Some(p@), None => None }, writes@),
        r.0.id@.len() == 36,
{
    let checkpoint = Checkpoint {
        v: CHECKPOINT_VERSION,
        id: new_id(),
        ts: now_rfc3339(),
        channel_values: snapshot_channels(channels),
        channel_versions: versions.copy_map(),
        versions_seen: versions_seen.copy_map(),
        pending_sends: Vec::new(),
    };
    assert(seq_view(checkpoint.pending_sends@) =~= Seq::<JsonView>::empty());
    let mut parents: StrMap<String> = StrMap::new();
    match parent {
        Some(p) => {
            parents.insert(String::new(), String::from_str(p));
            assert(parents@ =~= map![Seq::<char>::empty() => p@]);
        },
        None => {},
    }
    let metadata = CheckpointMetadata { source, step, writes, parents };
    (checkpoint, metadata)
}

/// What a run does at the start of a round.
pub enum Begin {
    /// Every task has run: the run is complete. With a checkpoint, store it and
    /// call `complete` with the outcome; without one, call `done`.
    Complete(Option<(Checkpoint, CheckpointMetadata)>),
    /// Find out whether the caller cancelled and call `checked_cancel`.
    CheckCancel,
    /// The run took its last allowed step.
    Limit(AgentError),
}

/// What a run does once it knows whether the caller cancelled.
pub enum Checked {
    /// Send `events`, run each pending task on its input (the same position of
    /// `inputs`), handing it the resume values, and call `tasks_done` with the
    /// outputs, each with its task's position.
    Run { events: Vec<StreamEvent>, inputs: Vec<ChannelValues> },
    /// Store `writes` with the last checkpoint when a store is configured, then
    /// end the run with `result`.
    Stop { writes: Vec<PendingWrite>, result: GraphResult },
}

/// The nodes of `tasks` the run pauses before, in task order.
pub open spec fn before_nodes(tasks: Seq<Task>, before: Set<Seq<char>>) -> Seq<Seq<char>>
    decreases tasks.len(),
{
    if tasks.len() == 0 {
        Seq::empty()
    } else {
        before_nodes(tasks.drop_last(), before) + if before.contains(tasks.last().node_name@) {
            seq![tasks.last().node_name@]
        } else {
            Seq::empty()
        }
    }
}

/// The run pauses before its next round: it is not the first round of a
/// resume and some pending task's node is one to pause before.
pub open spec fn pauses_before_round(first: bool, tasks: Seq<Task>, before: Set<Seq<char>>) -> bool {
    !first && before_nodes(tasks, before).len() > 0
}

/// The events a client with `modes` gets for tasks starting.
pub open spec fn started_events(tasks: Seq<Task>, modes: Set<StreamMode>) -> Seq<Seq<char>> {
    if modes.contains(StreamMode::Debug) {
        tasks.map_values(|t: Task| t.node_name@)
    } else {
        Seq::empty()
    }
}

/// The node named by each `TaskStarted` event, when every event is one.
pub open spec fn started_nodes(events: Seq<StreamEvent>) -> Option<Seq<Seq<char>>> {
    if forall|i: int| 0 <= i < events.len() ==> #[trigger] events[i] is TaskStarted {
        Some(events.map_values(|e: StreamEvent| e->TaskStarted_node@))
    } else {
        None
    }
}

/// The record of a pause at `node`: written by the interrupt task on the
/// node's name, with no value.
pub open spec fn pause_write(node: Seq<char>) -> PendingWriteView {
    PendingWriteView { task_id: "interrupt"@, channel: node, value: JsonView::Null }
}

/// The record of a pause at `node`.
pub fn pause_record(node: &String) -> (r: PendingWrite)
    ensures
        r@ == pause_write(node@),
{
    proof {
        reveal_strlit("interrupt");
    }
    PendingWrite { task_id: String::from_str("interrupt"), channel: node.clone(), value: JsonValue::Null }
}

impl<F: Fn(JsonValue, JsonValue) -> Result<JsonValue, String> + Copy> Run<F> {
    /// Starts a round: completes when no task is left (a run of exactly the
    /// allowed number of steps completes), stops at the step limit when tasks
    /// remain, and otherwise asks whether the caller cancelled. A run that
    /// stores its checkpoint only at exit and has no store ends with no
    /// checkpoint id.
    pub fn begin_round(&mut self) -> (r: Begin)
        ensures
            final(self).channels == old(self).channels,
            final(self).pending == old(self).pending,
            final(self).step == old(self).step,
            final(self).rounds == old(self).rounds,
            final(self).saving == old(self).saving,
            final(self).durability == old(self).durability,
            old(self).pending.len() > 0 ==> final(self).last_checkpoint_id == old(self).last_checkpoint_id,
            old(self).pending.len() > 0 && old(self).rounds >= MAX_SUPERSTEPS ==> (r matches Begin::Limit(AgentError::RecursionLimit { limit, step })
                && limit == MAX_SUPERSTEPS && step == old(self).step as usize),
            old(self).pending.len() == 0 ==> match r {
                Begin::Complete(Some(c)) => old(self).durability == Durability::Exit && old(self).saving
                    && final(self).last_checkpoint_id == old(self).last_checkpoint_id
                    && checkpoint_made(c.0, c.1, old(self).channels@, old(self).versions@, old(self).versions_seen@,
                        CheckpointSource::Loop, old(self).step, Some(old(self).last_checkpoint_id@),
                        read_spec(old(self).channels@)),
                Begin::Complete(None) => !(old(self).durability == Durability::Exit && old(self).saving)
                    && final(self).last_checkpoint_id@ == (if old(self).durability == Durability::Exit {
                        Seq::<char>::empty()
                    } else {
                        old(self).last_checkpoint_id@
                    }),
                _ => false,
            },
            old(self).rounds < MAX_SUPERSTEPS && old(self).pending.len() > 0 ==> r is CheckCancel,
    {
        if self.pending.len() == 0 {
            if self.durability == Durability::Exit {
                if self.saving {
                    let values = read_channels(&self.channels);
                    let c = make_checkpoint(&self.channels, &self.versions, &self.versions_seen,
                        CheckpointSource::Loop, self.step, Some(self.last_checkpoint_id.as_str()), values);
                    return Begin::Complete(Some(c));
                }
                self.last_checkpoint_id = String::new();
            }
            return Begin::Complete(None);
        }
        if self.rounds >= MAX_SUPERSTEPS {
            #[verifier::truncate]
            let step = self.step as usize;
            return Begin::Limit(AgentError::RecursionLimit { limit: MAX_SUPERSTEPS, step });
        }
        Begin::CheckCancel
    }

    /// The result of a completed run: the values and the last checkpoint id.
    pub fn done(&self) -> (r: GraphResult)
        ensures
            r matches GraphResult::Done { values, checkpoint_id }
                && values@ == read_spec(self.channels@) && checkpoint_id@ == self.last_checkpoint_id@,
    {
        GraphResult::Done { values: read_channels(&self.channels), checkpoint_id: self.last_checkpoint_id.clone() }
    }

    /// Completes the run after the final checkpoint was stored (or failed to be).
    pub fn complete(&mut self, stored: Result<String, String>) -> (r: Result<GraphResult, AgentError>)
        ensures
            final(self).channels == old(self).channels,
            match stored {
                Ok(id) => final(self).last_checkpoint_id@ == id@
                    && (r matches Ok(GraphResult::Done { values, checkpoint_id })
                    && values@ == read_spec(old(self).channels@) && checkpoint_id@ == id@),
                Err(m) => r matches Err(AgentError::GraphError(e)) && e@ == m@,
            },
    {
        match stored {
            Ok(id) => {
                self.last_checkpoint_id = id;
                Ok(self.done())
            },
            Err(m) => Err(AgentError::GraphError(m)),
        }
    }

    /// Goes on once the caller said whether it cancelled: a cancelled run
    /// pauses at its first pending node; a run with pending nodes to pause
    /// before (except in the first round of a resume) pauses before the first
    /// of them and asks to record a pause for each; otherwise the pending tasks
    /// run.
    pub fn checked_cancel(&mut self, pl: &PregelLoop, cancelled: bool) -> (r: Checked)
        ensures
            final(self).channels == old(self).channels,
            final(self).pending == old(self).pending,
            final(self).step == old(self).step,
            final(self).rounds == old(self).rounds,
            final(self).last_checkpoint_id == old(self).last_checkpoint_id,
            cancelled ==> (r matches Checked::Stop { writes, result: GraphResult::Interrupted { values, checkpoint_id, resume_node, reason } }
                && writes@.len() == 0
                && values@ == read_spec(old(self).channels@)
                && checkpoint_id@ == old(self).last_checkpoint_id@
                && resume_node@ == (if old(self).pending@.len() > 0 { old(self).pending@[0].node_name@ } else { Seq::empty() })
                && reason is UserCancelled),
            !cancelled && pauses_before_round(old(self).first_iteration, old(self).pending@, pl.interrupt_before()) ==> {
                let nodes = before_nodes(old(self).pending@, pl.interrupt_before());
                r matches Checked::Stop { writes, result: GraphResult::Interrupted { values, checkpoint_id, resume_node, reason } }
                && writes@.len() == nodes.len()
                && (forall|i: int| 0 <= i < nodes.len() ==> #[trigger] writes@[i]@ == pause_write(nodes[i]))
                && values@ == read_spec(old(self).channels@)
                && checkpoint_id@ == old(self).last_checkpoint_id@
                && resume_node@ == nodes[0]
                && (reason matches InterruptReason::InterruptBefore(n) && n@ == nodes[0])
            },
            !cancelled && !pauses_before_round(old(self).first_iteration, old(self).pending@, pl.interrupt_before()) ==>
                (r matches Checked::Run { events, inputs } && started_nodes(events@) == Some(started_events(old(self).pending@, old(self).modes@))
                && inputs@.len() == old(self).pending@.len()
                && (forall|i: int| 0 <= i < inputs@.len() ==> #[trigger] inputs@[i]@
                    == task_input(read_spec(old(self).channels@), old(self).pending@[i].task_type))
                && !final(self).first_iteration),
    {
        if cancelled {
            let values = read_channels(&self.channels);
            let resume_node = if self.pending.len() > 0 { self.pending[0].node_name.clone() } else { String::new() };
            return Checked::Stop {
                writes: Vec::new(),
                result: GraphResult::Interrupted {
                    values,
                    checkpoint_id: self.last_checkpoint_id.clone(),
                    resume_node,
                    reason: InterruptReason::UserCancelled,
                },
            };
        }
        if !self.first_iteration {
            let ghost before = pl.interrupt_before();
            let mut writes: Vec<PendingWrite> = Vec::new();
            let mut i: usize = 0;
            while i < self.pending.len()
                invariant
                    i <= self.pending.len(),
                    before == pl.interrupt_before(),
                    writes@.len() == before_nodes(self.pending@.take(i as int), before).len(),
                    forall|k: int| 0 <= k < writes@.len() ==> #[trigger] writes@[k]@
                        == pause_write(before_nodes(self.pending@.take(i as int), before)[k]),
                decreases self.pending.len() - i,
            {
                proof {
                    assert(self.pending@.take(i + 1).drop_last() =~= self.pending@.take(i as int));
                    assert(self.pending@.take(i + 1).last() == self.pending@[i as int]);
                }
                if pl.pauses_before(self.pending[i].node_name.as_str()) {
                    writes.push(pause_record(&self.pending[i].node_name));
                }
                i = i + 1;
            }
            proof {
                assert(self.pending@.take(self.pending@.len() as int) =~= self.pending@);
            }
            if writes.len() > 0 {
                assert(writes@[0]@ == pause_write(before_nodes(self.pending@, before)[0]));
                let node_name = writes[0].channel.clone();
                let values = read_channels(&self.channels);
                return Checked::Stop {
                    writes,
                    result: GraphResult::Interrupted {
                        values,
                        checkpoint_id: self.last_checkpoint_id.clone(),
                        resume_node: node_name.clone(),
                        reason: InterruptReason::InterruptBefore(node_name),
                    },
                };
            }
        }
        self.first_iteration = false;
        let mut events: Vec<StreamEvent> = Vec::new();
        if self.modes.contains(StreamMode::Debug) {
            let mut i: usize = 0;
            while i < self.pending.len()
                invariant
                    i <= self.pending.len(),
                    events@.len() == i,
                    forall|k: int| 0 <= k < i ==> #[trigger] events@[k] is TaskStarted
                        && events@[k]->TaskStarted_node@ == self.pending@[k].node_name@,
                decreases self.pending.len() - i,
            {
                events.push(StreamEvent::TaskStarted { node: self.pending[i].node_name.clone() });
                i = i + 1;
            }
            assert(events@.map_values(|e: StreamEvent| e->TaskStarted_node@)
                =~= self.pending@.map_values(|t: Task| t.node_name@));
        } else {
            assert(events@.map_values(|e: StreamEvent| e->TaskStarted_node@) =~= Seq::<Seq<char>>::empty());
        }
        let mut inputs: Vec<ChannelValues> = Vec::new();
        let mut j: usize = 0;
        while j < self.pending.len()
            invariant
                j <= self.pending.len(),
                inputs@.len() == j,
                forall|i: int| 0 <= i < j ==> #[trigger] inputs@[i]@
                    == task_input(read_spec(self.channels@), self.pending@[i].task_type),
            decreases self.pending.len() - j,
        {
            inputs.push(build_task_state(&self.channels, &self.pending[j].task_type));
            j = j + 1;
        }
        Checked::Run { events, inputs }
    }
}

/// The engine's events as the client sees them.
pub enum EventView {
    TaskStarted(Seq<char>),
    TaskCompleted(Seq<char>),
    StateUpdate(Seq<char>, Map<Seq<char>, JsonView>),
    StateValues(Map<Seq<char>, JsonView>, i64),
    CheckpointSaved(Seq<char>, i64),
    /// Any event the engine does not send itself.
    Other,
}

/// The view of an event.
pub open spec fn event_view(e: StreamEvent) -> EventView {
    match e {
        StreamEvent::TaskStarted { node } => EventView::TaskStarted(node@),
        StreamEvent::TaskCompleted { node } => EventView::TaskCompleted(node@),
        StreamEvent::StateUpdate { node, updates } => EventView::StateUpdate(node@, updates@),
        StreamEvent::StateValues { values, step } => EventView::StateValues(values@, step),
        StreamEvent::CheckpointSaved { checkpoint_id, step } => EventView::CheckpointSaved(checkpoint_id@, step),
        _ => EventView::Other,
    }
}

/// The views of a sequence of events.
pub open spec fn events_view(s: Seq<StreamEvent>) -> Seq<EventView> {
    s.map_values(|e: StreamEvent| event_view(e))
}

/// An output addressed to the enclosing graph.
pub open spec fn is_parent(o: NodeOutput) -> bool {
    o matches NodeOutput::Command { graph: Some(CommandGraph::Parent), .. }
}

/// The outputs that take part in a step, each with its task's node: the first
/// `n` pairs of tasks and outputs, without those addressed to the enclosing
/// graph.
pub open spec fn kept_outputs(tasks: Seq<Task>, outs: Seq<NodeOutput>, n: int) -> Seq<(Seq<char>, NodeOutput)>
    decreases n,
{
    if n <= 0 {
        Seq::empty()
    } else {
        kept_outputs(tasks, outs, n - 1) + if is_parent(outs[n - 1]) {
            Seq::empty()
        } else {
            seq![(tasks[n - 1].node_name@, outs[n - 1])]
        }
    }
}

/// How many tasks and outputs pair up.
pub open spec fn paired(tasks: Seq<Task>, outs: Seq<NodeOutput>) -> int {
    if tasks.len() < outs.len() { tasks.len() as int } else { outs.len() as int }
}

/// Some paired output is addressed to the enclosing graph.
pub open spec fn any_parent(tasks: Seq<Task>, outs: Seq<NodeOutput>) -> bool {
    exists|i: int| 0 <= i < paired(tasks, outs) && #[trigger] is_parent(outs[i])
}

/// The view of stored outputs.
pub open spec fn kept_view(v: Seq<(String, NodeOutput)>) -> Seq<(Seq<char>, NodeOutput)> {
    v.map_values(|p: (String, NodeOutput)| (p.0@, p.1))
}

/// The update an output carries (none for a command without one).
pub open spec fn update_view(o: NodeOutput) -> Map<Seq<char>, JsonView> {
    match o.updates_of() {
        Some(u) => u@,
        None => Map::empty(),
    }
}

/// The values written to each channel in a step, in the order of the outputs.
pub open spec fn grouped_spec(kept: Seq<(Seq<char>, NodeOutput)>) -> Map<Seq<char>, Seq<JsonView>>
    decreases kept.len(),
{
    if kept.len() == 0 {
        Map::empty()
    } else {
        let g = grouped_spec(kept.drop_last());
        let u = update_view(kept.last().1);
        Map::new(
            |k: Seq<char>| g.contains_key(k) || u.contains_key(k),
            |k: Seq<char>| (if g.contains_key(k) { g[k] } else { Seq::empty() })
                + (if u.contains_key(k) { seq![u[k]] } else { Seq::empty() }),
        )
    }
}

/// The events of a step's outputs for a client with `modes`: for each output,
/// its update (mode `Updates`) and its completion (mode `Debug`).
pub open spec fn step_events(kept: Seq<(Seq<char>, NodeOutput)>, modes: Set<StreamMode>) -> Seq<EventView>
    decreases kept.len(),
{
    if kept.len() == 0 {
        Seq::empty()
    } else {
        step_events(kept.drop_last(), modes)
            + (if modes.contains(StreamMode::Updates) {
                seq![EventView::StateUpdate(kept.last().0, update_view(kept.last().1))]
            } else {
                Seq::empty()
            })
            + (if modes.contains(StreamMode::Debug) {
                seq![EventView::TaskCompleted(kept.last().0)]
            } else {
                Seq::empty()
            })
    }
}

/// The versions each node saw, after the nodes `nodes` saw `vers`.
pub open spec fn seen_after(
    seen: Map<Seq<char>, Map<Seq<char>, u64>>,
    nodes: Seq<Seq<char>>,
    vers: Map<Seq<char>, u64>,
) -> Map<Seq<char>, Map<Seq<char>, u64>> {
    Map::new(
        |k: Seq<char>| seen.contains_key(k) || nodes.contains(k),
        |k: Seq<char>| if nodes.contains(k) { vers } else { seen[k] },
    )
}

/// The last value written to each channel.
pub open spec fn last_written(g: Map<Seq<char>, Seq<JsonView>>) -> Map<Seq<char>, JsonView> {
    Map::new(|k: Seq<char>| g.contains_key(k) && g[k].len() > 0, |k: Seq<char>| g[k].last())
}

/// Pairs each task with its output, keeping those that take part in the step,
/// and says whether some output addresses the enclosing graph.
fn collect_outputs(tasks: &Vec<Task>, results: Vec<NodeOutput>) -> (r: (Vec<(String, NodeOutput)>, bool))
    ensures
        kept_view(r.0@) == kept_outputs(tasks@, results@, paired(tasks@, results@)),
        r.1 == any_parent(tasks@, results@),
{
    let ghost outs = results@;
    let mut results = results;
    let mut kept: Vec<(String, NodeOutput)> = Vec::new();
    let mut parent = false;
    let mut i: usize = 0;
    while i < tasks.len() && results.len() > 0
        invariant
            i <= tasks.len(),
            i <= outs.len(),
            results@ == outs.skip(i as int),
            kept_view(kept@) == kept_outputs(tasks@, outs, i as int),
            parent == (exists|j: int| 0 <= j < i && #[trigger] is_parent(outs[j])),
        decreases tasks.len() - i,
    {
        let out = results.remove(0);
        assert(out == outs[i as int]);
        let is_p = match &out {
            NodeOutput::Command { graph: Some(CommandGraph::Parent), .. } => true,
            _ => false,
        };
        if is_p {
            parent = true;
            assert(kept_outputs(tasks@, outs, i + 1) =~= kept_outputs(tasks@, outs, i as int));
        } else {
            let ghost k0 = kept@;
            kept.push((tasks[i].node_name.clone(), out));
            assert(kept_view(kept@) =~= kept_view(k0).push((tasks@[i as int].node_name@, outs[i as int])));
            assert(kept_outputs(tasks@, outs, i + 1) =~= kept_outputs(tasks@, outs, i as int).push((tasks@[i as int].node_name@, outs[i as int])));
        }
        assert(results@ =~= outs.skip(i + 1));
        i = i + 1;
    }
    assert(i as int == paired(tasks@, outs));
    (kept, parent)
}

/// Adds one written value to the batch of its channel.
fn add_to_batch(grouped: &mut StrMap<Vec<JsonValue>>, key: &String, value: &JsonValue)
    ensures
        group_batches(final(grouped)@) == group_batches(old(grouped)@).insert(key@,
            (if group_batches(old(grouped)@).contains_key(key@) { group_batches(old(grouped)@)[key@] } else { Seq::empty() }).push(value@)),
{
    let ghost g0 = group_batches(grouped@);
    match grouped.index_of(key.as_str()) {
        Some(p) => {
            let _ = grouped.len();
            let mut batch = grouped.replace_at(p, Vec::new());
            let ghost b0 = batch@;
            batch.push(value.copy());
            assert(seq_view(batch@) =~= seq_view(b0).push(value@));
            grouped.replace_at(p, batch);
            assert(group_batches(grouped@) =~= g0.insert(key@, g0[key@].push(value@)));
        },
        None => {
            let batch = vec![value.copy()];
            assert(seq_view(batch@) =~= Seq::<JsonView>::empty().push(value@));
            grouped.insert(key.clone(), batch);
            assert(group_batches(grouped@) =~= g0.insert(key@, Seq::<JsonView>::empty().push(value@)));
        },
    }
}

/// The values each channel received in a step, grouped by channel in the order
/// of the outputs.
fn group_updates(kept: &Vec<(String, NodeOutput)>) -> (r: StrMap<Vec<JsonValue>>)
    ensures
        group_batches(r@) == grouped_spec(kept_view(kept@)),
{
    let ghost kv = kept_view(kept@);
    let mut grouped: StrMap<Vec<JsonValue>> = StrMap::new();
    assert(group_batches(grouped@) =~= grouped_spec(kv.take(0)));
    let mut i: usize = 0;
    while i < kept.len()
        invariant
            i <= kept.len(),
            kv == kept_view(kept@),
            kv.len() == kept.len(),
            group_batches(grouped@) == grouped_spec(kv.take(i as int)),
        decreases kept.len() - i,
    {
        let ghost g = grouped_spec(kv.take(i as int));
        let ghost u = update_view(kept@[i as int].1);
        assert(kv.take(i + 1).drop_last() =~= kv.take(i as int));
        assert(kv.take(i + 1).last() == kv[i as int]);
        assert(kv[i as int].1 == kept@[i as int].1);
        match kept[i].1.take_updates() {
            Some(upd) => {
                let n = upd.len();
                let ghost ks = upd.keys_seq();
                let mut j: usize = 0;
                while j < n
                    invariant
                        j <= n,
                        n == ks.len(),
                        ks == upd.keys_seq(),
                        ks.no_duplicates(),
                        u == upd@,
                        forall|k: Seq<char>| #[trigger] upd@.contains_key(k) <==> ks.contains(k),
                        forall|k: Seq<char>| #[trigger] group_batches(grouped@).contains_key(k)
                            <==> (g.contains_key(k) || ks.take(j as int).contains(k)),
                        forall|k: Seq<char>| #[trigger] group_batches(grouped@).contains_key(k) ==>
                            group_batches(grouped@)[k] == (if g.contains_key(k) { g[k] } else { Seq::empty() })
                                + (if ks.take(j as int).contains(k) { seq![u[k]] } else { Seq::empty() }),
                    decreases n - j,
                {
                    let key = upd.key_at(j);
                    let value = upd.value_at(j);
                    let ghost gb0 = group_batches(grouped@);
                    add_to_batch(&mut grouped, key, value);
                    proof {
                        assert(ks.take(j + 1) =~= ks.take(j as int).push(key@));
                        assert(!ks.take(j as int).contains(key@)) by {
                            if ks.take(j as int).contains(key@) {
                                let m = ks.take(j as int).index_of(key@);
                                assert(ks[m] == ks[j as int]);
                            }
                        }
                        assert forall|k: Seq<char>| #[trigger] group_batches(grouped@).contains_key(k) implies
                            group_batches(grouped@)[k] == (if g.contains_key(k) { g[k] } else { Seq::empty() })
                                + (if ks.take(j + 1).contains(k) { seq![u[k]] } else { Seq::empty() }) by {
                            if k == key@ {
                                assert(ks.take(j + 1)[j as int] == k);
                                assert(ks.take(j + 1).contains(k));
                                assert(u[k] == value@);
                                let pre = if g.contains_key(k) { g[k] } else { Seq::<JsonView>::empty() };
                                if gb0.contains_key(k) {
                                    assert(gb0[k] == pre + Seq::<JsonView>::empty());
                                    assert(gb0[k] =~= pre);
                                } else {
                                    assert(!g.contains_key(k));
                                }
                                assert(group_batches(grouped@)[k] =~= pre + seq![u[k]]);
                            } else {
                                assert(ks.take(j + 1).contains(k) == ks.take(j as int).contains(k)) by {
                                    if ks.take(j + 1).contains(k) {
                                        let m = ks.take(j + 1).index_of(k);
                                        assert(m < j);
                                        assert(ks.take(j as int)[m] == k);
                                    }
                                }
                            }
                        }
                        assert forall|k: Seq<char>| #[trigger] group_batches(grouped@).contains_key(k)
                            <==> (g.contains_key(k) || ks.take(j + 1).contains(k)) by {
                            if k != key@ && ks.take(j + 1).contains(k) {
                                let m = ks.take(j + 1).index_of(k);
                                assert(m < j);
                                assert(ks.take(j as int)[m] == k);
                            }
                        }
                    }
                    j = j + 1;
                }
                proof {
                    assert(ks.take(n as int) =~= ks);
                    assert(group_batches(grouped@) =~= grouped_spec(kv.take(i + 1)));
                }
            },
            None => {
                proof {
                    assert(u =~= Map::<Seq<char>, JsonView>::empty());
                    assert(group_batches(grouped@) =~= grouped_spec(kv.take(i + 1)));
                }
            },
        }
        i = i + 1;
    }
    assert(kv.take(kept.len() as int) =~= kv);
    grouped
}

/// The nodes of stored outputs.
pub open spec fn kept_nodes(kept: Seq<(Seq<char>, NodeOutput)>) -> Seq<Seq<char>> {
    kept.map_values(|p: (Seq<char>, NodeOutput)| p.0)
}

/// The update an output carries, as a map of its own.
fn update_copy(o: &NodeOutput) -> (r: ChannelValues)
    ensures
        r@ == update_view(*o),
{
    match o.take_updates() {
        Some(u) => u.copy_map(),
        None => {
            let r: ChannelValues = StrMap::new();
            r
        },
    }
}

/// The events a client with `modes` gets for the outputs of a step.
fn completion_events(kept: &Vec<(String, NodeOutput)>, modes: &StreamModeSet) -> (r: Vec<StreamEvent>)
    ensures
        events_view(r@) == step_events(kept_view(kept@), modes@),
{
    let ghost kv = kept_view(kept@);
    let mut events: Vec<StreamEvent> = Vec::new();
    let want_updates = modes.contains(StreamMode::Updates);
    let want_debug = modes.contains(StreamMode::Debug);
    assert(events_view(events@) =~= step_events(kv.take(0), modes@));
    let mut i: usize = 0;
    while i < kept.len()
        invariant
            i <= kept.len(),
            kv == kept_view(kept@),
            kv.len() == kept.len(),
            want_updates == modes@.contains(StreamMode::Updates),
            want_debug == modes@.contains(StreamMode::Debug),
            events_view(events@) == step_events(kv.take(i as int), modes@),
        decreases kept.len() - i,
    {
        let ghost e0 = events_view(events@);
        assert(kv.take(i + 1).drop_last() =~= kv.take(i as int));
        assert(kv.take(i + 1).last() == kv[i as int]);
        let node = &kept[i].0;
        if want_updates {
            let upd = update_copy(&kept[i].1);
            events.push(StreamEvent::StateUpdate { node: node.clone(), updates: upd });
        }
        let ghost e1 = events_view(events@);
        assert(e1 =~= e0 + (if want_updates {
            seq![EventView::StateUpdate(kv[i as int].0, update_view(kv[i as int].1))]
        } else {
            Seq::empty()
        }));
        if want_debug {
            events.push(StreamEvent::TaskCompleted { node: node.clone() });
        }
        assert(events_view(events@) =~= e1 + (if want_debug {
            seq![EventView::TaskCompleted(kv[i as int].0)]
        } else {
            Seq::empty()
        }));
        i = i + 1;
    }
    assert(kv.take(kept.len() as int) =~= kv);
    events
}

/// Records that the nodes of a step's outputs saw the versions `versions`.
fn mark_seen(seen: &mut StrMap<ChannelVersions>, kept: &Vec<(String, NodeOutput)>, versions: &ChannelVersions)
    ensures
        final(seen)@ == seen_after(old(seen)@, kept_nodes(kept_view(kept@)), versions@),
{
    let ghost s0 = seen@;
    let ghost nodes = kept_nodes(kept_view(kept@));
    let mut i: usize = 0;
    assert(seen@ =~= seen_after(s0, nodes.take(0), versions@));
    while i < kept.len()
        invariant
            i <= kept.len(),
            nodes == kept_nodes(kept_view(kept@)),
            nodes.len() == kept.len(),
            seen@ == seen_after(s0, nodes.take(i as int), versions@),
        decreases kept.len() - i,
    {
        seen.insert(kept[i].0.clone(), versions.copy_map());
        proof {
            assert(nodes[i as int] == kept@[i as int].0@);
            assert forall|k: Seq<char>| #[trigger] nodes.take(i + 1).contains(k) <==> (nodes.take(i as int).contains(k) || k == nodes[i as int]) by {
                if nodes.take(i + 1).contains(k) && k != nodes[i as int] {
                    let m = nodes.take(i + 1).index_of(k);
                    assert(m < i);
                    assert(nodes.take(i as int)[m] == k);
                }
                if nodes.take(i as int).contains(k) {
                    let m = nodes.take(i as int).index_of(k);
                    assert(nodes.take(i + 1)[m] == k);
                }
                if k == nodes[i as int] {
                    assert(nodes.take(i + 1)[i as int] == k);
                }
            }
            assert(seen@ =~= seen_after(s0, nodes.take(i + 1), versions@));
        }
        i = i + 1;
    }
    assert(nodes.take(kept.len() as int) =~= nodes);
}

/// The last value each channel received in a step.
fn last_values(grouped: &StrMap<Vec<JsonValue>>) -> (r: ChannelValues)
    ensures
        r@ == last_written(group_batches(grouped@)),
{
    let ghost g = group_batches(grouped@);
    let mut out: ChannelValues = StrMap::new();
    let n = grouped.len();
    let ghost ks = grouped.keys_seq();
    let mut i: usize = 0;
    while i < n
        invariant
            i <= n,
            n == ks.len(),
            ks == grouped.keys_seq(),
            g == group_batches(grouped@),
            forall|k: Seq<char>| #[trigger] grouped@.contains_key(k) <==> ks.contains(k),
            forall|x: int| 0 <= x < ks.len() ==> #[trigger] grouped@[ks[x]] == grouped.value_view_at(x),
            forall|k: Seq<char>| #[trigger] out@.contains_key(k) <==> (ks.take(i as int).contains(k) && g[k].len() > 0),
            forall|k: Seq<char>| #[trigger] out@.contains_key(k) ==> out@[k] == g[k].last(),
            ks.no_duplicates(),
        decreases n - i,
    {
        let key = grouped.key_at(i);
        let batch = grouped.value_at(i);
        assert(g[key@] == seq_view(batch@));
        if batch.len() > 0 {
            out.insert(key.clone(), batch[batch.len() - 1].copy());
        }
        proof {
            assert forall|k: Seq<char>| #[trigger] ks.take(i + 1).contains(k) <==> (ks.take(i as int).contains(k) || k == ks[i as int]) by {
                if ks.take(i + 1).contains(k) && k != ks[i as int] {
                    let m = ks.take(i + 1).index_of(k);
                    assert(m < i);
                    assert(ks.take(i as int)[m] == k);
                }
                if ks.take(i as int).contains(k) {
                    let m = ks.take(i as int).index_of(k);
                    assert(ks.take(i + 1)[m] == k);
                }
                if k == ks[i as int] {
                    assert(ks.take(i + 1)[i as int] == k);
                }
            }
        }
        i = i + 1;
    }
    proof {
        assert(ks.take(n as int) =~= ks);
        assert(out@ =~= last_written(g));
    }
    out
}

/// The JSON number of a count.
fn count_json(n: usize) -> (r: JsonValue)
    ensures
        n <= i64::MAX ==> r == JsonValue::Int(n as i64),
        n > i64::MAX ==> (r matches JsonValue::Number(t) && t@ == decimal(n as nat)),
{
    if (n as u64) <= 9223372036854775807u64 {
        JsonValue::Int(n as i64)
    } else {
        JsonValue::Number(u64_text(n as u64))
    }
}

/// The record of a node's interrupt, kept for the resume: its index, node and
/// value (keys in sorted order).
pub open spec fn interrupt_record(d: InterruptData) -> JsonView {
    JsonView::Object(seq![
        ("index"@, if d.index <= i64::MAX { JsonView::Int(d.index as i64) } else { JsonView::Number(decimal(d.index as nat)) }),
        ("node_name"@, JsonView::Str(d.node_name@)),
        ("value"@, d.value@),
    ])
}

/// What a run does after its tasks ran.
pub enum Stepped {
    /// Send `events`, store `writes` with the last checkpoint when a store is
    /// configured, and end the run with `result`.
    Stop { events: Vec<StreamEvent>, writes: Vec<PendingWrite>, result: Result<GraphResult, AgentError> },
    /// Send `events`; store `checkpoint` if given (when `wait` holds, wait for it
    /// and pass the outcome to `stored`; otherwise store it in the background and
    /// call `stored` with `None`); without a checkpoint call `stored` with `None`.
    Store { events: Vec<StreamEvent>, checkpoint: Option<(Checkpoint, CheckpointMetadata)>, wait: bool },
}

/// The events a step's stop or store carries.
pub open spec fn stepped_events(r: Stepped) -> Seq<StreamEvent> {
    match r {
        Stepped::Stop { events, .. } => events@,
        Stepped::Store { events, .. } => events@,
    }
}

/// The first of `nodes` to pause after.
pub open spec fn first_paused_after(nodes: Seq<Seq<char>>, after: Set<Seq<char>>) -> Option<Seq<char>>
    decreases nodes.len(),
{
    if nodes.len() == 0 {
        None
    } else if after.contains(nodes[0]) {
        Some(nodes[0])
    } else {
        first_paused_after(nodes.drop_first(), after)
    }
}

/// The events after a step's checkpoint: the whole state (mode `Values`) and the
/// stored checkpoint, when there is one (mode `Checkpoints`).
pub open spec fn round_events(values: Map<Seq<char>, JsonView>, last: Seq<char>, step: i64, modes: Set<StreamMode>) -> Seq<EventView> {
    (if modes.contains(StreamMode::Values) { seq![EventView::StateValues(values, step)] } else { Seq::empty() })
        + (if last.len() > 0 && modes.contains(StreamMode::Checkpoints) {
            seq![EventView::CheckpointSaved(last, step)]
        } else {
            Seq::empty()
        })
}

/// After a step's checkpoint a client gets the whole state with the step
/// exactly when it asked for `Values`, whatever else it asked for, and the
/// stored checkpoint's id exactly when it asked for `Checkpoints` and a
/// checkpoint was stored; it gets nothing else.
pub proof fn lemma_round_events(values: Map<Seq<char>, JsonView>, last: Seq<char>, step: i64, modes: Set<StreamMode>)
    ensures
        (exists|i: int| 0 <= i < round_events(values, last, step, modes).len()
            && #[trigger] round_events(values, last, step, modes)[i] == EventView::StateValues(values, step))
            <==> modes.contains(StreamMode::Values),
        (exists|i: int| 0 <= i < round_events(values, last, step, modes).len()
            && #[trigger] round_events(values, last, step, modes)[i] == EventView::CheckpointSaved(last, step))
            <==> (last.len() > 0 && modes.contains(StreamMode::Checkpoints)),
        forall|i: int| 0 <= i < round_events(values, last, step, modes).len() ==>
            #[trigger] round_events(values, last, step, modes)[i] == EventView::StateValues(values, step)
            || round_events(values, last, step, modes)[i] == EventView::CheckpointSaved(last, step),
{
    let evs = round_events(values, last, step, modes);
    let a: Seq<EventView> = if modes.contains(StreamMode::Values) { seq![EventView::StateValues(values, step)] } else { Seq::empty() };
    let b: Seq<EventView> = if last.len() > 0 && modes.contains(StreamMode::Checkpoints) {
        seq![EventView::CheckpointSaved(last, step)]
    } else {
        Seq::empty()
    };
    assert(evs == a + b);
    if modes.contains(StreamMode::Values) {
        assert(evs[0] == EventView::StateValues(values, step));
    }
    if last.len() > 0 && modes.contains(StreamMode::Checkpoints) {
        assert(evs[a.len() as int] == EventView::CheckpointSaved(last, step));
    }
    assert forall|i: int| 0 <= i < evs.len() implies
        #[trigger] evs[i] == EventView::StateValues(values, step) || evs[i] == EventView::CheckpointSaved(last, step) by {
        if i < a.len() {
            assert(evs[i] == a[i]);
        } else {
            assert(evs[i] == b[i - a.len()]);
        }
    }
}

/// What a run does after a step's checkpoint.
pub enum After {
    /// Send `events`, then begin the next round.
    Next { events: Vec<StreamEvent> },
    /// Send `events`, store `writes` with the last checkpoint when a store is
    /// configured, then end the run with `result`.
    Stop { events: Vec<StreamEvent>, writes: Vec<PendingWrite>, result: Result<GraphResult, AgentError> },
}

/// The output delivered for the task at position `i`: the last of `pairs`
/// that carries that position.
pub open spec fn slot_of(pairs: Seq<(usize, NodeOutput)>, i: int) -> Option<NodeOutput>
    decreases pairs.len(),
{
    if pairs.len() == 0 {
        None
    } else if pairs.last().0 == i {
        Some(pairs.last().1)
    } else {
        slot_of(pairs.drop_last(), i)
    }
}

/// The outputs of `n` tasks in task order, when `pairs` holds one output for
/// each of the `n` positions.
pub open spec fn arranged(n: int, pairs: Seq<(usize, NodeOutput)>) -> Option<Seq<NodeOutput>> {
    if pairs.len() == n && forall|i: int| 0 <= i < n ==> #[trigger] slot_of(pairs, i) is Some {
        Some(Seq::new(n as nat, |i: int| slot_of(pairs, i)->0))
    } else {
        None
    }
}

/// No two of `pairs` carry the same position.
pub open spec fn distinct_positions(pairs: Seq<(usize, NodeOutput)>) -> bool {
    forall|j: int, k: int| 0 <= j < k < pairs.len() ==> #[trigger] pairs[j].0 != #[trigger] pairs[k].0
}

/// The message for outputs that do not match the tasks one for one.
pub open spec fn mismatch_message() -> Seq<char> {
    "each task needs exactly one output"@
}

/// A delivered output is one of `pairs`; with distinct positions, the one of
/// `pairs` at a position is the output delivered for it.
proof fn lemma_slot_of(pairs: Seq<(usize, NodeOutput)>, i: int)
    ensures
        slot_of(pairs, i) matches Some(o) ==> exists|j: int| 0 <= j < pairs.len() && #[trigger] pairs[j] == (pairs[j].0, o) && pairs[j].0 == i,
        slot_of(pairs, i) is None ==> forall|j: int| 0 <= j < pairs.len() ==> #[trigger] pairs[j].0 != i,
        distinct_positions(pairs) ==> forall|j: int| 0 <= j < pairs.len() && #[trigger] pairs[j].0 == i ==> slot_of(pairs, i) == Some(pairs[j].1),
    decreases pairs.len(),
{
    if pairs.len() > 0 {
        let rest = pairs.drop_last();
        lemma_slot_of(rest, i);
        assert forall|j: int| 0 <= j < rest.len() implies #[trigger] rest[j] == pairs[j] by {}
        if distinct_positions(pairs) {
            assert(distinct_positions(rest)) by {
                assert forall|j: int, k: int| 0 <= j < k < rest.len() implies #[trigger] rest[j].0 != #[trigger] rest[k].0 by {
                    assert(pairs[j].0 != pairs[k].0);
                }
            }
            assert forall|j: int| 0 <= j < pairs.len() && #[trigger] pairs[j].0 == i implies slot_of(pairs, i) == Some(pairs[j].1) by {
                if j < pairs.len() - 1 {
                    assert(pairs[j].0 != pairs[pairs.len() - 1].0);
                    assert(rest[j] == pairs[j]);
                }
            }
        }
        if slot_of(pairs, i) is None {
            assert forall|j: int| 0 <= j < pairs.len() implies #[trigger] pairs[j].0 != i by {
                if j < pairs.len() - 1 {
                    assert(rest[j] == pairs[j]);
                }
            }
        }
        if pairs.last().0 != i && slot_of(rest, i) is Some {
            let j = choose|j: int| 0 <= j < rest.len() && #[trigger] rest[j] == (rest[j].0, slot_of(rest, i)->0) && rest[j].0 == i;
            assert(pairs[j] == rest[j]);
        }
        if pairs.last().0 == i {
            assert(pairs[pairs.len() - 1] == (pairs[pairs.len() - 1].0, pairs.last().1));
        }
    }
}

/// Outputs are credited to the tasks whose positions they carry, whatever
/// order they arrive in: two deliveries of the same outputs, each position
/// carried once, put the outputs in the same task order.
pub proof fn lemma_arrival_order_irrelevant(n: int, p: Seq<(usize, NodeOutput)>, q: Seq<(usize, NodeOutput)>)
    requires
        distinct_positions(p),
        distinct_positions(q),
        p.len() == q.len(),
        forall|x: (usize, NodeOutput)| p.contains(x) <==> q.contains(x),
    ensures
        arranged(n, p) == arranged(n, q),
{
    assert forall|i: int| #![trigger slot_of(p, i)] #![trigger slot_of(q, i)] slot_of(p, i) == slot_of(q, i) by {
        lemma_slot_of(p, i);
        lemma_slot_of(q, i);
        if slot_of(p, i) is Some {
            let j = choose|j: int| 0 <= j < p.len() && #[trigger] p[j] == (p[j].0, slot_of(p, i)->0) && p[j].0 == i;
            assert(p.contains(p[j]));
            assert(q.contains(p[j]));
            let k = choose|k: int| 0 <= k < q.len() && q[k] == p[j];
            assert(q[k].0 == i);
        } else if slot_of(q, i) is Some {
            let k = choose|k: int| 0 <= k < q.len() && #[trigger] q[k] == (q[k].0, slot_of(q, i)->0) && q[k].0 == i;
            assert(q.contains(q[k]));
            assert(p.contains(q[k]));
            let j = choose|j: int| 0 <= j < p.len() && p[j] == q[k];
            assert(p[j].0 == i);
        }
    }
    if arranged(n, p) is Some {
        assert(forall|i: int| 0 <= i < n ==> #[trigger] slot_of(q, i) is Some);
        assert(arranged(n, p)->0 =~= arranged(n, q)->0);
    } else if arranged(n, q) is Some {
        assert(forall|i: int| 0 <= i < n ==> #[trigger] slot_of(p, i) is Some);
    }
}

/// Puts the outputs of `n` tasks in task order, when each position below `n`
/// has an output and there are `n` outputs.
fn arrange(n: usize, pairs: Vec<(usize, NodeOutput)>) -> (r: Option<Vec<NodeOutput>>)
    ensures
        match r {
            Some(v) => arranged(n as int, pairs@) == Some(v@),
            None => arranged(n as int, pairs@) is None,
        },
{
    let ghost ps = pairs@;
    if pairs.len() != n {
        return None;
    }
    let mut slots: Vec<Option<NodeOutput>> = Vec::new();
    let mut k: usize = 0;
    while k < n
        invariant
            k <= n,
            slots@.len() == k,
            forall|i: int| 0 <= i < k ==> #[trigger] slots@[i] is None,
        decreases n - k,
    {
        slots.push(None);
        k = k + 1;
    }
    let mut rest = pairs;
    assert(ps.take(ps.len() as int) =~= ps);
    while rest.len() > 0
        invariant
            slots@.len() == n,
            rest@.len() <= ps.len(),
            rest@ == ps.take(rest@.len() as int),
            forall|i: int| 0 <= i < n ==> slot_of(ps, i) == (if #[trigger] slots@[i] is Some { slots@[i] } else { slot_of(rest@, i) }),
        decreases rest.len(),
    {
        let ghost before = rest@;
        let (idx, out) = rest.pop().unwrap();
        proof {
            assert(rest@ == before.drop_last());
            assert(rest@ =~= ps.take(rest@.len() as int));
        }
        if idx < n && slots[idx].is_none() {
            slots.set(idx, Some(out));
        }
    }
    let mut rev: Vec<NodeOutput> = Vec::new();
    let ghost full = slots@;
    proof {
        assert forall|i: int| 0 <= i < n implies #[trigger] full[i] == slot_of(ps, i) by {
            assert(slot_of(rest@, i) is None);
        }
    }
    while slots.len() > 0
        invariant
            slots@.len() + rev@.len() == n,
            full.len() == n,
            ps.len() == n,
            ps == pairs@,
            forall|i: int| 0 <= i < n ==> #[trigger] full[i] == slot_of(ps, i),
            slots@ == full.take(slots@.len() as int),
            forall|k: int| 0 <= k < rev@.len() ==> #[trigger] full[n - 1 - k] == Some(rev@[k]),
        decreases slots.len(),
    {
        let ghost before = slots@;
        match slots.pop().unwrap() {
            Some(o) => {
                proof {
                    assert(slots@ == before.drop_last());
                    assert(slots@ =~= full.take(slots@.len() as int));
                }
                rev.push(o);
            },
            None => {
                proof {
                    let i = before.len() - 1;
                    assert(before[i] == full[i]);
                    assert(full[i] is None);
                    assert(slot_of(ps, i) is None);
                    assert(!(forall|x: int| 0 <= x < n ==> #[trigger] slot_of(ps, x) is Some));
                }
                return None;
            },
        }
    }
    let mut out: Vec<NodeOutput> = Vec::new();
    let ghost rv = rev@;
    while rev.len() > 0
        invariant
            rev@.len() + out@.len() == n,
            rv.len() == n,
            full.len() == n,
            ps.len() == n,
            forall|i: int| 0 <= i < n ==> #[trigger] full[i] == slot_of(ps, i),
            forall|k: int| 0 <= k < n ==> #[trigger] full[n - 1 - k] == Some(rv[k]),
            rev@ == rv.take(rev@.len() as int),
            forall|k: int| 0 <= k < out@.len() ==> #[trigger] out@[k] == rv[n - 1 - k],
        decreases rev.len(),
    {
        let ghost before = rev@;
        let o = rev.pop().unwrap();
        proof {
            assert(rev@ == before.drop_last());
            assert(rev@ =~= rv.take(rev@.len() as int));
        }
        out.push(o);
    }
    proof {
        assert forall|i: int| 0 <= i < n implies #[trigger] slot_of(ps, i) is Some && out@[i] == slot_of(ps, i)->0 by {
            let k = n - 1 - i;
            assert(full[n - 1 - k] == Some(rv[k]));
            assert(full[i] == slot_of(ps, i));
        }
        assert(out@ =~= Seq::new(n as nat, |i: int| slot_of(ps, i)->0));
    }
    Some(out)
}

/// What taking a round's outcome does to a run (`o` before, `n` after), with
/// the outputs in task order.
pub open spec fn step_taken<F: Fn(JsonValue, JsonValue) -> Result<JsonValue, String> + Copy>(
    o: Run<F>,
    n: Run<F>,
    outcome: Result<Seq<NodeOutput>, AgentError>,
    r: Stepped,
) -> bool {
    match outcome {
        Err(AgentError::Interrupt(data)) => {
            &&& r matches Stepped::Stop { events, writes, result: Ok(GraphResult::Interrupted { values, checkpoint_id, resume_node, reason }) }
            &&& events@.len() == 0
            &&& writes@.len() == 2
            &&& writes@[0]@.task_id == "interrupt"@ && writes@[0]@.channel == "__interrupt__"@
            &&& writes@[0]@.value == interrupt_record(data)
            &&& writes@[1]@.task_id == "interrupt"@ && writes@[1]@.channel == "__resume__"@
            &&& writes@[1]@.value == JsonView::Array(seq_view(o.resume_values@))
            &&& values@ == read_spec(o.channels@)
            &&& checkpoint_id@ == o.last_checkpoint_id@
            &&& resume_node@ == data.node_name@
            &&& reason matches InterruptReason::NodeInterrupt { value } && value == data.value
            &&& n.channels == o.channels
        },
        Err(e) => r matches Stepped::Stop { events, writes, result: Err(e2) }
            && events@.len() == 0 && writes@.len() == 0 && e2 == e
            && n.channels == o.channels,
        Ok(outs) => {
            let kept = kept_outputs(o.pending@, outs, paired(o.pending@, outs));
            let g = grouped_spec(kept);
            &&& kept_view(n.outputs@) == kept
            &&& n.versions_seen@ == seen_after(o.versions_seen@, kept_nodes(kept), o.versions@)
            &&& n.resume_values@.len() == 0
            &&& events_view(stepped_events(r)) == step_events(kept, o.modes@)
            &&& match r {
                Stepped::Stop { writes, result: Err(e), .. } => writes@.len() == 0
                    && update_failed(o.channels@, n.channels@, g, g.dom(), e),
                Stepped::Stop { writes, result: Ok(GraphResult::Done { values, checkpoint_id }), .. } => writes@.len() == 0
                    && updates_applied(o.channels@, n.channels@, g, g.dom(), o.versions@, n.versions@)
                    && any_parent(o.pending@, outs)
                    && values@ == read_spec(n.channels@)
                    && checkpoint_id@ == o.last_checkpoint_id@,
                Stepped::Store { checkpoint, wait, .. } => {
                    &&& updates_applied(o.channels@, n.channels@, g, g.dom(), o.versions@, n.versions@)
                    &&& !any_parent(o.pending@, outs)
                    &&& match o.durability {
                        Durability::Sync => wait && if o.saving {
                            &&& n.last_checkpoint_id == o.last_checkpoint_id
                            &&& checkpoint matches Some(c) && checkpoint_made(c.0, c.1, n.channels@, n.versions@,
                                n.versions_seen@, CheckpointSource::Loop, o.step,
                                Some(o.last_checkpoint_id@), last_written(g))
                        } else {
                            checkpoint is None && n.last_checkpoint_id@ == Seq::<char>::empty()
                        },
                        Durability::Async => !wait && if o.saving {
                            checkpoint matches Some(c) && checkpoint_made(c.0, c.1, n.channels@, n.versions@,
                                n.versions_seen@, CheckpointSource::Loop, o.step,
                                Some(o.last_checkpoint_id@), last_written(g))
                                && c.0.id@ == n.last_checkpoint_id@
                        } else {
                            checkpoint is None
                        },
                        Durability::Exit => !wait && checkpoint is None,
                    }
                },
                _ => false,
            }
        },
    }
}

impl<F: Fn(JsonValue, JsonValue) -> Result<JsonValue, String> + Copy> Run<F> {
    /// Whether every channel version may still be increased.
    pub fn versions_ok(&self) -> (r: bool)
        ensures
            r == versions_below_max(self.versions@),
    {
        let n = self.versions.len();
        let mut i: usize = 0;
        while i < n
            invariant
                i <= n,
                n == self.versions.keys_seq().len(),
                forall|k: Seq<char>| #[trigger] self.versions@.contains_key(k) <==> self.versions.keys_seq().contains(k),
                forall|x: int| 0 <= x < self.versions.keys_seq().len() ==> #[trigger] self.versions@[self.versions.keys_seq()[x]] == self.versions.value_view_at(x),
                forall|x: int| 0 <= x < i ==> #[trigger] self.versions.value_view_at(x) < u64::MAX,
            decreases n - i,
        {
            if *self.versions.value_at(i) == u64::MAX {
                proof {
                    let k = self.versions.keys_seq()[i as int];
                    assert(self.versions.keys_seq().contains(k));
                    assert(self.versions@.contains_key(k));
                    assert(self.versions@[k] == u64::MAX);
                }
                return false;
            }
            i = i + 1;
        }
        proof {
            assert forall|k: Seq<char>| #[trigger] self.versions@.contains_key(k) implies self.versions@[k] < u64::MAX by {
                let x = self.versions.keys_seq().index_of(k);
                assert(self.versions.keys_seq()[x] == k);
            }
        }
        true
    }

    /// Takes the outcome of a round's tasks, each output with the position of
    /// its task. Outputs that do not match the tasks one for one end the run
    /// with an error. A node that interrupted itself pauses the run, asking to
    /// record the interrupt and the resume values so far; any other failure ends
    /// it. Otherwise each task's output (outputs addressed to the enclosing
    /// graph left out) is reported, the nodes are marked as having seen the
    /// current versions, and the writes are applied to the channels, several
    /// writes to one channel forming one batch. An output addressed to the
    /// enclosing graph then ends the run; otherwise the step's checkpoint is
    /// stored as the durability mode says.
    pub fn tasks_done(&mut self, outcome: Result<Vec<(usize, NodeOutput)>, AgentError>) -> (r: Stepped)
        requires
            channels_ready(old(self).channels@),
            versions_below_max(old(self).versions@),
        ensures
            channels_ready(final(self).channels@),
            final(self).pending == old(self).pending,
            final(self).step == old(self).step,
            final(self).rounds == old(self).rounds,
            final(self).first_iteration == old(self).first_iteration,
            final(self).durability == old(self).durability,
            final(self).modes == old(self).modes,
            final(self).saving == old(self).saving,
            match outcome {
                Ok(pairs) => match arranged(old(self).pending@.len() as int, pairs@) {
                    Some(outs) => step_taken(*old(self), *final(self), Ok(outs), r),
                    None => r matches Stepped::Stop { events, writes, result: Err(AgentError::GraphError(m)) }
                        && events@.len() == 0 && writes@.len() == 0 && m@ == mismatch_message()
                        && final(self).channels == old(self).channels,
                },
                Err(e) => step_taken(*old(self), *final(self), Err(e), r),
            },
    {
        match outcome {
            Ok(pairs) => match arrange(self.pending.len(), pairs) {
                Some(outs) => self.take_outputs(Ok(outs)),
                None => {
                    proof {
                        reveal_strlit("each task needs exactly one output");
                    }
                    Stepped::Stop {
                        events: Vec::new(),
                        writes: Vec::new(),
                        result: Err(AgentError::GraphError(String::from_str("each task needs exactly one output"))),
                    }
                },
            },
            Err(e) => self.take_outputs(Err(e)),
        }
    }

    /// Takes the outcome of a round's tasks, the outputs in task order.
    fn take_outputs(&mut self, outcome: Result<Vec<NodeOutput>, AgentError>) -> (r: Stepped)
        requires
            channels_ready(old(self).channels@),
            versions_below_max(old(self).versions@),
        ensures
            channels_ready(final(self).channels@),
            final(self).pending == old(self).pending,
            final(self).step == old(self).step,
            final(self).rounds == old(self).rounds,
            final(self).first_iteration == old(self).first_iteration,
            final(self).durability == old(self).durability,
            final(self).modes == old(self).modes,
            final(self).saving == old(self).saving,
            step_taken(*old(self), *final(self), match outcome { Ok(v) => Ok(v@), Err(e) => Err(e) }, r),
    {
        match outcome {
            Err(e) => match e {
                AgentError::Interrupt(data) => {
                    proof {
                        reveal_strlit("interrupt");
                        reveal_strlit("__interrupt__");
                        reveal_strlit("__resume__");
                        reveal_strlit("index");
                        reveal_strlit("node_name");
                        reveal_strlit("value");
                    }
                    let record = JsonValue::Object(vec![
                        (String::from_str("index"), count_json(data.index)),
                        (String::from_str("node_name"), JsonValue::Str(data.node_name.clone())),
                        (String::from_str("value"), data.value.copy()),
                    ]);
                    let resumed = JsonValue::Array(crate::checkpoint::types::copy_values(&self.resume_values));
                    proof {
                        crate::json::lemma_view_entries(record->Object_0@);
                        crate::json::lemma_view_seq(resumed->Array_0@);
                        assert(record@ == interrupt_record(data)) by {
                            assert(crate::json::json_view_entries(record->Object_0@) =~= interrupt_record(data)->Object_0);
                        }
                        assert(crate::json::json_view_seq(resumed->Array_0@) =~= seq_view(resumed->Array_0@));
                    }
                    let writes = vec![
                        PendingWrite { task_id: String::from_str("interrupt"), channel: String::from_str("__interrupt__"), value: record },
                        PendingWrite { task_id: String::from_str("interrupt"), channel: String::from_str("__resume__"), value: resumed },
                    ];
                    let values = read_channels(&self.channels);
                    Stepped::Stop {
                        events: Vec::new(),
                        writes,
                        result: Ok(GraphResult::Interrupted {
                            values,
                            checkpoint_id: self.last_checkpoint_id.clone(),
                            resume_node: data.node_name,
                            reason: InterruptReason::NodeInterrupt { value: data.value },
                        }),
                    }
                },
                other => Stepped::Stop { events: Vec::new(), writes: Vec::new(), result: Err(other) },
            },
            Ok(results) => {
                self.resume_values = Vec::new();
                let (kept, parent) = collect_outputs(&self.pending, results);
                let grouped = group_updates(&kept);
                let events = completion_events(&kept, &self.modes);
                let ghost vers0 = self.versions@;
                mark_seen(&mut self.versions_seen, &kept, &self.versions);
                let applied = apply_grouped_updates(&mut self.channels, &grouped, &mut self.versions);
                self.outputs = kept;
                match applied {
                    Err(e) => {
                        return Stepped::Stop { events, writes: Vec::new(), result: Err(e) };
                    },
                    Ok(()) => {},
                }
                let writes = last_values(&grouped);
                if parent {
                    let done = self.done();
                    return Stepped::Stop { events, writes: Vec::new(), result: Ok(done) };
                }
                match self.durability {
                    Durability::Sync => {
                        if self.saving {
                            let c = make_checkpoint(&self.channels, &self.versions, &self.versions_seen,
                                CheckpointSource::Loop, self.step, Some(self.last_checkpoint_id.as_str()), writes);
                            Stepped::Store { events, checkpoint: Some(c), wait: true }
                        } else {
                            self.last_checkpoint_id = String::new();
                            Stepped::Store { events, checkpoint: None, wait: true }
                        }
                    },
                    Durability::Async => {
                        let mut parent = new_id();
                        std::mem::swap(&mut parent, &mut self.last_checkpoint_id);
                        if self.saving {
                            let (mut cp, md) = make_checkpoint(&self.channels, &self.versions, &self.versions_seen,
                                CheckpointSource::Loop, self.step, Some(parent.as_str()), writes);
                            cp.id = self.last_checkpoint_id.clone();
                            Stepped::Store { events, checkpoint: Some((cp, md)), wait: false }
                        } else {
                            Stepped::Store { events, checkpoint: None, wait: false }
                        }
                    },
                    Durability::Exit => {
                        self.last_checkpoint_id = new_id();
                        Stepped::Store { events, checkpoint: None, wait: false }
                    },
                }
            },
        }
    }
}

/// The first stored output whose node pauses after, if any.
fn find_paused_after(pl: &PregelLoop, kept: &Vec<(String, NodeOutput)>) -> (r: Option<usize>)
    ensures
        match r {
            Some(i) => i < kept@.len() && first_paused_after(kept_nodes(kept_view(kept@)), pl.interrupt_after())
                == Some(kept@[i as int].0@),
            None => first_paused_after(kept_nodes(kept_view(kept@)), pl.interrupt_after()) is None,
        },
{
    let ghost nodes = kept_nodes(kept_view(kept@));
    let mut i: usize = 0;
    assert(nodes.skip(0) =~= nodes);
    while i < kept.len()
        invariant
            i <= kept.len(),
            nodes == kept_nodes(kept_view(kept@)),
            nodes.len() == kept.len(),
            first_paused_after(nodes, pl.interrupt_after()) == first_paused_after(nodes.skip(i as int), pl.interrupt_after()),
        decreases kept.len() - i,
    {
        assert(nodes.skip(i as int)[0] == kept@[i as int].0@);
        assert(nodes.skip(i as int).drop_first() =~= nodes.skip(i + 1));
        if pl.pauses_after(kept[i].0.as_str()) {
            return Some(i);
        }
        i = i + 1;
    }
    assert(nodes.skip(kept.len() as int) =~= Seq::<Seq<char>>::empty());
    None
}

impl<F: Fn(JsonValue, JsonValue) -> Result<JsonValue, String> + Copy> Run<F> {
    /// Goes on after a step's checkpoint: a failed store ends the run; a stored
    /// checkpoint becomes the last one. The whole state and the stored
    /// checkpoint are reported; a node to pause after pauses the run and asks to
    /// record the pause, so that a resume goes on past it; otherwise
    /// the next round's tasks are scheduled and the step moves on.
    pub fn stored<R: Fn(RouterId, &ChannelValues) -> RouteDecision>(
        &mut self,
        pl: &PregelLoop,
        route: &R,
        outcome: Option<Result<String, String>>,
    ) -> (r: After)
        requires
            router_ok(*route),
            channels_ready(old(self).channels@),
            old(self).step < i64::MAX,
            old(self).rounds < usize::MAX,
        ensures
            channels_ready(final(self).channels@),
            final(self).first_iteration == old(self).first_iteration,
            final(self).durability == old(self).durability,
            final(self).modes == old(self).modes,
            final(self).saving == old(self).saving,
            final(self).versions == old(self).versions,
            final(self).versions_seen == old(self).versions_seen,
            match outcome {
                Some(Err(m)) => r matches After::Stop { events, writes, result: Err(AgentError::GraphError(e)) }
                    && events@.len() == 0 && writes@.len() == 0 && e@ == m@
                    && final(self).channels == old(self).channels
                    && final(self).last_checkpoint_id == old(self).last_checkpoint_id,
                _ => {
                    let last = match outcome { Some(Ok(id)) => id@, _ => old(self).last_checkpoint_id@ };
                    let evs = round_events(read_spec(old(self).channels@), last, old(self).step, old(self).modes@);
                    let kept = kept_view(old(self).outputs@);
                    &&& final(self).last_checkpoint_id@ == last
                    &&& match first_paused_after(kept_nodes(kept), pl.interrupt_after()) {
                        Some(node) => {
                            &&& r matches After::Stop { events, writes, result: Ok(GraphResult::Interrupted { values, checkpoint_id, resume_node, reason }) }
                            &&& events_view(events@) == evs
                            &&& writes@.len() == 1 && writes@[0]@ == pause_write(node)
                            &&& values@ == read_spec(old(self).channels@)
                            &&& checkpoint_id@ == last
                            &&& resume_node@ == node
                            &&& reason matches InterruptReason::InterruptAfter(n) && n@ == node
                            &&& final(self).channels == old(self).channels
                        },
                        None => match r {
                            After::Next { events } => {
                                &&& events_view(events@) == evs
                                &&& scheduled(pl.edges(), pl.joins(), *route, old(self).outputs@, old(self).channels@,
                                    final(self).channels@, final(self).pending@)
                                &&& final(self).step == old(self).step + 1
                                &&& final(self).rounds == old(self).rounds + 1
                            },
                            After::Stop { events, writes, result: Err(e) } => {
                                &&& events_view(events@) == evs
                                &&& writes@.len() == 0
                                &&& exists|i: int| 0 <= i < old(self).outputs@.len()
                                    && #[trigger] unroutable(pl.edges(), pl.joins(), old(self).outputs@[i])
                                    && (forall|k: int| 0 <= k < i ==> !unroutable(pl.edges(), pl.joins(), old(self).outputs@[k]))
                                    && (e matches AgentError::UnreachableNode(n) && n@ == old(self).outputs@[i].0@)
                            },
                            _ => false,
                        },
                    }
                },
            },
    {
        match outcome {
            Some(Err(m)) => {
                return After::Stop { events: Vec::new(), writes: Vec::new(), result: Err(AgentError::GraphError(m)) };
            },
            Some(Ok(id)) => {
                self.last_checkpoint_id = id;
            },
            None => {},
        }
        let mut events: Vec<StreamEvent> = Vec::new();
        if self.modes.contains(StreamMode::Values) {
            events.push(StreamEvent::StateValues { values: read_channels(&self.channels), step: self.step });
        }
        if self.last_checkpoint_id.unicode_len() > 0 && self.modes.contains(StreamMode::Checkpoints) {
            events.push(StreamEvent::CheckpointSaved { checkpoint_id: self.last_checkpoint_id.clone(), step: self.step });
        }
        assert(events_view(events@) =~= round_events(read_spec(self.channels@), self.last_checkpoint_id@, self.step, self.modes@));
        match find_paused_after(pl, &self.outputs) {
            Some(i) => {
                let node = self.outputs[i].0.clone();
                let values = read_channels(&self.channels);
                let writes = vec![pause_record(&node)];
                return After::Stop {
                    events,
                    writes,
                    result: Ok(GraphResult::Interrupted {
                        values,
                        checkpoint_id: self.last_checkpoint_id.clone(),
                        resume_node: node.clone(),
                        reason: InterruptReason::InterruptAfter(node),
                    }),
                };
            },
            None => {},
        }
        match pl.prepare_next_tasks(route, &mut self.channels, &self.outputs) {
            Ok(tasks) => {
                self.pending = tasks;
                self.step = self.step + 1;
                self.rounds = self.rounds + 1;
                After::Next { events }
            },
            Err(e) => After::Stop { events, writes: Vec::new(), result: Err(e) },
        }
    }
}

impl<F: Fn(JsonValue, JsonValue) -> Result<JsonValue, String> + Copy> Run<F> {
    /// Starts an invocation once its input checkpoint was stored (`None` when
    /// no store is configured): the run starts at the entry node, or where a
    /// conditional entry routes, one step after the input's.
    pub fn input_stored<R: Fn(RouterId, &ChannelValues) -> RouteDecision>(
        &mut self,
        pl: &PregelLoop,
        route: &R,
        stored: Option<Result<String, String>>,
    ) -> (r: Result<(), AgentError>)
        requires
            router_ok(*route),
            old(self).step < i64::MAX,
        ensures
            final(self).channels == old(self).channels,
            final(self).versions == old(self).versions,
            final(self).versions_seen == old(self).versions_seen,
            final(self).rounds == old(self).rounds,
            final(self).first_iteration == old(self).first_iteration,
            match stored {
                Some(Err(m)) => r matches Err(AgentError::GraphError(e)) && e@ == m@,
                _ => {
                    let last = match stored { Some(Ok(id)) => id@, _ => Seq::<char>::empty() };
                    &&& final(self).last_checkpoint_id@ == last
                    &&& match r {
                        Ok(()) => {
                            &&& final(self).pending@.len() == 1
                            &&& final(self).pending@[0].task_type is Pull
                            &&& final(self).step == old(self).step + 1
                            &&& if pl.entry() == crate::graph::edge::START@ {
                                next_of(pl.edges(), *route, crate::graph::edge::START@, read_spec(old(self).channels@))
                                    == Some(final(self).pending@[0].node_name@)
                            } else {
                                final(self).pending@[0].node_name@ == pl.entry()
                            }
                        },
                        Err(e) => pl.entry() == crate::graph::edge::START@
                            && next_of(pl.edges(), *route, crate::graph::edge::START@, read_spec(old(self).channels@)) is None
                            && (e matches AgentError::GraphError(m) && m@ == crate::graph::pregel::engine::entry_ends_message()),
                    }
                },
            },
    {
        match stored {
            Some(Err(m)) => {
                return Err(AgentError::GraphError(m));
            },
            Some(Ok(id)) => {
                self.last_checkpoint_id = id;
            },
            None => {
                self.last_checkpoint_id = String::new();
            },
        }
        let values = read_channels(&self.channels);
        match pl.resolve_entry_node(route, &values) {
            Ok(entry) => {
                self.pending = vec![Task::pull(entry.as_str())];
                self.step = self.step + 1;
                Ok(())
            },
            Err(e) => Err(e),
        }
    }

    /// Starts a resume once its checkpoint was stored: the run goes on one step
    /// after it.
    pub fn resume_stored(&mut self, stored: Result<String, String>) -> (r: Result<(), AgentError>)
        requires
            old(self).step < i64::MAX,
        ensures
            final(self).channels == old(self).channels,
            final(self).pending == old(self).pending,
            match stored {
                Ok(id) => r is Ok && final(self).last_checkpoint_id@ == id@ && final(self).step == old(self).step + 1,
                Err(m) => r matches Err(AgentError::GraphError(e)) && e@ == m@,
            },
    {
        match stored {
            Ok(id) => {
                self.last_checkpoint_id = id;
                self.step = self.step + 1;
                Ok(())
            },
            Err(m) => Err(AgentError::GraphError(m)),
        }
    }
}

} // verus!
