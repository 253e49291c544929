//! The compiled graph: an immutable topology with its channel specs and its
//! input and output key filters.

use vstd::prelude::*;
use crate::agent::error::AgentError;
use crate::agent::stream::StreamModeSet;
use crate::channels::base::{AnyChannel, ChannelValues, ChannelVersions};
use crate::channels::channel::Channel;
use crate::checkpoint::types::{Checkpoint, CheckpointMetadata, CheckpointSource, CheckpointTuple, copy_writes};
use crate::graph::edge::{RouteDecision, RouterId, router_ok};
use crate::graph::pregel::channel_ops::{
    apply_updates, channels_ready, init_channels, read_channels, read_spec, saved_value, single_batches,
    update_failed, updates_applied, versions_below_max,
};
use crate::graph::pregel::engine::{PregelLoop, next_of, pause_target, resume_node_of, resume_values};
use crate::graph::pregel::run::{Run, checkpoint_made, make_checkpoint};
use crate::graph::task::Task;
use crate::graph::types::{Command, Durability, GraphResult, StateSnapshot};
use crate::json::{JsonValue, JsonView};
use crate::strmap::{Duplicate, StrMap};
use crate::text::concat;

verus! {

/// Keeps the entries of `values` whose key is in `keys`, in their order.
pub fn filter_values(values: ChannelValues, keys: &StrMap<()>) -> (r: ChannelValues)
    ensures
        r@ == values@.restrict(keys@.dom()),
{
    let mut out: ChannelValues = StrMap::new();
    let n = values.len();
    let mut i: usize = 0;
    while i < n
        invariant
            i <= n,
            n == values.keys_seq().len(),
            values.keys_seq().no_duplicates(),
            forall|k: Seq<char>| #[trigger] values@.contains_key(k) <==> values.keys_seq().contains(k),
            forall|j: int| 0 <= j < values.keys_seq().len() ==> #[trigger] values@[values.keys_seq()[j]] == values.value_view_at(j),
            out@ == values@.restrict(values.keys_seq().take(i as int).to_set().intersect(keys@.dom())),
        decreases n - i,
    {
        let k = values.key_at(i);
        let ghost t0 = values.keys_seq().take(i as int);
        let ghost t1 = values.keys_seq().take(i + 1);
        proof {
            assert(t1 == t0.push(k@));
        }
        if keys.contains_key(k.as_str()) {
            let v = values.value_at(i).copy();
            out.insert(k.clone(), v);
        }
        proof {
            assert forall|x: Seq<char>| t1.to_set().contains(x) <==> (t0.to_set().contains(x) || x == k@) by {
                if t1.contains(x) {
                    let j = choose|j: int| 0 <= j < t1.len() && t1[j] == x;
                    if j < i {
                        assert(t0[j] == x);
                    }
                }
                if t0.contains(x) {
                    let j = choose|j: int| 0 <= j < t0.len() && t0[j] == x;
                    assert(t1[j] == x);
                }
                if x == k@ {
                    assert(t1[i as int] == x);
                }
            }
            assert(out@ =~= values@.restrict(t1.to_set().intersect(keys@.dom())));
        }
        i = i + 1;
    }
    proof {
        assert(values.keys_seq().take(n as int) == values.keys_seq());
        assert(values.keys_seq().to_set() =~= values@.dom());
        assert(out@ =~= values@.restrict(keys@.dom()));
    }
    out
}

/// Keeps the entries of `values` whose key is in `keys`; all of them when there
/// is no key set.
pub open spec fn filtered(values: Map<Seq<char>, JsonView>, keys: Option<Set<Seq<char>>>) -> Map<Seq<char>, JsonView> {
    match keys {
        Some(ks) => values.restrict(ks),
        None => values,
    }
}

/// The values a result carries.
pub open spec fn result_values(r: GraphResult) -> ChannelValues {
    match r {
        GraphResult::Done { values, .. } => values,
        GraphResult::Interrupted { values, .. } => values,
    }
}

/// The same result with other values.
pub open spec fn same_result_but_values(a: GraphResult, b: GraphResult) -> bool {
    match (a, b) {
        (GraphResult::Done { checkpoint_id: c1, .. }, GraphResult::Done { checkpoint_id: c2, .. }) => c1 == c2,
        (
            GraphResult::Interrupted { checkpoint_id: c1, resume_node: n1, reason: r1, .. },
            GraphResult::Interrupted { checkpoint_id: c2, resume_node: n2, reason: r2, .. },
        ) => c1 == c2 && n1 == n2 && r1 == r2,
        _ => false,
    }
}

/// A compiled, immutable graph.
pub struct CompiledGraph<F> {
    name: String,
    pregel: PregelLoop,
    channel_specs: StrMap<Channel<F>>,
    input_keys: Option<StrMap<()>>,
    output_keys: Option<StrMap<()>>,
}

/// The set of an optional key set.
pub open spec fn opt_keys(k: Option<StrMap<()>>) -> Option<Set<Seq<char>>> {
    match k {
        Some(m) => Some(m@.dom()),
        None => None,
    }
}

impl<F> CompiledGraph<F> {
    /// The graph's name, used in traces and for subgraph routing.
    pub closed spec fn title(&self) -> Seq<char> {
        self.name@
    }

    /// The topology.
    pub closed spec fn topology(&self) -> PregelLoop {
        self.pregel
    }

    /// The channel specs, by name.
    pub closed spec fn specs(&self) -> Map<Seq<char>, Channel<F>> {
        self.channel_specs@
    }

    /// The keys accepted from an invocation's input, if restricted.
    pub closed spec fn inputs(&self) -> Option<Set<Seq<char>>> {
        opt_keys(self.input_keys)
    }

    /// The keys returned in results, if restricted.
    pub closed spec fn outputs(&self) -> Option<Set<Seq<char>>> {
        opt_keys(self.output_keys)
    }

    /// A compiled graph named "default".
    pub fn new(
        pregel: PregelLoop,
        channel_specs: StrMap<Channel<F>>,
        input_keys: Option<StrMap<()>>,
        output_keys: Option<StrMap<()>>,
    ) -> (r: Self)
        ensures
            r.topology() == pregel,
            r.specs() == channel_specs@,
            r.inputs() == opt_keys(input_keys),
            r.outputs() == opt_keys(output_keys),
            r.title() == "default"@,
    {
        CompiledGraph { name: String::from_str("default"), pregel, channel_specs, input_keys, output_keys }
    }

    /// The topology.
    pub fn pregel(&self) -> (r: &PregelLoop)
        ensures
            *r == self.topology(),
    {
        &self.pregel
    }

    /// The channel specs.
    pub fn channel_specs(&self) -> (r: &StrMap<Channel<F>>)
        ensures
            r@ == self.specs(),
    {
        &self.channel_specs
    }

    /// The graph's name.
    pub fn graph_name(&self) -> (r: &String)
        ensures
            r@ == self.title(),
    {
        &self.name
    }

    /// Renames the graph.
    pub fn set_name(&mut self, name: String)
        ensures
            final(self).title() == name@,
            final(self).topology() == old(self).topology(),
            final(self).specs() == old(self).specs(),
            final(self).inputs() == old(self).inputs(),
            final(self).outputs() == old(self).outputs(),
    {
        self.name = name;
    }

    /// Keeps only the input keys of an invocation's input (all of it when the
    /// graph accepts every key).
    pub fn filter_input(&self, input: ChannelValues) -> (r: ChannelValues)
        ensures
            r@ == filtered(input@, self.inputs()),
    {
        match &self.input_keys {
            Some(keys) => filter_values(input, keys),
            None => input,
        }
    }

    /// Keeps only the output keys in a result's values; everything else in the
    /// result is kept as it is.
    pub fn filter_output_result(&self, result: GraphResult) -> (r: GraphResult)
        ensures
            result_values(r)@ == filtered(result_values(result)@, self.outputs()),
            same_result_but_values(result, r),
    {
        match &self.output_keys {
            None => result,
            Some(keys) => match result {
                GraphResult::Done { values, checkpoint_id } => GraphResult::Done {
                    values: filter_values(values, keys),
                    checkpoint_id,
                },
                GraphResult::Interrupted { values, checkpoint_id, resume_node, reason } => GraphResult::Interrupted {
                    values: filter_values(values, keys),
                    checkpoint_id,
                    resume_node,
                    reason,
                },
            },
        }
    }
}

/// The channels of a run restored from specs and an optional checkpoint: one per
/// spec, holding the checkpoint's value for it (fresh without one).
pub open spec fn restored_from<F: Fn(JsonValue, JsonValue) -> Result<JsonValue, String> + Copy>(
    specs: Map<Seq<char>, Channel<F>>,
    existing: Option<CheckpointTuple>,
    chs: Map<Seq<char>, Channel<F>>,
) -> bool {
    &&& chs.dom() == specs.dom()
    &&& forall|k: Seq<char>| #[trigger] chs.contains_key(k) ==> specs[k].restores(saved_value(existing, k), chs[k])
}

/// The versions a checkpoint holds (none without one).
pub open spec fn versions_from(existing: Option<CheckpointTuple>) -> Map<Seq<char>, u64> {
    match existing {
        Some(t) => t@.checkpoint.channel_versions,
        None => Map::empty(),
    }
}

/// The versions each node saw, as a checkpoint holds them (none without one).
pub open spec fn seen_from(existing: Option<CheckpointTuple>) -> Map<Seq<char>, Map<Seq<char>, u64>> {
    match existing {
        Some(t) => t@.checkpoint.versions_seen,
        None => Map::empty(),
    }
}

/// The step after a checkpoint's (0 without one).
pub open spec fn step_after(existing: Option<CheckpointTuple>) -> i64 {
    match existing {
        Some(t) => (t.metadata.step + 1) as i64,
        None => 0,
    }
}

/// The id of a checkpoint, if there is one.
pub open spec fn id_of(existing: Option<CheckpointTuple>) -> Option<Seq<char>> {
    match existing {
        Some(t) => Some(t@.checkpoint.id),
        None => None,
    }
}

/// The channels and versions of a resume: the restored ones, with the resume
/// command's update applied when it carries one.
pub open spec fn resumed_channels<F: Fn(JsonValue, JsonValue) -> Result<JsonValue, String> + Copy>(
    mid: Map<Seq<char>, Channel<F>>,
    chs: Map<Seq<char>, Channel<F>>,
    vers0: Map<Seq<char>, u64>,
    vers: Map<Seq<char>, u64>,
    command: Option<Command>,
) -> bool {
    match command {
        Some(c) => match c.update {
            Some(u) => updates_applied(mid, chs, single_batches(u@), u@.dom(), vers0, vers),
            None => chs == mid && vers == vers0,
        },
        None => chs == mid && vers == vers0,
    }
}

/// The resume command's update failed on the restored channels `mid`.
pub open spec fn resume_update_failed<F: Fn(JsonValue, JsonValue) -> Result<JsonValue, String> + Copy>(
    mid: Map<Seq<char>, Channel<F>>,
    after: Map<Seq<char>, Channel<F>>,
    command: Option<Command>,
    e: AgentError,
) -> bool {
    match command {
        Some(c) => match c.update {
            Some(u) => update_failed(mid, after, single_batches(u@), u@.dom(), e),
            None => false,
        },
        None => false,
    }
}

/// A run ready to start, with the checkpoint to store before it starts.
pub struct Prepared<F> {
    pub run: Run<F>,
    pub checkpoint: Option<(Checkpoint, CheckpointMetadata)>,
}

/// The message of an operation that needs a checkpoint store without one.
pub open spec fn saver_required_message(op: Seq<char>) -> Seq<char> {
    "Checkpointer required for "@ + op
}

/// The message of a resume of a thread without a checkpoint.
pub open spec fn no_checkpoint_message(thread_id: Seq<char>) -> Seq<char> {
    "No checkpoint found for thread '"@ + thread_id + "'"@
}

/// Fails unless a checkpoint store is configured, for the operation `op`.
pub fn require_saver(saving: bool, op: &str) -> (r: Result<(), AgentError>)
    ensures
        saving ==> r is Ok,
        !saving ==> (r matches Err(AgentError::GraphError(m)) && m@ == saver_required_message(op@)),
{
    if saving {
        Ok(())
    } else {
        Err(AgentError::GraphError(concat("Checkpointer required for ", op)))
    }
}

/// The thread a resume acts on. The checks run in this order: the thread must
/// be named, then a checkpoint store must be configured.
pub fn resume_thread(thread_id: Option<String>, saving: bool) -> (r: Result<String, AgentError>)
    ensures
        match thread_id {
            Some(t) => if saving {
                r == Ok::<String, AgentError>(t)
            } else {
                r matches Err(AgentError::GraphError(m)) && m@ == saver_required_message("resume"@)
            },
            None => r matches Err(AgentError::GraphError(m)) && m@ == "thread_id required for resume"@,
        },
{
    match thread_id {
        Some(t) => {
            require_saver(saving, "resume")?;
            Ok(t)
        },
        None => Err(AgentError::GraphError(String::from_str("thread_id required for resume"))),
    }
}

/// The thread an invocation acts on: the one named, or a fresh random id (a
/// UUID in its 36-character hyphenated form).
pub fn invoke_thread(thread_id: Option<String>) -> (r: String)
    ensures
        thread_id matches Some(t) ==> r == t,
        thread_id is None ==> r@.len() == 36,
{
    match thread_id {
        Some(t) => t,
        None => crate::ids::new_id(),
    }
}

/// Copies a map of versions per node.
fn copy_seen(existing: &Option<CheckpointTuple>) -> (r: StrMap<ChannelVersions>)
    ensures
        r@ == seen_from(*existing),
{
    match existing {
        Some(t) => t.checkpoint.versions_seen.copy_map(),
        None => StrMap::new(),
    }
}

/// Copies the versions of a checkpoint.
fn copy_versions(existing: &Option<CheckpointTuple>) -> (r: ChannelVersions)
    ensures
        r@ == versions_from(*existing),
{
    match existing {
        Some(t) => t.checkpoint.channel_versions.copy_map(),
        None => StrMap::new(),
    }
}

impl<F: Fn(JsonValue, JsonValue) -> Result<JsonValue, String> + Copy> CompiledGraph<F> {
    /// Prepares an invocation: the channels are restored from the thread's
    /// checkpoint (if any), the input (restricted to the input keys) is applied,
    /// and the input checkpoint is built for storing when a store is configured.
    /// Call `Run::input_stored` once it is stored.
    pub fn begin_invoke(
        &self,
        thread_id: String,
        input: ChannelValues,
        existing: Option<CheckpointTuple>,
        durability: Durability,
        modes: StreamModeSet,
        saving: bool,
    ) -> (r: Result<Prepared<F>, AgentError>)
        requires
            channels_ready(self.specs()),
            versions_below_max(versions_from(existing)),
            existing matches Some(t) ==> t.metadata.step < i64::MAX - 1,
        ensures
            match r {
                Ok(p) => {
                    &&& p.run.thread_id == thread_id
                    &&& exists|mid: Map<Seq<char>, Channel<F>>| restored_from(self.specs(), existing, mid)
                        && #[trigger] updates_applied(mid, p.run.channels@, single_batches(filtered(input@, self.inputs())),
                            filtered(input@, self.inputs()).dom(), versions_from(existing), p.run.versions@)
                    &&& channels_ready(p.run.channels@)
                    &&& p.run.versions_seen@ == seen_from(existing)
                    &&& p.run.step == step_after(existing)
                    &&& p.run.last_checkpoint_id@ == Seq::<char>::empty()
                    &&& p.run.pending@.len() == 0
                    &&& p.run.outputs@.len() == 0
                    &&& p.run.resume_values@.len() == 0
                    &&& p.run.rounds == 0
                    &&& !p.run.first_iteration
                    &&& p.run.durability == durability
                    &&& p.run.modes == modes
                    &&& p.run.saving == saving
                    &&& if saving {
                        p.checkpoint matches Some(c) && checkpoint_made(c.0, c.1, p.run.channels@, p.run.versions@,
                            p.run.versions_seen@, CheckpointSource::Input, step_after(existing), id_of(existing),
                            filtered(input@, self.inputs()))
                    } else {
                        p.checkpoint is None
                    }
                },
                Err(e) => exists|mid: Map<Seq<char>, Channel<F>>, after: Map<Seq<char>, Channel<F>>|
                    restored_from(self.specs(), existing, mid)
                    && #[trigger] update_failed(mid, after, single_batches(filtered(input@, self.inputs())),
                        filtered(input@, self.inputs()).dom(), e),
            },
    {
        let mut channels = init_channels(&self.channel_specs, &existing);
        let ghost mid = channels@;
        assert(restored_from(self.specs(), existing, mid));
        let mut versions = copy_versions(&existing);
        let versions_seen = copy_seen(&existing);
        let filtered_input = self.filter_input(input);
        match apply_updates(&mut channels, &filtered_input, &mut versions) {
            Ok(()) => {},
            Err(e) => {
                return Err(e);
            },
        }
        let ghost chs1 = channels@;
        let ghost vers1 = versions@;
        assert(updates_applied(mid, chs1, single_batches(filtered(input@, self.inputs())),
            filtered(input@, self.inputs()).dom(), versions_from(existing), vers1));
        let step_start: i64 = match &existing {
            Some(t) => t.metadata.step + 1,
            None => 0,
        };
        let checkpoint = if saving {
            let parent: Option<&str> = match &existing {
                Some(t) => Some(t.checkpoint.id.as_str()),
                None => None,
            };
            Some(make_checkpoint(&channels, &versions, &versions_seen, CheckpointSource::Input, step_start, parent, filtered_input))
        } else {
            None
        };
        let run = Run {
            thread_id,
            channels,
            versions,
            versions_seen,
            step: step_start,
            last_checkpoint_id: String::new(),
            first_iteration: false,
            resume_values: Vec::new(),
            pending: Vec::new(),
            rounds: 0,
            durability,
            modes,
            saving,
            outputs: Vec::new(),
        };
        let p = Prepared { run, checkpoint };
        assert(p.run.channels@ == chs1);
        assert(p.run.versions@ == vers1);
        Ok(p)
    }

    /// Prepares a resume of a thread from its latest checkpoint: the channels
    /// are restored, the command's update is applied, the node to resume at and
    /// the resume values are found, and the resume checkpoint is built for
    /// storing. Call `Run::resume_stored` once it is stored.
    pub fn begin_resume<R: Fn(RouterId, &ChannelValues) -> RouteDecision>(
        &self,
        route: &R,
        thread_id: String,
        tuple: Option<CheckpointTuple>,
        command: Option<Command>,
        durability: Durability,
        modes: StreamModeSet,
    ) -> (r: Result<Prepared<F>, AgentError>)
        requires
            router_ok(*route),
            channels_ready(self.specs()),
            versions_below_max(versions_from(tuple)),
            tuple matches Some(t) ==> t.metadata.step < i64::MAX - 1,
        ensures
            tuple is None ==> (r matches Err(AgentError::GraphError(m)) && m@ == no_checkpoint_message(thread_id@)),
            tuple is Some ==> match r {
                Ok(p) => {
                    &&& exists|mid: Map<Seq<char>, Channel<F>>| restored_from(self.specs(), tuple, mid)
                        && #[trigger] resumed_channels(mid, p.run.channels@, versions_from(tuple), p.run.versions@, command)
                    &&& p.run.thread_id == thread_id
                    &&& channels_ready(p.run.channels@)
                    &&& p.run.versions_seen@ == seen_from(tuple)
                    &&& p.run.step == step_after(tuple)
                    &&& p.run.last_checkpoint_id@ == Seq::<char>::empty()
                    &&& p.run.pending@.len() == 1
                    &&& p.run.pending@[0].task_type is Pull
                    &&& p.run.pending@[0].node_name@ == resume_node_of(self.topology(), *route, tuple->0)
                    &&& p.run.outputs@.len() == 0
                    &&& p.run.first_iteration
                    &&& p.run.rounds == 0
                    &&& p.run.saving
                    &&& p.run.durability == durability
                    &&& p.run.modes == modes
                    &&& crate::json::seq_view(p.run.resume_values@) == resume_values(tuple->0@.pending_writes, command)
                    &&& p.checkpoint matches Some(c) && checkpoint_made(c.0, c.1, p.run.channels@, p.run.versions@,
                        p.run.versions_seen@, CheckpointSource::Resume, step_after(tuple), id_of(tuple),
                        Map::<Seq<char>, JsonView>::empty())
                },
                Err(e) => exists|mid: Map<Seq<char>, Channel<F>>, after: Map<Seq<char>, Channel<F>>|
                    restored_from(self.specs(), tuple, mid)
                    && #[trigger] resume_update_failed(mid, after, command, e),
            },
    {
        let t0 = match tuple {
            Some(t) => t,
            None => {
                return Err(AgentError::GraphError(concat(concat("No checkpoint found for thread '", thread_id.as_str()).as_str(), "'")));
            },
        };
        let existing = Some(t0);
        assert(existing == tuple);
        let mut channels = init_channels(&self.channel_specs, &existing);
        let ghost mid = channels@;
        assert(restored_from(self.specs(), tuple, mid));
        let mut versions = copy_versions(&existing);
        let ghost vers0 = versions@;
        let versions_seen = copy_seen(&existing);
        let t = existing.unwrap();
        match &command {
            Some(cmd) => match &cmd.update {
                Some(updates) => match apply_updates(&mut channels, updates, &mut versions) {
                    Ok(()) => {},
                    Err(e) => {
                        let ghost after = channels@;
                        assert(resume_update_failed(mid, after, command, e));
                        return Err(e);
                    },
                },
                None => {},
            },
            None => {},
        }
        let ghost chs1 = channels@;
        let ghost vers1 = versions@;
        assert(resumed_channels(mid, chs1, vers0, vers1, command));
        let resume_node = match self.pregel.determine_resume_node(route, &t) {
            Ok(n) => n,
            Err(e) => {
                return Err(e);
            },
        };
        let resume_values = PregelLoop::extract_resume_values(&t, &command);
        let step = t.metadata.step + 1;
        let empty: ChannelValues = StrMap::new();
        let checkpoint = make_checkpoint(&channels, &versions, &versions_seen, CheckpointSource::Resume, step,
            Some(t.checkpoint.id.as_str()), empty);
        let run = Run {
            thread_id,
            channels,
            versions,
            versions_seen,
            step,
            last_checkpoint_id: String::new(),
            first_iteration: true,
            resume_values,
            pending: vec![Task::pull(resume_node.as_str())],
            rounds: 0,
            durability,
            modes,
            saving: true,
            outputs: Vec::new(),
        };
        let p = Prepared { run, checkpoint: Some(checkpoint) };
        assert(p.run.channels@ == chs1);
        assert(p.run.versions@ == vers1);
        Ok(p)
    }

    /// The state of a thread at a checkpoint: the values its channels hold and
    /// the nodes that would run next.
    pub fn snapshot<R: Fn(RouterId, &ChannelValues) -> RouteDecision>(&self, route: &R, tuple: CheckpointTuple) -> (r: StateSnapshot)
        requires
            router_ok(*route),
        ensures
            exists|chs: Map<Seq<char>, Channel<F>>| restored_from(self.specs(), Some(tuple), chs)
                && r.values@ == #[trigger] read_spec(chs),
            match pause_target(self.topology(), *route, tuple) {
                Some(n) => r.next@.len() == 1 && r.next@[0]@ == n,
                None => r.next@.len() == 0,
            },
            r.created_at@ == tuple@.checkpoint.ts,
            r.checkpoint@ == tuple@,
    {
        let existing = Some(tuple);
        let channels = init_channels(&self.channel_specs, &existing);
        let values = read_channels(&channels);
        let tuple = existing.unwrap();
        let next = self.pregel.determine_next_nodes(route, &tuple);
        let created_at = tuple.checkpoint.ts.clone();
        StateSnapshot { values, next, checkpoint: tuple, created_at }
    }

    /// Prepares an update of a thread's state from outside: the channels are
    /// restored from the thread's latest checkpoint (if any), the values are
    /// applied, the node `as_node` (if given) is marked as having seen the new
    /// versions, and the update checkpoint is built for storing.
    pub fn prepare_update(
        &self,
        existing: Option<CheckpointTuple>,
        values: ChannelValues,
        as_node: Option<&str>,
    ) -> (r: Result<(Checkpoint, CheckpointMetadata), AgentError>)
        requires
            channels_ready(self.specs()),
            versions_below_max(versions_from(existing)),
            existing matches Some(t) ==> t.metadata.step < i64::MAX,
        ensures
            match r {
                Ok(c) => exists|mid: Map<Seq<char>, Channel<F>>, chs: Map<Seq<char>, Channel<F>>, vers: Map<Seq<char>, u64>|
                    restored_from(self.specs(), existing, mid)
                    && #[trigger] updates_applied(mid, chs, single_batches(values@), values@.dom(), versions_from(existing), vers)
                    && checkpoint_made(c.0, c.1, chs, vers,
                        match as_node {
                            Some(n) => seen_from(existing).insert(n@, vers),
                            None => seen_from(existing),
                        },
                        CheckpointSource::Update, step_after(existing), id_of(existing), values@),
                Err(e) => exists|mid: Map<Seq<char>, Channel<F>>, after: Map<Seq<char>, Channel<F>>|
                    restored_from(self.specs(), existing, mid)
                    && #[trigger] update_failed(mid, after, single_batches(values@), values@.dom(), e),
            },
    {
        let mut channels = init_channels(&self.channel_specs, &existing);
        let mut versions = copy_versions(&existing);
        let mut versions_seen = copy_seen(&existing);
        match apply_updates(&mut channels, &values, &mut versions) {
            Ok(()) => {},
            Err(e) => {
                return Err(e);
            },
        }
        match as_node {
            Some(n) => {
                versions_seen.insert(String::from_str(n), versions.copy_map());
            },
            None => {},
        }
        let step: i64 = match &existing {
            Some(t) => t.metadata.step + 1,
            None => 0,
        };
        let parent: Option<&str> = match &existing {
            Some(t) => Some(t.checkpoint.id.as_str()),
            None => None,
        };
        Ok(make_checkpoint(&channels, &versions, &versions_seen, CheckpointSource::Update, step, parent, values))
    }
}

} // verus!
