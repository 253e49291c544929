//! Checkpoint records.
//!
//! A `Checkpoint` is a snapshot of every persisted channel with its version; a
//! `CheckpointMetadata` says where it came from; a `CheckpointTuple` is what a
//! store hands back; a `PendingWrite` is a write kept for a resumed run.

use vstd::prelude::*;
use crate::channels::base::{ChannelValues, ChannelVersions};
use crate::json::{JsonValue, JsonView, seq_view};
use crate::strmap::{StrMap, Duplicate};

verus! {

/// The schema version of checkpoints.
pub const CHECKPOINT_VERSION: u32 = 1;

/// A snapshot of the channels at one moment.
#[derive(Debug)]
pub struct Checkpoint {
    pub v: u32,
    pub id: String,
    pub ts: String,
    pub channel_values: ChannelValues,
    pub channel_versions: ChannelVersions,
    /// The channel versions each node last saw.
    pub versions_seen: StrMap<ChannelVersions>,
    pub pending_sends: Vec<JsonValue>,
}

/// The view of a checkpoint.
pub struct CheckpointView {
    pub v: u32,
    pub id: Seq<char>,
    pub ts: Seq<char>,
    pub channel_values: Map<Seq<char>, JsonView>,
    pub channel_versions: Map<Seq<char>, u64>,
    pub versions_seen: Map<Seq<char>, Map<Seq<char>, u64>>,
    pub pending_sends: Seq<JsonView>,
}

impl View for Checkpoint {
    type V = CheckpointView;

    open spec fn view(&self) -> CheckpointView {
        CheckpointView {
            v: self.v,
            id: self.id@,
            ts: self.ts@,
            channel_values: self.channel_values@,
            channel_versions: self.channel_versions@,
            versions_seen: self.versions_seen@,
            pending_sends: seq_view(self.pending_sends@),
        }
    }
}

/// Copies a vector of values.
pub fn copy_values(v: &Vec<JsonValue>) -> (r: Vec<JsonValue>)
    ensures
        seq_view(r@) == seq_view(v@),
{
    let mut out: Vec<JsonValue> = Vec::new();
    let mut i: usize = 0;
    while i < v.len()
        invariant
            i <= v.len(),
            out.len() == i,
            forall|j: int| 0 <= j < i ==> #[trigger] out@[j]@ == v@[j]@,
        decreases v.len() - i,
    {
        out.push(v[i].copy());
        i = i + 1;
    }
    assert(seq_view(out@) =~= seq_view(v@));
    out
}

impl Duplicate for Checkpoint {
    fn duplicate(&self) -> (r: Self) {
        Checkpoint {
            v: self.v,
            id: self.id.clone(),
            ts: self.ts.clone(),
            channel_values: self.channel_values.copy_map(),
            channel_versions: self.channel_versions.copy_map(),
            versions_seen: self.versions_seen.copy_map(),
            pending_sends: copy_values(&self.pending_sends),
        }
    }
}

impl Checkpoint {
    /// An empty initial checkpoint.
    pub fn empty() -> (r: Self)
        ensures
            r@.v == CHECKPOINT_VERSION,
            r@.id == Seq::<char>::empty(),
            r@.ts == Seq::<char>::empty(),
            r@.channel_values == Map::<Seq<char>, JsonView>::empty(),
            r@.channel_versions == Map::<Seq<char>, u64>::empty(),
            r@.versions_seen == Map::<Seq<char>, Map<Seq<char>, u64>>::empty(),
            r@.pending_sends == Seq::<JsonView>::empty(),
    {
        let r = Checkpoint {
            v: CHECKPOINT_VERSION,
            id: String::new(),
            ts: String::new(),
            channel_values: StrMap::new(),
            channel_versions: StrMap::new(),
            versions_seen: StrMap::new(),
            pending_sends: Vec::new(),
        };
        assert(seq_view(r.pending_sends@) =~= Seq::<JsonView>::empty());
        r
    }
}

/// Where a checkpoint came from.
#[derive(Debug, Clone, Copy, PartialEq, Eq, Structural)]
pub enum CheckpointSource {
    /// The input of an invocation.
    Input,
    /// A step of the graph loop.
    Loop,
    /// The start of a resumed run.
    Resume,
    /// A state update from outside.
    Update,
}

/// Where a checkpoint came from, which step it closes, what was written in that
/// step, and its parent checkpoint (under the key "").
#[derive(Debug)]
pub struct CheckpointMetadata {
    pub source: CheckpointSource,
    pub step: i64,
    pub writes: ChannelValues,
    pub parents: StrMap<String>,
}

/// The view of checkpoint metadata.
pub struct CheckpointMetadataView {
    pub source: CheckpointSource,
    pub step: i64,
    pub writes: Map<Seq<char>, JsonView>,
    pub parents: Map<Seq<char>, Seq<char>>,
}

impl View for CheckpointMetadata {
    type V = CheckpointMetadataView;

    open spec fn view(&self) -> CheckpointMetadataView {
        CheckpointMetadataView {
            source: self.source,
            step: self.step,
            writes: self.writes@,
            parents: self.parents@,
        }
    }
}

impl Duplicate for CheckpointMetadata {
    fn duplicate(&self) -> (r: Self) {
        CheckpointMetadata {
            source: self.source,
            step: self.step,
            writes: self.writes.copy_map(),
            parents: self.parents.copy_map(),
        }
    }
}

/// A write kept with a checkpoint for a later resume.
#[derive(Debug)]
pub struct PendingWrite {
    pub task_id: String,
    pub channel: String,
    pub value: JsonValue,
}

/// The view of a pending write.
pub struct PendingWriteView {
    pub task_id: Seq<char>,
    pub channel: Seq<char>,
    pub value: JsonView,
}

impl View for PendingWrite {
    type V = PendingWriteView;

    open spec fn view(&self) -> PendingWriteView {
        PendingWriteView { task_id: self.task_id@, channel: self.channel@, value: self.value@ }
    }
}

impl Duplicate for PendingWrite {
    fn duplicate(&self) -> (r: Self) {
        PendingWrite { task_id: self.task_id.clone(), channel: self.channel.clone(), value: self.value.copy() }
    }
}

/// The views of a sequence of pending writes.
pub open spec fn writes_view(s: Seq<PendingWrite>) -> Seq<PendingWriteView> {
    s.map_values(|w: PendingWrite| w@)
}

/// Copies a vector of pending writes.
pub fn copy_writes(v: &Vec<PendingWrite>) -> (r: Vec<PendingWrite>)
    ensures
        writes_view(r@) == writes_view(v@),
{
    let mut out: Vec<PendingWrite> = Vec::new();
    let mut i: usize = 0;
    while i < v.len()
        invariant
            i <= v.len(),
            out.len() == i,
            forall|j: int| 0 <= j < i ==> #[trigger] out@[j]@ == v@[j]@,
        decreases v.len() - i,
    {
        out.push(v[i].duplicate());
        i = i + 1;
    }
    assert(writes_view(out@) =~= writes_view(v@));
    out
}

/// A full checkpoint record as a store returns it.
#[derive(Debug)]
pub struct CheckpointTuple {
    pub thread_id: String,
    pub checkpoint: Checkpoint,
    pub metadata: CheckpointMetadata,
    pub parent_checkpoint_id: Option<String>,
    pub pending_writes: Vec<PendingWrite>,
}

/// The view of a checkpoint record.
pub struct CheckpointTupleView {
    pub thread_id: Seq<char>,
    pub checkpoint: CheckpointView,
    pub metadata: CheckpointMetadataView,
    pub parent_checkpoint_id: Option<Seq<char>>,
    pub pending_writes: Seq<PendingWriteView>,
}

/// The text of an optional string.
pub open spec fn opt_str(o: Option<String>) -> Option<Seq<char>> {
    match o {
        Some(s) => Some(s@),
        None => None,
    }
}

impl View for CheckpointTuple {
    type V = CheckpointTupleView;

    open spec fn view(&self) -> CheckpointTupleView {
        CheckpointTupleView {
            thread_id: self.thread_id@,
            checkpoint: self.checkpoint@,
            metadata: self.metadata@,
            parent_checkpoint_id: opt_str(self.parent_checkpoint_id),
            pending_writes: writes_view(self.pending_writes@),
        }
    }
}

/// Copies an optional string.
pub fn copy_opt_str(o: &Option<String>) -> (r: Option<String>)
    ensures
        opt_str(r) == opt_str(*o),
{
    match o {
        Some(s) => Some(s.clone()),
        None => None,
    }
}

impl Duplicate for CheckpointTuple {
    fn duplicate(&self) -> (r: Self) {
        CheckpointTuple {
            thread_id: self.thread_id.clone(),
            checkpoint: self.checkpoint.duplicate(),
            metadata: self.metadata.duplicate(),
            parent_checkpoint_id: copy_opt_str(&self.parent_checkpoint_id),
            pending_writes: copy_writes(&self.pending_writes),
        }
    }
}

} // verus!
