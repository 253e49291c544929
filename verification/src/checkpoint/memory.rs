//! A checkpoint store held in memory.
//!
//! Checkpoints are kept per thread and per checkpoint id, with the writes put
//! for each checkpoint. Nothing outlives the process; it serves tests and
//! development.

use vstd::prelude::*;
use crate::checkpoint::types::{
    Checkpoint, CheckpointMetadata, CheckpointMetadataView, CheckpointTuple, CheckpointTupleView,
    CheckpointView, PendingWrite, PendingWriteView, copy_opt_str, copy_writes, opt_str, writes_view,
};
use crate::strmap::{Duplicate, StrMap};
use crate::text::{lemma_text_order, str_lt, text_lt};

verus! {

/// A checkpoint as the store keeps it: with its metadata and its parent's id.
struct StoredCheckpoint {
    checkpoint: Checkpoint,
    metadata: CheckpointMetadata,
    parent: Option<String>,
}

/// The view of a stored checkpoint.
pub struct StoredView {
    pub checkpoint: CheckpointView,
    pub metadata: CheckpointMetadataView,
    pub parent: Option<Seq<char>>,
}

impl View for StoredCheckpoint {
    type V = StoredView;

    closed spec fn view(&self) -> StoredView {
        StoredView { checkpoint: self.checkpoint@, metadata: self.metadata@, parent: opt_str(self.parent) }
    }
}

/// The writes put for one checkpoint, in the order they were put.
struct WriteLog {
    writes: Vec<PendingWrite>,
}

impl View for WriteLog {
    type V = Seq<PendingWriteView>;

    closed spec fn view(&self) -> Seq<PendingWriteView> {
        writes_view(self.writes@)
    }
}

/// An in-memory checkpoint store.
pub struct MemorySaver {
    storage: StrMap<StrMap<StoredCheckpoint>>,
    writes: StrMap<StrMap<WriteLog>>,
}

/// The contents of a store: the checkpoints by thread and id, and the writes by
/// thread and checkpoint id.
pub struct SaverView {
    pub storage: Map<Seq<char>, Map<Seq<char>, StoredView>>,
    pub writes: Map<Seq<char>, Map<Seq<char>, Seq<PendingWriteView>>>,
}

impl View for MemorySaver {
    type V = SaverView;

    closed spec fn view(&self) -> SaverView {
        SaverView { storage: self.storage@, writes: self.writes@ }
    }
}

/// The checkpoints of thread `t` by id (none for an unknown thread).
pub open spec fn thread_entries(m: SaverView, t: Seq<char>) -> Map<Seq<char>, StoredView> {
    if m.storage.contains_key(t) { m.storage[t] } else { Map::empty() }
}

/// The writes put for checkpoint `id` of thread `t` (none when nothing was put).
pub open spec fn pending_of(m: SaverView, t: Seq<char>, id: Seq<char>) -> Seq<PendingWriteView> {
    if m.writes.contains_key(t) && m.writes[t].contains_key(id) { m.writes[t][id] } else { Seq::empty() }
}

/// Every checkpoint is stored under its own id.
pub open spec fn ids_match(s: Map<Seq<char>, Map<Seq<char>, StoredView>>) -> bool {
    forall|t: Seq<char>, k: Seq<char>| s.contains_key(t) && #[trigger] s[t].contains_key(k)
        ==> s[t][k].checkpoint.id == k
}

/// The record of checkpoint `k` of thread `t` with the given pending writes.
pub open spec fn record(m: SaverView, t: Seq<char>, k: Seq<char>, pending: Seq<PendingWriteView>) -> CheckpointTupleView {
    let e = thread_entries(m, t)[k];
    CheckpointTupleView {
        thread_id: t,
        checkpoint: e.checkpoint,
        metadata: e.metadata,
        parent_checkpoint_id: e.parent,
        pending_writes: pending,
    }
}

/// The record `get_tuple` returns for checkpoint `k` of thread `t`: with the
/// writes put for it.
pub open spec fn tuple_at(m: SaverView, t: Seq<char>, k: Seq<char>) -> CheckpointTupleView {
    record(m, t, k, pending_of(m, t, thread_entries(m, t)[k].checkpoint.id))
}

/// The record `list` returns for checkpoint `k` of thread `t`: without writes.
pub open spec fn listed_at(m: SaverView, t: Seq<char>, k: Seq<char>) -> CheckpointTupleView {
    record(m, t, k, Seq::empty())
}

/// The timestamp of checkpoint `k` of thread `t`.
pub open spec fn ts_of(m: SaverView, t: Seq<char>, k: Seq<char>) -> Seq<char> {
    thread_entries(m, t)[k].checkpoint.ts
}

/// Checkpoint `k` is the latest of thread `t`: no other has a later timestamp.
pub open spec fn is_latest(m: SaverView, t: Seq<char>, k: Seq<char>) -> bool {
    &&& thread_entries(m, t).contains_key(k)
    &&& forall|o: Seq<char>| #[trigger] thread_entries(m, t).contains_key(o) ==> !text_lt(ts_of(m, t, k), ts_of(m, t, o))
}

/// The parent named in metadata: the value under the key "".
pub open spec fn parent_of(md: CheckpointMetadataView) -> Option<Seq<char>> {
    if md.parents.contains_key(Seq::empty()) { Some(md.parents[Seq::empty()]) } else { None }
}

/// The store after `put(t, cp, md)`.
pub open spec fn after_put(m: SaverView, t: Seq<char>, cp: CheckpointView, md: CheckpointMetadataView) -> SaverView {
    SaverView {
        storage: m.storage.insert(
            t,
            thread_entries(m, t).insert(cp.id, StoredView { checkpoint: cp, metadata: md, parent: parent_of(md) }),
        ),
        writes: m.writes,
    }
}

/// Writes as `put_writes` stores them: each keeps its channel and value and
/// takes the task id given to the call.
pub open spec fn with_task(ws: Seq<PendingWriteView>, task: Seq<char>) -> Seq<PendingWriteView> {
    ws.map_values(|w: PendingWriteView| PendingWriteView { task_id: task, channel: w.channel, value: w.value })
}

/// The store after `put_writes(t, id, ws, task)`: the writes go after those
/// already put for that checkpoint.
pub open spec fn after_writes(m: SaverView, t: Seq<char>, id: Seq<char>, ws: Seq<PendingWriteView>, task: Seq<char>) -> SaverView {
    let logs = if m.writes.contains_key(t) { m.writes[t] } else { Map::empty() };
    SaverView {
        storage: m.storage,
        writes: m.writes.insert(t, logs.insert(id, pending_of(m, t, id) + with_task(ws, task))),
    }
}

/// The store after `delete_thread(t)`.
pub open spec fn after_delete(m: SaverView, t: Seq<char>) -> SaverView {
    SaverView { storage: m.storage.remove(t), writes: m.writes.remove(t) }
}

/// What `list(t, limit)` returns: at most `limit` records of thread `t` (all of
/// them without a limit), latest first, each once, and none left out that is
/// later than one listed.
pub open spec fn listing(m: SaverView, t: Seq<char>, limit: Option<usize>, r: Seq<CheckpointTupleView>) -> bool {
    let es = thread_entries(m, t);
    &&& r.len() == match limit {
        Some(l) => if (l as int) < es.dom().len() { l as int } else { es.dom().len() as int },
        None => es.dom().len() as int,
    }
    &&& forall|i: int| 0 <= i < r.len() ==> #[trigger] es.contains_key(r[i].checkpoint.id)
        && r[i] == listed_at(m, t, r[i].checkpoint.id)
    &&& forall|i: int, j: int| 0 <= i < j < r.len() ==> r[i].checkpoint.id != r[j].checkpoint.id
    &&& forall|i: int, j: int| 0 <= i < j < r.len() ==> !text_lt(#[trigger] r[i].checkpoint.ts, #[trigger] r[j].checkpoint.ts)
    &&& forall|k: Seq<char>, i: int| #[trigger] es.contains_key(k) && 0 <= i < r.len()
        && (forall|j: int| 0 <= j < r.len() ==> r[j].checkpoint.id != k)
        ==> !text_lt(#[trigger] r[i].checkpoint.ts, ts_of(m, t, k))
}

/// The views of a sequence of records.
pub open spec fn tuples_view(s: Seq<CheckpointTuple>) -> Seq<CheckpointTupleView> {
    s.map_values(|x: CheckpointTuple| x@)
}

impl MemorySaver {
    #[verifier::type_invariant]
    spec fn inv(&self) -> bool {
        ids_match(self.storage@)
    }

    /// An empty store.
    pub fn new() -> (r: MemorySaver)
        ensures
            r@.storage == Map::<Seq<char>, Map<Seq<char>, StoredView>>::empty(),
            r@.writes == Map::<Seq<char>, Map<Seq<char>, Seq<PendingWriteView>>>::empty(),
    {
        MemorySaver { storage: StrMap::new(), writes: StrMap::new() }
    }

    /// Stores a checkpoint with its metadata under its thread and id, replacing
    /// one with the same id; returns the id.
    pub fn put(&mut self, thread_id: &str, checkpoint: Checkpoint, metadata: CheckpointMetadata) -> (r: String)
        ensures
            final(self)@ == after_put(old(self)@, thread_id@, checkpoint@, metadata@),
            r@ == checkpoint@.id,
    {
        proof {
            use_type_invariant(&*self);
            reveal_strlit("");
        }
        let ghost m0 = self@;
        let id = checkpoint.id.clone();
        let parent = match metadata.parents.get("") {
            Some(p) => Some(p.clone()),
            None => None,
        };
        assert(""@ =~= Seq::<char>::empty());
        assert(opt_str(parent) == parent_of(metadata@));
        let entry = StoredCheckpoint { checkpoint, metadata, parent };
        assert(entry@ == StoredView { checkpoint: checkpoint@, metadata: metadata@, parent: parent_of(metadata@) });
        let mut storage = StrMap::new();
        std::mem::swap(&mut storage, &mut self.storage);
        let mut inner = match storage.remove(thread_id) {
            Some(m) => m,
            None => StrMap::new(),
        };
        assert(inner@ == thread_entries(m0, thread_id@));
        let ghost removed = storage@;
        inner.insert(id.clone(), entry);
        let ghost inner_v = inner@;
        assert(inner_v == thread_entries(m0, thread_id@).insert(checkpoint@.id, entry@));
        storage.insert(String::from_str(thread_id), inner);
        assert(storage@ == removed.insert(thread_id@, inner_v));
        let ghost m1 = after_put(m0, thread_id@, checkpoint@, metadata@);
        assert(storage@ =~= m1.storage);
        proof {
            assert forall|t: Seq<char>, k: Seq<char>| m1.storage.contains_key(t) && #[trigger] m1.storage[t].contains_key(k)
                implies m1.storage[t][k].checkpoint.id == k by {
                if t != thread_id@ {
                    assert(m0.storage.contains_key(t));
                } else if k != checkpoint@.id {
                    assert(thread_entries(m0, t).contains_key(k));
                }
            }
        }
        self.storage = storage;
        id
    }

    /// Keeps `writes` for checkpoint `checkpoint_id` of a thread, after those
    /// already kept, each under the task id `task_id`.
    pub fn put_writes(&mut self, thread_id: &str, checkpoint_id: &str, writes: Vec<PendingWrite>, task_id: &str)
        ensures
            final(self)@ == after_writes(old(self)@, thread_id@, checkpoint_id@, writes_view(writes@), task_id@),
    {
        proof {
            use_type_invariant(&*self);
        }
        let ghost m0 = self@;
        let mut all = StrMap::new();
        std::mem::swap(&mut all, &mut self.writes);
        let mut logs = match all.remove(thread_id) {
            Some(m) => m,
            None => StrMap::new(),
        };
        let ghost all_removed = all@;
        let ghost logs0 = logs@;
        assert(logs0 == (if m0.writes.contains_key(thread_id@) { m0.writes[thread_id@] } else { Map::empty() }));
        let mut log = match logs.remove(checkpoint_id) {
            Some(l) => l,
            None => WriteLog { writes: Vec::new() },
        };
        assert(log@ == pending_of(m0, thread_id@, checkpoint_id@));
        let ghost before = log@;
        let mut i: usize = 0;
        while i < writes.len()
            invariant
                i <= writes.len(),
                log@ == before + with_task(writes_view(writes@), task_id@).take(i as int),
            decreases writes.len() - i,
        {
            let w = &writes[i];
            let ghost lv = log.writes@;
            let nw = PendingWrite { task_id: String::from_str(task_id), channel: w.channel.clone(), value: w.value.copy() };
            log.writes.push(nw);
            assert(writes_view(log.writes@) =~= writes_view(lv).push(nw@));
            assert(with_task(writes_view(writes@), task_id@).take(i + 1)
                =~= with_task(writes_view(writes@), task_id@).take(i as int).push(
                    PendingWriteView { task_id: task_id@, channel: w.channel@, value: w.value@ }));
            assert(log@ =~= before + with_task(writes_view(writes@), task_id@).take(i + 1));
            i = i + 1;
        }
        assert(with_task(writes_view(writes@), task_id@).take(writes.len() as int) =~= with_task(writes_view(writes@), task_id@));
        let ghost log_v = log@;
        logs.insert(String::from_str(checkpoint_id), log);
        assert(logs@ =~= logs0.insert(checkpoint_id@, log_v));
        let ghost logs_v = logs@;
        all.insert(String::from_str(thread_id), logs);
        assert(all@ == all_removed.insert(thread_id@, logs_v));
        let ghost m1 = after_writes(m0, thread_id@, checkpoint_id@, writes_view(writes@), task_id@);
        assert(all@ =~= m1.writes);
        self.writes = all;
    }

    /// Forgets every checkpoint and write of a thread.
    pub fn delete_thread(&mut self, thread_id: &str)
        ensures
            final(self)@ == after_delete(old(self)@, thread_id@),
    {
        proof {
            use_type_invariant(&*self);
        }
        let ghost m0 = self@;
        let mut storage = StrMap::new();
        std::mem::swap(&mut storage, &mut self.storage);
        storage.remove(thread_id);
        proof {
            let s1 = storage@;
            assert forall|t: Seq<char>, k: Seq<char>| s1.contains_key(t) && #[trigger] s1[t].contains_key(k)
                implies s1[t][k].checkpoint.id == k by {
                assert(m0.storage.contains_key(t));
            }
        }
        self.storage = storage;
        let mut all = StrMap::new();
        std::mem::swap(&mut all, &mut self.writes);
        all.remove(thread_id);
        self.writes = all;
    }

    /// The writes kept for checkpoint `id` of a thread.
    fn pending_copy(&self, thread_id: &str, id: &str) -> (r: Vec<PendingWrite>)
        ensures
            writes_view(r@) == pending_of(self@, thread_id@, id@),
    {
        match self.writes.get(thread_id) {
            Some(logs) => match logs.get(id) {
                Some(log) => copy_writes(&log.writes),
                None => {
                    let v: Vec<PendingWrite> = Vec::new();
                    assert(writes_view(v@) =~= Seq::<PendingWriteView>::empty());
                    v
                },
            },
            None => {
                let v: Vec<PendingWrite> = Vec::new();
                assert(writes_view(v@) =~= Seq::<PendingWriteView>::empty());
                v
            },
        }
    }

    /// The record of checkpoint `checkpoint_id` of a thread, or of its latest
    /// checkpoint (by timestamp) when no id is given; `None` when there is no
    /// such checkpoint. The record carries the writes kept for it.
    pub fn get_tuple(&self, thread_id: &str, checkpoint_id: Option<&str>) -> (r: Option<CheckpointTuple>)
        ensures
            match checkpoint_id {
                Some(cid) => match r {
                    Some(t) => thread_entries(self@, thread_id@).contains_key(cid@)
                        && t@ == tuple_at(self@, thread_id@, cid@),
                    None => !thread_entries(self@, thread_id@).contains_key(cid@),
                },
                None => match r {
                    Some(t) => is_latest(self@, thread_id@, t@.checkpoint.id)
                        && t@ == tuple_at(self@, thread_id@, t@.checkpoint.id),
                    None => thread_entries(self@, thread_id@).dom().is_empty(),
                },
            },
    {
        proof {
            use_type_invariant(self);
        }
        let inner = match self.storage.get(thread_id) {
            Some(m) => m,
            None => {
                assert(thread_entries(self@, thread_id@).dom() =~= Set::<Seq<char>>::empty());
                return None;
            },
        };
        let n = inner.len();
        let idx: usize = match checkpoint_id {
            Some(cid) => match inner.index_of(cid) {
                Some(i) => i,
                None => return None,
            },
            None => {
                if n == 0 {
                    assert(inner@.dom() =~= Set::<Seq<char>>::empty());
                    return None;
                }
                let mut best: usize = 0;
                let mut i: usize = 1;
                proof {
                    let t0 = inner.value_view_at(0).checkpoint.ts;
                    lemma_text_order(t0, t0, t0);
                }
                while i < n
                    invariant
                        n == inner.keys_seq().len(),
                        0 <= best < n,
                        1 <= i <= n,
                        forall|j: int| 0 <= j < i ==> !text_lt(
                            inner.value_view_at(best as int).checkpoint.ts,
                            #[trigger] inner.value_view_at(j).checkpoint.ts,
                        ),
                    decreases n - i,
                {
                    let cand = inner.value_at(i);
                    let cur = inner.value_at(best);
                    if str_lt(cur.checkpoint.ts.as_str(), cand.checkpoint.ts.as_str()) {
                        proof {
                            assert forall|j: int| 0 <= j < i + 1 implies !text_lt(
                                inner.value_view_at(i as int).checkpoint.ts,
                                #[trigger] inner.value_view_at(j).checkpoint.ts,
                            ) by {
                                lemma_text_order(
                                    inner.value_view_at(best as int).checkpoint.ts,
                                    inner.value_view_at(i as int).checkpoint.ts,
                                    inner.value_view_at(j).checkpoint.ts,
                                );
                                lemma_text_order(
                                    inner.value_view_at(i as int).checkpoint.ts,
                                    inner.value_view_at(j).checkpoint.ts,
                                    inner.value_view_at(best as int).checkpoint.ts,
                                );
                            }
                        }
                        best = i;
                    } else {
                        proof {
                            lemma_text_order(
                                inner.value_view_at(best as int).checkpoint.ts,
                                inner.value_view_at(i as int).checkpoint.ts,
                                inner.value_view_at(i as int).checkpoint.ts,
                            );
                        }
                    }
                    i = i + 1;
                }
                proof {
                    let es = thread_entries(self@, thread_id@);
                    assert forall|o: Seq<char>| #[trigger] es.contains_key(o) implies
                        !text_lt(es[inner.keys_seq()[best as int]].checkpoint.ts, es[o].checkpoint.ts) by {
                        let j = inner.keys_seq().index_of(o);
                        assert(inner.keys_seq()[j] == o);
                    }
                    assert(self.storage@[thread_id@].contains_key(inner.keys_seq()[best as int]));
                    assert(es[inner.keys_seq()[best as int]].checkpoint.id == inner.keys_seq()[best as int]);
                }
                best
            },
        };
        let e = inner.value_at(idx);
        let pending = self.pending_copy(thread_id, e.checkpoint.id.as_str());
        proof {
            assert(self.storage@[thread_id@].contains_key(inner.keys_seq()[idx as int]));
            assert(thread_entries(self@, thread_id@)[inner.keys_seq()[idx as int]].checkpoint.id == inner.keys_seq()[idx as int]);
        }
        Some(record_of(thread_id, e, pending))
    }

    /// The records of a thread's checkpoints, latest first (by timestamp), at
    /// most `limit` of them; they carry no writes.
    pub fn list(&self, thread_id: &str, limit: Option<usize>) -> (r: Vec<CheckpointTuple>)
        ensures
            listing(self@, thread_id@, limit, tuples_view(r@)),
    {
        proof {
            use_type_invariant(self);
        }
        let ghost m = self@;
        let ghost t = thread_id@;
        let inner = match self.storage.get(thread_id) {
            Some(x) => x,
            None => {
                let v: Vec<CheckpointTuple> = Vec::new();
                assert(thread_entries(m, t).dom() =~= Set::<Seq<char>>::empty());
                assert(tuples_view(v@) =~= Seq::<CheckpointTupleView>::empty());
                return v;
            },
        };
        let n = inner.len();
        let cap = match limit {
            Some(l) => if l < n { l } else { n },
            None => n,
        };
        let ghost ks = inner.keys_seq();
        let mut remaining: Vec<usize> = Vec::new();
        let mut x: usize = 0;
        while x < n
            invariant
                x <= n,
                remaining@.len() == x,
                forall|a: int| 0 <= a < x ==> #[trigger] remaining@[a] == a,
            decreases n - x,
        {
            remaining.push(x);
            x = x + 1;
        }
        let mut out: Vec<CheckpointTuple> = Vec::new();
        let ghost mut chosen: Seq<int> = Seq::empty();
        assert forall|y: int| 0 <= y < n implies chosen.contains(y) || remaining@.contains(y as usize) by {
            assert(remaining@[y] == y as usize);
        }
        while out.len() < cap
            invariant
                t == thread_id@,
                n == ks.len(),
                out.len() <= cap,
                ks == inner.keys_seq(),
                cap <= n,
                out.len() == chosen.len(),
                remaining.len() + chosen.len() == n,
                forall|a: int| 0 <= a < remaining.len() ==> #[trigger] remaining@[a] < n,
                forall|a: int| 0 <= a < chosen.len() ==> 0 <= #[trigger] chosen[a] < n,
                forall|a: int, b: int| 0 <= a < b < remaining.len() ==> remaining@[a] != remaining@[b],
                forall|a: int, b: int| 0 <= a < b < chosen.len() ==> chosen[a] != chosen[b],
                forall|a: int, b: int| 0 <= a < remaining.len() && 0 <= b < chosen.len() ==> remaining@[a] != chosen[b],
                forall|y: int| 0 <= y < n ==> chosen.contains(y) || remaining@.contains(y as usize),
                forall|a: int| 0 <= a < out.len() ==> #[trigger] out@[a]@ == (CheckpointTupleView {
                    thread_id: t,
                    checkpoint: inner.value_view_at(chosen[a]).checkpoint,
                    metadata: inner.value_view_at(chosen[a]).metadata,
                    parent_checkpoint_id: inner.value_view_at(chosen[a]).parent,
                    pending_writes: Seq::empty(),
                }),
                forall|a: int, b: int| 0 <= a < b < chosen.len() ==> !text_lt(
                    #[trigger] inner.value_view_at(chosen[a]).checkpoint.ts,
                    #[trigger] inner.value_view_at(chosen[b]).checkpoint.ts,
                ),
                forall|a: int, c: int| 0 <= a < chosen.len() && 0 <= c < remaining.len() ==> !text_lt(
                    #[trigger] inner.value_view_at(chosen[a]).checkpoint.ts,
                    #[trigger] inner.value_view_at(remaining@[c] as int).checkpoint.ts,
                ),
            decreases cap - out.len(),
        {
            let mut p: usize = 0;
            let mut q: usize = 1;
            proof {
                let t0 = inner.value_view_at(remaining@[0] as int).checkpoint.ts;
                lemma_text_order(t0, t0, t0);
            }
            while q < remaining.len()
                invariant
                    n == inner.keys_seq().len(),
                    0 < remaining.len(),
                    forall|a: int| 0 <= a < remaining.len() ==> #[trigger] remaining@[a] < n,
                    0 <= p < remaining.len(),
                    1 <= q <= remaining.len(),
                    forall|c: int| 0 <= c < q ==> !text_lt(
                        inner.value_view_at(remaining@[p as int] as int).checkpoint.ts,
                        #[trigger] inner.value_view_at(remaining@[c] as int).checkpoint.ts,
                    ),
                decreases remaining.len() - q,
            {
                let cand = inner.value_at(remaining[q]);
                let cur = inner.value_at(remaining[p]);
                let ghost tp = inner.value_view_at(remaining@[p as int] as int).checkpoint.ts;
                let ghost tq = inner.value_view_at(remaining@[q as int] as int).checkpoint.ts;
                if str_lt(cur.checkpoint.ts.as_str(), cand.checkpoint.ts.as_str()) {
                    proof {
                        assert forall|c: int| 0 <= c < q + 1 implies !text_lt(
                            tq,
                            #[trigger] inner.value_view_at(remaining@[c] as int).checkpoint.ts,
                        ) by {
                            let tc = inner.value_view_at(remaining@[c] as int).checkpoint.ts;
                            lemma_text_order(tp, tq, tc);
                            lemma_text_order(tq, tc, tp);
                        }
                    }
                    p = q;
                } else {
                    proof {
                        lemma_text_order(tp, tq, tq);
                    }
                }
                q = q + 1;
            }
            let ghost rem0 = remaining@;
            let ghost tp = inner.value_view_at(rem0[p as int] as int).checkpoint.ts;
            let idx = remaining.remove(p);
            let e = inner.value_at(idx);
            let v: Vec<PendingWrite> = Vec::new();
            assert(writes_view(v@) =~= Seq::<PendingWriteView>::empty());
            let rec = record_of(thread_id, e, v);
            assert(e@ == inner.value_view_at(idx as int));
            assert(rec@.checkpoint == inner.value_view_at(idx as int).checkpoint);
            assert(rec@.pending_writes == Seq::<PendingWriteView>::empty());
            let ghost out0 = out@;
            out.push(rec);
            assert(out@[out0.len() as int] == rec);
            proof {
                assert(rem0[p as int] == idx);
                assert forall|c: int| 0 <= c < remaining.len() implies #[trigger] remaining@[c] == rem0[if c < p { c } else { c + 1 }] by {}
                assert forall|a: int| 0 <= a < chosen.len() implies !text_lt(
                    inner.value_view_at(chosen[a]).checkpoint.ts, tp) by {
                    assert(rem0[p as int] == idx);
                }
                let ghost ch1 = chosen.push(idx as int);
                assert forall|y: int| 0 <= y < n implies ch1.contains(y) || remaining@.contains(y as usize) by {
                    if chosen.contains(y) {
                        let a = chosen.index_of(y);
                        assert(ch1[a] == y);
                    } else {
                        assert(rem0.contains(y as usize));
                        let c0 = rem0.index_of(y as usize);
                        assert(rem0[c0] == y as usize);
                        if c0 == p {
                            assert(ch1[chosen.len() as int] == y);
                        } else if c0 < p {
                            assert(remaining@[c0] == y as usize);
                        } else {
                            assert(remaining@[c0 - 1] == y as usize);
                        }
                    }
                }
                assert(out@[chosen.len() as int]@ == (CheckpointTupleView {
                    thread_id: t,
                    checkpoint: inner.value_view_at(ch1[chosen.len() as int]).checkpoint,
                    metadata: inner.value_view_at(ch1[chosen.len() as int]).metadata,
                    parent_checkpoint_id: inner.value_view_at(ch1[chosen.len() as int]).parent,
                    pending_writes: Seq::empty(),
                }));
                chosen = ch1;
            }
        }
        proof {
            let r = tuples_view(out@);
            assert(r.len() == out.len());
            assert forall|a: int| 0 <= a < r.len() implies #[trigger] r[a] == out@[a]@ by {}
            let es = thread_entries(m, t);
            assert(es == inner@);
            assert forall|a: int| 0 <= a < r.len() implies #[trigger] es.contains_key(r[a].checkpoint.id)
                && r[a] == listed_at(m, t, r[a].checkpoint.id) by {
                let key = ks[chosen[a]];
                assert(es.contains_key(key));
                assert(m.storage[t].contains_key(key));
                assert(es[key] == inner.value_view_at(chosen[a]));
            }
            assert forall|a: int, b: int| 0 <= a < b < r.len() implies r[a].checkpoint.id != r[b].checkpoint.id by {
                let ka = ks[chosen[a]];
                let kb = ks[chosen[b]];
                assert(m.storage[t].contains_key(ka));
                assert(m.storage[t].contains_key(kb));
                assert(es[ka] == inner.value_view_at(chosen[a]));
                assert(es[kb] == inner.value_view_at(chosen[b]));
            }
            assert forall|a: int, b: int| 0 <= a < b < r.len() implies !text_lt(#[trigger] r[a].checkpoint.ts, #[trigger] r[b].checkpoint.ts) by {
                assert(r[a] == out@[a]@);
                assert(r[b] == out@[b]@);
            }
            assert forall|k: Seq<char>, i: int| #[trigger] es.contains_key(k) && 0 <= i < r.len()
                && (forall|j: int| 0 <= j < r.len() ==> r[j].checkpoint.id != k)
                implies !text_lt(#[trigger] r[i].checkpoint.ts, ts_of(m, t, k)) by {
                let y = ks.index_of(k);
                assert(ks[y] == k);
                assert(m.storage[t].contains_key(k));
                assert(es[k] == inner.value_view_at(y));
                if chosen.contains(y) {
                    let a = chosen.index_of(y);
                    assert(chosen[a] == y);
                    assert(r[a].checkpoint.id == inner.value_view_at(y).checkpoint.id);
                    assert(false);
                }
                assert(remaining@.contains(y as usize));
                let c = remaining@.index_of(y as usize);
                assert(remaining@[c] == y);
                assert(r[i] == out@[i]@);
            }
            assert(r.len() == match limit {
                Some(l) => if (l as int) < es.dom().len() { l as int } else { es.dom().len() as int },
                None => es.dom().len() as int,
            });
        }
        out
    }
}

/// A checkpoint that was put is read back by its id: with its metadata, the
/// parent its metadata names, and the writes kept for its id.
pub proof fn lemma_put_then_get(m: SaverView, t: Seq<char>, cp: CheckpointView, md: CheckpointMetadataView)
    ensures
        thread_entries(after_put(m, t, cp, md), t).contains_key(cp.id),
        tuple_at(after_put(m, t, cp, md), t, cp.id) == (CheckpointTupleView {
            thread_id: t,
            checkpoint: cp,
            metadata: md,
            parent_checkpoint_id: parent_of(md),
            pending_writes: pending_of(m, t, cp.id),
        }),
{
}

/// A put on one thread leaves every other thread's checkpoints and writes as
/// they were.
pub proof fn lemma_threads_isolated(m: SaverView, t: Seq<char>, u: Seq<char>, cp: CheckpointView, md: CheckpointMetadataView, id: Seq<char>)
    requires
        t != u,
    ensures
        thread_entries(after_put(m, t, cp, md), u) == thread_entries(m, u),
        pending_of(after_put(m, t, cp, md), u, id) == pending_of(m, u, id),
{
}

/// A checkpoint put with a timestamp no earlier than any other of its thread
/// is the latest of its thread.
pub proof fn lemma_put_latest(m: SaverView, t: Seq<char>, cp: CheckpointView, md: CheckpointMetadataView)
    requires
        forall|k: Seq<char>| #[trigger] thread_entries(m, t).contains_key(k) ==> !text_lt(cp.ts, ts_of(m, t, k)),
    ensures
        is_latest(after_put(m, t, cp, md), t, cp.id),
{
    let m1 = after_put(m, t, cp, md);
    assert forall|o: Seq<char>| #[trigger] thread_entries(m1, t).contains_key(o) implies !text_lt(ts_of(m1, t, cp.id), ts_of(m1, t, o)) by {
        if o == cp.id {
            lemma_text_order(cp.ts, cp.ts, cp.ts);
        } else {
            assert(thread_entries(m, t).contains_key(o));
        }
    }
}

/// Writes put for a checkpoint come after those already kept for it, each under
/// the task id of the call; checkpoints are untouched.
pub proof fn lemma_writes_accumulate(m: SaverView, t: Seq<char>, id: Seq<char>, ws: Seq<PendingWriteView>, task: Seq<char>)
    ensures
        pending_of(after_writes(m, t, id, ws, task), t, id) == pending_of(m, t, id) + with_task(ws, task),
        after_writes(m, t, id, ws, task).storage == m.storage,
        with_task(ws, task).len() == ws.len(),
        forall|i: int| 0 <= i < ws.len() ==> (#[trigger] with_task(ws, task)[i]).channel == ws[i].channel
            && with_task(ws, task)[i].value == ws[i].value && with_task(ws, task)[i].task_id == task,
{
}

/// Deleting a thread forgets all its checkpoints and writes, and nothing of any
/// other thread.
pub proof fn lemma_delete_thread(m: SaverView, t: Seq<char>, u: Seq<char>, id: Seq<char>)
    ensures
        thread_entries(after_delete(m, t), t).dom().is_empty(),
        pending_of(after_delete(m, t), t, id) == Seq::<PendingWriteView>::empty(),
        u != t ==> thread_entries(after_delete(m, t), u) == thread_entries(m, u),
        u != t ==> pending_of(after_delete(m, t), u, id) == pending_of(m, u, id),
{
    assert(thread_entries(after_delete(m, t), t).dom() =~= Set::<Seq<char>>::empty());
}

/// The record of a stored checkpoint of a thread, with the given writes.
fn record_of(thread_id: &str, e: &StoredCheckpoint, pending: Vec<PendingWrite>) -> (r: CheckpointTuple)
    ensures
        r@ == (CheckpointTupleView {
            thread_id: thread_id@,
            checkpoint: e@.checkpoint,
            metadata: e@.metadata,
            parent_checkpoint_id: e@.parent,
            pending_writes: writes_view(pending@),
        }),
{
    CheckpointTuple {
        thread_id: String::from_str(thread_id),
        checkpoint: e.checkpoint.duplicate(),
        metadata: e.metadata.duplicate(),
        parent_checkpoint_id: copy_opt_str(&e.parent),
        pending_writes: pending,
    }
}

impl Default for MemorySaver {
    fn default() -> (r: Self)
        ensures
            r@.storage == Map::<Seq<char>, Map<Seq<char>, StoredView>>::empty(),
            r@.writes == Map::<Seq<char>, Map<Seq<char>, Seq<PendingWriteView>>>::empty(),
    {
        MemorySaver::new()
    }
}

} // verus!
