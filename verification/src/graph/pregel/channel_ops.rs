//! Channel operations shared by the engine and the compiled graph: create the
//! channels of a run, read them, snapshot them for a checkpoint, apply updates.

use vstd::prelude::*;
use crate::agent::error::{AgentError, error_text};
use crate::channels::base::{AnyChannel, ChannelValues, ChannelVersions};
use crate::channels::channel::Channel;
use crate::checkpoint::types::CheckpointTuple;
use crate::graph::task::TaskType;
use crate::json::{JsonValue, JsonView, opt_view, seq_view, json_view_entries, lemma_view_entries};
use crate::checkpoint::types::copy_values;
use crate::strmap::StrMap;

verus! {

/// Every channel may be updated: each reducer channel's reducer accepts every
/// pair of values.
pub open spec fn channels_ready<F: Fn(JsonValue, JsonValue) -> Result<JsonValue, String> + Copy>(
    chs: Map<Seq<char>, Channel<F>>,
) -> bool {
    forall|k: Seq<char>| #[trigger] chs.contains_key(k) ==> chs[k].can_update()
}

/// The current value of every non-empty channel.
pub open spec fn read_spec<F: Fn(JsonValue, JsonValue) -> Result<JsonValue, String> + Copy>(
    chs: Map<Seq<char>, Channel<F>>,
) -> Map<Seq<char>, JsonView> {
    Map::new(|k: Seq<char>| chs.contains_key(k) && chs[k].current() is Some, |k: Seq<char>| chs[k].current()->0)
}

/// The checkpoint value of every persistent channel that has one.
pub open spec fn snapshot_spec<F: Fn(JsonValue, JsonValue) -> Result<JsonValue, String> + Copy>(
    chs: Map<Seq<char>, Channel<F>>,
) -> Map<Seq<char>, JsonView> {
    Map::new(
        |k: Seq<char>| chs.contains_key(k) && chs[k].persists() && chs[k].saved() is Some,
        |k: Seq<char>| chs[k].saved()->0,
    )
}

/// The value a checkpoint holds for channel `k`.
pub open spec fn saved_value(cp: Option<CheckpointTuple>, k: Seq<char>) -> Option<JsonView> {
    match cp {
        Some(t) => if t@.checkpoint.channel_values.contains_key(k) {
            Some(t@.checkpoint.channel_values[k])
        } else {
            None
        },
        None => None,
    }
}

/// A channel's next version: one more than its current version (0 when it has none).
pub open spec fn bumped(vers: Map<Seq<char>, u64>, k: Seq<char>) -> int {
    (if vers.contains_key(k) { vers[k] as int } else { 0 }) + 1
}

/// Every version may still be increased.
pub open spec fn versions_below_max(vers: Map<Seq<char>, u64>) -> bool {
    forall|k: Seq<char>| #[trigger] vers.contains_key(k) ==> vers[k] < u64::MAX
}

/// Channel `k` took the batch `vals` and its version moved on exactly when the
/// channel reported a change.
pub open spec fn key_applied<F: Fn(JsonValue, JsonValue) -> Result<JsonValue, String> + Copy>(
    old_ch: Channel<F>,
    vals: Seq<JsonView>,
    new_ch: Channel<F>,
    old_vers: Map<Seq<char>, u64>,
    new_vers: Map<Seq<char>, u64>,
    k: Seq<char>,
) -> bool {
    ||| (old_ch.applies(vals, new_ch, Ok(true)) && new_vers.contains_key(k) && new_vers[k] == bumped(old_vers, k))
    ||| (old_ch.applies(vals, new_ch, Ok(false)) && new_vers.contains_key(k) == old_vers.contains_key(k)
        && (old_vers.contains_key(k) ==> new_vers[k] == old_vers[k]))
}

/// The channels of a run: one per spec, restored from the checkpoint's value
/// for it (or fresh when the checkpoint has none).
pub fn init_channels<F: Fn(JsonValue, JsonValue) -> Result<JsonValue, String> + Copy>(
    specs: &StrMap<Channel<F>>,
    checkpoint: &Option<CheckpointTuple>,
) -> (r: StrMap<Channel<F>>)
    ensures
        r@.dom() == specs@.dom(),
        forall|k: Seq<char>| #[trigger] r@.contains_key(k) ==> specs@[k].restores(saved_value(*checkpoint, k), r@[k]),
        channels_ready(specs@) ==> channels_ready(r@),
{
    let mut out: StrMap<Channel<F>> = StrMap::new();
    let n = specs.len();
    let mut i: usize = 0;
    while i < n
        invariant
            i <= n,
            n == specs.keys_seq().len(),
            specs.keys_seq().no_duplicates(),
            forall|k: Seq<char>| #[trigger] specs@.contains_key(k) <==> specs.keys_seq().contains(k),
            out@.dom() == specs.keys_seq().take(i as int).to_set(),
            forall|k: Seq<char>| #[trigger] out@.contains_key(k) ==> specs@[k].restores(saved_value(*checkpoint, k), out@[k]),
            channels_ready(specs@) ==> channels_ready(out@),
        decreases n - i,
    {
        let name = specs.key_at(i);
        let spec = specs.value_at(i);
        let saved: Option<JsonValue> = match checkpoint {
            Some(t) => match t.checkpoint.channel_values.get(name.as_str()) {
                Some(v) => Some(v.copy()),
                None => None,
            },
            None => None,
        };
        let ch = spec.from_checkpoint(saved);
        proof {
            assert(specs@.contains_key(name@)) by {
                assert(specs.keys_seq()[i as int] == name@);
            }
        }
        out.insert(name.clone(), ch);
        proof {
            let t0 = specs.keys_seq().take(i as int);
            let t1 = specs.keys_seq().take(i + 1);
            assert(t1 == t0.push(name@));
            assert forall|x: Seq<char>| t1.to_set().contains(x) <==> (t0.to_set().contains(x) || x == name@) by {
                if t1.contains(x) {
                    let j = choose|j: int| 0 <= j < t1.len() && t1[j] == x;
                    if j < i {
                        assert(t0[j] == x);
                    }
                }
                if t0.contains(x) {
                    let j = choose|j: int| 0 <= j < t0.len() && t0[j] == x;
                    assert(t1[j] == x);
                }
                if x == name@ {
                    assert(t1[i as int] == x);
                }
            }
            assert(out@.dom() =~= t1.to_set());
        }
        i = i + 1;
    }
    proof {
        assert(specs.keys_seq().take(n as int) == specs.keys_seq());
        assert(out@.dom() =~= specs@.dom());
    }
    out
}

/// The current value of every non-empty channel, in the channels' order.
pub fn read_channels<F: Fn(JsonValue, JsonValue) -> Result<JsonValue, String> + Copy>(
    channels: &StrMap<Channel<F>>,
) -> (r: ChannelValues)
    ensures
        r@ == read_spec(channels@),
{
    let mut out: ChannelValues = StrMap::new();
    let n = channels.len();
    let mut i: usize = 0;
    while i < n
        invariant
            i <= n,
            n == channels.keys_seq().len(),
            channels.keys_seq().no_duplicates(),
            forall|k: Seq<char>| #[trigger] channels@.contains_key(k) <==> channels.keys_seq().contains(k),
            forall|j: int| 0 <= j < channels.keys_seq().len() ==> #[trigger] channels@[channels.keys_seq()[j]] == channels.value_view_at(j),
            out@ == read_spec(channels@).restrict(channels.keys_seq().take(i as int).to_set()),
        decreases n - i,
    {
        let name = channels.key_at(i);
        let ch = channels.value_at(i);
        let ghost t0 = channels.keys_seq().take(i as int);
        let ghost t1 = channels.keys_seq().take(i + 1);
        proof {
            assert(t1 == t0.push(name@));
            assert forall|x: Seq<char>| t1.to_set().contains(x) <==> (t0.to_set().contains(x) || x == name@) by {
                if t1.contains(x) {
                    let j = choose|j: int| 0 <= j < t1.len() && t1[j] == x;
                    if j < i {
                        assert(t0[j] == x);
                    }
                }
                if t0.contains(x) {
                    let j = choose|j: int| 0 <= j < t0.len() && t0[j] == x;
                    assert(t1[j] == x);
                }
                if x == name@ {
                    assert(t1[i as int] == x);
                }
            }
            assert(channels@.contains_key(name@));
        }
        match ch.get() {
            Some(v) => {
                out.insert(name.clone(), v);
            },
            None => {},
        }
        proof {
            assert(out@ =~= read_spec(channels@).restrict(t1.to_set()));
        }
        i = i + 1;
    }
    proof {
        assert(channels.keys_seq().take(n as int) == channels.keys_seq());
        assert(out@ =~= read_spec(channels@));
    }
    out
}

/// The checkpoint value of every persistent channel that has one.
pub fn snapshot_channels<F: Fn(JsonValue, JsonValue) -> Result<JsonValue, String> + Copy>(
    channels: &StrMap<Channel<F>>,
) -> (r: ChannelValues)
    ensures
        r@ == snapshot_spec(channels@),
{
    let mut out: ChannelValues = StrMap::new();
    let n = channels.len();
    let mut i: usize = 0;
    while i < n
        invariant
            i <= n,
            n == channels.keys_seq().len(),
            channels.keys_seq().no_duplicates(),
            forall|k: Seq<char>| #[trigger] channels@.contains_key(k) <==> channels.keys_seq().contains(k),
            forall|j: int| 0 <= j < channels.keys_seq().len() ==> #[trigger] channels@[channels.keys_seq()[j]] == channels.value_view_at(j),
            out@ == snapshot_spec(channels@).restrict(channels.keys_seq().take(i as int).to_set()),
        decreases n - i,
    {
        let name = channels.key_at(i);
        let ch = channels.value_at(i);
        let ghost t0 = channels.keys_seq().take(i as int);
        let ghost t1 = channels.keys_seq().take(i + 1);
        proof {
            assert(t1 == t0.push(name@));
            assert forall|x: Seq<char>| t1.to_set().contains(x) <==> (t0.to_set().contains(x) || x == name@) by {
                if t1.contains(x) {
                    let j = choose|j: int| 0 <= j < t1.len() && t1[j] == x;
                    if j < i {
                        assert(t0[j] == x);
                    }
                }
                if t0.contains(x) {
                    let j = choose|j: int| 0 <= j < t0.len() && t0[j] == x;
                    assert(t1[j] == x);
                }
                if x == name@ {
                    assert(t1[i as int] == x);
                }
            }
            assert(channels@.contains_key(name@));
        }
        if ch.is_persistent() {
            match ch.checkpoint() {
                Some(v) => {
                    out.insert(name.clone(), v);
                },
                None => {},
            }
        }
        proof {
            assert(out@ =~= snapshot_spec(channels@).restrict(t1.to_set()));
        }
        i = i + 1;
    }
    proof {
        assert(channels.keys_seq().take(n as int) == channels.keys_seq());
        assert(out@ =~= snapshot_spec(channels@));
    }
    out
}

/// The update applied to each channel: for every channel named in `updates`,
/// the batch for it went in and its version moved on when it changed; every
/// other channel and version is as it was.
pub open spec fn updates_applied<F: Fn(JsonValue, JsonValue) -> Result<JsonValue, String> + Copy>(
    old_chs: Map<Seq<char>, Channel<F>>,
    new_chs: Map<Seq<char>, Channel<F>>,
    batches: Map<Seq<char>, Seq<JsonView>>,
    keys: Set<Seq<char>>,
    old_vers: Map<Seq<char>, u64>,
    new_vers: Map<Seq<char>, u64>,
) -> bool {
    &&& new_chs.dom() == old_chs.dom()
    &&& forall|k: Seq<char>| #[trigger] old_chs.contains_key(k) ==> if keys.contains(k) {
        key_applied(old_chs[k], batches[k], new_chs[k], old_vers, new_vers, k)
    } else {
        new_chs[k] == old_chs[k]
    }
    &&& forall|k: Seq<char>| !(old_chs.contains_key(k) && keys.contains(k)) ==>
        (#[trigger] new_vers.contains_key(k) == old_vers.contains_key(k) && (old_vers.contains_key(k) ==> new_vers[k] == old_vers[k]))
}

/// The error an update fails with: the channel `k` named in the batch failed
/// with `e0`, and the run reports it as a graph error with `e0`'s message.
pub open spec fn update_failed<F: Fn(JsonValue, JsonValue) -> Result<JsonValue, String> + Copy>(
    old_chs: Map<Seq<char>, Channel<F>>,
    new_chs: Map<Seq<char>, Channel<F>>,
    batches: Map<Seq<char>, Seq<JsonView>>,
    keys: Set<Seq<char>>,
    e: AgentError,
) -> bool {
    &&& new_chs.dom() == old_chs.dom()
    &&& exists|k: Seq<char>, e0: AgentError|
        old_chs.contains_key(k) && keys.contains(k)
        && #[trigger] old_chs[k].applies(batches[k], new_chs[k], Err(e0))
        && e is GraphError && e->GraphError_0@ == error_text(e0)
}

/// The batch a single-value update stands for.
pub open spec fn single_batches(updates: Map<Seq<char>, JsonView>) -> Map<Seq<char>, Seq<JsonView>> {
    updates.map_values(|v: JsonView| seq![v])
}

/// A channel to hold a slot while the real one is being updated.
fn placeholder<F>() -> (r: Channel<F>)
    ensures
        r is LastValue,
{
    Channel::LastValue(crate::channels::last_value::LastValue::new())
}

/// Applies one batch to the channel at position `j`.
pub(crate) fn apply_batch_at<F: Fn(JsonValue, JsonValue) -> Result<JsonValue, String> + Copy>(
    channels: &mut StrMap<Channel<F>>,
    j: usize,
    batch: Vec<JsonValue>,
) -> (r: Result<bool, AgentError>)
    requires
        j < old(channels).keys_seq().len(),
        channels_ready(old(channels)@),
    ensures
        final(channels).keys_seq() == old(channels).keys_seq(),
        final(channels)@ == old(channels)@.insert(old(channels).keys_seq()[j as int], final(channels)@[old(channels).keys_seq()[j as int]]),
        old(channels)@[old(channels).keys_seq()[j as int]].applies(seq_view(batch@), final(channels)@[old(channels).keys_seq()[j as int]], r),
        channels_ready(final(channels)@),
{
    let ghost key = channels.keys_seq()[j as int];
    let ghost before = channels@;
    let _ = channels.len();
    let mut ch = channels.replace_at(j, placeholder());
    proof {
        assert(before.contains_key(key));
    }
    let r = ch.update(batch);
    let ghost after_ch = ch;
    let _ = channels.replace_at(j, ch);
    proof {
        assert(channels@ =~= before.insert(key, after_ch));
        assert forall|k: Seq<char>| #[trigger] channels@.contains_key(k) implies channels@[k].can_update() by {
            if k != key {
                assert(before.contains_key(k));
            }
        }
    }
    r
}

/// Applies one value per channel named in `updates` (names without a channel
/// are ignored) and moves the version of every channel that changed.
#[verifier::loop_isolation(false)]
pub fn apply_updates<F: Fn(JsonValue, JsonValue) -> Result<JsonValue, String> + Copy>(
    channels: &mut StrMap<Channel<F>>,
    updates: &ChannelValues,
    versions: &mut ChannelVersions,
) -> (r: Result<(), AgentError>)
    requires
        channels_ready(old(channels)@),
        versions_below_max(old(versions)@),
    ensures
        channels_ready(final(channels)@),
        match r {
            Ok(()) => updates_applied(old(channels)@, final(channels)@, single_batches(updates@), updates@.dom(), old(versions)@, final(versions)@),
            Err(e) => update_failed(old(channels)@, final(channels)@, single_batches(updates@), updates@.dom(), e),
        },
{
    let ghost chs0 = channels@;
    let ghost vers0 = versions@;
    let ghost batches = single_batches(updates@);
    let n = updates.len();
    let mut i: usize = 0;
    while i < n
        invariant
            i <= n,
            n == updates.keys_seq().len(),
            updates.keys_seq().no_duplicates(),
            forall|k: Seq<char>| #[trigger] updates@.contains_key(k) <==> updates.keys_seq().contains(k),
            forall|j: int| 0 <= j < updates.keys_seq().len() ==> #[trigger] updates@[updates.keys_seq()[j]] == updates.value_view_at(j),
            channels_ready(channels@),
            updates_applied(chs0, channels@, batches, updates.keys_seq().take(i as int).to_set(), vers0, versions@),
            versions_below_max(vers0),
        decreases n - i,
    {
        let name = updates.key_at(i);
        let ghost t0 = updates.keys_seq().take(i as int);
        let ghost t1 = updates.keys_seq().take(i + 1);
        proof {
            assert(t1 == t0.push(name@));
            assert forall|x: Seq<char>| t1.to_set().contains(x) <==> (t0.to_set().contains(x) || x == name@) by {
                if t1.contains(x) {
                    let j = choose|j: int| 0 <= j < t1.len() && t1[j] == x;
                    if j < i {
                        assert(t0[j] == x);
                    }
                }
                if t0.contains(x) {
                    let j = choose|j: int| 0 <= j < t0.len() && t0[j] == x;
                    assert(t1[j] == x);
                }
                if x == name@ {
                    assert(t1[i as int] == x);
                }
            }
            assert(!t0.to_set().contains(name@)) by {
                if t0.contains(name@) {
                    let j = choose|j: int| 0 <= j < t0.len() && t0[j] == name@;
                    assert(updates.keys_seq()[j] == updates.keys_seq()[i as int]);
                }
            }
            assert(updates@.contains_key(name@));
        }
        match channels.index_of(name.as_str()) {
            Some(j) => {
                let v = updates.value_at(i).copy();
                let batch = vec![v];
                proof {
                    assert(seq_view(batch@) =~= batches[name@]);
                }
                let ghost chs_before = channels@;
                let ghost vers_before = versions@;
                let res = apply_batch_at(channels, j, batch);
                match res {
                    Err(e0) => {
                        let msg = e0.display();
                        proof {
                            assert(chs0.contains_key(name@));
                            assert(chs_before[name@] == chs0[name@]);
                            assert(channels@.dom() =~= chs0.dom());
                            assert(chs0[name@].applies(batches[name@], channels@[name@], Err(e0)));
                        }
                        return Err(AgentError::GraphError(msg));
                    },
                    Ok(changed) => {
                        if changed {
                            let cur: u64 = match versions.get(name.as_str()) {
                                Some(v) => *v,
                                None => 0,
                            };
                            proof {
                                assert(!vers_before.contains_key(name@) || vers_before[name@] == vers0[name@]);
                            }
                            versions.insert(name.clone(), cur + 1);
                        }
                        proof {
                            assert(chs0.contains_key(name@));
                            assert(chs_before[name@] == chs0[name@]);
                            assert(channels@.dom() =~= chs0.dom());
                            assert(key_applied(chs0[name@], batches[name@], channels@[name@], vers0, versions@, name@));
                            assert forall|k: Seq<char>| #[trigger] chs0.contains_key(k) implies (if t1.to_set().contains(k) {
                                key_applied(chs0[k], batches[k], channels@[k], vers0, versions@, k)
                            } else {
                                channels@[k] == chs0[k]
                            }) by {
                                if k != name@ {
                                    assert(channels@[k] == chs_before[k]);
                                    if t0.to_set().contains(k) {
                                        assert(key_applied(chs0[k], batches[k], chs_before[k], vers0, vers_before, k));
                                        assert(versions@.contains_key(k) == vers_before.contains_key(k));
                                        assert(vers_before.contains_key(k) ==> versions@[k] == vers_before[k]);
                                    }
                                }
                            }
                            assert forall|k: Seq<char>| !(chs0.contains_key(k) && t1.to_set().contains(k)) implies
                                (#[trigger] versions@.contains_key(k) == vers0.contains_key(k) && (vers0.contains_key(k) ==> versions@[k] == vers0[k])) by {
                                assert(k != name@);
                            }
                            assert(updates_applied(chs0, channels@, batches, t1.to_set(), vers0, versions@));
                        }
                    },
                }
            },
            None => {
                proof {
                    assert(updates_applied(chs0, channels@, batches, t1.to_set(), vers0, versions@));
                }
            },
        }
        i = i + 1;
    }
    proof {
        assert(updates.keys_seq().take(n as int) == updates.keys_seq());
        assert(updates.keys_seq().to_set() =~= updates@.dom());
    }
    Ok(())
}

/// The batches a grouped update stands for.
pub open spec fn group_batches(grouped: Map<Seq<char>, Seq<JsonValue>>) -> Map<Seq<char>, Seq<JsonView>> {
    grouped.map_values(|v: Seq<JsonValue>| seq_view(v))
}

/// Applies a batch of values per channel named in `grouped` (names without a
/// channel are ignored) and moves the version of every channel that changed.
/// Parallel tasks that wrote the same channel in one step reach it as one batch.
#[verifier::loop_isolation(false)]
pub fn apply_grouped_updates<F: Fn(JsonValue, JsonValue) -> Result<JsonValue, String> + Copy>(
    channels: &mut StrMap<Channel<F>>,
    grouped: &StrMap<Vec<JsonValue>>,
    versions: &mut ChannelVersions,
) -> (r: Result<(), AgentError>)
    requires
        channels_ready(old(channels)@),
        versions_below_max(old(versions)@),
    ensures
        channels_ready(final(channels)@),
        match r {
            Ok(()) => updates_applied(old(channels)@, final(channels)@, group_batches(grouped@), grouped@.dom(), old(versions)@, final(versions)@),
            Err(e) => update_failed(old(channels)@, final(channels)@, group_batches(grouped@), grouped@.dom(), e),
        },
{
    let ghost chs0 = channels@;
    let ghost vers0 = versions@;
    let ghost batches = group_batches(grouped@);
    let n = grouped.len();
    let mut i: usize = 0;
    while i < n
        invariant
            i <= n,
            n == grouped.keys_seq().len(),
            grouped.keys_seq().no_duplicates(),
            forall|k: Seq<char>| #[trigger] grouped@.contains_key(k) <==> grouped.keys_seq().contains(k),
            forall|j: int| 0 <= j < grouped.keys_seq().len() ==> #[trigger] grouped@[grouped.keys_seq()[j]] == grouped.value_view_at(j),
            channels_ready(channels@),
            updates_applied(chs0, channels@, batches, grouped.keys_seq().take(i as int).to_set(), vers0, versions@),
            versions_below_max(vers0),
        decreases n - i,
    {
        let name = grouped.key_at(i);
        let ghost t0 = grouped.keys_seq().take(i as int);
        let ghost t1 = grouped.keys_seq().take(i + 1);
        proof {
            assert(t1 == t0.push(name@));
            assert forall|x: Seq<char>| t1.to_set().contains(x) <==> (t0.to_set().contains(x) || x == name@) by {
                if t1.contains(x) {
                    let j = choose|j: int| 0 <= j < t1.len() && t1[j] == x;
                    if j < i {
                        assert(t0[j] == x);
                    }
                }
                if t0.contains(x) {
                    let j = choose|j: int| 0 <= j < t0.len() && t0[j] == x;
                    assert(t1[j] == x);
                }
                if x == name@ {
                    assert(t1[i as int] == x);
                }
            }
            assert(!t0.to_set().contains(name@)) by {
                if t0.contains(name@) {
                    let j = choose|j: int| 0 <= j < t0.len() && t0[j] == name@;
                    assert(grouped.keys_seq()[j] == grouped.keys_seq()[i as int]);
                }
            }
            assert(grouped@.contains_key(name@));
        }
        match channels.index_of(name.as_str()) {
            Some(j) => {
                let batch = copy_values(grouped.value_at(i));
                proof {
                    assert(seq_view(batch@) =~= batches[name@]);
                }
                let ghost chs_before = channels@;
                let ghost vers_before = versions@;
                let res = apply_batch_at(channels, j, batch);
                match res {
                    Err(e0) => {
                        let msg = e0.display();
                        proof {
                            assert(chs0.contains_key(name@));
                            assert(chs_before[name@] == chs0[name@]);
                            assert(channels@.dom() =~= chs0.dom());
                            assert(chs0[name@].applies(batches[name@], channels@[name@], Err(e0)));
                        }
                        return Err(AgentError::GraphError(msg));
                    },
                    Ok(changed) => {
                        if changed {
                            let cur: u64 = match versions.get(name.as_str()) {
                                Some(v) => *v,
                                None => 0,
                            };
                            proof {
                                assert(!vers_before.contains_key(name@) || vers_before[name@] == vers0[name@]);
                            }
                            versions.insert(name.clone(), cur + 1);
                        }
                        proof {
                            assert(chs0.contains_key(name@));
                            assert(chs_before[name@] == chs0[name@]);
                            assert(channels@.dom() =~= chs0.dom());
                            assert(key_applied(chs0[name@], batches[name@], channels@[name@], vers0, versions@, name@));
                            assert forall|k: Seq<char>| #[trigger] chs0.contains_key(k) implies (if t1.to_set().contains(k) {
                                key_applied(chs0[k], batches[k], channels@[k], vers0, versions@, k)
                            } else {
                                channels@[k] == chs0[k]
                            }) by {
                                if k != name@ {
                                    assert(channels@[k] == chs_before[k]);
                                    if t0.to_set().contains(k) {
                                        assert(key_applied(chs0[k], batches[k], chs_before[k], vers0, vers_before, k));
                                        assert(versions@.contains_key(k) == vers_before.contains_key(k));
                                        assert(vers_before.contains_key(k) ==> versions@[k] == vers_before[k]);
                                    }
                                }
                            }
                            assert forall|k: Seq<char>| !(chs0.contains_key(k) && t1.to_set().contains(k)) implies
                                (#[trigger] versions@.contains_key(k) == vers0.contains_key(k) && (vers0.contains_key(k) ==> versions@[k] == vers0[k])) by {
                                assert(k != name@);
                            }
                            assert(updates_applied(chs0, channels@, batches, t1.to_set(), vers0, versions@));
                        }
                    },
                }
            },
            None => {
                proof {
                    assert(updates_applied(chs0, channels@, batches, t1.to_set(), vers0, versions@));
                }
            },
        }
        i = i + 1;
    }
    proof {
        assert(grouped.keys_seq().take(n as int) == grouped.keys_seq());
        assert(grouped.keys_seq().to_set() =~= grouped@.dom());
    }
    Ok(())
}

/// `base` with the first `n` entries laid over it, later entries winning.
pub open spec fn overlay_entries(base: Map<Seq<char>, JsonView>, entries: Seq<(Seq<char>, JsonView)>, n: int) -> Map<Seq<char>, JsonView>
    decreases n,
{
    if n <= 0 {
        base
    } else {
        overlay_entries(base, entries, n - 1).insert(entries[n - 1].0, entries[n - 1].1)
    }
}

/// The input of a task: the channel values, with a PUSH task's arguments laid
/// over them when the arguments are an object.
pub open spec fn task_input(values: Map<Seq<char>, JsonView>, task_type: TaskType) -> Map<Seq<char>, JsonView> {
    match task_type {
        TaskType::Pull => values,
        TaskType::Push(args) => match args@ {
            JsonView::Object(entries) => overlay_entries(values, entries, entries.len() as int),
            _ => values,
        },
    }
}

/// Laying the first `n` entries over `base` sets each key to the value of its
/// last entry among them and keeps every other key of `base` as it was.
proof fn lemma_overlay_entries(base: Map<Seq<char>, JsonView>, entries: Seq<(Seq<char>, JsonView)>, n: int)
    requires
        0 <= n <= entries.len(),
    ensures
        forall|j: int| 0 <= j < n && (forall|k: int| j < k < n ==> #[trigger] entries[k].0 != entries[j].0) ==>
            overlay_entries(base, entries, n).contains_key(#[trigger] entries[j].0)
            && overlay_entries(base, entries, n)[entries[j].0] == entries[j].1,
        forall|key: Seq<char>| (forall|j: int| 0 <= j < n ==> #[trigger] entries[j].0 != key) ==>
            (#[trigger] overlay_entries(base, entries, n).contains_key(key) == base.contains_key(key))
            && (base.contains_key(key) ==> overlay_entries(base, entries, n)[key] == base[key]),
    decreases n,
{
    if n > 0 {
        lemma_overlay_entries(base, entries, n - 1);
        let prev = overlay_entries(base, entries, n - 1);
        let cur = overlay_entries(base, entries, n);
        assert(cur == prev.insert(entries[n - 1].0, entries[n - 1].1));
        assert forall|j: int| 0 <= j < n && (forall|k: int| j < k < n ==> #[trigger] entries[k].0 != entries[j].0) implies
            cur.contains_key(#[trigger] entries[j].0) && cur[entries[j].0] == entries[j].1 by {
            if j < n - 1 {
                assert(entries[n - 1].0 != entries[j].0);
                assert(forall|k: int| j < k < n - 1 ==> #[trigger] entries[k].0 != entries[j].0);
            }
        }
        assert forall|key: Seq<char>| (forall|j: int| 0 <= j < n ==> #[trigger] entries[j].0 != key) implies
            (#[trigger] cur.contains_key(key) == base.contains_key(key))
            && (base.contains_key(key) ==> cur[key] == base[key]) by {
            assert(entries[n - 1].0 != key);
            assert(forall|j: int| 0 <= j < n - 1 ==> #[trigger] entries[j].0 != key);
        }
    }
}

/// The input of a task: a PULL task gets the channel values as they are; a
/// PUSH task whose arguments are an object gets every key of its arguments
/// with the argument's value (the last entry of a key winning), and every
/// channel value its arguments do not name, unchanged.
pub proof fn lemma_task_input(values: Map<Seq<char>, JsonView>, args: JsonValue, entries: Seq<(Seq<char>, JsonView)>)
    requires
        args@ == JsonView::Object(entries),
    ensures
        task_input(values, TaskType::Pull) == values,
        forall|j: int| 0 <= j < entries.len() && (forall|k: int| j < k < entries.len() ==> #[trigger] entries[k].0 != entries[j].0) ==>
            task_input(values, TaskType::Push(args)).contains_key(#[trigger] entries[j].0)
            && task_input(values, TaskType::Push(args))[entries[j].0] == entries[j].1,
        forall|key: Seq<char>| (forall|j: int| 0 <= j < entries.len() ==> #[trigger] entries[j].0 != key) ==>
            (#[trigger] task_input(values, TaskType::Push(args)).contains_key(key) == values.contains_key(key))
            && (values.contains_key(key) ==> task_input(values, TaskType::Push(args))[key] == values[key]),
{
    lemma_overlay_entries(values, entries, entries.len() as int);
}

/// The input state of a task.
pub fn build_task_state<F: Fn(JsonValue, JsonValue) -> Result<JsonValue, String> + Copy>(
    channels: &StrMap<Channel<F>>,
    task_type: &TaskType,
) -> (r: ChannelValues)
    ensures
        r@ == task_input(read_spec(channels@), *task_type),
{
    let mut state = read_channels(channels);
    match task_type {
        TaskType::Pull => state,
        TaskType::Push(args) => {
            match args {
                JsonValue::Object(entries) => {
                    let ghost ev = json_view_entries(entries@);
                    let ghost base = state@;
                    proof {
                        lemma_view_entries(entries@);
                    }
                    let mut i: usize = 0;
                    while i < entries.len()
                        invariant
                            i <= entries.len(),
                            ev == json_view_entries(entries@),
                            ev.len() == entries.len(),
                            forall|j: int| 0 <= j < entries.len() ==> #[trigger] ev[j] == (entries@[j].0@, entries@[j].1@),
                            state@ == overlay_entries(base, ev, i as int),
                        decreases entries.len() - i,
                    {
                        state.insert(entries[i].0.clone(), entries[i].1.copy());
                        i = i + 1;
                    }
                    state
                },
                _ => state,
            }
        },
    }
}

/// A checkpoint keeps the values of persistent channels only.
pub proof fn lemma_snapshot_skips_transient<F: Fn(JsonValue, JsonValue) -> Result<JsonValue, String> + Copy>(
    chs: Map<Seq<char>, Channel<F>>,
    k: Seq<char>,
)
    ensures
        chs.contains_key(k) && !chs[k].persists() ==> !snapshot_spec(chs).contains_key(k),
        chs.contains_key(k) && chs[k].persists() && chs[k].current() is Some ==>
            snapshot_spec(chs).contains_key(k) && Some(snapshot_spec(chs)[k]) == chs[k].current(),
{
}

/// Values of persistent channels survive a checkpoint: a persistent channel
/// restored from a snapshot of the channels holds the value the channel of
/// that name held when the snapshot was taken.
pub proof fn lemma_snapshot_roundtrip<F: Fn(JsonValue, JsonValue) -> Result<JsonValue, String> + Copy>(
    chs: Map<Seq<char>, Channel<F>>,
    k: Seq<char>,
    spec: Channel<F>,
    r: Channel<F>,
)
    requires
        chs.contains_key(k),
        chs[k].persists(),
        spec.persists(),
        spec.restores(if snapshot_spec(chs).contains_key(k) { Some(snapshot_spec(chs)[k]) } else { None }, r),
    ensures
        r.current() == chs[k].current(),
{
}

} // verus!
