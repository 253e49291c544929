//! The graph builder.
//!
//! `StateGraph` collects node names, edges, joins and channel specs; `compile`
//! checks the topology (an entry exists and is a node, edges and joins point at
//! registered nodes, every node has a way out) and produces an immutable `CompiledGraph`.
//!
//! The node implementations themselves and the router functions live with the
//! runtime that executes the graph; here a node is its name and a conditional
//! edge names its router by id.

use vstd::prelude::*;
use crate::agent::error::AgentError;
use crate::channels::barrier::NamedBarrierValue;
use crate::channels::channel::Channel;
use crate::graph::compiled::{CompiledGraph, opt_keys};
use crate::graph::edge::{Edge, EdgeView, RouterId, END, START};
use crate::graph::pregel::engine::PregelLoop;
use crate::graph::state_schema::State;
use crate::graph::types::{JoinEdge, JoinView, joins_view};
use crate::json::str_eq;
use crate::strmap::StrMap;
use crate::text::concat;

verus! {

/// The edge `add_edge(_, to)` records.
pub open spec fn static_or_end(to: Seq<char>) -> EdgeView {
    if to == END@ { EdgeView::End } else { EdgeView::Static(to) }
}

/// The edges `add_sequence(names)` adds: each name to the next, first to last.
pub open spec fn chain_edges(edges: Map<Seq<char>, EdgeView>, names: Seq<Seq<char>>, upto: int) -> Map<Seq<char>, EdgeView>
    decreases upto,
{
    if upto <= 0 {
        edges
    } else {
        chain_edges(edges, names, upto - 1).insert(names[upto - 1], EdgeView::Static(names[upto]))
    }
}

/// The text of a list of names joined by `+`.
pub open spec fn joined(names: Seq<Seq<char>>) -> Seq<char>
    decreases names.len(),
{
    if names.len() == 0 {
        Seq::empty()
    } else if names.len() == 1 {
        names[0]
    } else {
        joined(names.drop_last()) + "+"@ + names.last()
    }
}

/// The name of the barrier channel of a join.
pub open spec fn join_channel_name(sources: Seq<Seq<char>>, target: Seq<char>) -> Seq<char> {
    "__join:"@ + joined(sources) + ":"@ + target
}

/// The texts of a slice of string slices, in order.
pub open spec fn texts(s: Seq<&str>) -> Seq<Seq<char>> {
    s.map_values(|x: &str| x@)
}

/// The entry a graph resolves to: the set entry, else `START` when a conditional
/// entry edge exists.
pub open spec fn resolved_entry(entry: Option<Seq<char>>, edges: Map<Seq<char>, EdgeView>) -> Option<Seq<char>> {
    match entry {
        Some(e) => Some(e),
        None => if edges.contains_key(START@) { Some(START@) } else { None },
    }
}

/// An edge from `from` is malformed: its source is not a node (other than
/// `START`), or it is a fixed jump to a name that is not a node.
pub open spec fn bad_edge(nodes: Set<Seq<char>>, from: Seq<char>, e: EdgeView) -> bool {
    (from != START@ && !nodes.contains(from)) || (e matches EdgeView::Static(to) && !nodes.contains(to))
}

/// The message for a malformed edge.
pub open spec fn bad_edge_message(nodes: Set<Seq<char>>, from: Seq<char>, e: EdgeView) -> Seq<char> {
    if from != START@ && !nodes.contains(from) {
        "Edge source '"@ + from + "' is not a registered node"@
    } else {
        "Edge target '"@ + e->Static_0 + "' is not a registered node"@
    }
}

/// A join leads to a name that is neither a node nor `END`.
pub open spec fn bad_join(nodes: Set<Seq<char>>, j: JoinView) -> bool {
    j.target != END@ && !nodes.contains(j.target)
}

/// The message for a join whose target is not a node.
pub open spec fn bad_join_message(target: Seq<char>) -> Seq<char> {
    "Join target '"@ + target + "' is not a registered node"@
}

/// The sources of all joins.
pub open spec fn join_sources(joins: Seq<JoinView>) -> Set<Seq<char>> {
    Set::new(|s: Seq<char>| exists|i: int, j: int| 0 <= i < joins.len() && 0 <= j < joins[i].sources.len() && #[trigger] joins[i].sources[j] == s)
}

/// A node with no way out: no edge leaves it and it feeds no join.
pub open spec fn stuck(edges: Map<Seq<char>, EdgeView>, sources: Set<Seq<char>>, name: Seq<char>) -> bool {
    name != END@ && !edges.contains_key(name) && !sources.contains(name)
}

/// Builds a graph before it is compiled.
pub struct StateGraph<F> {
    channel_specs: StrMap<Channel<F>>,
    nodes: StrMap<()>,
    edges: StrMap<Edge>,
    entry: Option<String>,
    joins: Vec<JoinEdge>,
    input_keys: Option<StrMap<()>>,
    output_keys: Option<StrMap<()>>,
}

/// The text of an optional string.
pub open spec fn opt_text(o: Option<String>) -> Option<Seq<char>> {
    match o {
        Some(s) => Some(s@),
        None => None,
    }
}

/// Collects a slice of names into a set.
pub fn name_set(keys: &[&str]) -> (r: StrMap<()>)
    ensures
        r@.dom() == texts(keys@).to_set(),
{
    let mut set: StrMap<()> = StrMap::new();
    let mut i: usize = 0;
    while i < keys.len()
        invariant
            i <= keys.len(),
            set@.dom() == texts(keys@.take(i as int)).to_set(),
        decreases keys.len() - i,
    {
        set.insert(String::from_str(keys[i]), ());
        proof {
            let t0 = texts(keys@.take(i as int));
            let t1 = texts(keys@.take(i + 1));
            assert(t1 =~= t0.push(keys@[i as int]@));
            assert forall|x: Seq<char>| t1.contains(x) <==> (t0.contains(x) || x == keys@[i as int]@) by {
                if t1.contains(x) {
                    let j = choose|j: int| 0 <= j < t1.len() && t1[j] == x;
                    if j < i {
                        assert(t0[j] == x);
                    }
                }
                if t0.contains(x) {
                    let j = choose|j: int| 0 <= j < t0.len() && t0[j] == x;
                    assert(t1[j] == x);
                }
                if x == keys@[i as int]@ {
                    assert(t1[i as int] == x);
                }
            }
            assert(set@.dom() =~= t1.to_set());
        }
        i = i + 1;
    }
    assert(keys@.take(keys.len() as int) == keys@);
    set
}

/// Collects a vector of names into a set.
pub fn string_set_of(names: Vec<String>) -> (r: StrMap<()>)
    ensures
        r@.dom() == names@.map_values(|s: String| s@).to_set(),
{
    let mut set: StrMap<()> = StrMap::new();
    let ghost all = names@.map_values(|s: String| s@);
    let mut i: usize = 0;
    while i < names.len()
        invariant
            i <= names.len(),
            all == names@.map_values(|s: String| s@),
            set@.dom() == all.take(i as int).to_set(),
        decreases names.len() - i,
    {
        set.insert(names[i].clone(), ());
        proof {
            let t0 = all.take(i as int);
            let t1 = all.take(i + 1);
            assert(t1 =~= t0.push(all[i as int]));
            assert forall|x: Seq<char>| t1.contains(x) <==> (t0.contains(x) || x == all[i as int]) by {
                if t1.contains(x) {
                    let j = choose|j: int| 0 <= j < t1.len() && t1[j] == x;
                    if j < i {
                        assert(t0[j] == x);
                    }
                }
                if t0.contains(x) {
                    let j = choose|j: int| 0 <= j < t0.len() && t0[j] == x;
                    assert(t1[j] == x);
                }
                if x == all[i as int] {
                    assert(t1[i as int] == x);
                }
            }
            assert(set@.dom() =~= t1.to_set());
        }
        i = i + 1;
    }
    assert(all.take(names.len() as int) == all);
    set
}

impl<F> StateGraph<F> {
    /// The channel specs, by name.
    pub closed spec fn specs(&self) -> Map<Seq<char>, Channel<F>> {
        self.channel_specs@
    }

    /// The registered node names.
    pub closed spec fn nodes(&self) -> Set<Seq<char>> {
        self.nodes@.dom()
    }

    /// The edges, by source.
    pub closed spec fn edges(&self) -> Map<Seq<char>, EdgeView> {
        self.edges@
    }

    /// The entry node, when one was set.
    pub closed spec fn entry(&self) -> Option<Seq<char>> {
        opt_text(self.entry)
    }

    /// The joins, in the order they were added.
    pub closed spec fn joins(&self) -> Seq<JoinView> {
        joins_view(self.joins@)
    }

    /// The keys accepted from an invocation's input, if restricted.
    pub closed spec fn inputs(&self) -> Option<Set<Seq<char>>> {
        opt_keys(self.input_keys)
    }

    /// The keys returned in results, if restricted.
    pub closed spec fn outputs(&self) -> Option<Set<Seq<char>>> {
        opt_keys(self.output_keys)
    }

    /// Whether `compile` accepts the graph.
    pub open spec fn compilable(&self) -> bool {
        &&& resolved_entry(self.entry(), self.edges()) matches Some(e)
        &&& (e == START@ || self.nodes().contains(e))
        &&& forall|from: Seq<char>| #[trigger] self.edges().contains_key(from) ==> !bad_edge(self.nodes(), from, self.edges()[from])
        &&& forall|i: int| 0 <= i < self.joins().len() ==> !bad_join(self.nodes(), #[trigger] self.joins()[i])
        &&& forall|n: Seq<char>| #[trigger] self.nodes().contains(n) ==> !stuck(self.edges(), join_sources(self.joins()), n)
    }

    /// An empty graph over the given channels.
    pub fn new(channels: StrMap<Channel<F>>) -> (r: Self)
        ensures
            r.specs() == channels@,
            r.nodes() == Set::<Seq<char>>::empty(),
            r.edges() == Map::<Seq<char>, EdgeView>::empty(),
            r.entry() is None,
            r.joins() == Seq::<JoinView>::empty(),
            r.inputs() is None,
            r.outputs() is None,
    {
        let r = StateGraph {
            channel_specs: channels,
            nodes: StrMap::new(),
            edges: StrMap::new(),
            entry: None,
            joins: Vec::new(),
            input_keys: None,
            output_keys: None,
        };
        assert(r.joins() =~= Seq::<JoinView>::empty());
        r
    }

    /// Registers a node by name.
    pub fn add_node(&mut self, name: String)
        ensures
            final(self).nodes() == old(self).nodes().insert(name@),
            final(self).edges() == old(self).edges(),
            final(self).entry() == old(self).entry(),
            final(self).joins() == old(self).joins(),
            final(self).specs() == old(self).specs(),
            final(self).inputs() == old(self).inputs(),
            final(self).outputs() == old(self).outputs(),
    {
        self.nodes.insert(name, ());
    }

    /// A fixed edge from `from` to `to` (`to == END` ends the graph there). An
    /// edge from `START` sets the entry node instead.
    pub fn add_edge(&mut self, from: &str, to: &str)
        ensures
            from@ == START@ ==> final(self).entry() == Some(to@) && final(self).edges() == old(self).edges(),
            from@ != START@ ==> final(self).entry() == old(self).entry()
                && final(self).edges() == old(self).edges().insert(from@, static_or_end(to@)),
            final(self).nodes() == old(self).nodes(),
            final(self).joins() == old(self).joins(),
            final(self).specs() == old(self).specs(),
            final(self).inputs() == old(self).inputs(),
            final(self).outputs() == old(self).outputs(),
    {
        if str_eq(from, START) {
            self.entry = Some(String::from_str(to));
            return;
        }
        let edge = if str_eq(to, END) { Edge::End } else { Edge::Static(String::from_str(to)) };
        self.edges.insert(String::from_str(from), edge);
    }

    /// A conditional edge: after `from`, the router with id `router` decides. From
    /// `START` it decides the entry node, and any entry set before is dropped.
    pub fn add_conditional_edge(&mut self, from: &str, router: RouterId)
        ensures
            from@ == START@ ==> final(self).entry() is None,
            from@ != START@ ==> final(self).entry() == old(self).entry(),
            final(self).edges() == old(self).edges().insert(from@, EdgeView::Conditional(router)),
            final(self).nodes() == old(self).nodes(),
            final(self).joins() == old(self).joins(),
            final(self).specs() == old(self).specs(),
            final(self).inputs() == old(self).inputs(),
            final(self).outputs() == old(self).outputs(),
    {
        if str_eq(from, START) {
            self.entry = None;
        }
        self.edges.insert(String::from_str(from), Edge::Conditional(router));
    }

    /// A conditional edge whose router returns a key that a path map turns into a
    /// node name (see `resolve_path`); it is recorded like any conditional edge.
    pub fn add_conditional_edge_with_map(&mut self, from: &str, router: RouterId)
        ensures
            from@ == START@ ==> final(self).entry() is None,
            from@ != START@ ==> final(self).entry() == old(self).entry(),
            final(self).edges() == old(self).edges().insert(from@, EdgeView::Conditional(router)),
            final(self).nodes() == old(self).nodes(),
            final(self).joins() == old(self).joins(),
            final(self).specs() == old(self).specs(),
            final(self).inputs() == old(self).inputs(),
            final(self).outputs() == old(self).outputs(),
    {
        self.add_conditional_edge(from, router)
    }

    /// Registers a subgraph node by name.
    pub fn add_subgraph(&mut self, name: String)
        ensures
            final(self).nodes() == old(self).nodes().insert(name@),
            final(self).edges() == old(self).edges(),
            final(self).entry() == old(self).entry(),
            final(self).joins() == old(self).joins(),
            final(self).specs() == old(self).specs(),
            final(self).inputs() == old(self).inputs(),
            final(self).outputs() == old(self).outputs(),
    {
        self.add_node(name)
    }

    /// Registers nodes and chains them, each to the next; neither end is
    /// connected to `START` or `END`.
    pub fn add_sequence(&mut self, names: Vec<String>)
        ensures
            final(self).nodes() == old(self).nodes().union(names@.map_values(|s: String| s@).to_set()),
            final(self).edges() == chain_edges(old(self).edges(), names@.map_values(|s: String| s@), names.len() - 1),
            final(self).entry() == old(self).entry(),
            final(self).joins() == old(self).joins(),
            final(self).specs() == old(self).specs(),
            final(self).inputs() == old(self).inputs(),
            final(self).outputs() == old(self).outputs(),
    {
        let ghost all = names@.map_values(|s: String| s@);
        let ghost nodes0 = self.nodes();
        let mut i: usize = 0;
        while i < names.len()
            invariant
                i <= names.len(),
                all == names@.map_values(|s: String| s@),
                self.nodes() == nodes0.union(all.take(i as int).to_set()),
                self.edges() == old(self).edges(),
                self.entry() == old(self).entry(),
                self.joins() == old(self).joins(),
                self.specs() == old(self).specs(),
                self.inputs() == old(self).inputs(),
                self.outputs() == old(self).outputs(),
            decreases names.len() - i,
        {
            self.nodes.insert(names[i].clone(), ());
            proof {
                let t0 = all.take(i as int);
                let t1 = all.take(i + 1);
                assert(t1 =~= t0.push(all[i as int]));
                assert forall|x: Seq<char>| t1.contains(x) <==> (t0.contains(x) || x == all[i as int]) by {
                    if t1.contains(x) {
                        let j = choose|j: int| 0 <= j < t1.len() && t1[j] == x;
                        if j < i {
                            assert(t0[j] == x);
                        }
                    }
                    if t0.contains(x) {
                        let j = choose|j: int| 0 <= j < t0.len() && t0[j] == x;
                        assert(t1[j] == x);
                    }
                    if x == all[i as int] {
                        assert(t1[i as int] == x);
                    }
                }
                assert(self.nodes() =~= nodes0.union(t1.to_set()));
            }
            i = i + 1;
        }
        assert(all.take(names.len() as int) == all);
        let mut j: usize = 0;
        while j + 1 < names.len()
            invariant
                j + 1 <= names.len() || names.len() == 0,
                j == 0 || j < names.len(),
                all == names@.map_values(|s: String| s@),
                self.edges() == chain_edges(old(self).edges(), all, j as int),
                self.nodes() == nodes0.union(all.to_set()),
                nodes0 == old(self).nodes(),
                self.entry() == old(self).entry(),
                self.joins() == old(self).joins(),
                self.specs() == old(self).specs(),
                self.inputs() == old(self).inputs(),
                self.outputs() == old(self).outputs(),
            decreases names.len() - j,
        {
            self.edges.insert(names[j].clone(), Edge::Static(names[j + 1].clone()));
            j = j + 1;
        }
        proof {
            if names.len() == 0 {
                assert(chain_edges(old(self).edges(), all, -1) == old(self).edges());
            }
        }
    }

    /// A join: `target` runs once every one of `sources` has completed. A barrier
    /// channel named `__join:<sources joined by +>:<target>` tracks them.
    pub fn add_edge_join(&mut self, sources: &[&str], target: &str)
        ensures
            final(self).joins() == old(self).joins().push(JoinView {
                sources: texts(sources@),
                target: target@,
                channel_name: join_channel_name(texts(sources@), target@),
            }),
            final(self).specs().dom() == old(self).specs().dom().insert(join_channel_name(texts(sources@), target@)),
            final(self).specs()[join_channel_name(texts(sources@), target@)] matches Channel::NamedBarrierValue(b)
                && b.names() == crate::channels::barrier::names_of(sources@)
                && b.seen() == Set::<Seq<char>>::empty(),
            forall|k: Seq<char>| k != join_channel_name(texts(sources@), target@) && old(self).specs().contains_key(k)
                ==> #[trigger] final(self).specs()[k] == old(self).specs()[k],
            final(self).nodes() == old(self).nodes(),
            final(self).edges() == old(self).edges(),
            final(self).entry() == old(self).entry(),
            final(self).inputs() == old(self).inputs(),
            final(self).outputs() == old(self).outputs(),
    {
        let mut name = String::from_str("__join:");
        let mut src_names: Vec<String> = Vec::new();
        let mut i: usize = 0;
        let ghost ts = texts(sources@);
        let mut list = String::new();
        while i < sources.len()
            invariant
                i <= sources.len(),
                ts == texts(sources@),
                src_names.len() == i,
                forall|j: int| 0 <= j < i ==> #[trigger] src_names@[j]@ == ts[j],
                list@ == joined(ts.take(i as int)),
            decreases sources.len() - i,
        {
            proof {
                assert(ts.take(i + 1).drop_last() =~= ts.take(i as int));
            }
            if i > 0 {
                list.append("+");
            }
            list.append(sources[i]);
            src_names.push(String::from_str(sources[i]));
            proof {
                if i == 0 {
                    assert(list@ =~= joined(ts.take(1)));
                } else {
                    assert(list@ =~= joined(ts.take(i + 1)));
                }
            }
            i = i + 1;
        }
        assert(ts.take(sources.len() as int) == ts);
        name.append(list.as_str());
        name.append(":");
        name.append(target);
        let barrier = NamedBarrierValue::new(sources);
        self.channel_specs.insert(name.clone(), Channel::NamedBarrierValue(barrier));
        let join = JoinEdge { sources: src_names, target: String::from_str(target), channel_name: name };
        proof {
            assert(join@.sources =~= ts);
        }
        self.joins.push(join);
        assert(self.joins() =~= old(self).joins().push(join@));
    }

    /// Restricts the input of invocations to `keys`.
    pub fn with_input_keys(self, keys: &[&str]) -> (r: Self)
        ensures
            r.inputs() == Some(texts(keys@).to_set()),
            r.outputs() == self.outputs(),
            r.specs() == self.specs(),
            r.nodes() == self.nodes(),
            r.edges() == self.edges(),
            r.entry() == self.entry(),
            r.joins() == self.joins(),
    {
        let mut g = self;
        g.input_keys = Some(name_set(keys));
        g
    }

    /// Restricts the values of results to `keys`.
    pub fn with_output_keys(self, keys: &[&str]) -> (r: Self)
        ensures
            r.outputs() == Some(texts(keys@).to_set()),
            r.inputs() == self.inputs(),
            r.specs() == self.specs(),
            r.nodes() == self.nodes(),
            r.edges() == self.edges(),
            r.entry() == self.entry(),
            r.joins() == self.joins(),
    {
        let mut g = self;
        g.output_keys = Some(name_set(keys));
        g
    }

    /// An empty graph over the channels of the state type `S`.
    pub fn from_state<S: State<Reducer = F>>() -> (r: Self)
        ensures
            r.nodes() == Set::<Seq<char>>::empty(),
            r.edges() == Map::<Seq<char>, EdgeView>::empty(),
            r.entry() is None,
            r.joins() == Seq::<JoinView>::empty(),
            r.inputs() is None,
            r.outputs() is None,
    {
        StateGraph::new(S::channels())
    }

    /// Restricts the input of invocations to the fields of the state type `S`.
    pub fn with_input<S: State>(self) -> (r: Self)
        ensures
            r.inputs() is Some,
            r.outputs() == self.outputs(),
            r.specs() == self.specs(),
            r.nodes() == self.nodes(),
            r.edges() == self.edges(),
            r.entry() == self.entry(),
            r.joins() == self.joins(),
    {
        let keys = S::keys();
        self.with_input_keys(keys.as_slice())
    }

    /// Restricts the values of results to the fields of the state type `S`.
    pub fn with_output<S: State>(self) -> (r: Self)
        ensures
            r.outputs() is Some,
            r.inputs() == self.inputs(),
            r.specs() == self.specs(),
            r.nodes() == self.nodes(),
            r.edges() == self.edges(),
            r.entry() == self.entry(),
            r.joins() == self.joins(),
    {
        let keys = S::keys();
        self.with_output_keys(keys.as_slice())
    }

    /// Sets the entry node (same as `add_edge(START, name)`).
    pub fn set_entry(&mut self, name: &str)
        ensures
            final(self).entry() == Some(name@),
            final(self).edges() == old(self).edges(),
            final(self).nodes() == old(self).nodes(),
            final(self).joins() == old(self).joins(),
            final(self).specs() == old(self).specs(),
            final(self).inputs() == old(self).inputs(),
            final(self).outputs() == old(self).outputs(),
    {
        self.entry = Some(String::from_str(name));
    }
}

/// The message `compile` fails with when no entry node was set.
pub open spec fn no_entry_message() -> Seq<char> {
    "No entry node set. Use add_edge(START, \"node\") or set_entry()"@
}

/// The message `compile` fails with when the entry node is not a node.
pub open spec fn missing_entry_message(entry: Seq<char>) -> Seq<char> {
    "Entry node '"@ + entry + "' not found in nodes"@
}

/// The message `compile` fails with for a node with no way out.
pub open spec fn stuck_message(name: Seq<char>) -> Seq<char> {
    "Node '"@ + name + "' has no outgoing edge"@
}

impl<F> StateGraph<F> {
    /// The error `compile` reports for a graph it refuses. The checks run in this
    /// order: an entry exists; the entry is a node (unless a conditional entry
    /// decides it); every edge is well formed; every join leads to a node or to
    /// `END`; every node has a way out. When several edges, joins or nodes fail
    /// the same check, the message names one of them.
    pub open spec fn refusal(&self, e: AgentError) -> bool {
        let sources = join_sources(self.joins());
        match resolved_entry(self.entry(), self.edges()) {
            None => e is GraphError && e->GraphError_0@ == no_entry_message(),
            Some(entry) => if !(entry == START@ || self.nodes().contains(entry)) {
                e is GraphError && e->GraphError_0@ == missing_entry_message(entry)
            } else if exists|from: Seq<char>| #[trigger] self.edges().contains_key(from) && bad_edge(self.nodes(), from, self.edges()[from]) {
                e is GraphError && exists|from: Seq<char>| #[trigger] self.edges().contains_key(from)
                    && bad_edge(self.nodes(), from, self.edges()[from])
                    && e->GraphError_0@ == bad_edge_message(self.nodes(), from, self.edges()[from])
            } else if exists|i: int| 0 <= i < self.joins().len() && #[trigger] bad_join(self.nodes(), self.joins()[i]) {
                e is GraphError && exists|i: int| 0 <= i < self.joins().len() && #[trigger] bad_join(self.nodes(), self.joins()[i])
                    && e->GraphError_0@ == bad_join_message(self.joins()[i].target)
            } else {
                e is GraphError && exists|n: Seq<char>| #[trigger] self.nodes().contains(n)
                    && stuck(self.edges(), sources, n) && e->GraphError_0@ == stuck_message(n)
            },
        }
    }

    /// Checks the topology and builds the immutable graph. `interrupt_before` and
    /// `interrupt_after` name the nodes to pause before and after.
    #[verifier::loop_isolation(false)]
    pub fn compile(self, interrupt_before: Vec<String>, interrupt_after: Vec<String>) -> (r: Result<CompiledGraph<F>, AgentError>)
        ensures
            r is Ok <==> self.compilable(),
            match r {
                Ok(g) => {
                    &&& g.topology().nodes() == self.nodes()
                    &&& g.topology().edges() == self.edges()
                    &&& Some(g.topology().entry()) == resolved_entry(self.entry(), self.edges())
                    &&& g.topology().joins() == self.joins()
                    &&& g.topology().interrupt_before() == interrupt_before@.map_values(|s: String| s@).to_set()
                    &&& g.topology().interrupt_after() == interrupt_after@.map_values(|s: String| s@).to_set()
                    &&& g.specs() == self.specs()
                    &&& g.inputs() == self.inputs()
                    &&& g.outputs() == self.outputs()
                },
                Err(e) => self.refusal(e),
            },
    {
        let ghost sources = join_sources(self.joins());
        let entry: String = match &self.entry {
            Some(e) => e.clone(),
            None => {
                if self.edges.contains_key(START) {
                    String::from_str(START)
                } else {
                    return Err(AgentError::GraphError(String::from_str(
                        "No entry node set. Use add_edge(START, \"node\") or set_entry()",
                    )));
                }
            },
        };
        assert(resolved_entry(self.entry(), self.edges()) == Some(entry@));
        if !str_eq(entry.as_str(), START) && !self.nodes.contains_key(entry.as_str()) {
            let mut m = concat("Entry node '", entry.as_str());
            m.append("' not found in nodes");
            return Err(AgentError::GraphError(m));
        }
        let n_edges = self.edges.len();
        let mut i: usize = 0;
        while i < n_edges
            invariant
                i <= n_edges,
                n_edges == self.edges.keys_seq().len(),
                forall|k: Seq<char>| #[trigger] self.edges@.contains_key(k) <==> self.edges.keys_seq().contains(k),
                forall|j: int| 0 <= j < self.edges.keys_seq().len() ==> #[trigger] self.edges@[self.edges.keys_seq()[j]] == self.edges.value_view_at(j),
                forall|j: int| 0 <= j < i ==> !bad_edge(self.nodes(), #[trigger] self.edges.keys_seq()[j], self.edges@[self.edges.keys_seq()[j]]),
            decreases n_edges - i,
        {
            let from = self.edges.key_at(i);
            let e = self.edges.value_at(i);
            if !str_eq(from.as_str(), START) && !self.nodes.contains_key(from.as_str()) {
                let mut m = concat("Edge source '", from.as_str());
                m.append("' is not a registered node");
                proof {
                    assert(self.edges@.contains_key(from@));
                    assert(bad_edge(self.nodes(), from@, self.edges@[from@]));
                    assert(m@ == bad_edge_message(self.nodes(), from@, self.edges@[from@]));
                }
                return Err(AgentError::GraphError(m));
            }
            match e {
                Edge::Static(to) => {
                    if !self.nodes.contains_key(to.as_str()) {
                        let mut m = concat("Edge target '", to.as_str());
                        m.append("' is not a registered node");
                        proof {
                            assert(self.edges@.contains_key(from@));
                            assert(self.edges@[from@] == e@);
                            assert(bad_edge(self.nodes(), from@, self.edges@[from@]));
                            assert(m@ == bad_edge_message(self.nodes(), from@, self.edges@[from@]));
                        }
                        return Err(AgentError::GraphError(m));
                    }
                },
                _ => {},
            }
            i = i + 1;
        }
        proof {
            assert forall|from: Seq<char>| #[trigger] self.edges().contains_key(from) implies !bad_edge(self.nodes(), from, self.edges()[from]) by {
                let j = self.edges.keys_seq().index_of(from);
                assert(self.edges.keys_seq()[j] == from);
            }
        }
        let ghost js = self.joins();
        let mut q: usize = 0;
        while q < self.joins.len()
            invariant
                q <= self.joins.len(),
                js == joins_view(self.joins@),
                js.len() == self.joins.len(),
                forall|j: int| 0 <= j < q ==> !bad_join(self.nodes(), #[trigger] js[j]),
            decreases self.joins.len() - q,
        {
            let target = &self.joins[q].target;
            assert(js[q as int].target == target@);
            if !str_eq(target.as_str(), END) && !self.nodes.contains_key(target.as_str()) {
                let mut m = concat("Join target '", target.as_str());
                m.append("' is not a registered node");
                proof {
                    assert(bad_join(self.nodes(), js[q as int]));
                    assert(m@ == bad_join_message(js[q as int].target));
                }
                return Err(AgentError::GraphError(m));
            }
            q = q + 1;
        }
        let join_set = self.join_source_set();
        let n_nodes = self.nodes.len();
        let mut k: usize = 0;
        while k < n_nodes
            invariant
                k <= n_nodes,
                n_nodes == self.nodes.keys_seq().len(),
                join_set@.dom() == sources,
                sources == join_sources(self.joins()),
                forall|x: Seq<char>| #[trigger] self.nodes@.contains_key(x) <==> self.nodes.keys_seq().contains(x),
                forall|j: int| 0 <= j < k ==> !stuck(self.edges(), sources, #[trigger] self.nodes.keys_seq()[j]),
            decreases n_nodes - k,
        {
            let name = self.nodes.key_at(k);
            if !str_eq(name.as_str(), END) && !self.edges.contains_key(name.as_str()) && !join_set.contains_key(name.as_str()) {
                let mut m = concat("Node '", name.as_str());
                m.append("' has no outgoing edge");
                proof {
                    assert(self.nodes().contains(name@));
                    assert(stuck(self.edges(), sources, name@));
                    assert(m@ == stuck_message(name@));
                }
                return Err(AgentError::GraphError(m));
            }
            k = k + 1;
        }
        proof {
            assert forall|x: Seq<char>| #[trigger] self.nodes().contains(x) implies !stuck(self.edges(), sources, x) by {
                let j = self.nodes.keys_seq().index_of(x);
                assert(self.nodes.keys_seq()[j] == x);
            }
        }
        let before = string_set_of(interrupt_before);
        let after = string_set_of(interrupt_after);
        let StateGraph { channel_specs, nodes, edges, entry: _, joins, input_keys, output_keys } = self;
        let pregel = PregelLoop::new(nodes, edges, entry, before, after, joins);
        Ok(CompiledGraph::new(pregel, channel_specs, input_keys, output_keys))
    }

    /// The set of all join sources.
    fn join_source_set(&self) -> (r: StrMap<()>)
        ensures
            r@.dom() == join_sources(self.joins()),
    {
        let mut set: StrMap<()> = StrMap::new();
        let mut i: usize = 0;
        let ghost js = self.joins();
        while i < self.joins.len()
            invariant
                i <= self.joins.len(),
                js == joins_view(self.joins@),
                forall|s: Seq<char>| #[trigger] set@.dom().contains(s) <==>
                    exists|a: int, b: int| 0 <= a < i && 0 <= b < js[a].sources.len() && #[trigger] js[a].sources[b] == s,
            decreases self.joins.len() - i,
        {
            let srcs = &self.joins[i].sources;
            let mut j: usize = 0;
            while j < srcs.len()
                invariant
                    i < self.joins.len(),
                    j <= srcs.len(),
                    *srcs == self.joins@[i as int].sources,
                    js == joins_view(self.joins@),
                    forall|s: Seq<char>| #[trigger] set@.dom().contains(s) <==>
                        (exists|a: int, b: int| 0 <= a < i && 0 <= b < js[a].sources.len() && #[trigger] js[a].sources[b] == s)
                        || (exists|b: int| 0 <= b < j && #[trigger] js[i as int].sources[b] == s),
                decreases srcs.len() - j,
            {
                proof {
                    assert(js[i as int].sources[j as int] == srcs@[j as int]@);
                }
                set.insert(srcs[j].clone(), ());
                proof {
                    assert forall|s: Seq<char>| #[trigger] set@.dom().contains(s) <==>
                        (exists|a: int, b: int| 0 <= a < i && 0 <= b < js[a].sources.len() && #[trigger] js[a].sources[b] == s)
                        || (exists|b: int| 0 <= b < j + 1 && #[trigger] js[i as int].sources[b] == s) by {
                        if s == srcs@[j as int]@ {
                            assert(js[i as int].sources[j as int] == s);
                        }
                    }
                }
                j = j + 1;
            }
            proof {
                assert forall|s: Seq<char>| #[trigger] set@.dom().contains(s) <==>
                    exists|a: int, b: int| 0 <= a < i + 1 && 0 <= b < js[a].sources.len() && #[trigger] js[a].sources[b] == s by {
                    if set@.dom().contains(s) {
                        if exists|b: int| 0 <= b < j && #[trigger] js[i as int].sources[b] == s {
                            let b = choose|b: int| 0 <= b < j && #[trigger] js[i as int].sources[b] == s;
                            assert(js[i as int].sources[b] == s);
                        }
                    }
                    if exists|a: int, b: int| 0 <= a < i + 1 && 0 <= b < js[a].sources.len() && #[trigger] js[a].sources[b] == s {
                        let (a, b) = choose|a: int, b: int| 0 <= a < i + 1 && 0 <= b < js[a].sources.len() && #[trigger] js[a].sources[b] == s;
                        if a == i {
                            assert(js[i as int].sources[b] == s);
                        }
                    }
                }
            }
            i = i + 1;
        }
        assert(set@.dom() =~= join_sources(self.joins()));
        set
    }
}

} // verus!
