//! Edges between nodes.
//!
//! An edge is a fixed jump, a conditional route decided at run time from the
//! state, or the end of the graph.

use vstd::prelude::*;
use crate::graph::send::Send as GraphSend;

verus! {

/// The name of the virtual entry node: `add_edge(START, "a")` makes `a` the entry.
pub const START: &'static str = "__start__";

/// The name of the virtual end node.
pub const END: &'static str = "__end__";

/// Identifies a router function among those registered with a graph.
pub type RouterId = usize;

/// What a router decides.
#[derive(Debug)]
pub enum RouteDecision {
    /// Go on with this node.
    Next(String),
    /// Stop.
    End,
    /// Fan out: start one task per directive.
    Send(Vec<GraphSend>),
}

/// The edge leaving a node.
pub enum Edge {
    /// Always go to this node.
    Static(String),
    /// Ask the router with this id.
    Conditional(RouterId),
    /// Stop after this node.
    End,
}

/// The view of an edge.
pub enum EdgeView {
    Static(Seq<char>),
    Conditional(RouterId),
    End,
}

impl View for Edge {
    type V = EdgeView;

    open spec fn view(&self) -> EdgeView {
        match self {
            Edge::Static(s) => EdgeView::Static(s@),
            Edge::Conditional(r) => EdgeView::Conditional(*r),
            Edge::End => EdgeView::End,
        }
    }
}

impl Edge {
    /// A copy of the edge.
    pub fn copy(&self) -> (r: Edge)
        ensures
            r@ == self@,
    {
        match self {
            Edge::Static(s) => Edge::Static(s.clone()),
            Edge::Conditional(r) => Edge::Conditional(*r),
            Edge::End => Edge::End,
        }
    }
}

/// The decision of a conditional edge with a path map: the router's key is
/// looked up in the map; a key mapped to `END`, or a key the map lacks, ends the
/// graph; any other mapped name is the next node.
pub open spec fn path_decision(path_map: Map<Seq<char>, Seq<char>>, key: Seq<char>) -> Option<Seq<char>> {
    if path_map.contains_key(key) && path_map[key] != END@ {
        Some(path_map[key])
    } else {
        None
    }
}

/// Decides a conditional edge with a path map from the key its router returned.
pub fn resolve_path(path_map: &crate::strmap::StrMap<String>, key: &str) -> (r: RouteDecision)
    ensures
        decision_next(r) == path_decision(path_map@, key@),
        r is Next || r is End,
{
    match path_map.get(key) {
        Some(node) => {
            if crate::json::str_eq(node.as_str(), END) {
                RouteDecision::End
            } else {
                RouteDecision::Next(node.clone())
            }
        },
        None => RouteDecision::End,
    }
}

/// The view of a router's decision.
pub enum RouteView {
    Next(Seq<char>),
    End,
    Send(Seq<(Seq<char>, crate::json::JsonView)>),
}

/// The views of fan-out directives.
pub open spec fn sends_view(s: Seq<GraphSend>) -> Seq<(Seq<char>, crate::json::JsonView)> {
    s.map_values(|x: GraphSend| (x.node@, x.args@))
}

impl View for RouteDecision {
    type V = RouteView;

    open spec fn view(&self) -> RouteView {
        match self {
            RouteDecision::Next(n) => RouteView::Next(n@),
            RouteDecision::End => RouteView::End,
            RouteDecision::Send(s) => RouteView::Send(sends_view(s@)),
        }
    }
}

/// The router `route` accepts every input and decides by the view of the
/// values alone: equal views get equal decisions.
pub open spec fn router_ok<R: Fn(RouterId, &crate::channels::base::ChannelValues) -> RouteDecision>(route: R) -> bool {
    &&& forall|id: RouterId, v: &crate::channels::base::ChannelValues| call_requires(route, (id, v))
    &&& forall|id: RouterId, v1: &crate::channels::base::ChannelValues, v2: &crate::channels::base::ChannelValues, x1: RouteDecision, x2: RouteDecision|
        v1@ == v2@ && #[trigger] call_ensures(route, (id, v1), x1) && #[trigger] call_ensures(route, (id, v2), x2) ==> x1@ == x2@
}

/// Router `id` may decide `d` on values with view `values`.
pub open spec fn decides<R: Fn(RouterId, &crate::channels::base::ChannelValues) -> RouteDecision>(
    route: R,
    id: RouterId,
    values: Map<Seq<char>, crate::json::JsonView>,
    d: RouteView,
) -> bool {
    exists|v: &crate::channels::base::ChannelValues, x: RouteDecision|
        v@ == values && #[trigger] call_ensures(route, (id, v), x) && x@ == d
}

/// The decision router `id` makes on values with view `values`.
pub open spec fn route_view<R: Fn(RouterId, &crate::channels::base::ChannelValues) -> RouteDecision>(
    route: R,
    id: RouterId,
    values: Map<Seq<char>, crate::json::JsonView>,
) -> RouteView {
    choose|d: RouteView| #[trigger] decides(route, id, values, d)
}

/// A decision a router returned is the one `route_view` names.
pub proof fn lemma_route_view<R: Fn(RouterId, &crate::channels::base::ChannelValues) -> RouteDecision>(
    route: R,
    id: RouterId,
    v: &crate::channels::base::ChannelValues,
    x: RouteDecision,
)
    requires
        router_ok(route),
        call_ensures(route, (id, v), x),
    ensures
        route_view(route, id, v@) == x@,
{
    assert(decides(route, id, v@, x@));
    let d = route_view(route, id, v@);
    assert(decides(route, id, v@, d));
    let (v2, x2) = choose|v2: &crate::channels::base::ChannelValues, x2: RouteDecision|
        v2@ == v@ && #[trigger] call_ensures(route, (id, v2), x2) && x2@ == d;
    assert(x2@ == x@);
}

/// The node a decision leads to, if it names exactly one.
pub open spec fn view_next(d: RouteView) -> Option<Seq<char>> {
    match d {
        RouteView::Next(n) => Some(n),
        _ => None,
    }
}

/// The node a router's decision leads to, if it names exactly one.
pub open spec fn decision_next(d: RouteDecision) -> Option<Seq<char>> {
    match d {
        RouteDecision::Next(n) => Some(n@),
        _ => None,
    }
}

} // verus!
