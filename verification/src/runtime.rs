//! The host runtime: plans a graph with petgraph's topological sort, and makes
//! the decisions of each step of a run, whose tools the caller awaits.

use vstd::prelude::*;
use petgraph::graph::{DiGraph, Graph, NodeIndex};
use petgraph::Directed;
use serde_json::Value;
use crate::graph::{GraphView, IntentGraph, Node, NodeView};
use crate::schedule::{has_topo_order, is_topo_order};
use crate::text::str_equal;

verus! {

#[verifier::external_type_specification]
#[verifier::external_body]
#[verifier::reject_recursive_types(N)]
#[verifier::reject_recursive_types(E)]
#[verifier::reject_recursive_types(Ty)]
#[verifier::reject_recursive_types(Ix)]
pub struct ExGraph<N, E, Ty, Ix>(Graph<N, E, Ty, Ix>);

#[verifier::external_type_specification]
#[verifier::external_body]
pub struct ExDirected(Directed);

#[verifier::external_type_specification]
#[verifier::external_body]
pub struct ExValue(Value);

/// The node weights of a petgraph graph, in index order.
pub uninterp spec fn digraph_nodes(g: DiGraph<usize, ()>) -> Seq<usize>;

/// The edges of a petgraph graph, as pairs of node indices, in insertion order.
pub uninterp spec fn digraph_edges(g: DiGraph<usize, ()>) -> Seq<(usize, usize)>;

/// `Graph::new`: a graph without nodes or edges.
#[verifier::external_body]
fn digraph_new() -> (g: DiGraph<usize, ()>)
    ensures
        digraph_nodes(g) == Seq::<usize>::empty(),
        digraph_edges(g) == Seq::<(usize, usize)>::empty(),
{
    DiGraph::new()
}

/// `Graph::add_node`: appends a node with weight `w` and returns its index,
/// the number of nodes before. It panics when the graph already holds
/// `u32::MAX` nodes, which `requires` leaves out.
#[verifier::external_body]
fn digraph_add_node(g: &mut DiGraph<usize, ()>, w: usize) -> (i: usize)
    requires
        digraph_nodes(*old(g)).len() < u32::MAX,
    ensures
        digraph_nodes(*final(g)) == digraph_nodes(*old(g)).push(w),
        digraph_edges(*final(g)) == digraph_edges(*old(g)),
        i == digraph_nodes(*old(g)).len(),
{
    g.add_node(w).index()
}

/// `Graph::add_edge`: appends the edge `a -> b`. It panics when either end is
/// not a node or when the graph already holds `u32::MAX` edges, which
/// `requires` leaves out.
#[verifier::external_body]
fn digraph_add_edge(g: &mut DiGraph<usize, ()>, a: usize, b: usize)
    requires
        a < digraph_nodes(*old(g)).len(),
        b < digraph_nodes(*old(g)).len(),
        digraph_edges(*old(g)).len() < u32::MAX,
    ensures
        digraph_nodes(*final(g)) == digraph_nodes(*old(g)),
        digraph_edges(*final(g)) == digraph_edges(*old(g)).push((a, b)),
{
    g.add_edge(NodeIndex::new(a), NodeIndex::new(b), ());
}

/// The order in which `petgraph::algo::toposort` lists the nodes of an acyclic
/// graph with `node_count` nodes and these edges (in insertion order): its
/// depth-first search depends on nothing else.
pub uninterp spec fn toposort_order(node_count: nat, edges: Seq<(usize, usize)>) -> Seq<usize>;

/// `petgraph::algo::toposort`: every node once, each before its successors, in
/// the order that `toposort_order` names; or an error (with a node on a cycle)
/// when the graph has a cycle.
#[verifier::external_body]
fn digraph_toposort(g: &DiGraph<usize, ()>) -> (r: Result<Vec<usize>, usize>)
    ensures
        r matches Ok(order) ==> is_topo_order(digraph_nodes(*g).len(), digraph_edges(*g), order@),
        r matches Ok(order) ==> order@ == toposort_order(digraph_nodes(*g).len(), digraph_edges(*g)),
        r is Err ==> !has_topo_order(digraph_nodes(*g).len(), digraph_edges(*g)),
{
    match petgraph::algo::toposort(g, None) {
        Ok(order) => Ok(order.iter().map(|i| i.index()).collect()),
        Err(cycle) => Err(cycle.node_id().index()),
    }
}

/// Why the runtime refused or stopped a graph.
pub enum RuntimeError {
    /// An edge starts at an id that no node has.
    SourceMissing,
    /// An edge ends at an id that no node has.
    TargetMissing,
    /// The graph has a cycle.
    Cycle,
    /// No tool is registered under the node's tool name (the name).
    ToolNotFound(String),
    /// The tool provides another capability than the node requests.
    CapabilityMismatch { node_id: String, provided: String, requested: String },
    /// A tool failed: its name and its error.
    ExecutionFailed { tool_name: String, error: String },
}

/// A runtime error as character sequences.
pub enum RuntimeErrorView {
    SourceMissing,
    TargetMissing,
    Cycle,
    ToolNotFound(Seq<char>),
    CapabilityMismatch { node_id: Seq<char>, provided: Seq<char>, requested: Seq<char> },
    ExecutionFailed { tool_name: Seq<char>, error: Seq<char> },
}

impl View for RuntimeError {
    type V = RuntimeErrorView;

    open spec fn view(&self) -> RuntimeErrorView {
        match self {
            RuntimeError::SourceMissing => RuntimeErrorView::SourceMissing,
            RuntimeError::TargetMissing => RuntimeErrorView::TargetMissing,
            RuntimeError::Cycle => RuntimeErrorView::Cycle,
            RuntimeError::ToolNotFound(n) => RuntimeErrorView::ToolNotFound(n@),
            RuntimeError::CapabilityMismatch { node_id, provided, requested } =>
                RuntimeErrorView::CapabilityMismatch {
                    node_id: node_id@,
                    provided: provided@,
                    requested: requested@,
                },
            RuntimeError::ExecutionFailed { tool_name, error } => RuntimeErrorView::ExecutionFailed {
                tool_name: tool_name@,
                error: error@,
            },
        }
    }
}

/// The message that reports a runtime error.
pub open spec fn runtime_message(e: RuntimeErrorView) -> Seq<char> {
    match e {
        RuntimeErrorView::SourceMissing => "Source node missing"@,
        RuntimeErrorView::TargetMissing => "Target node missing"@,
        RuntimeErrorView::Cycle => "Cycle detected in execution graph during sort"@,
        RuntimeErrorView::ToolNotFound(name) => "Tool not found: "@ + name,
        RuntimeErrorView::CapabilityMismatch { node_id, provided, requested } => "Capability mismatch for node "@
            + node_id + ": tool provides '"@ + provided + "' but node requested '"@ + requested + "'"@,
        RuntimeErrorView::ExecutionFailed { tool_name, error } => "Execution failed at node "@ + tool_name + ": "@
            + error,
    }
}

impl RuntimeError {
    /// The message that reports this error.
    pub fn message(&self) -> (r: String)
        ensures
            r@ == runtime_message(self@),
    {
        match self {
            RuntimeError::SourceMissing => String::from_str("Source node missing"),
            RuntimeError::TargetMissing => String::from_str("Target node missing"),
            RuntimeError::Cycle => String::from_str("Cycle detected in execution graph during sort"),
            RuntimeError::ToolNotFound(name) => {
                let mut r = String::from_str("Tool not found: ");
                r.append(name.as_str());
                r
            },
            RuntimeError::CapabilityMismatch { node_id, provided, requested } => {
                let mut r = String::from_str("Capability mismatch for node ");
                r.append(node_id.as_str());
                r.append(": tool provides '");
                r.append(provided.as_str());
                r.append("' but node requested '");
                r.append(requested.as_str());
                r.append("'");
                r
            },
            RuntimeError::ExecutionFailed { tool_name, error } => {
                let mut r = String::from_str("Execution failed at node ");
                r.append(tool_name.as_str());
                r.append(": ");
                r.append(error.as_str());
                r
            },
        }
    }
}

/// The ids of the nodes, in node order.
pub open spec fn ids_of(g: GraphView) -> Seq<Seq<char>> {
    g.nodes.map_values(|n: NodeView| n.id)
}

/// The last position of `id` among `ids`: a later node overrides an earlier
/// one with the same id.
pub open spec fn last_position(ids: Seq<Seq<char>>, id: Seq<char>) -> int {
    choose|i: int| 0 <= i < ids.len() && ids[i] == id && forall|j: int| i < j < ids.len() ==> ids[j] != id
}

/// The edges between the nodes that their ids name last.
pub open spec fn runtime_edges(g: GraphView) -> Seq<(usize, usize)> {
    g.edges.map_values(
        |e: (Seq<char>, Seq<char>)|
            (last_position(ids_of(g), e.0) as usize, last_position(ids_of(g), e.1) as usize),
    )
}

/// What is wrong with one edge: its source is checked before its target.
pub open spec fn runtime_edge_problem(ids: Seq<Seq<char>>, e: (Seq<char>, Seq<char>)) -> Option<RuntimeErrorView> {
    if !ids.contains(e.0) {
        Some(RuntimeErrorView::SourceMissing)
    } else if !ids.contains(e.1) {
        Some(RuntimeErrorView::TargetMissing)
    } else {
        None
    }
}

/// The first edge problem of the graph, if any.
pub open spec fn first_edge_problem(g: GraphView) -> Option<RuntimeErrorView> {
    let ids = ids_of(g);
    if exists|k: int| 0 <= k < g.edges.len() && runtime_edge_problem(ids, g.edges[k]) is Some {
        let k = choose|k: int|
            0 <= k < g.edges.len() && runtime_edge_problem(ids, g.edges[k]) is Some && forall|j: int|
                0 <= j < k ==> runtime_edge_problem(ids, g.edges[j]) is None;
        runtime_edge_problem(ids, g.edges[k])
    } else {
        None
    }
}

/// The last position of `id` in `ids`.
fn find_last(ids: &Vec<String>, id: &String) -> (r: Option<usize>)
    ensures
        r matches Some(i) ==> i < ids.len() && ids@[i as int]@ == id@ && forall|j: int|
            i < j < ids.len() ==> ids@[j]@ != id@,
        r is None ==> !ids.deep_view().contains(id@),
{
    let mut i: usize = ids.len();
    while i > 0
        invariant
            i <= ids.len(),
            forall|j: int| i <= j < ids.len() ==> ids@[j]@ != id@,
        decreases i,
    {
        if ids[i - 1] == *id {
            return Some(i - 1);
        }
        i = i - 1;
    }
    proof {
        if ids.deep_view().contains(id@) {
            let j = choose|j: int| 0 <= j < ids.deep_view().len() && ids.deep_view()[j] == id@;
            assert(ids@[j]@ == id@);
        }
    }
    None
}

/// The step for each position of `ord`: the node that the id at that
/// position names last.
pub open spec fn steps_of(g: GraphView, ord: Seq<usize>) -> Seq<usize> {
    ord.map_values(|o: usize| last_position(ids_of(g), ids_of(g)[o as int]) as usize)
}

/// The steps of a run in the order `order` of node positions: each position
/// replaced by the last position of its node's id.
pub fn steps_for_order(graph: &IntentGraph, order: &Vec<usize>) -> (steps: Vec<usize>)
    requires
        forall|j: int| 0 <= j < order.len() ==> #[trigger] order@[j] < graph@.nodes.len(),
    ensures
        steps@ == steps_of(graph@, order@),
{
    let ghost g = graph@;
    let ghost ids_v = ids_of(g);
    let mut ids: Vec<String> = Vec::new();
    let mut i: usize = 0;
    while i < graph.nodes.len()
        invariant
            i <= graph.nodes.len(),
            g == graph@,
            ids_v == ids_of(g),
            ids.len() == i,
            forall|j: int| 0 <= j < i ==> #[trigger] ids@[j]@ == ids_v[j],
        decreases graph.nodes.len() - i,
    {
        ids.push(graph.nodes[i].id.clone());
        i = i + 1;
    }
    assert(ids.deep_view() =~= ids_v);
    let mut steps: Vec<usize> = Vec::new();
    let mut t: usize = 0;
    while t < order.len()
        invariant
            t <= order.len(),
            g == graph@,
            ids_v == ids_of(g),
            ids.deep_view() == ids_v,
            ids.len() == g.nodes.len(),
            forall|j: int| 0 <= j < order.len() ==> #[trigger] order@[j] < g.nodes.len(),
            steps.len() == t,
            forall|j: int| 0 <= j < t ==> #[trigger] steps@[j] == last_position(ids_v, ids_v[order@[j] as int]),
        decreases order.len() - t,
    {
        let at = order[t];
        let last = match find_last(&ids, &ids[at]) {
            Some(p) => p,
            None => {
                proof {
                    assert(ids.deep_view()[at as int] == ids@[at as int]@);
                }
                at
            },
        };
        proof {
            let id = ids_v[at as int];
            let p = last_position(ids_v, id);
            assert(ids.deep_view()[at as int] == id);
            assert(ids_v[last as int] == id);
            if p < last {
                assert(ids_v[last as int] != id);
            } else if p > last {
                assert(ids.deep_view()[p] == id);
            }
        }
        steps.push(last);
        t = t + 1;
    }
    assert(steps@ =~= steps_of(g, order@));
    steps
}

/// The positions of the nodes to run, in order: petgraph's topological order
/// of the graph over the nodes that their ids name last (`toposort_order`),
/// each step naming the node that its id names last; or why there is none.
pub fn runtime_plan(graph: &IntentGraph) -> (r: Result<Vec<usize>, RuntimeError>)
    requires
        graph.nodes.len() < u32::MAX,
        graph.edges.len() < u32::MAX,
    ensures
        first_edge_problem(graph@) matches Some(e) ==> r matches Err(err) && err@ == e,
        first_edge_problem(graph@) is None && !has_topo_order(graph@.nodes.len(), runtime_edges(graph@))
            ==> (r matches Err(err) && err@ == RuntimeErrorView::Cycle),
        r is Ok ==> first_edge_problem(graph@) is None,
        r matches Err(err) ==> first_edge_problem(graph@) == Some(err@) || (first_edge_problem(graph@) is None
            && err@ == RuntimeErrorView::Cycle && !has_topo_order(graph@.nodes.len(), runtime_edges(graph@))),
        r matches Ok(steps) ==> is_topo_order(
            graph@.nodes.len(),
            runtime_edges(graph@),
            toposort_order(graph@.nodes.len(), runtime_edges(graph@)),
        ) && steps@ == steps_of(graph@, toposort_order(graph@.nodes.len(), runtime_edges(graph@))),
{
    let ghost g = graph@;
    let ghost ids_v = ids_of(g);
    let mut dag = digraph_new();
    let mut ids: Vec<String> = Vec::new();
    let mut i: usize = 0;
    while i < graph.nodes.len()
        invariant
            i <= graph.nodes.len(),
            graph.nodes.len() < u32::MAX,
            g == graph@,
            ids_v == ids_of(g),
            ids.len() == i,
            forall|j: int| 0 <= j < i ==> #[trigger] ids@[j]@ == ids_v[j],
            digraph_nodes(dag).len() == i,
            digraph_edges(dag) == Seq::<(usize, usize)>::empty(),
        decreases graph.nodes.len() - i,
    {
        digraph_add_node(&mut dag, i);
        ids.push(graph.nodes[i].id.clone());
        i = i + 1;
    }
    assert(ids.deep_view() =~= ids_v);
    let mut k: usize = 0;
    while k < graph.edges.len()
        invariant
            k <= graph.edges.len(),
            graph.edges.len() < u32::MAX,
            g == graph@,
            ids_v == ids_of(g),
            ids.deep_view() == ids_v,
            ids.len() == g.nodes.len(),
            digraph_nodes(dag).len() == g.nodes.len(),
            digraph_edges(dag).len() == k,
            forall|j: int| 0 <= j < k ==> runtime_edge_problem(ids_v, #[trigger] g.edges[j]) is None,
            forall|j: int| 0 <= j < k ==> #[trigger] digraph_edges(dag)[j] == runtime_edges(g)[j],
        decreases graph.edges.len() - k,
    {
        let (src, dst) = (&graph.edges[k].0, &graph.edges[k].1);
        assert(g.edges[k as int] == (src@, dst@));
        let s = match find_last(&ids, src) {
            Some(s) => s,
            None => {
                proof {
                    let w = choose|w: int|
                        0 <= w < g.edges.len() && runtime_edge_problem(ids_v, g.edges[w]) is Some && forall|j: int|
                            0 <= j < w ==> runtime_edge_problem(ids_v, g.edges[j]) is None;
                    assert(runtime_edge_problem(ids_v, g.edges[k as int]) is Some);
                    if w < k {
                    } else if w > k {
                    }
                }
                return Err(RuntimeError::SourceMissing);
            },
        };
        let d = match find_last(&ids, dst) {
            Some(d) => d,
            None => {
                proof {
                    assert(ids.deep_view()[s as int] == src@);
                    assert(ids_v.contains(src@));
                    let w = choose|w: int|
                        0 <= w < g.edges.len() && runtime_edge_problem(ids_v, g.edges[w]) is Some && forall|j: int|
                            0 <= j < w ==> runtime_edge_problem(ids_v, g.edges[j]) is None;
                    assert(runtime_edge_problem(ids_v, g.edges[k as int]) is Some);
                    if w < k {
                    } else if w > k {
                    }
                }
                return Err(RuntimeError::TargetMissing);
            },
        };
        proof {
            assert(ids.deep_view()[s as int] == src@);
            assert(ids.deep_view()[d as int] == dst@);
            assert(runtime_edge_problem(ids_v, g.edges[k as int]) is None);
            assert(last_position(ids_v, src@) == s as int) by {
                let p = last_position(ids_v, src@);
                assert(ids_v[s as int] == src@);
                if p < s {
                    assert(ids_v[s as int] != src@);
                } else if p > s {
                    assert(ids.deep_view()[p] == src@);
                }
            }
            assert(last_position(ids_v, dst@) == d as int) by {
                let p = last_position(ids_v, dst@);
                assert(ids_v[d as int] == dst@);
                if p < d {
                    assert(ids_v[d as int] != dst@);
                } else if p > d {
                    assert(ids.deep_view()[p] == dst@);
                }
            }
        }
        let ghost before = digraph_edges(dag);
        digraph_add_edge(&mut dag, s, d);
        proof {
            assert forall|j: int| 0 <= j < k + 1 implies #[trigger] digraph_edges(dag)[j] == runtime_edges(g)[j] by {
                if j < k {
                    assert(before[j] == runtime_edges(g)[j]);
                }
            }
        }
        k = k + 1;
    }
    proof {
        assert(digraph_edges(dag) =~= runtime_edges(g));
        assert(!(exists|k: int| 0 <= k < g.edges.len() && runtime_edge_problem(ids_v, g.edges[k]) is Some));
    }
    let order = match digraph_toposort(&dag) {
        Ok(order) => order,
        Err(_) => {
            return Err(RuntimeError::Cycle);
        },
    };
    proof {
        assert forall|j: int| 0 <= j < order.len() implies #[trigger] order@[j] < graph@.nodes.len() by {
            assert(order@[j] < digraph_nodes(dag).len());
        }
    }
    let steps = steps_for_order(graph, &order);
    Ok(steps)
}

/// The decision before running `node` with the tool found under its name
/// (`tool_capability` is that tool's capability, or `None` when no tool has the
/// name): run it, or stop with an error.
pub fn dispatch(node: &Node, tool_capability: Option<&str>) -> (r: Result<(), RuntimeError>)
    ensures
        tool_capability is None ==> (r matches Err(e) && e@ == RuntimeErrorView::ToolNotFound(node.tool_name@)),
        tool_capability matches Some(c) ==> (c@ == node.capability@ <==> r is Ok),
        tool_capability matches Some(c) ==> (c@ != node.capability@ ==> (r matches Err(e) && e@
            == (RuntimeErrorView::CapabilityMismatch {
                node_id: node.id@,
                provided: c@,
                requested: node.capability@,
            }))),
{
    match tool_capability {
        None => Err(RuntimeError::ToolNotFound(node.tool_name.clone())),
        Some(c) => {
            if str_equal(c, node.capability.as_str()) {
                Ok(())
            } else {
                Err(
                    RuntimeError::CapabilityMismatch {
                        node_id: node.id.clone(),
                        provided: String::from_str(c),
                        requested: node.capability.clone(),
                    },
                )
            }
        },
    }
}

/// The record of one node's run on the host.
#[derive(Clone)]
pub struct ExecutionTrace {
    pub node_id: String,
    pub tool_name: String,
    /// `Success` or `Failed`.
    pub status: String,
    pub output: Option<Value>,
    pub error: Option<String>,
    pub duration_ms: u128,
}

/// The trace of running `node` with `outcome`, which took `duration_ms`.
pub fn make_trace(node: &Node, outcome: Result<Value, String>, duration_ms: u128) -> (t: ExecutionTrace)
    ensures
        t.node_id@ == node.id@,
        t.tool_name@ == node.tool_name@,
        t.duration_ms == duration_ms,
        outcome matches Ok(v) ==> (t.status@ == "Success"@ && t.output == Some(v) && t.error is None),
        outcome matches Err(e) ==> (t.error matches Some(m) && m@ == e@ && t.status@ == "Failed"@
            && t.output is None),
{
    match outcome {
        Ok(v) => ExecutionTrace {
            node_id: node.id.clone(),
            tool_name: node.tool_name.clone(),
            status: String::from_str("Success"),
            output: Some(v),
            error: None,
            duration_ms,
        },
        Err(e) => ExecutionTrace {
            node_id: node.id.clone(),
            tool_name: node.tool_name.clone(),
            status: String::from_str("Failed"),
            output: None,
            error: Some(e),
            duration_ms,
        },
    }
}

/// The decision after a trace: go on, or stop because its tool failed.
pub fn after_trace(trace: &ExecutionTrace) -> (r: Result<(), RuntimeError>)
    ensures
        trace.error is None <==> r is Ok,
        trace.error matches Some(m) ==> (r matches Err(e) && e@ == (RuntimeErrorView::ExecutionFailed {
            tool_name: trace.tool_name@,
            error: m@,
        })),
{
    match &trace.error {
        None => Ok(()),
        Some(m) => Err(RuntimeError::ExecutionFailed { tool_name: trace.tool_name.clone(), error: m.clone() }),
    }
}

/// The host's history of node runs.
pub struct EventLog {
    traces: Vec<ExecutionTrace>,
}

impl EventLog {
    pub fn new() -> (r: Self)
        ensures
            r.traces().len() == 0,
    {
        EventLog { traces: Vec::new() }
    }

    /// The traces, in the order they were pushed.
    pub closed spec fn traces(&self) -> Seq<ExecutionTrace> {
        self.traces@
    }

    /// Appends `trace`.
    pub fn push(&mut self, trace: ExecutionTrace)
        ensures
            final(self).traces() == old(self).traces().push(trace),
    {
        self.traces.push(trace);
    }

    /// Every trace pushed so far.
    pub fn get_traces(&self) -> (r: &[ExecutionTrace])
        ensures
            r@ == self.traces(),
    {
        self.traces.as_slice()
    }
}

} // verus!
