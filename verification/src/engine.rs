//! The execution engine: plans a graph in topological order, then runs each
//! node's tool, checking that the tool provides the capability the node claims,
//! and records every run in the event log.

use vstd::prelude::*;
use crate::graph::{IntentGraph, GraphView, NodeView};
use crate::schedule::{has_topo_order, is_topo_order, kahn_order, kahn_spec};
use crate::tools::{CapabilityTool, ToolRegistry};
use crate::text::str_equal;

verus! {

/// The record of one node's run.
pub struct ExecutionTrace {
    pub node_id: String,
    pub tool_name: String,
    /// `Success` or `Failed`.
    pub status: String,
    /// The tool's output; empty when the tool failed.
    pub output: String,
    /// The tool's error message when it failed.
    pub error: Option<String>,
}

/// A trace as character sequences.
pub struct TraceView {
    pub node_id: Seq<char>,
    pub tool_name: Seq<char>,
    pub status: Seq<char>,
    pub output: Seq<char>,
    pub error: Option<Seq<char>>,
}

impl View for ExecutionTrace {
    type V = TraceView;

    open spec fn view(&self) -> TraceView {
        TraceView {
            node_id: self.node_id@,
            tool_name: self.tool_name@,
            status: self.status@,
            output: self.output@,
            error: match self.error {
                Some(e) => Some(e@),
                None => None,
            },
        }
    }
}

impl Clone for ExecutionTrace {
    fn clone(&self) -> (r: Self)
        ensures
            r == *self,
    {
        ExecutionTrace {
            node_id: self.node_id.clone(),
            tool_name: self.tool_name.clone(),
            status: self.status.clone(),
            output: self.output.clone(),
            error: match &self.error {
                Some(e) => Some(e.clone()),
                None => None,
            },
        }
    }
}

/// The trace of running `node` with the given outcome.
pub open spec fn trace_of(node: NodeView, outcome: Result<Seq<char>, Seq<char>>) -> TraceView {
    match outcome {
        Ok(out) => TraceView {
            node_id: node.id,
            tool_name: node.tool_name,
            status: "Success"@,
            output: out,
            error: None,
        },
        Err(e) => TraceView {
            node_id: node.id,
            tool_name: node.tool_name,
            status: "Failed"@,
            output: Seq::empty(),
            error: Some(e),
        },
    }
}

/// The history of every node run, in order.
pub struct EventLog {
    pub traces: Vec<ExecutionTrace>,
}

impl EventLog {
    pub fn new() -> (r: Self)
        ensures
            r.traces@.len() == 0,
    {
        EventLog { traces: Vec::new() }
    }
}

/// Why the engine refused or stopped a graph.
pub enum EngineError {
    /// An edge ends at an id that no node has.
    DestMissing,
    /// An edge starts at an id that no node has.
    SourceMissing,
    /// The graph has a cycle, or two nodes share an id.
    CycleOrOrphan,
    /// No tool is registered under the node's tool name (the name).
    ToolNotFound(String),
    /// The tool does not provide the capability the node claims (the node's id).
    CapabilityMismatch(String),
}

/// An engine error as character sequences.
pub enum EngineErrorView {
    DestMissing,
    SourceMissing,
    CycleOrOrphan,
    ToolNotFound(Seq<char>),
    CapabilityMismatch(Seq<char>),
}

impl View for EngineError {
    type V = EngineErrorView;

    open spec fn view(&self) -> EngineErrorView {
        match self {
            EngineError::DestMissing => EngineErrorView::DestMissing,
            EngineError::SourceMissing => EngineErrorView::SourceMissing,
            EngineError::CycleOrOrphan => EngineErrorView::CycleOrOrphan,
            EngineError::ToolNotFound(n) => EngineErrorView::ToolNotFound(n@),
            EngineError::CapabilityMismatch(id) => EngineErrorView::CapabilityMismatch(id@),
        }
    }
}

/// The message that reports an engine error.
pub open spec fn engine_message(e: EngineErrorView) -> Seq<char> {
    match e {
        EngineErrorView::DestMissing => "Dest missing"@,
        EngineErrorView::SourceMissing => "Source missing"@,
        EngineErrorView::CycleOrOrphan => "Cycle detected or orphan nodes in graph"@,
        EngineErrorView::ToolNotFound(name) => "Tool not found: "@ + name,
        EngineErrorView::CapabilityMismatch(id) => "Capability mismatch for node "@ + id,
    }
}

impl EngineError {
    /// The message that reports this error.
    pub fn message(&self) -> (r: String)
        ensures
            r@ == engine_message(self@),
    {
        match self {
            EngineError::DestMissing => String::from_str("Dest missing"),
            EngineError::SourceMissing => String::from_str("Source missing"),
            EngineError::CycleOrOrphan => String::from_str("Cycle detected or orphan nodes in graph"),
            EngineError::ToolNotFound(name) => {
                let mut r = String::from_str("Tool not found: ");
                r.append(name.as_str());
                r
            },
            EngineError::CapabilityMismatch(id) => {
                let mut r = String::from_str("Capability mismatch for node ");
                r.append(id.as_str());
                r
            },
        }
    }
}

/// The ids of the nodes, in node order.
pub open spec fn node_ids(g: GraphView) -> Seq<Seq<char>> {
    g.nodes.map_values(|n: NodeView| n.id)
}

/// The position of `id` among `ids` (meaningful when it occurs exactly once).
pub open spec fn position_of(ids: Seq<Seq<char>>, id: Seq<char>) -> int {
    choose|i: int| 0 <= i < ids.len() && ids[i] == id
}

/// The edges as pairs of node positions.
pub open spec fn edge_positions(g: GraphView) -> Seq<(usize, usize)> {
    g.edges.map_values(
        |e: (Seq<char>, Seq<char>)|
            (position_of(node_ids(g), e.0) as usize, position_of(node_ids(g), e.1) as usize),
    )
}

/// What is wrong with one edge: its target is checked before its source.
pub open spec fn edge_problem(ids: Seq<Seq<char>>, e: (Seq<char>, Seq<char>)) -> Option<EngineErrorView> {
    if !ids.contains(e.1) {
        Some(EngineErrorView::DestMissing)
    } else if !ids.contains(e.0) {
        Some(EngineErrorView::SourceMissing)
    } else {
        None
    }
}

/// Why a graph cannot be planned: the first edge with an unknown end, else a
/// repeated id or a cycle; `None` when it can.
pub open spec fn plan_error(g: GraphView) -> Option<EngineErrorView> {
    let ids = node_ids(g);
    if exists|k: int| 0 <= k < g.edges.len() && edge_problem(ids, g.edges[k]) is Some {
        let k = choose|k: int|
            0 <= k < g.edges.len() && edge_problem(ids, g.edges[k]) is Some && forall|j: int|
                0 <= j < k ==> edge_problem(ids, g.edges[j]) is None;
        edge_problem(ids, g.edges[k])
    } else if !ids.no_duplicates() || !has_topo_order(ids.len(), edge_positions(g)) {
        Some(EngineErrorView::CycleOrOrphan)
    } else {
        None
    }
}

/// The first edge with a problem, given one such edge `k`.
proof fn lemma_first_problem(g: GraphView, k: int) -> (m: int)
    requires
        0 <= k < g.edges.len(),
        edge_problem(node_ids(g), g.edges[k]) is Some,
    ensures
        0 <= m <= k,
        edge_problem(node_ids(g), g.edges[m]) is Some,
        forall|j: int| 0 <= j < m ==> edge_problem(node_ids(g), #[trigger] g.edges[j]) is None,
    decreases k,
{
    if exists|j: int| 0 <= j < k && edge_problem(node_ids(g), #[trigger] g.edges[j]) is Some {
        let j = choose|j: int| 0 <= j < k && edge_problem(node_ids(g), #[trigger] g.edges[j]) is Some;
        lemma_first_problem(g, j)
    } else {
        k
    }
}

/// An edge with an unknown end makes the graph unplannable for an unknown
/// end, not for a cycle.
pub proof fn lemma_unknown_end_decides(g: GraphView, k: int)
    requires
        0 <= k < g.edges.len(),
        edge_problem(node_ids(g), g.edges[k]) is Some,
    ensures
        plan_error(g) == Some(EngineErrorView::DestMissing) || plan_error(g) == Some(EngineErrorView::SourceMissing),
{
    let m = lemma_first_problem(g, k);
    let ids = node_ids(g);
    let w = choose|w: int|
        0 <= w < g.edges.len() && edge_problem(ids, g.edges[w]) is Some && forall|j: int|
            0 <= j < w ==> edge_problem(ids, g.edges[j]) is None;
    if w < m {
    } else if w > m {
    }
    assert(plan_error(g) == edge_problem(ids, g.edges[m]));
}

/// A graph that can be planned has known edge ends, distinct ids, and a
/// topological order.
pub proof fn lemma_plannable(g: GraphView)
    requires
        plan_error(g) is None,
    ensures
        forall|k: int| 0 <= k < g.edges.len() ==> edge_problem(node_ids(g), #[trigger] g.edges[k]) is None,
        node_ids(g).no_duplicates(),
        has_topo_order(g.nodes.len(), edge_positions(g)),
{
    if exists|k: int| 0 <= k < g.edges.len() && edge_problem(node_ids(g), g.edges[k]) is Some {
        let k = choose|k: int| 0 <= k < g.edges.len() && edge_problem(node_ids(g), g.edges[k]) is Some;
        let m = lemma_first_problem(g, k);
        assert(plan_error(g) is Some);
    }
}

/// The first position of `id` in `ids`.
fn find_id(ids: &Vec<String>, id: &String) -> (r: Option<usize>)
    ensures
        r matches Some(i) ==> i < ids.len() && ids@[i as int]@ == id@ && forall|j: int|
            0 <= j < i ==> ids@[j]@ != id@,
        r is None ==> !ids.deep_view().contains(id@),
{
    let mut i: usize = 0;
    while i < ids.len()
        invariant
            i <= ids.len(),
            forall|j: int| 0 <= j < i ==> ids@[j]@ != id@,
        decreases ids.len() - i,
    {
        if ids[i] == *id {
            return Some(i);
        }
        i = i + 1;
    }
    proof {
        if ids.deep_view().contains(id@) {
            let j = choose|j: int| 0 <= j < ids.deep_view().len() && ids.deep_view()[j] == id@;
            assert(ids@[j]@ == id@);
        }
    }
    None
}

/// Whether two of `ids` are equal.
fn has_duplicate(ids: &Vec<String>) -> (r: bool)
    ensures
        r == !ids.deep_view().no_duplicates(),
{
    let mut i: usize = 0;
    while i < ids.len()
        invariant
            i <= ids.len(),
            forall|a: int, b: int| 0 <= a < b < ids.len() && a < i ==> ids@[a]@ != ids@[b]@,
        decreases ids.len() - i,
    {
        let mut j: usize = i + 1;
        while j < ids.len()
            invariant
                i < j <= ids.len(),
                forall|a: int, b: int| 0 <= a < b < ids.len() && a < i ==> ids@[a]@ != ids@[b]@,
                forall|b: int| i < b < j ==> ids@[i as int]@ != ids@[b]@,
            decreases ids.len() - j,
        {
            if ids[i] == ids[j] {
                proof {
                    assert(ids.deep_view()[i as int] == ids.deep_view()[j as int]);
                }
                return true;
            }
            j = j + 1;
        }
        i = i + 1;
    }
    proof {
        assert forall|a: int, b: int| 0 <= a < ids.deep_view().len() && 0 <= b < ids.deep_view().len() && a != b
            implies ids.deep_view()[a] != ids.deep_view()[b] by {
            if a < b {
                assert(ids@[a]@ != ids@[b]@);
            } else {
                assert(ids@[b]@ != ids@[a]@);
            }
        }
    }
    false
}

/// The order in which the nodes of `g` run: Kahn's algorithm over the node
/// positions, starting from the nodes that nothing points to in the order of
/// their ids (see `kahn_spec`).
pub open spec fn run_order(g: GraphView) -> Seq<usize> {
    kahn_spec(node_ids(g), edge_positions(g))
}

/// The order in which to run the nodes of `graph` (`run_order`): each node
/// once, every edge forward; or why there is none.
pub fn plan(graph: &IntentGraph) -> (r: Result<Vec<usize>, EngineError>)
    ensures
        r matches Err(e) ==> plan_error(graph@) == Some(e@),
        r matches Ok(ord) ==> plan_error(graph@) is None && ord@ == run_order(graph@) && is_topo_order(
            graph@.nodes.len(),
            edge_positions(graph@),
            ord@,
        ),
        plan_error(graph@) is None ==> r is Ok,
{
    let ghost g = graph@;
    let ghost ids_v = node_ids(g);
    let mut ids: Vec<String> = Vec::new();
    let mut i: usize = 0;
    while i < graph.nodes.len()
        invariant
            i <= graph.nodes.len(),
            g == graph@,
            ids_v == node_ids(g),
            ids.len() == i,
            forall|j: int| 0 <= j < i ==> #[trigger] ids@[j]@ == ids_v[j],
        decreases graph.nodes.len() - i,
    {
        ids.push(graph.nodes[i].id.clone());
        i = i + 1;
    }
    assert(ids.deep_view() =~= ids_v);
    let mut edges: Vec<(usize, usize)> = Vec::new();
    let mut k: usize = 0;
    while k < graph.edges.len()
        invariant
            k <= graph.edges.len(),
            g == graph@,
            ids_v == node_ids(g),
            ids.deep_view() == ids_v,
            ids.len() == g.nodes.len(),
            edges.len() == k,
            forall|j: int| 0 <= j < k ==> edge_problem(ids_v, #[trigger] g.edges[j]) is None,
            forall|j: int| 0 <= j < k ==> (#[trigger] edges@[j]).0 < ids.len() && edges@[j].1 < ids.len()
                && ids_v[edges@[j].0 as int] == g.edges[j].0 && ids_v[edges@[j].1 as int] == g.edges[j].1,
        decreases graph.edges.len() - k,
    {
        let (src, dst) = (&graph.edges[k].0, &graph.edges[k].1);
        assert(g.edges[k as int] == (src@, dst@));
        let d = match find_id(&ids, dst) {
            Some(d) => d,
            None => {
                proof {
                    let w = choose|w: int|
                        0 <= w < g.edges.len() && edge_problem(ids_v, g.edges[w]) is Some && forall|j: int|
                            0 <= j < w ==> edge_problem(ids_v, g.edges[j]) is None;
                    assert(edge_problem(ids_v, g.edges[k as int]) is Some);
                    if w < k {
                    } else if w > k {
                    }
                }
                return Err(EngineError::DestMissing);
            },
        };
        assert(ids.deep_view()[d as int] == dst@);
        let s = match find_id(&ids, src) {
            Some(s) => s,
            None => {
                proof {
                    assert(ids_v.contains(dst@));
                    let w = choose|w: int|
                        0 <= w < g.edges.len() && edge_problem(ids_v, g.edges[w]) is Some && forall|j: int|
                            0 <= j < w ==> edge_problem(ids_v, g.edges[j]) is None;
                    assert(edge_problem(ids_v, g.edges[k as int]) is Some);
                    if w < k {
                    } else if w > k {
                    }
                }
                return Err(EngineError::SourceMissing);
            },
        };
        assert(ids.deep_view()[s as int] == src@);
        assert(edge_problem(ids_v, g.edges[k as int]) is None);
        edges.push((s, d));
        k = k + 1;
    }
    if has_duplicate(&ids) {
        return Err(EngineError::CycleOrOrphan);
    }
    proof {
        assert forall|j: int| 0 <= j < edges.len() implies (#[trigger] edges@[j]) == edge_positions(g)[j] by {
            let p0 = position_of(ids_v, g.edges[j].0);
            let p1 = position_of(ids_v, g.edges[j].1);
            assert(ids_v[edges@[j].0 as int] == g.edges[j].0);
            assert(ids_v[p0] == g.edges[j].0);
            assert(ids_v[edges@[j].1 as int] == g.edges[j].1);
            assert(ids_v[p1] == g.edges[j].1);
        }
        assert(edges@ =~= edge_positions(g));
    }
    match kahn_order(&ids, &edges) {
        Some(ord) => Ok(ord),
        None => Err(EngineError::CycleOrOrphan),
    }
}

/// Running the nodes at positions `p..` of `ord` with the tools of `reg`: the
/// traces recorded and the error that stopped the run, if any. A node whose
/// tool is not registered, or provides another capability than the node
/// claims, stops the run with an error and no trace; a node whose tool fails
/// leaves a failed trace and ends the run without error.
pub open spec fn run_from<T: CapabilityTool>(
    reg: Map<Seq<char>, T>,
    nodes: Seq<NodeView>,
    ord: Seq<usize>,
    p: int,
) -> (Seq<TraceView>, Option<EngineErrorView>)
    decreases ord.len() - p,
{
    if p < 0 || p >= ord.len() {
        (Seq::empty(), None)
    } else {
        let node = nodes[ord[p] as int];
        if !reg.contains_key(node.tool_name) {
            (Seq::empty(), Some(EngineErrorView::ToolNotFound(node.tool_name)))
        } else if reg[node.tool_name].spec_capability() != node.capability {
            (Seq::empty(), Some(EngineErrorView::CapabilityMismatch(node.id)))
        } else {
            let outcome = reg[node.tool_name].spec_execute(node.inputs);
            let trace = trace_of(node, outcome);
            if outcome is Err {
                (seq![trace], None)
            } else {
                let rest = run_from(reg, nodes, ord, p + 1);
                (seq![trace] + rest.0, rest.1)
            }
        }
    }
}

/// The traces of `ts` as character sequences.
pub open spec fn views_of(ts: Seq<ExecutionTrace>) -> Seq<TraceView> {
    ts.map_values(|t: ExecutionTrace| t@)
}

/// A registry of tools and the log of everything they ran.
pub struct ExecutionEngine<T: CapabilityTool> {
    pub registry: ToolRegistry<T>,
    pub log: EventLog,
}

impl<T: CapabilityTool> ExecutionEngine<T> {
    pub fn new(registry: ToolRegistry<T>) -> (r: Self)
        ensures
            r.registry == registry,
            r.log.traces@.len() == 0,
    {
        ExecutionEngine { registry, log: EventLog::new() }
    }

    /// Plans `graph`, then runs its nodes in that order (see `run_from`),
    /// appending each trace to the log.
    pub fn execute(&mut self, graph: &IntentGraph) -> (r: Result<Vec<ExecutionTrace>, EngineError>)
        ensures
            final(self).registry == old(self).registry,
            plan_error(graph@) matches Some(e) ==> (r matches Err(err) && err@ == e
                && final(self).log.traces@ == old(self).log.traces@),
            plan_error(graph@) is None ==> is_topo_order(
                graph@.nodes.len(),
                edge_positions(graph@),
                run_order(graph@),
            ) && {
                let run = run_from(old(self).registry@, graph@.nodes, run_order(graph@), 0);
                &&& views_of(final(self).log.traces@) == views_of(old(self).log.traces@) + run.0
                &&& r matches Ok(ts) ==> run.1 is None && views_of(ts@) == run.0
                &&& r matches Err(e) ==> run.1 == Some(e@)
            },
    {
        let ord = match plan(graph) {
            Ok(ord) => ord,
            Err(e) => {
                return Err(e);
            },
        };
        let ghost g = graph@;
        let ghost reg = self.registry@;
        let ghost old_log = views_of(self.log.traces@);
        let mut traces: Vec<ExecutionTrace> = Vec::new();
        let mut p: usize = 0;
        while p < ord.len()
            invariant
                p <= ord.len(),
                g == graph@,
                reg == self.registry@,
                self.registry == old(self).registry,
                old_log == views_of(old(self).log.traces@),
                is_topo_order(g.nodes.len(), edge_positions(g), ord@),
                ord@ == run_order(g),
                plan_error(g) is None,
                run_from(reg, g.nodes, ord@, 0) == (views_of(traces@) + run_from(reg, g.nodes, ord@, p as int).0,
                    run_from(reg, g.nodes, ord@, p as int).1),
                views_of(self.log.traces@) == old_log + views_of(traces@),
            decreases ord.len() - p,
        {
            let ghost run_p = run_from(reg, g.nodes, ord@, p as int);
            assert(ord@[p as int] < g.nodes.len());
            let node = &graph.nodes[ord[p]];
            assert(g.nodes[ord@[p as int] as int] == node@);
            let tool = match self.registry.get(node.tool_name.as_str()) {
                Some(t) => t,
                None => {
                    proof {
                        assert(views_of(traces@) + Seq::<TraceView>::empty() =~= views_of(traces@));
                    }
                    return Err(EngineError::ToolNotFound(node.tool_name.clone()));
                },
            };
            if !str_equal(tool.capability(), node.capability.as_str()) {
                proof {
                    assert(views_of(traces@) + Seq::<TraceView>::empty() =~= views_of(traces@));
                }
                return Err(EngineError::CapabilityMismatch(node.id.clone()));
            }
            let result = tool.execute(&node.inputs);
            let failed = result.is_err();
            let trace = match result {
                Ok(out) => ExecutionTrace {
                    node_id: node.id.clone(),
                    tool_name: node.tool_name.clone(),
                    status: String::from_str("Success"),
                    output: out,
                    error: None,
                },
                Err(e) => ExecutionTrace {
                    node_id: node.id.clone(),
                    tool_name: node.tool_name.clone(),
                    status: String::from_str("Failed"),
                    output: String::new(),
                    error: Some(e),
                },
            };
            assert(trace@ == trace_of(node@, reg[node@.tool_name].spec_execute(node@.inputs)));
            let ghost before_traces = traces@;
            let ghost before_log = self.log.traces@;
            self.log.traces.push(trace.clone());
            traces.push(trace);
            proof {
                assert(views_of(traces@) =~= views_of(before_traces).push(trace@));
                assert(views_of(self.log.traces@) =~= views_of(before_log).push(trace@));
                assert(old_log + views_of(traces@) =~= (old_log + views_of(before_traces)).push(trace@));
            }
            if failed {
                proof {
                    assert(views_of(traces@) =~= views_of(before_traces) + seq![trace@]);
                }
                return Ok(traces);
            }
            proof {
                let rest = run_from(reg, g.nodes, ord@, p as int + 1);
                assert(run_p == (seq![trace@] + rest.0, rest.1));
                assert(views_of(before_traces) + (seq![trace@] + rest.0) =~= views_of(traces@) + rest.0);
            }
            p = p + 1;
        }
        proof {
            assert(views_of(traces@) + Seq::<TraceView>::empty() =~= views_of(traces@));
        }
        Ok(traces)
    }
}

} // verus!
