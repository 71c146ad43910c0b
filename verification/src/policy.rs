//! The symbolic gate: the policy that every node of a graph must meet before
//! the graph may run.

use vstd::prelude::*;
use crate::engine::{edge_positions, plan, plan_error, EngineError, EngineErrorView};
use crate::schedule::has_topo_order;
use crate::graph::{GraphView, IntentGraph, Node, NodeView};
use crate::text::contains_string;

verus! {

/// Which capabilities nodes may claim, which they may never claim, and which
/// constraint tags every node must carry.
pub struct Policy {
    pub allowed_capabilities: Vec<String>,
    pub denied_capabilities: Vec<String>,
    pub mandatory_constraints: Vec<String>,
}

/// A policy as character sequences.
pub struct PolicyView {
    pub allowed: Seq<Seq<char>>,
    pub denied: Seq<Seq<char>>,
    pub mandatory: Seq<Seq<char>>,
}

impl View for Policy {
    type V = PolicyView;

    open spec fn view(&self) -> PolicyView {
        PolicyView {
            allowed: self.allowed_capabilities.deep_view(),
            denied: self.denied_capabilities.deep_view(),
            mandatory: self.mandatory_constraints.deep_view(),
        }
    }
}

impl Policy {
    /// The policy of an ordinary user: file reads and writes, debugging and
    /// system information; never administration; every node local only.
    pub fn default_user() -> (p: Self)
        ensures
            p@.allowed == seq!["fs.read"@, "fs.write"@, "sys.debug"@, "sys.info"@],
            p@.denied == seq!["sys.admin"@],
            p@.mandatory == seq!["local_only"@],
    {
        let mut allowed: Vec<String> = Vec::new();
        allowed.push(String::from_str("fs.read"));
        allowed.push(String::from_str("fs.write"));
        allowed.push(String::from_str("sys.debug"));
        allowed.push(String::from_str("sys.info"));
        let mut denied: Vec<String> = Vec::new();
        denied.push(String::from_str("sys.admin"));
        let mut mandatory: Vec<String> = Vec::new();
        mandatory.push(String::from_str("local_only"));
        let p = Policy {
            allowed_capabilities: allowed,
            denied_capabilities: denied,
            mandatory_constraints: mandatory,
        };
        assert(p@.allowed =~= seq!["fs.read"@, "fs.write"@, "sys.debug"@, "sys.info"@]);
        assert(p@.denied =~= seq!["sys.admin"@]);
        assert(p@.mandatory =~= seq!["local_only"@]);
        p
    }
}

/// The policy in force.
pub struct SecurityContext {
    pub current_policy: Policy,
}

/// Why the policy refused a graph.
pub enum GateError {
    /// The graph has no node.
    EmptyGraph,
    /// A node claims a capability that the policy denies.
    DeniedCapability(String),
    /// A node claims a capability that the policy does not allow.
    UnauthorizedCapability(String),
    /// A node lacks a mandatory constraint: the constraint, then the node's id.
    MissingConstraint(String, String),
    /// A node has an empty id or an empty tool name.
    MalformedNode,
    /// An edge names an id that no node has.
    UnknownEdgeEndpoint,
    /// The edges form a cycle, or two nodes share an id: the graph is no DAG.
    CyclicGraph,
}

/// A gate error as character sequences.
pub enum GateErrorView {
    EmptyGraph,
    DeniedCapability(Seq<char>),
    UnauthorizedCapability(Seq<char>),
    MissingConstraint(Seq<char>, Seq<char>),
    MalformedNode,
    UnknownEdgeEndpoint,
    CyclicGraph,
}

impl View for GateError {
    type V = GateErrorView;

    open spec fn view(&self) -> GateErrorView {
        match self {
            GateError::EmptyGraph => GateErrorView::EmptyGraph,
            GateError::DeniedCapability(c) => GateErrorView::DeniedCapability(c@),
            GateError::UnauthorizedCapability(c) => GateErrorView::UnauthorizedCapability(c@),
            GateError::MissingConstraint(m, id) => GateErrorView::MissingConstraint(m@, id@),
            GateError::MalformedNode => GateErrorView::MalformedNode,
            GateError::UnknownEdgeEndpoint => GateErrorView::UnknownEdgeEndpoint,
            GateError::CyclicGraph => GateErrorView::CyclicGraph,
        }
    }
}

/// The message that reports a gate error.
pub open spec fn gate_message(e: GateErrorView) -> Seq<char> {
    match e {
        GateErrorView::EmptyGraph => "Empty graph"@,
        GateErrorView::DeniedCapability(c) => "Explicitly denied capability: "@ + c,
        GateErrorView::UnauthorizedCapability(c) => "Unauthorized capability: "@ + c,
        GateErrorView::MissingConstraint(m, id) => "Missing mandatory constraint '"@ + m + "' for node "@ + id,
        GateErrorView::MalformedNode => "Malformed node in graph"@,
        GateErrorView::UnknownEdgeEndpoint => "Edge refers to an unknown node"@,
        GateErrorView::CyclicGraph => "Graph is not a DAG: cycle or repeated node id"@,
    }
}

impl GateError {
    /// The message that reports this error.
    pub fn message(&self) -> (r: String)
        ensures
            r@ == gate_message(self@),
    {
        match self {
            GateError::EmptyGraph => String::from_str("Empty graph"),
            GateError::DeniedCapability(c) => {
                let mut r = String::from_str("Explicitly denied capability: ");
                r.append(c.as_str());
                r
            },
            GateError::UnauthorizedCapability(c) => {
                let mut r = String::from_str("Unauthorized capability: ");
                r.append(c.as_str());
                r
            },
            GateError::MissingConstraint(m, id) => {
                let mut r = String::from_str("Missing mandatory constraint '");
                r.append(m.as_str());
                r.append("' for node ");
                r.append(id.as_str());
                r
            },
            GateError::MalformedNode => String::from_str("Malformed node in graph"),
            GateError::UnknownEdgeEndpoint => String::from_str("Edge refers to an unknown node"),
            GateError::CyclicGraph => String::from_str("Graph is not a DAG: cycle or repeated node id"),
        }
    }
}

/// The index of the first mandatory constraint that `node` lacks, if any.
pub open spec fn first_missing(mandatory: Seq<Seq<char>>, node: NodeView) -> Option<int> {
    if exists|m: int| 0 <= m < mandatory.len() && !node.constraints.contains(mandatory[m]) {
        Some(choose|m: int| 0 <= m < mandatory.len() && !node.constraints.contains(mandatory[m])
            && forall|l: int| 0 <= l < m ==> node.constraints.contains(mandatory[l]))
    } else {
        None
    }
}

/// What the policy holds against one node, checked in this order: a denied
/// capability, a capability not allowed, a missing mandatory constraint, an
/// empty id or tool name.
pub open spec fn node_violation(policy: PolicyView, node: NodeView) -> Option<GateErrorView> {
    if policy.denied.contains(node.capability) {
        Some(GateErrorView::DeniedCapability(node.capability))
    } else if !policy.allowed.contains(node.capability) {
        Some(GateErrorView::UnauthorizedCapability(node.capability))
    } else if exists|m: int| 0 <= m < policy.mandatory.len()
        && !node.constraints.contains(policy.mandatory[m]) {
        Some(GateErrorView::MissingConstraint(policy.mandatory[first_missing(policy.mandatory, node)->0], node.id))
    } else if node.id.len() == 0 || node.tool_name.len() == 0 {
        Some(GateErrorView::MalformedNode)
    } else {
        None
    }
}

/// The verdict on the nodes of a graph: refused when there is none, else
/// refused for the first node that violates the policy, else accepted.
pub open spec fn nodes_verdict(policy: PolicyView, nodes: Seq<NodeView>) -> Result<(), GateErrorView> {
    if nodes.len() == 0 {
        Err(GateErrorView::EmptyGraph)
    } else if exists|i: int| 0 <= i < nodes.len() && node_violation(policy, nodes[i]) is Some {
        let i = choose|i: int| 0 <= i < nodes.len() && node_violation(policy, nodes[i]) is Some
            && forall|j: int| 0 <= j < i ==> node_violation(policy, nodes[j]) is None;
        Err(node_violation(policy, nodes[i])->0)
    } else {
        Ok(())
    }
}

/// The verdict on a whole graph: the verdict on its nodes; then, for nodes
/// that pass, refused when an edge names an unknown node, or when the graph is
/// not a DAG (a cycle, or two nodes with one id); else accepted.
pub open spec fn gate_verdict(policy: PolicyView, g: GraphView) -> Result<(), GateErrorView> {
    match nodes_verdict(policy, g.nodes) {
        Err(e) => Err(e),
        Ok(_) => match plan_error(g) {
            None => Ok(()),
            Some(EngineErrorView::CycleOrOrphan) => Err(GateErrorView::CyclicGraph),
            Some(_) => Err(GateErrorView::UnknownEdgeEndpoint),
        },
    }
}

/// The validation engine that stands between a compiled graph and its execution.
pub struct SymbolicGate {
    pub context: SecurityContext,
}

impl SymbolicGate {
    pub fn new(policy: Policy) -> (g: Self)
        ensures
            g.context.current_policy == policy,
    {
        SymbolicGate { context: SecurityContext { current_policy: policy } }
    }

    /// The first violation of `node`, found as `node_violation` orders them.
    fn check_node(&self, node: &Node) -> (r: Result<(), GateError>)
        ensures
            r matches Ok(_) ==> node_violation(self.context.current_policy@, node@) is None,
            r matches Err(e) ==> node_violation(self.context.current_policy@, node@) == Some(e@),
    {
        let policy = &self.context.current_policy;
        if contains_string(&policy.denied_capabilities, &node.capability) {
            return Err(GateError::DeniedCapability(node.capability.clone()));
        }
        if !contains_string(&policy.allowed_capabilities, &node.capability) {
            return Err(GateError::UnauthorizedCapability(node.capability.clone()));
        }
        let mut m: usize = 0;
        while m < policy.mandatory_constraints.len()
            invariant
                m <= policy.mandatory_constraints.len(),
                policy == &self.context.current_policy,
                !policy@.denied.contains(node@.capability),
                policy@.allowed.contains(node@.capability),
                forall|l: int| 0 <= l < m ==> node@.constraints.contains(policy@.mandatory[l]),
            decreases policy.mandatory_constraints.len() - m,
        {
            let mandatory = &policy.mandatory_constraints[m];
            if !contains_string(&node.constraints, mandatory) {
                proof {
                    let ghost mv = policy@.mandatory;
                    assert(mv[m as int] == mandatory@);
                    let w = first_missing(mv, node@)->0;
                    assert(0 <= w < mv.len() && !node@.constraints.contains(mv[w])
                        && forall|l: int| 0 <= l < w ==> node@.constraints.contains(mv[l]));
                    if w < m {
                    } else if w > m {
                        assert(node@.constraints.contains(mv[m as int]));
                    }
                    assert(w == m);
                }
                return Err(GateError::MissingConstraint(mandatory.clone(), node.id.clone()));
            }
            m = m + 1;
        }
        if node.id.unicode_len() == 0 || node.tool_name.unicode_len() == 0 {
            return Err(GateError::MalformedNode);
        }
        Ok(())
    }

    /// Checks `graph` against the policy in force.
    pub fn validate(&self, graph: &IntentGraph) -> (r: Result<(), GateError>)
        ensures
            r matches Ok(_) ==> gate_verdict(self.context.current_policy@, graph@) is Ok,
            r matches Err(e) ==> gate_verdict(self.context.current_policy@, graph@) == Err::<(), GateErrorView>(e@),
            r is Ok ==> has_topo_order(graph@.nodes.len(), edge_positions(graph@)) && graph@.nodes.len() > 0,
    {
        let ghost policy = self.context.current_policy@;
        let ghost nodes = graph@.nodes;
        if graph.nodes.len() == 0 {
            return Err(GateError::EmptyGraph);
        }
        let mut i: usize = 0;
        while i < graph.nodes.len()
            invariant
                i <= graph.nodes.len(),
                policy == self.context.current_policy@,
                nodes == graph@.nodes,
                forall|j: int| 0 <= j < i ==> node_violation(policy, nodes[j]) is None,
            decreases graph.nodes.len() - i,
        {
            match self.check_node(&graph.nodes[i]) {
                Ok(()) => {},
                Err(e) => {
                    proof {
                        assert(nodes[i as int] == graph.nodes[i as int]@);
                        let w = choose|w: int| 0 <= w < nodes.len() && node_violation(policy, nodes[w]) is Some
                            && forall|j: int| 0 <= j < w ==> node_violation(policy, nodes[j]) is None;
                        assert(node_violation(policy, nodes[i as int]) is Some);
                        if w < i {
                        } else if w > i {
                        }
                    }
                    return Err(e);
                },
            }
            assert(nodes[i as int] == graph.nodes[i as int]@);
            i = i + 1;
        }
        assert(nodes_verdict(policy, nodes) is Ok);
        match plan(graph) {
            Ok(_) => Ok(()),
            Err(EngineError::CycleOrOrphan) => Err(GateError::CyclicGraph),
            Err(_) => Err(GateError::UnknownEdgeEndpoint),
        }
    }
}

} // verus!
