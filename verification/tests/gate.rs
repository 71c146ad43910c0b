use danger_os::graph::{InputMap, IntentGraph, Node};
use danger_os::policy::{GateError, Policy, SymbolicGate};
use danger_os::compiler::SyscallBridge;

fn node(id: &str, tool: &str, cap: &str, constraints: &[&str]) -> Node {
    Node {
        id: id.to_string(),
        tool_name: tool.to_string(),
        capability: cap.to_string(),
        inputs: InputMap::new(),
        constraints: constraints.iter().map(|c| c.to_string()).collect(),
    }
}

fn graph(nodes: Vec<Node>) -> IntentGraph {
    IntentGraph { nodes, edges: Vec::new() }
}

#[test]
fn default_user_policy_lists() {
    let p = Policy::default_user();
    assert_eq!(p.allowed_capabilities, vec!["fs.read", "fs.write", "sys.debug", "sys.info"]);
    assert_eq!(p.denied_capabilities, vec!["sys.admin"]);
    assert_eq!(p.mandatory_constraints, vec!["local_only"]);
}

#[test]
fn gate_keeps_its_policy() {
    let gate = SymbolicGate::new(Policy::default_user());
    assert_eq!(gate.context.current_policy.denied_capabilities, vec!["sys.admin"]);
}

#[test]
fn empty_graph_is_refused() {
    let gate = SymbolicGate::new(Policy::default_user());
    assert!(matches!(gate.validate(&graph(vec![])), Err(GateError::EmptyGraph)));
}

#[test]
fn compliant_graph_is_accepted() {
    let gate = SymbolicGate::new(Policy::default_user());
    let g = graph(vec![node("n1", "file_read", "fs.read", &["local_only"]), node("n2", "debug_echo", "sys.debug", &["local_only", "extra"])]);
    assert!(gate.validate(&g).is_ok());
}

#[test]
fn denied_capability_is_refused() {
    let gate = SymbolicGate::new(Policy::default_user());
    let g = graph(vec![node("n1", "admin", "sys.admin", &["local_only"])]);
    match gate.validate(&g) {
        Err(GateError::DeniedCapability(c)) => assert_eq!(c, "sys.admin"),
        _ => panic!("expected a denied capability"),
    }
}

#[test]
fn denial_overrides_allowance() {
    let policy = Policy {
        allowed_capabilities: vec!["x".to_string()],
        denied_capabilities: vec!["x".to_string()],
        mandatory_constraints: vec![],
    };
    let gate = SymbolicGate::new(policy);
    let g = graph(vec![node("n1", "t", "x", &[])]);
    assert!(matches!(gate.validate(&g), Err(GateError::DeniedCapability(_))));
}

#[test]
fn unknown_capability_is_unauthorized() {
    let gate = SymbolicGate::new(Policy::default_user());
    let g = graph(vec![node("n1", "net", "net.send", &["local_only"])]);
    match gate.validate(&g) {
        Err(GateError::UnauthorizedCapability(c)) => assert_eq!(c, "net.send"),
        _ => panic!("expected an unauthorized capability"),
    }
}

#[test]
fn missing_constraint_names_node() {
    let gate = SymbolicGate::new(Policy::default_user());
    let g = graph(vec![node("n1", "file_read", "fs.read", &["local_only"]), node("n2", "debug_echo", "sys.debug", &[])]);
    match gate.validate(&g) {
        Err(GateError::MissingConstraint(m, id)) => {
            assert_eq!(m, "local_only");
            assert_eq!(id, "n2");
        }
        _ => panic!("expected a missing constraint"),
    }
}

#[test]
fn first_missing_constraint_is_reported() {
    let policy = Policy {
        allowed_capabilities: vec!["fs.read".to_string()],
        denied_capabilities: vec![],
        mandatory_constraints: vec!["a".to_string(), "b".to_string(), "c".to_string()],
    };
    let gate = SymbolicGate::new(policy);
    let g = graph(vec![node("n1", "file_read", "fs.read", &["a", "c"])]);
    match gate.validate(&g) {
        Err(GateError::MissingConstraint(m, _)) => assert_eq!(m, "b"),
        _ => panic!("expected a missing constraint"),
    }
}

#[test]
fn malformed_node_is_refused() {
    let gate = SymbolicGate::new(Policy::default_user());
    let g = graph(vec![node("", "file_read", "fs.read", &["local_only"])]);
    assert!(matches!(gate.validate(&g), Err(GateError::MalformedNode)));
    let g = graph(vec![node("n1", "", "fs.read", &["local_only"])]);
    assert!(matches!(gate.validate(&g), Err(GateError::MalformedNode)));
}

#[test]
fn first_bad_node_decides() {
    let gate = SymbolicGate::new(Policy::default_user());
    let g = graph(vec![node("n1", "net", "net.send", &[]), node("n2", "admin", "sys.admin", &[])]);
    assert!(matches!(gate.validate(&g), Err(GateError::UnauthorizedCapability(_))));
}

#[test]
fn mock_graph_fails_default_policy() {
    let gate = SymbolicGate::new(Policy::default_user());
    let g = SyscallBridge::compile_mock("read file test.txt and debug echo result");
    match gate.validate(&g) {
        Err(GateError::MissingConstraint(m, id)) => {
            assert_eq!(m, "local_only");
            assert_eq!(id, "node2");
        }
        _ => panic!("expected the echo node to lack local_only"),
    }
    let g = SyscallBridge::compile_mock("hello");
    match gate.validate(&g) {
        Err(GateError::MissingConstraint(_, id)) => assert_eq!(id, "node1"),
        _ => panic!("expected the echo node to lack local_only"),
    }
}

#[test]
fn self_loop_is_refused() {
    let gate = SymbolicGate::new(Policy::default_user());
    let mut g = graph(vec![node("n1", "file_read", "fs.read", &["local_only"])]);
    g.edges.push(("n1".to_string(), "n1".to_string()));
    assert!(matches!(gate.validate(&g), Err(GateError::CyclicGraph)));
}

#[test]
fn two_node_cycle_is_refused() {
    let gate = SymbolicGate::new(Policy::default_user());
    let mut g = graph(vec![node("n1", "file_read", "fs.read", &["local_only"]), node("n2", "debug_echo", "sys.debug", &["local_only"])]);
    g.edges.push(("n1".to_string(), "n2".to_string()));
    g.edges.push(("n2".to_string(), "n1".to_string()));
    assert!(matches!(gate.validate(&g), Err(GateError::CyclicGraph)));
}

#[test]
fn repeated_node_id_is_refused() {
    let gate = SymbolicGate::new(Policy::default_user());
    let g = graph(vec![node("n1", "file_read", "fs.read", &["local_only"]), node("n1", "debug_echo", "sys.debug", &["local_only"])]);
    assert!(matches!(gate.validate(&g), Err(GateError::CyclicGraph)));
}

#[test]
fn unknown_edge_endpoint_is_refused() {
    let gate = SymbolicGate::new(Policy::default_user());
    let mut g = graph(vec![node("n1", "file_read", "fs.read", &["local_only"])]);
    g.edges.push(("n1".to_string(), "ghost".to_string()));
    assert!(matches!(gate.validate(&g), Err(GateError::UnknownEdgeEndpoint)));
    let mut g = graph(vec![node("n1", "file_read", "fs.read", &["local_only"])]);
    g.edges.push(("ghost".to_string(), "n1".to_string()));
    assert!(matches!(gate.validate(&g), Err(GateError::UnknownEdgeEndpoint)));
}

#[test]
fn node_checks_come_before_edge_checks() {
    let gate = SymbolicGate::new(Policy::default_user());
    let mut g = graph(vec![node("n1", "admin", "sys.admin", &["local_only"])]);
    g.edges.push(("n1".to_string(), "n1".to_string()));
    assert!(matches!(gate.validate(&g), Err(GateError::DeniedCapability(_))));
}

#[test]
fn acyclic_chain_is_accepted() {
    let gate = SymbolicGate::new(Policy::default_user());
    let mut g = graph(vec![node("n1", "file_read", "fs.read", &["local_only"]), node("n2", "debug_echo", "sys.debug", &["local_only"])]);
    g.edges.push(("n1".to_string(), "n2".to_string()));
    assert!(gate.validate(&g).is_ok());
}

#[test]
fn gate_error_messages() {
    assert_eq!(GateError::EmptyGraph.message(), "Empty graph");
    assert_eq!(GateError::DeniedCapability("sys.admin".to_string()).message(), "Explicitly denied capability: sys.admin");
    assert_eq!(GateError::UnauthorizedCapability("net.raw".to_string()).message(), "Unauthorized capability: net.raw");
    assert_eq!(
        GateError::MissingConstraint("local_only".to_string(), "node2".to_string()).message(),
        "Missing mandatory constraint 'local_only' for node node2"
    );
    assert_eq!(GateError::MalformedNode.message(), "Malformed node in graph");
    assert_eq!(GateError::UnknownEdgeEndpoint.message(), "Edge refers to an unknown node");
    assert_eq!(GateError::CyclicGraph.message(), "Graph is not a DAG: cycle or repeated node id");
}
