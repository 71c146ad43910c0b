use danger_os::compiler::SyscallBridge;
use danger_os::engine::{EngineError, ExecutionEngine};
use danger_os::pipeline::PipelineError;
use danger_os::policy::{GateError, Policy, SymbolicGate};
use danger_os::tools::default_registry;

fn open_policy() -> Policy {
    Policy {
        allowed_capabilities: vec!["fs.read".to_string(), "sys.debug".to_string()],
        denied_capabilities: vec![],
        mandatory_constraints: vec![],
    }
}

#[test]
fn refused_graph_runs_nothing() {
    let mut engine = ExecutionEngine::new(default_registry());
    let gate = SymbolicGate::new(Policy::default_user());
    let g = SyscallBridge::compile_mock("read file a and debug echo b");
    match engine.run_validated(&gate, &g) {
        Err(PipelineError::Rejected(GateError::MissingConstraint(_, id))) => assert_eq!(id, "node2"),
        _ => panic!("expected a refusal"),
    }
    assert!(engine.log.traces.is_empty());
}

#[test]
fn accepted_graph_runs() {
    let mut engine = ExecutionEngine::new(default_registry());
    let gate = SymbolicGate::new(open_policy());
    let g = SyscallBridge::compile_mock("read file a and debug echo b");
    let traces = engine.run_validated(&gate, &g).ok().unwrap();
    assert_eq!(traces.len(), 2);
    assert_eq!(engine.log.traces.len(), 2);
}

#[test]
fn cyclic_graph_is_refused_before_planning() {
    let mut engine = ExecutionEngine::new(default_registry());
    let gate = SymbolicGate::new(open_policy());
    let mut g = SyscallBridge::compile_mock("read file a and debug echo b");
    g.edges.push(("node2".to_string(), "node1".to_string()));
    assert!(matches!(engine.run_validated(&gate, &g), Err(PipelineError::Rejected(GateError::CyclicGraph))));
    assert!(engine.log.traces.is_empty());
}

#[test]
fn accepted_graph_stops_at_a_missing_tool() {
    let mut engine = ExecutionEngine::new(default_registry());
    let gate = SymbolicGate::new(open_policy());
    let mut g = SyscallBridge::compile_mock("debug echo b");
    g.nodes[0].tool_name = "no_such_tool".to_string();
    match engine.run_validated(&gate, &g) {
        Err(PipelineError::Failed(EngineError::ToolNotFound(name))) => assert_eq!(name, "no_such_tool"),
        _ => panic!("expected a missing tool"),
    }
    assert!(engine.log.traces.is_empty());
}

#[test]
fn two_runs_of_one_graph_agree() {
    let gate = SymbolicGate::new(open_policy());
    let g = SyscallBridge::compile_mock("read file a and debug echo b");
    let mut first = ExecutionEngine::new(default_registry());
    let mut second = ExecutionEngine::new(default_registry());
    let a = first.run_validated(&gate, &g).ok().unwrap();
    let b = second.run_validated(&gate, &g).ok().unwrap();
    assert_eq!(a.len(), b.len());
    for (x, y) in a.iter().zip(b.iter()) {
        assert_eq!(x.node_id, y.node_id);
        assert_eq!(x.tool_name, y.tool_name);
        assert_eq!(x.status, y.status);
        assert_eq!(x.output, y.output);
        assert_eq!(x.error, y.error);
    }
}
