use danger_os::graph::{InputMap, IntentGraph, Node};
use danger_os::host_tools::{DebugEchoTool, FileReadTool, FileWriteTool};
use danger_os::runtime::{after_trace, dispatch, make_trace, runtime_plan, steps_for_order, EventLog, RuntimeError};

fn node(id: &str, tool: &str, cap: &str) -> Node {
    Node {
        id: id.to_string(),
        tool_name: tool.to_string(),
        capability: cap.to_string(),
        inputs: InputMap::new(),
        constraints: vec![],
    }
}

fn edge(a: &str, b: &str) -> (String, String) {
    (a.to_string(), b.to_string())
}

fn inputs(pairs: &[(&str, &str)]) -> InputMap {
    let mut m = InputMap::new();
    for (k, v) in pairs {
        m.insert(k.to_string(), v.to_string());
    }
    m
}

#[test]
fn runtime_plan_orders_edges() {
    let g = IntentGraph {
        nodes: vec![node("a", "debug_echo", "sys.debug"), node("b", "file_read", "fs.read"), node("c", "debug_echo", "sys.debug")],
        edges: vec![edge("b", "a"), edge("a", "c")],
    };
    let steps = runtime_plan(&g).ok().unwrap();
    let pos = |x: usize| steps.iter().position(|&s| s == x).unwrap();
    assert_eq!(steps.len(), 3);
    assert!(pos(1) < pos(0));
    assert!(pos(0) < pos(2));
}

#[test]
fn runtime_plan_checks_source_first() {
    let g = IntentGraph { nodes: vec![node("a", "t", "c")], edges: vec![edge("x", "y")] };
    assert!(matches!(runtime_plan(&g), Err(RuntimeError::SourceMissing)));
    let g = IntentGraph { nodes: vec![node("a", "t", "c")], edges: vec![edge("a", "y")] };
    assert!(matches!(runtime_plan(&g), Err(RuntimeError::TargetMissing)));
}

#[test]
fn runtime_plan_refuses_cycles() {
    let g = IntentGraph { nodes: vec![node("a", "t", "c"), node("b", "t", "c")], edges: vec![edge("a", "b"), edge("b", "a")] };
    assert!(matches!(runtime_plan(&g), Err(RuntimeError::Cycle)));
    let g = IntentGraph { nodes: vec![node("a", "t", "c")], edges: vec![edge("a", "a")] };
    assert!(matches!(runtime_plan(&g), Err(RuntimeError::Cycle)));
}

#[test]
fn runtime_plan_runs_last_node_of_an_id() {
    let g = IntentGraph { nodes: vec![node("a", "t", "c"), node("a", "u", "c")], edges: vec![] };
    let steps = runtime_plan(&g).ok().unwrap();
    assert_eq!(steps, vec![1, 1]);
}

#[test]
fn dispatch_decisions() {
    let n = node("n1", "file_read", "fs.read");
    assert!(dispatch(&n, Some("fs.read")).is_ok());
    match dispatch(&n, Some("fs.write")) {
        Err(RuntimeError::CapabilityMismatch { node_id, provided, requested }) => {
            assert_eq!(node_id, "n1");
            assert_eq!(provided, "fs.write");
            assert_eq!(requested, "fs.read");
        }
        _ => panic!("expected a mismatch"),
    }
    match dispatch(&n, None) {
        Err(RuntimeError::ToolNotFound(name)) => assert_eq!(name, "file_read"),
        _ => panic!("expected a missing tool"),
    }
}

#[test]
fn traces_and_stop_decision() {
    let n = node("n1", "file_read", "fs.read");
    let t = make_trace(&n, Ok(serde_json::Value::Bool(true)), 12);
    assert_eq!(t.status, "Success");
    assert_eq!(t.duration_ms, 12);
    assert_eq!(t.output, Some(serde_json::Value::Bool(true)));
    assert!(after_trace(&t).is_ok());
    let t = make_trace(&n, Err("boom".to_string()), 3);
    assert_eq!(t.status, "Failed");
    assert!(t.output.is_none());
    match after_trace(&t) {
        Err(RuntimeError::ExecutionFailed { tool_name, error }) => {
            assert_eq!(tool_name, "file_read");
            assert_eq!(error, "boom");
        }
        _ => panic!("expected a failure"),
    }
    let mut log = EventLog::new();
    assert!(log.get_traces().is_empty());
    log.push(t.clone());
    log.push(make_trace(&n, Ok(serde_json::Value::Null), 1));
    assert_eq!(log.get_traces().len(), 2);
    assert_eq!(log.get_traces()[0].status, "Failed");
}

#[test]
fn host_tools_answer() {
    let echo = DebugEchoTool;
    assert_eq!(echo.name(), "debug_echo");
    assert_eq!(echo.run(&inputs(&[("message", "hey")])).get("echo").map(|s| s.as_str()), Some("hey"));
    assert_eq!(echo.run(&inputs(&[])).get("echo").map(|s| s.as_str()), Some(""));
    let read = FileReadTool;
    assert_eq!(read.capability(), "fs.read");
    let out = read.run(&inputs(&[("path", "a.txt")])).ok().unwrap();
    assert_eq!(out.get("content").map(|s| s.as_str()), Some("Mock content for a.txt"));
    assert_eq!(read.run(&inputs(&[])).err(), Some("Missing path".to_string()));
    let write = FileWriteTool;
    assert_eq!(write.run(&inputs(&[("path", "a")])).err(), Some("Missing content".to_string()));
    assert_eq!(write.run(&inputs(&[("content", "a")])).err(), Some("Missing path".to_string()));
    let out = write.run(&inputs(&[("path", "a"), ("content", "b")])).ok().unwrap();
    assert_eq!(out.get("status").map(|s| s.as_str()), Some("success"));
}

#[test]
fn host_tool_schemas() {
    let s = FileWriteTool.schema();
    assert_eq!(s.inputs.get("path").map(|s| s.as_str()), Some("string"));
    assert_eq!(s.inputs.get("content").map(|s| s.as_str()), Some("string"));
    assert_eq!(s.outputs.get("status").map(|s| s.as_str()), Some("string"));
    assert_eq!(DebugEchoTool.schema().outputs.get("echo").map(|s| s.as_str()), Some("string"));
    assert_eq!(FileReadTool.schema().inputs.len(), 1);
}

#[test]
fn runtime_plan_follows_petgraph_order() {
    let g = IntentGraph {
        nodes: vec![node("a", "debug_echo", "sys.debug"), node("b", "file_read", "fs.read"), node("c", "debug_echo", "sys.debug")],
        edges: vec![edge("b", "a"), edge("a", "c")],
    };
    assert_eq!(runtime_plan(&g).ok().unwrap(), vec![1, 0, 2]);
    let g = IntentGraph {
        nodes: vec![node("a", "t", "c"), node("b", "t", "c"), node("c", "t", "c")],
        edges: vec![edge("a", "b"), edge("a", "c")],
    };
    assert_eq!(runtime_plan(&g).ok().unwrap(), vec![0, 2, 1]);
    let g = IntentGraph { nodes: vec![node("a", "t", "c"), node("b", "t", "c"), node("c", "t", "c")], edges: vec![] };
    assert_eq!(runtime_plan(&g).ok().unwrap(), vec![2, 1, 0]);
}

#[test]
fn steps_name_the_last_node_of_each_id() {
    let g = IntentGraph { nodes: vec![node("a", "t", "c"), node("b", "t", "c"), node("a", "u", "c")], edges: vec![] };
    assert_eq!(steps_for_order(&g, &vec![0, 1, 2]), vec![2, 1, 2]);
    assert_eq!(steps_for_order(&g, &vec![1]), vec![1]);
    assert_eq!(steps_for_order(&g, &vec![]), Vec::<usize>::new());
}

#[test]
fn runtime_error_messages() {
    assert_eq!(RuntimeError::SourceMissing.message(), "Source node missing");
    assert_eq!(RuntimeError::TargetMissing.message(), "Target node missing");
    assert_eq!(RuntimeError::Cycle.message(), "Cycle detected in execution graph during sort");
    assert_eq!(RuntimeError::ToolNotFound("x".to_string()).message(), "Tool not found: x");
    assert_eq!(
        RuntimeError::CapabilityMismatch { node_id: "n".to_string(), provided: "p".to_string(), requested: "q".to_string() }.message(),
        "Capability mismatch for node n: tool provides 'p' but node requested 'q'"
    );
    assert_eq!(
        RuntimeError::ExecutionFailed { tool_name: "t".to_string(), error: "e".to_string() }.message(),
        "Execution failed at node t: e"
    );
}
