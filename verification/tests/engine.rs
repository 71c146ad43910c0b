use danger_os::compiler::SyscallBridge;
use danger_os::engine::{plan, EngineError, ExecutionEngine};
use danger_os::graph::{InputMap, IntentGraph, Node};
use danger_os::tools::{default_registry, CapabilityTool, KernelEchoTool, KernelFileReadTool, KernelFileWriteTool, KernelTool, ToolRegistry};

fn inputs(pairs: &[(&str, &str)]) -> InputMap {
    let mut m = InputMap::new();
    for (k, v) in pairs {
        m.insert(k.to_string(), v.to_string());
    }
    m
}

fn node(id: &str, tool: &str, cap: &str, ins: &[(&str, &str)]) -> Node {
    Node {
        id: id.to_string(),
        tool_name: tool.to_string(),
        capability: cap.to_string(),
        inputs: inputs(ins),
        constraints: vec!["local_only".to_string()],
    }
}

fn edge(a: &str, b: &str) -> (String, String) {
    (a.to_string(), b.to_string())
}

#[test]
fn read_then_echo_runs_in_order() {
    let mut engine = ExecutionEngine::new(default_registry());
    let g = IntentGraph {
        nodes: vec![
            node("node2", "debug_echo", "sys.debug", &[("message", "File read completed")]),
            node("node1", "file_read", "fs.read", &[("path", "a.txt")]),
        ],
        edges: vec![edge("node1", "node2")],
    };
    let traces = engine.execute(&g).ok().unwrap();
    assert_eq!(traces.len(), 2);
    assert_eq!(traces[0].node_id, "node1");
    assert_eq!(traces[0].status, "Success");
    assert_eq!(traces[0].output, "Kernel read from a.txt: [Simulated Content]");
    assert_eq!(traces[1].node_id, "node2");
    assert_eq!(traces[1].output, "File read completed");
    assert!(traces[1].error.is_none());
    assert_eq!(engine.log.traces.len(), 2);
}

#[test]
fn independent_nodes_run_in_reverse_id_order() {
    let mut engine = ExecutionEngine::new(default_registry());
    let g = IntentGraph {
        nodes: vec![
            node("b", "debug_echo", "sys.debug", &[("message", "B")]),
            node("a", "debug_echo", "sys.debug", &[("message", "A")]),
            node("c", "debug_echo", "sys.debug", &[("message", "C")]),
        ],
        edges: vec![],
    };
    let traces = engine.execute(&g).ok().unwrap();
    let ids: Vec<&str> = traces.iter().map(|t| t.node_id.as_str()).collect();
    assert_eq!(ids, vec!["c", "b", "a"]);
}

#[test]
fn plan_is_topological() {
    let g = IntentGraph {
        nodes: vec![
            node("x", "debug_echo", "sys.debug", &[]),
            node("y", "debug_echo", "sys.debug", &[]),
            node("z", "debug_echo", "sys.debug", &[]),
        ],
        edges: vec![edge("z", "y"), edge("y", "x")],
    };
    let ord = plan(&g).ok().unwrap();
    assert_eq!(ord, vec![2, 1, 0]);
}

#[test]
fn cycle_is_refused() {
    let g = IntentGraph {
        nodes: vec![node("a", "debug_echo", "sys.debug", &[]), node("b", "debug_echo", "sys.debug", &[])],
        edges: vec![edge("a", "b"), edge("b", "a")],
    };
    assert!(matches!(plan(&g), Err(EngineError::CycleOrOrphan)));
    let g = IntentGraph { nodes: vec![node("a", "debug_echo", "sys.debug", &[])], edges: vec![edge("a", "a")] };
    let mut engine = ExecutionEngine::new(default_registry());
    assert!(matches!(engine.execute(&g), Err(EngineError::CycleOrOrphan)));
    assert_eq!(engine.log.traces.len(), 0);
}

#[test]
fn duplicate_ids_are_refused() {
    let g = IntentGraph {
        nodes: vec![node("a", "debug_echo", "sys.debug", &[]), node("a", "debug_echo", "sys.debug", &[])],
        edges: vec![],
    };
    assert!(matches!(plan(&g), Err(EngineError::CycleOrOrphan)));
}

#[test]
fn unknown_edge_ends_are_refused() {
    let g = IntentGraph { nodes: vec![node("a", "debug_echo", "sys.debug", &[])], edges: vec![edge("zz", "yy")] };
    assert!(matches!(plan(&g), Err(EngineError::DestMissing)));
    let g = IntentGraph { nodes: vec![node("a", "debug_echo", "sys.debug", &[])], edges: vec![edge("zz", "a")] };
    assert!(matches!(plan(&g), Err(EngineError::SourceMissing)));
}

#[test]
fn missing_tool_stops_run() {
    let mut engine = ExecutionEngine::new(default_registry());
    let g = IntentGraph { nodes: vec![node("a", "nope", "sys.debug", &[])], edges: vec![] };
    match engine.execute(&g) {
        Err(EngineError::ToolNotFound(n)) => assert_eq!(n, "nope"),
        _ => panic!("expected a missing tool"),
    }
}

#[test]
fn capability_mismatch_stops_run() {
    let mut engine = ExecutionEngine::new(default_registry());
    let g = IntentGraph { nodes: vec![node("a", "debug_echo", "fs.write", &[])], edges: vec![] };
    match engine.execute(&g) {
        Err(EngineError::CapabilityMismatch(id)) => assert_eq!(id, "a"),
        _ => panic!("expected a capability mismatch"),
    }
    assert_eq!(engine.log.traces.len(), 0);
}

#[test]
fn failed_tool_ends_run_with_failed_trace() {
    let mut engine = ExecutionEngine::new(default_registry());
    let g = IntentGraph {
        nodes: vec![node("r", "file_read", "fs.read", &[]), node("s", "debug_echo", "sys.debug", &[("message", "after")])],
        edges: vec![edge("r", "s")],
    };
    let traces = engine.execute(&g).ok().unwrap();
    assert_eq!(traces.len(), 1);
    assert_eq!(traces[0].status, "Failed");
    assert_eq!(traces[0].output, "");
    assert_eq!(traces[0].error.as_deref(), Some("Missing path"));
    assert_eq!(engine.log.traces.len(), 1);
}

#[test]
fn log_keeps_earlier_traces() {
    let mut engine = ExecutionEngine::new(default_registry());
    let g = IntentGraph { nodes: vec![node("a", "debug_echo", "sys.debug", &[("message", "one")])], edges: vec![] };
    engine.execute(&g).ok().unwrap();
    let g2 = IntentGraph {
        nodes: vec![node("b", "debug_echo", "sys.debug", &[("message", "two")]), node("c", "nope", "x", &[])],
        edges: vec![edge("b", "c")],
    };
    assert!(engine.execute(&g2).is_err());
    let outs: Vec<&str> = engine.log.traces.iter().map(|t| t.output.as_str()).collect();
    assert_eq!(outs, vec!["one", "two"]);
}

#[test]
fn kernel_tools_answer() {
    assert_eq!(KernelEchoTool.execute(&inputs(&[("message", "hi")])), Ok("hi".to_string()));
    assert_eq!(KernelEchoTool.execute(&inputs(&[])), Ok(String::new()));
    assert_eq!(KernelFileReadTool.execute(&inputs(&[])), Err("Missing path".to_string()));
    assert_eq!(
        KernelFileWriteTool.execute(&inputs(&[("path", "out.txt"), ("content", "hello")])),
        Ok("Kernel wrote 5 bytes to out.txt".to_string())
    );
    assert_eq!(
        KernelFileWriteTool.execute(&inputs(&[("path", "o"), ("content", "héllo wörld, this is long")])),
        Ok("Kernel wrote 27 bytes to o".to_string())
    );
    assert_eq!(KernelFileWriteTool.execute(&inputs(&[("content", "x")])), Err("Missing path".to_string()));
    assert_eq!(KernelFileWriteTool.execute(&inputs(&[("path", "x")])), Err("Missing content".to_string()));
    assert_eq!(KernelFileWriteTool.execute(&inputs(&[("path", "x"), ("content", "")])), Ok("Kernel wrote 0 bytes to x".to_string()));
    assert_eq!(KernelEchoTool.name(), "debug_echo");
    assert_eq!(KernelFileReadTool.capability(), "fs.read");
    assert_eq!(KernelFileWriteTool.name(), "file_write");
}

#[test]
fn registry_finds_registered_tools() {
    let reg = default_registry();
    assert!(matches!(reg.get("debug_echo"), Some(KernelTool::Echo(_))));
    assert!(matches!(reg.get("file_read"), Some(KernelTool::FileRead(_))));
    assert!(matches!(reg.get("file_write"), Some(KernelTool::FileWrite(_))));
    assert!(reg.get("shell").is_none());
}

#[test]
fn registering_a_taken_name_replaces() {
    let mut reg: ToolRegistry<KernelTool> = ToolRegistry::new();
    assert!(reg.get("debug_echo").is_none());
    reg.register(KernelTool::Echo(KernelEchoTool));
    reg.register(KernelTool::Echo(KernelEchoTool));
    assert!(matches!(reg.get("debug_echo"), Some(KernelTool::Echo(_))));
}

#[test]
fn input_map_overrides() {
    let mut m = InputMap::new();
    m.insert("k".to_string(), "1".to_string());
    m.insert("k".to_string(), "2".to_string());
    m.insert("j".to_string(), "3".to_string());
    assert_eq!(m.get("k").map(|s| s.as_str()), Some("2"));
    assert_eq!(m.get("j").map(|s| s.as_str()), Some("3"));
    assert!(m.get("z").is_none());
    assert_eq!(m.len(), 2);
    let (k, v) = m.entry(0);
    assert_eq!((k.as_str(), v.as_str()), ("k", "2"));
}

#[test]
fn mock_graphs_run_on_kernel_tools() {
    let mut engine = ExecutionEngine::new(default_registry());
    let g = SyscallBridge::compile_mock("read file notes.md and debug echo done");
    let traces = engine.execute(&g).ok().unwrap();
    assert_eq!(traces.len(), 2);
    assert_eq!(traces[0].output, "Kernel read from notes.md: [Simulated Content]");
    assert_eq!(traces[1].output, "File read completed");
    let g = SyscallBridge::normalize(SyscallBridge::compile_mock("say hi"));
    let traces = engine.execute(&g).ok().unwrap();
    assert_eq!(traces.len(), 1);
    assert_eq!(traces[0].output, "say hi");
}

#[test]
fn diamond_runs_in_kahn_order() {
    let g = IntentGraph {
        nodes: vec![
            node("a", "debug_echo", "sys.debug", &[]),
            node("b", "debug_echo", "sys.debug", &[]),
            node("c", "debug_echo", "sys.debug", &[]),
            node("d", "debug_echo", "sys.debug", &[]),
        ],
        edges: vec![edge("a", "b"), edge("a", "c"), edge("b", "d"), edge("c", "d")],
    };
    assert_eq!(plan(&g).ok().unwrap(), vec![0, 2, 1, 3]);
    assert_eq!(plan(&g).ok().unwrap(), plan(&g).ok().unwrap());
}

#[test]
fn starting_nodes_follow_their_ids_not_their_positions() {
    let g = IntentGraph {
        nodes: vec![
            node("m", "debug_echo", "sys.debug", &[]),
            node("k", "debug_echo", "sys.debug", &[]),
            node("z", "debug_echo", "sys.debug", &[]),
        ],
        edges: vec![edge("k", "z")],
    };
    // Stack starts as [k, m] (id order); m is taken first, then k, which frees z.
    assert_eq!(plan(&g).ok().unwrap(), vec![0, 1, 2]);
}

#[test]
fn engine_error_messages() {
    assert_eq!(EngineError::DestMissing.message(), "Dest missing");
    assert_eq!(EngineError::SourceMissing.message(), "Source missing");
    assert_eq!(EngineError::CycleOrOrphan.message(), "Cycle detected or orphan nodes in graph");
    assert_eq!(EngineError::ToolNotFound("x".to_string()).message(), "Tool not found: x");
    assert_eq!(EngineError::CapabilityMismatch("n1".to_string()).message(), "Capability mismatch for node n1");
}

#[test]
fn plan_ignores_everything_but_ids_and_edges() {
    let g1 = IntentGraph {
        nodes: vec![
            node("b", "debug_echo", "sys.debug", &[("message", "one")]),
            node("a", "file_read", "fs.read", &[("path", "x")]),
            node("c", "debug_echo", "sys.debug", &[]),
        ],
        edges: vec![edge("c", "b")],
    };
    let g2 = IntentGraph {
        nodes: vec![
            node("b", "file_write", "fs.write", &[]),
            node("a", "debug_echo", "sys.debug", &[("message", "two")]),
            node("c", "file_read", "fs.read", &[("path", "y")]),
        ],
        edges: vec![edge("c", "b")],
    };
    assert_eq!(plan(&g1).ok().unwrap(), plan(&g2).ok().unwrap());
    assert_eq!(plan(&g1).ok().unwrap(), vec![2, 0, 1]);
}
