use danger_os::compiler::SyscallBridge;
use danger_os::graph::{InputMap, IntentGraph, Node};

fn get<'a>(n: &'a Node, k: &str) -> Option<&'a str> {
    n.inputs.get(k).map(|s| s.as_str())
}

#[test]
fn read_intent_compiles_to_read_then_echo() {
    let g = SyscallBridge::compile_mock("please read file notes.txt then debug echo it");
    assert_eq!(g.nodes.len(), 2);
    assert_eq!(g.nodes[0].id, "node1");
    assert_eq!(g.nodes[0].tool_name, "file_read");
    assert_eq!(g.nodes[0].capability, "fs.read");
    assert_eq!(get(&g.nodes[0], "path"), Some("notes.txt"));
    assert_eq!(g.nodes[0].constraints, vec!["local_only"]);
    assert_eq!(g.nodes[1].id, "node2");
    assert_eq!(g.nodes[1].tool_name, "debug_echo");
    assert_eq!(get(&g.nodes[1], "message"), Some("File read completed"));
    assert!(g.nodes[1].constraints.is_empty());
    assert_eq!(g.edges, vec![("node1".to_string(), "node2".to_string())]);
}

#[test]
fn path_defaults_when_file_is_last_word() {
    let g = SyscallBridge::compile_mock("debug echo after you read file");
    assert_eq!(get(&g.nodes[0], "path"), Some("test.txt"));
}

#[test]
fn path_is_word_after_first_file() {
    let g = SyscallBridge::compile_mock("read file\tfirst.txt and file second.txt, debug echo");
    assert_eq!(get(&g.nodes[0], "path"), Some("first.txt"));
}

#[test]
fn other_intents_compile_to_echo() {
    let g = SyscallBridge::compile_mock("read file only");
    assert_eq!(g.nodes.len(), 1);
    assert_eq!(g.nodes[0].tool_name, "debug_echo");
    assert_eq!(get(&g.nodes[0], "message"), Some("read file only"));
    assert!(g.edges.is_empty());
    let g = SyscallBridge::compile_mock("read  file x and debug echo");
    assert_eq!(g.nodes.len(), 1);
}

#[test]
fn normalize_resolves_capabilities_and_lowercases_ids() {
    let mk = |id: &str, tool: &str, cap: &str| Node {
        id: id.to_string(),
        tool_name: tool.to_string(),
        capability: cap.to_string(),
        inputs: InputMap::new(),
        constraints: vec![],
    };
    let g = IntentGraph {
        nodes: vec![
            mk("NodeA", "file_read", ""),
            mk("B", "file_write", ""),
            mk("c", "debug_echo", ""),
            mk("D", "mystery", ""),
            mk("E", "file_read", "custom.cap"),
        ],
        edges: vec![("NodeA".to_string(), "B".to_string())],
    };
    let g = SyscallBridge::normalize(g);
    let caps: Vec<&str> = g.nodes.iter().map(|n| n.capability.as_str()).collect();
    assert_eq!(caps, vec!["fs.read", "fs.write", "sys.debug", "unknown", "custom.cap"]);
    let ids: Vec<&str> = g.nodes.iter().map(|n| n.id.as_str()).collect();
    assert_eq!(ids, vec!["nodea", "b", "c", "d", "e"]);
    assert_eq!(g.edges, vec![("NodeA".to_string(), "B".to_string())]);
}

#[test]
fn default_capabilities() {
    assert_eq!(SyscallBridge::default_capability("file_read"), "fs.read");
    assert_eq!(SyscallBridge::default_capability("debug_echo"), "sys.debug");
    assert_eq!(SyscallBridge::default_capability("x"), "unknown");
}

#[test]
fn mock_path_of_words() {
    assert_eq!(SyscallBridge::mock_path(&vec!["a", "file", "b", "file", "c"]), "b");
    assert_eq!(SyscallBridge::mock_path(&vec!["a"]), "test.txt");
}

#[test]
fn normalizing_twice_keeps_capabilities() {
    let g = IntentGraph {
        nodes: vec![Node {
            id: "X".to_string(),
            tool_name: "mystery".to_string(),
            capability: String::new(),
            inputs: InputMap::new(),
            constraints: vec![],
        }],
        edges: vec![],
    };
    let once = SyscallBridge::normalize(g);
    assert_eq!(once.nodes[0].capability, "unknown");
    let twice = SyscallBridge::normalize(once);
    assert_eq!(twice.nodes[0].capability, "unknown");
    assert_eq!(twice.nodes[0].id, "x");
}
