//! The syscall bridge: turns an intent into an intent graph, and normalizes
//! graphs that a model produced.

use vstd::prelude::*;
use crate::graph::{GraphView, InputMap, IntentGraph, Node, NodeView};
use crate::text::{contains_substring, has_substring, lowercase, split_whitespace, str_equal, to_lowercase, whitespace_words};

verus! {

/// The capability a tool provides by default.
pub open spec fn default_capability(tool_name: Seq<char>) -> Seq<char> {
    if tool_name == "file_read"@ {
        "fs.read"@
    } else if tool_name == "file_write"@ {
        "fs.write"@
    } else if tool_name == "debug_echo"@ {
        "sys.debug"@
    } else {
        "unknown"@
    }
}

/// A node after normalization, given the lowercase form of its id: a missing
/// capability is resolved from the tool name.
pub open spec fn normalized(node: NodeView, lowered_id: Seq<char>) -> NodeView {
    NodeView {
        id: lowered_id,
        capability: if node.capability.len() == 0 {
            default_capability(node.tool_name)
        } else {
            node.capability
        },
        ..node
    }
}

/// The path a mock intent names: the word after the first word `file`, or
/// `test.txt` when there is none.
pub open spec fn mock_path(words: Seq<Seq<char>>) -> Seq<char> {
    if exists|i: int| 0 <= i < words.len() && words[i] == "file"@ {
        let i = choose|i: int|
            0 <= i < words.len() && words[i] == "file"@ && forall|j: int| 0 <= j < i ==> words[j] != "file"@;
        if i + 1 < words.len() {
            words[i + 1]
        } else {
            "test.txt"@
        }
    } else {
        "test.txt"@
    }
}

/// Read `path`, then echo that the read completed.
pub open spec fn read_then_echo(path: Seq<char>) -> GraphView {
    GraphView {
        nodes: seq![
            NodeView {
                id: "node1"@,
                tool_name: "file_read"@,
                capability: "fs.read"@,
                inputs: Map::empty().insert("path"@, path),
                constraints: seq!["local_only"@],
            },
            NodeView {
                id: "node2"@,
                tool_name: "debug_echo"@,
                capability: "sys.debug"@,
                inputs: Map::empty().insert("message"@, "File read completed"@),
                constraints: Seq::empty(),
            },
        ],
        edges: seq![("node1"@, "node2"@)],
    }
}

/// Echo `message`.
pub open spec fn echo_only(message: Seq<char>) -> GraphView {
    GraphView {
        nodes: seq![
            NodeView {
                id: "node1"@,
                tool_name: "debug_echo"@,
                capability: "sys.debug"@,
                inputs: Map::empty().insert("message"@, message),
                constraints: Seq::empty(),
            },
        ],
        edges: Seq::empty(),
    }
}

/// The graph the mock compiler makes of an intent: a read followed by an echo
/// when the intent mentions both `read file` and `debug echo`, else an echo of
/// the whole intent.
pub open spec fn mock_graph(intent: Seq<char>) -> GraphView {
    if has_substring(intent, "read file"@) && has_substring(intent, "debug echo"@) {
        read_then_echo(mock_path(whitespace_words(intent)))
    } else {
        echo_only(intent)
    }
}

/// Compiles natural language into intent graphs.
pub struct SyscallBridge;

impl SyscallBridge {
    /// The default capability of `tool_name`.
    pub fn default_capability(tool_name: &str) -> (r: String)
        ensures
            r@ == default_capability(tool_name@),
    {
        if str_equal(tool_name, "file_read") {
            String::from_str("fs.read")
        } else if str_equal(tool_name, "file_write") {
            String::from_str("fs.write")
        } else if str_equal(tool_name, "debug_echo") {
            String::from_str("sys.debug")
        } else {
            String::from_str("unknown")
        }
    }

    /// Normalizes one node whose id has already been lowercased to `lowered_id`.
    pub fn normalize_node(node: Node, lowered_id: String) -> (r: Node)
        ensures
            r@ == normalized(node@, lowered_id@),
            r@.id == lowered_id@,
            r@.tool_name == node@.tool_name,
            r@.inputs == node@.inputs,
            r@.constraints == node@.constraints,
            node@.capability.len() > 0 ==> r@.capability == node@.capability,
            node@.capability.len() == 0 ==> r@.capability == default_capability(node@.tool_name),
    {
        let Node { id: _, tool_name, capability, inputs, constraints } = node;
        let capability = if capability.unicode_len() == 0 {
            Self::default_capability(tool_name.as_str())
        } else {
            capability
        };
        Node { id: lowered_id, tool_name, capability, inputs, constraints }
    }

    /// Resolves missing capabilities from tool names and lowercases every node
    /// id; the edges are kept as they are.
    pub fn normalize(graph: IntentGraph) -> (r: IntentGraph)
        ensures
            r@.edges == graph@.edges,
            r@.nodes.len() == graph@.nodes.len(),
            forall|i: int|
                0 <= i < graph@.nodes.len() ==> #[trigger] r@.nodes[i] == normalized(
                    graph@.nodes[i],
                    lowercase(graph@.nodes[i].id),
                ),
            forall|i: int|
                0 <= i < graph@.nodes.len() ==> {
                    &&& (#[trigger] r@.nodes[i]).id == lowercase(graph@.nodes[i].id)
                    &&& r@.nodes[i].tool_name == graph@.nodes[i].tool_name
                    &&& r@.nodes[i].inputs == graph@.nodes[i].inputs
                    &&& r@.nodes[i].constraints == graph@.nodes[i].constraints
                    &&& graph@.nodes[i].capability.len() > 0 ==> r@.nodes[i].capability
                        == graph@.nodes[i].capability
                    &&& graph@.nodes[i].capability.len() == 0 ==> r@.nodes[i].capability
                        == default_capability(graph@.nodes[i].tool_name)
                },
    {
        let ghost g = graph@;
        let IntentGraph { mut nodes, edges } = graph;
        let mut out: Vec<Node> = Vec::new();
        let ghost total = nodes.len();
        let mut i: usize = 0;
        while nodes.len() > 0
            invariant
                out.len() + nodes.len() == total,
                total == g.nodes.len(),
                i == out.len(),
                forall|j: int| 0 <= j < nodes.len() ==> #[trigger] nodes@[j]@ == g.nodes[i + j],
                forall|j: int|
                    0 <= j < out.len() ==> #[trigger] out@[j]@ == normalized(g.nodes[j], lowercase(g.nodes[j].id)),
                forall|j: int|
                    0 <= j < out.len() ==> {
                        &&& (#[trigger] out@[j])@.id == lowercase(g.nodes[j].id)
                        &&& out@[j]@.tool_name == g.nodes[j].tool_name
                        &&& out@[j]@.inputs == g.nodes[j].inputs
                        &&& out@[j]@.constraints == g.nodes[j].constraints
                        &&& g.nodes[j].capability.len() > 0 ==> out@[j]@.capability == g.nodes[j].capability
                        &&& g.nodes[j].capability.len() == 0 ==> out@[j]@.capability == default_capability(
                            g.nodes[j].tool_name,
                        )
                    },
            decreases nodes.len(),
        {
            let ghost before = nodes@;
            let node = nodes.remove(0);
            assert(node@ == g.nodes[i as int]);
            assert forall|j: int| 0 <= j < nodes.len() implies #[trigger] nodes@[j]@ == g.nodes[i + 1 + j] by {
                assert(nodes@[j] == before[j + 1]);
            }
            let lowered = to_lowercase(node.id.as_str());
            out.push(Self::normalize_node(node, lowered));
            i = i + 1;
        }
        let r = IntentGraph { nodes: out, edges };
        assert(r@.edges =~= g.edges);
        r
    }

    /// The path a mock intent names, given its words.
    pub fn mock_path<'a>(words: &Vec<&'a str>) -> (r: &'a str)
        ensures
            r@ == mock_path(words.deep_view()),
    {
        let ghost ws = words.deep_view();
        let mut i: usize = 0;
        while i < words.len()
            invariant
                i <= words.len(),
                ws == words.deep_view(),
                forall|j: int| 0 <= j < i ==> ws[j] != "file"@,
            decreases words.len() - i,
        {
            if str_equal(words[i], "file") {
                proof {
                    assert(ws[i as int] == "file"@);
                    let w = choose|w: int|
                        0 <= w < ws.len() && ws[w] == "file"@ && forall|j: int| 0 <= j < w ==> ws[j] != "file"@;
                    if w < i {
                    } else if w > i {
                    }
                    assert(w == i);
                }
                if i + 1 < words.len() {
                    return words[i + 1];
                } else {
                    return "test.txt";
                }
            }
            i = i + 1;
        }
        "test.txt"
    }

    /// The mock compiler: a read of the named file followed by an echo when the
    /// intent says `read file` and `debug echo`, else an echo of the intent.
    pub fn compile_mock(intent: &str) -> (r: IntentGraph)
        ensures
            r@ == mock_graph(intent@),
            !(has_substring(intent@, "read file"@) && has_substring(intent@, "debug echo"@)) ==> {
                &&& r@.nodes.len() == 1
                &&& r@.edges.len() == 0
                &&& r@.nodes[0].id == "node1"@
                &&& r@.nodes[0].tool_name == "debug_echo"@
                &&& r@.nodes[0].capability == "sys.debug"@
                &&& r@.nodes[0].inputs == Map::<Seq<char>, Seq<char>>::empty().insert("message"@, intent@)
                &&& r@.nodes[0].constraints.len() == 0
            },
            has_substring(intent@, "read file"@) && has_substring(intent@, "debug echo"@) ==> {
                &&& r@.nodes.len() == 2
                &&& r@.edges == seq![("node1"@, "node2"@)]
                &&& r@.nodes[0].tool_name == "file_read"@
                &&& r@.nodes[0].constraints == seq!["local_only"@]
                &&& r@.nodes[1].tool_name == "debug_echo"@
                &&& r@.nodes[1].inputs == Map::<Seq<char>, Seq<char>>::empty().insert(
                    "message"@,
                    "File read completed"@,
                )
            },
    {
        if contains_substring(intent, "read file") && contains_substring(intent, "debug echo") {
            let parts = split_whitespace(intent);
            let path = Self::mock_path(&parts);
            let mut nodes: Vec<Node> = Vec::new();
            let mut read_inputs = InputMap::new();
            read_inputs.insert(String::from_str("path"), String::from_str(path));
            let mut read_constraints: Vec<String> = Vec::new();
            read_constraints.push(String::from_str("local_only"));
            nodes.push(
                Node {
                    id: String::from_str("node1"),
                    tool_name: String::from_str("file_read"),
                    capability: String::from_str("fs.read"),
                    inputs: read_inputs,
                    constraints: read_constraints,
                },
            );
            let mut echo_inputs = InputMap::new();
            echo_inputs.insert(String::from_str("message"), String::from_str("File read completed"));
            nodes.push(
                Node {
                    id: String::from_str("node2"),
                    tool_name: String::from_str("debug_echo"),
                    capability: String::from_str("sys.debug"),
                    inputs: echo_inputs,
                    constraints: Vec::new(),
                },
            );
            let mut edges: Vec<(String, String)> = Vec::new();
            edges.push((String::from_str("node1"), String::from_str("node2")));
            let r = IntentGraph { nodes, edges };
            proof {
                let expected = read_then_echo(path@);
                assert(r@.nodes[0].constraints =~= expected.nodes[0].constraints);
                assert(r@.nodes[1].constraints =~= expected.nodes[1].constraints);
                assert(r@.nodes[0] == expected.nodes[0]);
                assert(r@.nodes[1] == expected.nodes[1]);
                assert(r@.nodes =~= expected.nodes);
                assert(r@.edges =~= expected.edges);
            }
            r
        } else {
            let mut inputs = InputMap::new();
            inputs.insert(String::from_str("message"), String::from_str(intent));
            let mut nodes: Vec<Node> = Vec::new();
            nodes.push(
                Node {
                    id: String::from_str("node1"),
                    tool_name: String::from_str("debug_echo"),
                    capability: String::from_str("sys.debug"),
                    inputs,
                    constraints: Vec::new(),
                },
            );
            let r = IntentGraph { nodes, edges: Vec::new() };
            proof {
                let expected = echo_only(intent@);
                assert(r@.nodes[0].constraints =~= expected.nodes[0].constraints);
                assert(r@.nodes[0] == expected.nodes[0]);
                assert(r@.nodes =~= expected.nodes);
                assert(r@.edges =~= expected.edges);
            }
            r
        }
    }
}

} // verus!
