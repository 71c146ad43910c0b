//! What holds of the library as a whole: what validation guarantees, the shape of
//! every run, and the graphs the compiler produces.

use vstd::prelude::*;
use crate::compiler::{mock_graph, mock_path, normalized, read_then_echo, echo_only};
use crate::engine::{EngineErrorView, plan_error, run_from, run_order, trace_of, node_ids, edge_positions, position_of, edge_problem};
use crate::graph::{GraphView, NodeView};
use crate::policy::{gate_verdict, nodes_verdict, node_violation, PolicyView, GateErrorView};
use crate::schedule::has_topo_order;
use crate::schedule::is_topo_order;
use crate::text::{all_digits, decimal, digits_value, has_substring, lemma_decimal_reads_back, whitespace_words};
use crate::inference::{freq_cis_len, layout_fits, le_i32, weight_count, Config};
use crate::host_tools::{echo_answer, read_answer, write_answer};
use crate::tools::{CapabilityTool, KernelTool, KernelEchoTool, KernelFileReadTool, KernelFileWriteTool};
use crate::console::{edit, EditAction};

verus! {

/// A graph that validation accepts has nodes, and every node claims a capability the
/// policy allows and does not deny, carries every mandatory constraint, and has
/// a non-empty id and tool name.
pub proof fn lemma_accepted_graph_complies(policy: PolicyView, nodes: Seq<NodeView>)
    requires
        nodes_verdict(policy, nodes) is Ok,
    ensures
        nodes.len() > 0,
        forall|i: int| 0 <= i < nodes.len() ==> {
            let n = #[trigger] nodes[i];
            &&& policy.allowed.contains(n.capability)
            &&& !policy.denied.contains(n.capability)
            &&& forall|m: int| 0 <= m < policy.mandatory.len() ==> n.constraints.contains(
                #[trigger] policy.mandatory[m],
            )
            &&& n.id.len() > 0
            &&& n.tool_name.len() > 0
        },
{
    assert forall|i: int| 0 <= i < nodes.len() implies node_violation(policy, #[trigger] nodes[i]) is None by {
        if node_violation(policy, nodes[i]) is Some {
            assert(exists|j: int| 0 <= j < nodes.len() && node_violation(policy, nodes[j]) is Some);
        }
    }
}

/// Conversely, a graph with nodes each of which claims an allowed and not
/// denied capability, carries every mandatory constraint, and has a non-empty
/// id and tool name is accepted.
pub proof fn lemma_compliant_graph_accepted(policy: PolicyView, nodes: Seq<NodeView>)
    requires
        nodes.len() > 0,
        forall|i: int| 0 <= i < nodes.len() ==> {
            let n = #[trigger] nodes[i];
            &&& policy.allowed.contains(n.capability)
            &&& !policy.denied.contains(n.capability)
            &&& forall|m: int| 0 <= m < policy.mandatory.len() ==> n.constraints.contains(
                #[trigger] policy.mandatory[m],
            )
            &&& n.id.len() > 0
            &&& n.tool_name.len() > 0
        },
    ensures
        nodes_verdict(policy, nodes) is Ok,
{
    assert forall|i: int| 0 <= i < nodes.len() implies node_violation(policy, #[trigger] nodes[i]) is None by {
        let n = nodes[i];
        assert(!(exists|m: int| 0 <= m < policy.mandatory.len() && !n.constraints.contains(policy.mandatory[m])));
    }
}

/// A graph the policy accepts is a DAG over known nodes with distinct ids: it
/// has a topological order.
#[verifier::spinoff_prover]
pub proof fn lemma_accepted_graph_is_dag(policy: PolicyView, g: GraphView)
    requires
        gate_verdict(policy, g) is Ok,
    ensures
        plan_error(g) is None,
        node_ids(g).no_duplicates(),
        has_topo_order(g.nodes.len(), edge_positions(g)),
{
    let nv = nodes_verdict(policy, g.nodes);
    let pe = plan_error(g);
    assert(gate_verdict(policy, g) == match nv {
        Err(e) => Err(e),
        Ok(_) => match pe {
            None => Ok(()),
            Some(EngineErrorView::CycleOrOrphan) => Err(GateErrorView::CyclicGraph),
            Some(_) => Err(GateErrorView::UnknownEdgeEndpoint),
        },
    });
    assert(pe is None);
    crate::engine::lemma_plannable(g);
}

/// A graph whose nodes all comply, whose edges all name known nodes, but
/// which has no topological order (a cycle) is refused as cyclic.
pub proof fn lemma_cyclic_graph_refused(policy: PolicyView, g: GraphView)
    requires
        nodes_verdict(policy, g.nodes) is Ok,
        forall|k: int| 0 <= k < g.edges.len() ==> edge_problem(node_ids(g), #[trigger] g.edges[k]) is None,
        !has_topo_order(g.nodes.len(), edge_positions(g)),
    ensures
        gate_verdict(policy, g) == Err::<(), GateErrorView>(GateErrorView::CyclicGraph),
{
    assert(node_ids(g).len() == g.nodes.len());
    assert(plan_error(g) == Some(EngineErrorView::CycleOrOrphan));
}

/// A graph whose nodes all comply but one of whose edges names an unknown
/// node is refused for that edge.
#[verifier::spinoff_prover]
pub proof fn lemma_unknown_endpoint_refused(policy: PolicyView, g: GraphView, k: int)
    requires
        nodes_verdict(policy, g.nodes) is Ok,
        0 <= k < g.edges.len(),
        !node_ids(g).contains(g.edges[k].0) || !node_ids(g).contains(g.edges[k].1),
    ensures
        gate_verdict(policy, g) == Err::<(), GateErrorView>(GateErrorView::UnknownEdgeEndpoint),
{
    crate::engine::lemma_unknown_end_decides(g, k);
    let nv = nodes_verdict(policy, g.nodes);
    let pe = plan_error(g);
    assert(gate_verdict(policy, g) == match nv {
        Err(e) => Err(e),
        Ok(_) => match pe {
            None => Ok(()),
            Some(EngineErrorView::CycleOrOrphan) => Err(GateErrorView::CyclicGraph),
            Some(_) => Err(GateErrorView::UnknownEdgeEndpoint),
        },
    });
}

/// The order in which a graph's nodes run depends on their ids and the edges
/// alone: two graphs that agree on those run their nodes in the same order,
/// whatever tools, capabilities, inputs or constraints the nodes carry.
pub proof fn lemma_run_order_depends_on_ids_and_edges(g1: GraphView, g2: GraphView)
    requires
        node_ids(g1) == node_ids(g2),
        g1.edges == g2.edges,
    ensures
        run_order(g1) == run_order(g2),
{
    assert(edge_positions(g1) =~= edge_positions(g2));
}

/// A node that claims a denied capability is refused for it, even when the
/// policy also allows that capability, unless an earlier node is refused first.
pub proof fn lemma_denial_overrides_allowance(policy: PolicyView, nodes: Seq<NodeView>, i: int)
    requires
        0 <= i < nodes.len(),
        policy.denied.contains(nodes[i].capability),
        forall|j: int| 0 <= j < i ==> node_violation(policy, #[trigger] nodes[j]) is None,
    ensures
        nodes_verdict(policy, nodes) == Err::<(), GateErrorView>(
            GateErrorView::DeniedCapability(nodes[i].capability),
        ),
{
    assert(node_violation(policy, nodes[i]) is Some);
    let w = choose|w: int|
        0 <= w < nodes.len() && node_violation(policy, nodes[w]) is Some && forall|j: int|
            0 <= j < w ==> node_violation(policy, nodes[j]) is None;
    if w < i {
        assert(node_violation(policy, nodes[w]) is None);
    } else if w > i {
        assert(node_violation(policy, nodes[i]) is None);
    }
}

/// Every run follows the plan: the `i`-th trace is that of the `i`-th planned
/// node, run by the tool registered under its tool name, which provides exactly
/// the capability the node claims; every trace but the last is a success; and
/// a run that stopped with an error recorded no trace for the node that stopped it.
pub proof fn lemma_run_follows_plan<T: CapabilityTool>(
    reg: Map<Seq<char>, T>,
    nodes: Seq<NodeView>,
    ord: Seq<usize>,
)
    requires
        forall|i: int| 0 <= i < ord.len() ==> #[trigger] ord[i] < nodes.len(),
    ensures
        ({
            let run = run_from(reg, nodes, ord, 0);
            &&& run.0.len() <= ord.len()
            &&& forall|i: int|
                0 <= i < run.0.len() ==> {
                    let n = nodes[ord[i] as int];
                    &&& reg.contains_key(n.tool_name)
                    &&& reg[n.tool_name].spec_capability() == n.capability
                    &&& #[trigger] run.0[i] == trace_of(n, reg[n.tool_name].spec_execute(n.inputs))
                }
            &&& forall|i: int| 0 <= i < run.0.len() - 1 ==> (#[trigger] run.0[i]).status == "Success"@
            &&& run.1 is Some ==> run.0.len() < ord.len()
        }),
{
    lemma_run_from_shape(reg, nodes, ord, 0);
}

proof fn lemma_run_from_shape<T: CapabilityTool>(
    reg: Map<Seq<char>, T>,
    nodes: Seq<NodeView>,
    ord: Seq<usize>,
    p: int,
)
    requires
        0 <= p <= ord.len(),
        forall|i: int| 0 <= i < ord.len() ==> #[trigger] ord[i] < nodes.len(),
    ensures
        ({
            let run = run_from(reg, nodes, ord, p);
            &&& run.0.len() <= ord.len() - p
            &&& forall|i: int|
                0 <= i < run.0.len() ==> {
                    let n = nodes[ord[p + i] as int];
                    &&& reg.contains_key(n.tool_name)
                    &&& reg[n.tool_name].spec_capability() == n.capability
                    &&& #[trigger] run.0[i] == trace_of(n, reg[n.tool_name].spec_execute(n.inputs))
                }
            &&& forall|i: int| 0 <= i < run.0.len() - 1 ==> (#[trigger] run.0[i]).status == "Success"@
            &&& run.1 is Some ==> run.0.len() < ord.len() - p
        }),
    decreases ord.len() - p,
{
    reveal_strlit("Success");
    reveal_strlit("Failed");
    if p < ord.len() {
        lemma_run_from_shape(reg, nodes, ord, p + 1);
        let node = nodes[ord[p] as int];
        if reg.contains_key(node.tool_name) && reg[node.tool_name].spec_capability() == node.capability {
            let outcome = reg[node.tool_name].spec_execute(node.inputs);
            if outcome is Ok {
                let rest = run_from(reg, nodes, ord, p + 1);
                let run = run_from(reg, nodes, ord, p);
                assert(run.0 == seq![trace_of(node, outcome)] + rest.0);
                assert forall|i: int| 0 <= i < run.0.len() implies {
                    let n = nodes[ord[p + i] as int];
                    &&& reg.contains_key(n.tool_name)
                    &&& reg[n.tool_name].spec_capability() == n.capability
                    &&& #[trigger] run.0[i] == trace_of(n, reg[n.tool_name].spec_execute(n.inputs))
                } by {
                    if i > 0 {
                        assert(run.0[i] == rest.0[i - 1]);
                        assert(p + 1 + (i - 1) == p + i);
                    }
                }
                assert forall|i: int| 0 <= i < run.0.len() - 1 implies (#[trigger] run.0[i]).status == "Success"@ by {
                    if i > 0 {
                        assert(run.0[i] == rest.0[i - 1]);
                    }
                }
            }
        }
    }
}

/// After normalization every node claims some capability.
pub proof fn lemma_normalized_capability_present(node: NodeView, lowered_id: Seq<char>)
    ensures
        normalized(node, lowered_id).capability.len() > 0,
{
    reveal_strlit("fs.read");
    reveal_strlit("fs.write");
    reveal_strlit("sys.debug");
    reveal_strlit("unknown");
}

/// The mock compiler always yields a graph the engine can plan: known edge
/// ends, distinct ids, no cycle.
pub proof fn lemma_mock_graph_plannable(intent: Seq<char>)
    ensures
        plan_error(mock_graph(intent)) is None,
{
    reveal_strlit("node1");
    reveal_strlit("node2");
    let g = mock_graph(intent);
    let ids = node_ids(g);
    if has_substring(intent, "read file"@) && has_substring(intent, "debug echo"@) {
        assert(ids =~= seq!["node1"@, "node2"@]);
        assert("node1"@[4] != "node2"@[4]);
        assert(ids.contains("node1"@) && ids.contains("node2"@)) by {
            assert(ids[0] == "node1"@);
            assert(ids[1] == "node2"@);
        }
        assert(edge_problem(ids, g.edges[0]) is None);
        assert(position_of(ids, "node1"@) == 0) by {
            assert(ids[0] == "node1"@);
        }
        assert(position_of(ids, "node2"@) == 1) by {
            assert(ids[1] == "node2"@);
        }
        let ord = seq![0usize, 1usize];
        assert(edge_positions(g) =~= seq![(0usize, 1usize)]);
        assert(ord.contains(0usize) && ord.contains(1usize)) by {
            assert(ord[0] == 0usize);
            assert(ord[1] == 1usize);
        }
        assert(is_topo_order(2, edge_positions(g), ord));
    } else {
        assert(ids =~= seq!["node1"@]);
        let ord = seq![0usize];
        assert(edge_positions(g) =~= Seq::<(usize, usize)>::empty());
        assert(ord.contains(0usize)) by {
            assert(ord[0] == 0usize);
        }
        assert(is_topo_order(1, edge_positions(g), ord));
    }
}

/// Registering a tool makes it the one found under its name, and leaves
/// every other name as it was.
pub proof fn lemma_register_then_get<T: CapabilityTool>(before: Map<Seq<char>, T>, tool: T, name: Seq<char>)
    ensures
        before.insert(tool.spec_name(), tool).contains_key(tool.spec_name()),
        before.insert(tool.spec_name(), tool)[tool.spec_name()] == tool,
        name != tool.spec_name() ==> (before.insert(tool.spec_name(), tool).contains_key(name)
            == before.contains_key(name) && before.insert(tool.spec_name(), tool)[name] == before[name]),
{
}

/// Normalizing a normalized node again keeps its capability.
pub proof fn lemma_normalize_keeps_capability(node: NodeView, first: Seq<char>, second: Seq<char>)
    ensures
        normalized(normalized(node, first), second).capability == normalized(node, first).capability,
{
    lemma_normalized_capability_present(node, first);
}

/// The kernel's own tools, as `default_registry` holds them.
pub open spec fn kernel_tools() -> Map<Seq<char>, KernelTool> {
    Map::<Seq<char>, KernelTool>::empty().insert("debug_echo"@, KernelTool::Echo(KernelEchoTool)).insert(
        "file_read"@,
        KernelTool::FileRead(KernelFileReadTool),
    ).insert("file_write"@, KernelTool::FileWrite(KernelFileWriteTool))
}

/// Every node the mock compiler makes names a kernel tool that provides
/// exactly the capability the node claims.
pub proof fn lemma_mock_nodes_have_kernel_tools(intent: Seq<char>)
    ensures
        forall|i: int|
            0 <= i < mock_graph(intent).nodes.len() ==> {
                let n = #[trigger] mock_graph(intent).nodes[i];
                &&& kernel_tools().contains_key(n.tool_name)
                &&& kernel_tools()[n.tool_name].spec_capability() == n.capability
            },
{
    reveal_strlit("debug_echo");
    reveal_strlit("file_read");
    reveal_strlit("file_write");
    assert("debug_echo"@.len() != "file_read"@.len());
    assert("debug_echo"@[0] != "file_write"@[0]);
    assert("file_read"@.len() != "file_write"@.len());
}

/// Under the default user policy (which makes `local_only` mandatory), every
/// graph the mock compiler makes is refused, for its echo node lacks that tag.
pub proof fn lemma_default_policy_refuses_mock(intent: Seq<char>)
    ensures
        gate_verdict(
            PolicyView {
                allowed: seq!["fs.read"@, "fs.write"@, "sys.debug"@, "sys.info"@],
                denied: seq!["sys.admin"@],
                mandatory: seq!["local_only"@],
            },
            mock_graph(intent),
        ) is Err,
{
    let policy = PolicyView {
        allowed: seq!["fs.read"@, "fs.write"@, "sys.debug"@, "sys.info"@],
        denied: seq!["sys.admin"@],
        mandatory: seq!["local_only"@],
    };
    let nodes = mock_graph(intent).nodes;
    let echo: int = nodes.len() - 1;
    assert(nodes.len() > 0 && nodes[echo].constraints =~= Seq::<Seq<char>>::empty()) by {
        if has_substring(intent, "read file"@) && has_substring(intent, "debug echo"@) {
            assert(nodes == read_then_echo(mock_path(crate::text::whitespace_words(intent))).nodes);
        } else {
            assert(nodes == echo_only(intent).nodes);
        }
    }
    assert(!nodes[echo].constraints.contains(policy.mandatory[0]));
    assert(node_violation(policy, nodes[echo]) is Some);
    assert(exists|i: int| 0 <= i < nodes.len() && node_violation(policy, nodes[i]) is Some);
    assert(nodes_verdict(policy, nodes) is Err);
}

/// Typing a printable character and then erasing it gives back the line.
pub proof fn lemma_type_then_erase(line: Seq<char>, byte: u8)
    requires
        32 <= byte <= 126,
    ensures
        edit(edit(line, byte).0, 8).0 == line,
{
    assert(line.push(byte as char).drop_last() =~= line);
}

/// Normalization touches a node's id and, when it is empty, its capability,
/// and nothing else: the tool name, the inputs and the policy tags stay. An
/// empty capability becomes the one the tool name provides.
pub proof fn lemma_normalize_touches_only_id_and_capability(node: NodeView, lowered_id: Seq<char>)
    ensures
        normalized(node, lowered_id).id == lowered_id,
        normalized(node, lowered_id).tool_name == node.tool_name,
        normalized(node, lowered_id).inputs == node.inputs,
        normalized(node, lowered_id).constraints == node.constraints,
        node.capability.len() > 0 ==> normalized(node, lowered_id).capability == node.capability,
        node.capability.len() == 0 && node.tool_name == "file_read"@ ==> normalized(node, lowered_id).capability
            == "fs.read"@,
        node.capability.len() == 0 && node.tool_name == "file_write"@ ==> normalized(node, lowered_id).capability
            == "fs.write"@,
        node.capability.len() == 0 && node.tool_name == "debug_echo"@ ==> normalized(node, lowered_id).capability
            == "sys.debug"@,
        node.capability.len() == 0 && node.tool_name != "file_read"@ && node.tool_name != "file_write"@
            && node.tool_name != "debug_echo"@ ==> normalized(node, lowered_id).capability == "unknown"@,
{
    reveal_strlit("file_read");
    reveal_strlit("file_write");
    reveal_strlit("debug_echo");
    assert("file_read"@.len() != "file_write"@.len());
    assert("debug_echo"@[0] != "file_read"@[0]);
    assert("debug_echo"@[0] != "file_write"@[0]);
}

/// An intent that does not ask to read a file and echo is echoed verbatim by a
/// single debug-echo node, with nothing else in the graph.
pub proof fn lemma_echo_graph_echoes_intent(intent: Seq<char>)
    requires
        !(has_substring(intent, "read file"@) && has_substring(intent, "debug echo"@)),
    ensures
        mock_graph(intent).nodes.len() == 1,
        mock_graph(intent).edges.len() == 0,
        mock_graph(intent).nodes[0].tool_name == "debug_echo"@,
        mock_graph(intent).nodes[0].capability == "sys.debug"@,
        mock_graph(intent).nodes[0].inputs.dom() == Set::<Seq<char>>::empty().insert("message"@),
        mock_graph(intent).nodes[0].inputs["message"@] == intent,
{
}

/// An intent that asks to read a file and echo reads the file named by the
/// word after its first word `file` (or `test.txt` when there is none), and
/// echoes only after the read.
pub proof fn lemma_read_graph_reads_named_file(intent: Seq<char>)
    requires
        has_substring(intent, "read file"@),
        has_substring(intent, "debug echo"@),
    ensures
        ({
            let g = mock_graph(intent);
            let ws = whitespace_words(intent);
            let path = g.nodes[0].inputs["path"@];
            &&& g.nodes.len() == 2
            &&& g.nodes[0].tool_name == "file_read"@
            &&& g.nodes[1].tool_name == "debug_echo"@
            &&& g.edges == seq![(g.nodes[0].id, g.nodes[1].id)]
            &&& g.nodes[0].inputs.dom() == Set::<Seq<char>>::empty().insert("path"@)
            &&& (exists|i: int| 0 <= i < ws.len() - 1 && ws[i] == "file"@) ==> exists|i: int|
                #![trigger ws[i]]
                0 <= i < ws.len() - 1 && ws[i] == "file"@ && ws[i + 1] == path && forall|j: int|
                    0 <= j < i ==> ws[j] != "file"@
            &&& !(exists|i: int| 0 <= i < ws.len() - 1 && ws[i] == "file"@) ==> path == "test.txt"@
        }),
{
    let ws = whitespace_words(intent);
    let g = mock_graph(intent);
    assert(g == read_then_echo(mock_path(ws)));
    assert(g.nodes[0].inputs["path"@] == mock_path(ws));
    assert(g.nodes[0].inputs.dom() =~= Set::<Seq<char>>::empty().insert("path"@));
    lemma_mock_path_names_word(ws);
}

/// The path is the word after the first word `file`, or `test.txt` when no
/// word `file` is followed by another.
proof fn lemma_mock_path_names_word(ws: Seq<Seq<char>>)
    ensures
        (exists|i: int| 0 <= i < ws.len() - 1 && ws[i] == "file"@) ==> exists|i: int|
            #![trigger ws[i]]
            0 <= i < ws.len() - 1 && ws[i] == "file"@ && ws[i + 1] == mock_path(ws) && forall|j: int|
                0 <= j < i ==> ws[j] != "file"@,
        !(exists|i: int| 0 <= i < ws.len() - 1 && ws[i] == "file"@) ==> mock_path(ws) == "test.txt"@,
{
    if exists|k: int| 0 <= k < ws.len() && ws[k] == "file"@ {
        let k = choose|k: int| 0 <= k < ws.len() && ws[k] == "file"@;
        let f = lemma_first_file(ws, k);
        let i = choose|i: int|
            0 <= i < ws.len() && ws[i] == "file"@ && forall|j: int| 0 <= j < i ==> ws[j] != "file"@;
        if i < f {
            assert(ws[i] != "file"@);
        } else if i > f {
            assert(ws[f] != "file"@);
        }
        assert(i == f);
        if exists|m: int| 0 <= m < ws.len() - 1 && ws[m] == "file"@ {
            let m = choose|m: int| 0 <= m < ws.len() - 1 && ws[m] == "file"@;
            if i > m {
                assert(ws[m] != "file"@);
            }
            assert(i + 1 < ws.len());
            assert(mock_path(ws) == ws[i + 1]);
        } else {
            assert(!(i < ws.len() - 1));
            assert(mock_path(ws) == "test.txt"@);
        }
    }
}

/// The first position of the word `file`, given one position `k` holding it.
proof fn lemma_first_file(ws: Seq<Seq<char>>, k: int) -> (f: int)
    requires
        0 <= k < ws.len(),
        ws[k] == "file"@,
    ensures
        0 <= f <= k,
        ws[f] == "file"@,
        forall|j: int| 0 <= j < f ==> ws[j] != "file"@,
    decreases k,
{
    if exists|j: int| 0 <= j < k && ws[j] == "file"@ {
        let j = choose|j: int| 0 <= j < k && ws[j] == "file"@;
        lemma_first_file(ws, j)
    } else {
        k
    }
}

/// The layout does not depend on the number of key/value heads: two headers
/// that differ only there describe the same sections.
pub proof fn lemma_layout_ignores_kv_heads(c1: Config, c2: Config)
    requires
        c1.dim == c2.dim,
        c1.hidden_dim == c2.hidden_dim,
        c1.n_layers == c2.n_layers,
        c1.n_heads == c2.n_heads,
        c1.vocab_size == c2.vocab_size,
        c1.seq_len == c2.seq_len,
    ensures
        freq_cis_len(c1) == freq_cis_len(c2),
        weight_count(c1) == weight_count(c2),
        layout_fits(c1) == layout_fits(c2),
{
}

/// Each rotary table holds half of `seq_len` times the head size, the head
/// size being the whole number of times `n_heads` goes into `dim`.
pub proof fn lemma_rotary_table_uses_head_size(c: Config, head: int)
    requires
        c.n_heads > 0,
        c.dim >= 0,
        c.seq_len >= 0,
        0 <= head,
        head * c.n_heads <= c.dim < (head + 1) * c.n_heads,
    ensures
        2 * freq_cis_len(c) <= c.seq_len * head <= 2 * freq_cis_len(c) + 1,
{
    let d = c.dim as int;
    let nh = c.n_heads as int;
    vstd::arithmetic::div_mod::lemma_fundamental_div_mod(d, nh);
    assert(d / nh == head) by (nonlinear_arith)
        requires
            nh > 0,
            head * nh <= d < (head + 1) * nh,
            d == nh * (d / nh) + d % nh,
            0 <= d % nh < nh,
    {
        if d / nh < head {
            assert(nh * (d / nh) <= nh * (head - 1));
        } else if d / nh > head {
            assert(nh * (d / nh) >= nh * (head + 1));
        }
    }
}

/// The write tool succeeds exactly when the path and the content are both
/// given, whatever their values (an empty content is written too).
pub proof fn lemma_write_tool_needs_only_both_fields(inputs: Map<Seq<char>, Seq<char>>)
    ensures
        inputs.contains_key("path"@) && inputs.contains_key("content"@) ==> write_answer(inputs) == Ok::<
            Map<Seq<char>, Seq<char>>,
            Seq<char>,
        >(Map::empty().insert("status"@, "success"@)),
        !inputs.contains_key("path"@) ==> write_answer(inputs) == Err::<Map<Seq<char>, Seq<char>>, Seq<char>>(
            "Missing path"@,
        ),
        inputs.contains_key("path"@) && !inputs.contains_key("content"@) ==> write_answer(inputs) == Err::<
            Map<Seq<char>, Seq<char>>,
            Seq<char>,
        >("Missing content"@),
{
}

/// The read tool answers for any given path, with that path in its content;
/// the echo tool answers with the message it was given.
pub proof fn lemma_read_and_echo_answers(inputs: Map<Seq<char>, Seq<char>>)
    ensures
        inputs.contains_key("path"@) ==> (read_answer(inputs) matches Ok(m) && m.dom() == Set::<
            Seq<char>,
        >::empty().insert("content"@) && m["content"@] == "Mock content for "@ + inputs["path"@]),
        !inputs.contains_key("path"@) ==> read_answer(inputs) == Err::<Map<Seq<char>, Seq<char>>, Seq<char>>(
            "Missing path"@,
        ),
        inputs.contains_key("message"@) ==> echo_answer(inputs)["echo"@] == inputs["message"@],
{
    if inputs.contains_key("path"@) {
        let m = Map::<Seq<char>, Seq<char>>::empty().insert("content"@, "Mock content for "@ + inputs["path"@]);
        assert(m.dom() =~= Set::<Seq<char>>::empty().insert("content"@));
    }
}

/// The kernel's write tool succeeds exactly when the path and the content are
/// both given, and reports the content's length in bytes as a decimal number
/// that reads back as that length.
pub proof fn lemma_kernel_write_reports_byte_count(inputs: Map<Seq<char>, Seq<char>>)
    requires
        inputs.contains_key("path"@),
        inputs.contains_key("content"@),
        vstd::utf8::encode_utf8(inputs["content"@]).len() <= usize::MAX,
    ensures
        exists|count: Seq<char>|
            #![trigger digits_value(count)]
            all_digits(count) && digits_value(count) == vstd::utf8::encode_utf8(inputs["content"@]).len()
                && KernelFileWriteTool.spec_execute(inputs) == Ok::<Seq<char>, Seq<char>>(
                "Kernel wrote "@ + count + " bytes to "@ + inputs["path"@],
            ),
{
    let n = vstd::utf8::encode_utf8(inputs["content"@]).len();
    lemma_decimal_reads_back(n);
    assert(((n as usize) as nat) == n);
    assert(digits_value(decimal(n)) == n);
}

/// The kernel's echo tool answers with the message it was given; its read
/// tool names the given path in what it answers; both fail only for lack of
/// their field (the echo tool never fails).
pub proof fn lemma_kernel_echo_and_read(inputs: Map<Seq<char>, Seq<char>>)
    ensures
        inputs.contains_key("message"@) ==> KernelEchoTool.spec_execute(inputs) == Ok::<Seq<char>, Seq<char>>(
            inputs["message"@],
        ),
        KernelEchoTool.spec_execute(inputs) is Ok,
        inputs.contains_key("path"@) ==> KernelFileReadTool.spec_execute(inputs) == Ok::<Seq<char>, Seq<char>>(
            "Kernel read from "@ + inputs["path"@] + ": [Simulated Content]"@,
        ),
        !inputs.contains_key("path"@) ==> KernelFileReadTool.spec_execute(inputs) is Err,
{
}

/// What one received byte does to the line: Enter submits it unchanged;
/// backspace or delete removes its last character when there is one; a
/// printable byte is appended and echoed; any other byte changes nothing.
pub proof fn lemma_edit_effects(line: Seq<char>, byte: u8)
    ensures
        (byte == 13 || byte == 10) ==> edit(line, byte) == (line, EditAction::Submit),
        (byte == 8 || byte == 127) && line.len() > 0 ==> edit(line, byte).0 == line.subrange(
            0,
            line.len() - 1,
        ),
        (byte == 8 || byte == 127) && line.len() == 0 ==> edit(line, byte).0 == line,
        32 <= byte <= 126 ==> edit(line, byte).0.len() == line.len() + 1 && edit(line, byte).0.subrange(
            0,
            line.len() as int,
        ) == line && edit(line, byte).0[line.len() as int] == byte as char && edit(line, byte).1
            == EditAction::Echo(byte),
        byte < 32 && byte != 13 && byte != 10 && byte != 8 ==> edit(line, byte).0 == line,
        byte > 127 ==> edit(line, byte).0 == line,
{
    if 32 <= byte <= 126 {
        assert(line.push(byte as char).subrange(0, line.len() as int) =~= line);
    }
    if (byte == 8 || byte == 127) && line.len() > 0 {
        assert(line.drop_last() =~= line.subrange(0, line.len() - 1));
    }
}

/// A header field reads back the `i32` whose little-endian bytes it holds.
pub proof fn lemma_le_i32_reads_back(b: Seq<u8>, at: int, v: i32)
    requires
        0 <= at,
        at + 4 <= b.len(),
        b[at] == (v as u32 & 0xff) as u8,
        b[at + 1] == ((v as u32 >> 8u32) & 0xff) as u8,
        b[at + 2] == ((v as u32 >> 16u32) & 0xff) as u8,
        b[at + 3] == ((v as u32 >> 24u32) & 0xff) as u8,
    ensures
        le_i32(b, at) == v,
{
    let b0 = b[at];
    let b1 = b[at + 1];
    let b2 = b[at + 2];
    let b3 = b[at + 3];
    assert((b0 as u32 + 256 * (b1 as u32) + 65536 * (b2 as u32) + 16777216 * (b3 as u32)) as i32 == v)
        by (bit_vector)
        requires
            b0 == (v as u32 & 0xff) as u8,
            b1 == ((v as u32 >> 8u32) & 0xff) as u8,
            b2 == ((v as u32 >> 16u32) & 0xff) as u8,
            b3 == ((v as u32 >> 24u32) & 0xff) as u8,
    ;
    assert(b0 as int + 256 * b1 as int + 65536 * b2 as int + 16777216 * b3 as int == (b0 as u32 + 256 * (
    b1 as u32) + 65536 * (b2 as u32) + 16777216 * (b3 as u32)) as int);
}

} // verus!
