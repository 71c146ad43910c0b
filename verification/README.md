# danger_os

Danger OS compiles natural-language intents into intent graphs (DAGs of tool
invocations), checks every graph against a capability policy, and runs the
graph's nodes in topological order with capability tools. This crate is the
verified core of that system, written in Verus.

Layout:

- `src/graph.rs`: nodes, edges and the string maps that hold node inputs.
- `src/policy.rs`: the policy and the symbolic gate's validation (per-node
  policy checks, then known edge ends and acyclicity).
- `src/schedule.rs`: topological ordering (Kahn's algorithm) with its proof,
  and the exact order it produces (`kahn_spec`), so that runs are deterministic.
- `src/tools.rs`: the capability-tool trait, the kernel's tools, the registry.
- `src/engine.rs`: planning and execution with an append-only event log.
- `src/pipeline.rs`: validation followed by execution.
- `src/compiler.rs`: the mock intent compiler and graph normalization.
- `src/runtime.rs`, `src/host_tools.rs`: the host runtime's planning (petgraph)
  and per-step decisions, and the host's sample tools.
- `src/inference.rs`: the model bundle's header, weight layout and section offsets.
- `src/console.rs`: line editing for the serial console.
- `src/laws.rs`: properties of the library as a whole.
- `app/`: the command-line program, the asynchronous host runtime, the
  floating-point inference engine and semantic memory, the serial console and
  the image runner.
