//! The path from a compiled graph to its execution: no graph runs before the
//! policy has accepted it.

use vstd::prelude::*;
use crate::engine::{edge_positions, run_from, run_order, views_of, EngineError, ExecutionEngine, ExecutionTrace};
use crate::graph::IntentGraph;
use crate::policy::{gate_verdict, GateError, SymbolicGate};
use crate::schedule::is_topo_order;
use crate::tools::CapabilityTool;

verus! {

/// Why a graph did not run to completion.
pub enum PipelineError {
    /// The policy refused the graph; nothing ran.
    Rejected(GateError),
    /// The engine refused or stopped the graph.
    Failed(EngineError),
}

impl<T: CapabilityTool> ExecutionEngine<T> {
    /// Validates `graph` against the policy of `gate`, and executes it only
    /// when the policy accepts it.
    pub fn run_validated(&mut self, gate: &SymbolicGate, graph: &IntentGraph) -> (r: Result<Vec<ExecutionTrace>, PipelineError>)
        ensures
            final(self).registry == old(self).registry,
            gate_verdict(gate.context.current_policy@, graph@) matches Err(e) ==> (r matches Err(
                PipelineError::Rejected(err),
            ) && err@ == e && final(self).log.traces@ == old(self).log.traces@),
            gate_verdict(gate.context.current_policy@, graph@) is Ok ==> is_topo_order(
                graph@.nodes.len(),
                edge_positions(graph@),
                run_order(graph@),
            ) && {
                let run = run_from(old(self).registry@, graph@.nodes, run_order(graph@), 0);
                &&& views_of(final(self).log.traces@) == views_of(old(self).log.traces@) + run.0
                &&& r matches Ok(ts) ==> run.1 is None && views_of(ts@) == run.0
                &&& r matches Err(PipelineError::Failed(e)) ==> run.1 == Some(e@)
                &&& !(r matches Err(PipelineError::Rejected(_)))
            },
    {
        match gate.validate(graph) {
            Err(e) => Err(PipelineError::Rejected(e)),
            Ok(()) => {
                proof {
                    crate::laws::lemma_accepted_graph_is_dag(gate.context.current_policy@, graph@);
                }
                match self.execute(graph) {
                    Ok(traces) => Ok(traces),
                    Err(e) => Err(PipelineError::Failed(e)),
                }
            },
        }
    }
}

} // verus!
