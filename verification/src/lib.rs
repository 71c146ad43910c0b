//! Danger OS: intent graphs compiled from natural language, checked by a
//! symbolic policy gate and executed in topological order by capability tools.

pub mod text;
pub mod graph;
pub mod policy;
pub mod schedule;
pub mod tools;
pub mod engine;
pub mod pipeline;
pub mod compiler;
pub mod inference;
pub mod runtime;
pub mod host_tools;
pub mod console;
pub mod laws;
