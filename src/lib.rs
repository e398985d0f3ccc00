//! Edge ordering, edge accumulation and flowchart rendering over a note graph.

pub mod accumulate;
pub mod construction;
pub mod edge_sorting;
pub mod graph;
pub mod mermaid;
pub mod text;
