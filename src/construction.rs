//! Raw node and edge data as the host hands it over, before it enters a graph.

use crate::graph::EdgeData;
use vstd::prelude::*;

verus! {

/// A note as supplied by the host.
#[derive(Clone, Debug)]
pub struct GCNodeData {
    pub path: String,
    pub aliases: Vec<String>,
    pub resolved: bool,
    pub ignore_in_edges: bool,
    pub ignore_out_edges: bool,
}

impl GCNodeData {
    pub fn new(
        path: String,
        aliases: Vec<String>,
        resolved: bool,
        ignore_in_edges: bool,
        ignore_out_edges: bool,
    ) -> (r: GCNodeData)
        ensures
            r.path@ == path@,
            r.aliases@ == aliases@,
            r.resolved == resolved,
            r.ignore_in_edges == ignore_in_edges,
            r.ignore_out_edges == ignore_out_edges,
    {
        GCNodeData { path, aliases, resolved, ignore_in_edges, ignore_out_edges }
    }

    /// A note that is referenced but does not exist.
    pub fn new_unresolved(path: String) -> (r: GCNodeData)
        ensures
            r.path@ == path@,
            r.aliases@.len() == 0,
            !r.resolved,
            !r.ignore_in_edges,
            !r.ignore_out_edges,
    {
        GCNodeData {
            path,
            aliases: Vec::new(),
            resolved: false,
            ignore_in_edges: false,
            ignore_out_edges: false,
        }
    }

    /// Relies on the derived `Debug` impl, pretty-printed.
    #[verifier::external_body]
    pub fn to_fancy_string(&self) -> String {
        format!("{self:#?}")
    }
}

/// An edge as supplied by the host, naming its ends by path.
#[derive(Clone, Debug)]
pub struct GCEdgeData {
    pub source: String,
    pub target: String,
    pub edge_type: String,
    pub edge_source: String,
}

impl GCEdgeData {
    pub fn new(source: String, target: String, edge_type: String, edge_source: String) -> (r:
        GCEdgeData)
        ensures
            r.source@ == source@,
            r.target@ == target@,
            r.edge_type@ == edge_type@,
            r.edge_source@ == edge_source@,
    {
        GCEdgeData { source, target, edge_type, edge_source }
    }

    /// Relies on the derived `Debug` impl, pretty-printed.
    #[verifier::external_body]
    pub fn to_fancy_string(&self) -> String {
        format!("{self:#?}")
    }

    /// The edge's weight: an explicit edge with ordering weight 0.
    pub fn to_edge_data(self) -> (r: EdgeData)
        ensures
            r.edge_type@ == self.edge_type@,
            r.edge_source@ == self.edge_source@,
            r.explicit,
            r.round == 0,
    {
        EdgeData::new(self.edge_type, self.edge_source, true, 0)
    }
}

} // verus!
