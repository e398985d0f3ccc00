//! The note graph: an arena of nodes and edges with stable indices and a
//! revision counter that every mutation advances.

use crate::construction::GCNodeData;
use vstd::prelude::*;

verus! {

/// The errors this library reports.
#[derive(Clone, Debug)]
pub enum NoteGraphError {
    /// A sort-field specifier that the grammar does not accept.
    InvalidSortField,
    /// An edge record captured at another revision of the graph, or one that
    /// does not name an edge of it.
    StaleEdgeRecord,
    /// The host's node-labelling function failed; its description is kept.
    LabelFunction(String),
}

/// The weight of an edge.
#[derive(Clone, Debug)]
pub struct EdgeData {
    pub edge_type: String,
    pub edge_source: String,
    pub explicit: bool,
    pub round: u8,
}

impl EdgeData {
    pub fn new(edge_type: String, edge_source: String, explicit: bool, round: u8) -> (r: EdgeData)
        ensures
            r.edge_type@ == edge_type@,
            r.edge_source@ == edge_source@,
            r.explicit == explicit,
            r.round == round,
    {
        EdgeData { edge_type, edge_source, explicit, round }
    }
}

/// An edge of the graph with the indices of its ends.
#[derive(Clone, Debug)]
pub struct GraphEdge {
    pub source: usize,
    pub target: usize,
    pub data: EdgeData,
}

/// A transient reference to an edge, tagged with the revision at which it
/// was captured.
#[derive(Clone, Copy, Debug, PartialEq, Eq)]
pub struct EdgeStruct {
    pub source_index: usize,
    pub target_index: usize,
    pub edge_index: usize,
    pub revision: u64,
}

/// Directed multigraph of notes.
pub struct NoteGraph {
    pub nodes: Vec<GCNodeData>,
    pub edges: Vec<GraphEdge>,
    pub revision: u64,
}

/// Index of the first edge at or after `i` that leaves `node` and has type `ty`.
pub open spec fn first_match_from(edges: Seq<GraphEdge>, node: usize, ty: Seq<char>, i: int) -> Option<int>
    decreases edges.len() - i,
{
    if i < 0 || i >= edges.len() {
        None
    } else if edges[i].source == node && edges[i].data.edge_type@ == ty {
        Some(i)
    } else {
        first_match_from(edges, node, ty, i + 1)
    }
}

impl NoteGraph {
    /// Every edge joins two nodes of the graph, and no two nodes share a path.
    pub open spec fn wf(&self) -> bool {
        &&& forall|i: int|
            0 <= i < self.edges@.len() ==> #[trigger] self.edges@[i].source < self.nodes@.len()
                && self.edges@[i].target < self.nodes@.len()
        &&& forall|i: int, j: int|
            0 <= i < self.nodes@.len() && 0 <= j < self.nodes@.len() && i != j
                ==> #[trigger] self.nodes@[i].path@ != #[trigger] self.nodes@[j].path@
    }

    /// The record names an edge of this graph and was captured at its
    /// current revision.
    pub open spec fn record_ok(&self, r: EdgeStruct) -> bool {
        &&& r.revision == self.revision
        &&& r.edge_index < self.edges@.len()
        &&& self.edges@[r.edge_index as int].source == r.source_index
        &&& self.edges@[r.edge_index as int].target == r.target_index
    }

    pub open spec fn records_ok(&self, rs: Seq<EdgeStruct>) -> bool {
        forall|i: int| 0 <= i < rs.len() ==> self.record_ok(#[trigger] rs[i])
    }

    /// Path of the node an edge record points to.
    pub open spec fn target_path(&self, r: EdgeStruct) -> Seq<char> {
        self.nodes@[r.target_index as int].path@
    }

    pub open spec fn edge_of(&self, r: EdgeStruct) -> EdgeData {
        self.edges@[r.edge_index as int].data
    }

    /// The first outgoing edge of `node`, in edge order, whose type is `ty`.
    pub open spec fn first_out_match(&self, node: usize, ty: Seq<char>) -> Option<int> {
        first_match_from(self.edges@, node, ty, 0)
    }

    pub fn new() -> (r: NoteGraph)
        ensures
            r.wf(),
            r.nodes@.len() == 0,
            r.edges@.len() == 0,
            r.revision == 0,
    {
        NoteGraph { nodes: Vec::new(), edges: Vec::new(), revision: 0 }
    }

    /// Index of the node whose path is `path`.
    pub fn int_get_node_index(&self, path: &String) -> (r: Option<usize>)
        ensures
            match r {
                Some(i) => i < self.nodes@.len() && self.nodes@[i as int].path@ == path@,
                None => forall|i: int|
                    0 <= i < self.nodes@.len() ==> #[trigger] self.nodes@[i].path@ != path@,
            },
    {
        let mut i: usize = 0;
        while i < self.nodes.len()
            invariant
                i <= self.nodes@.len(),
                forall|k: int| 0 <= k < i ==> #[trigger] self.nodes@[k].path@ != path@,
            decreases self.nodes@.len() - i,
        {
            if self.nodes[i].path == *path {
                return Some(i);
            }
            i = i + 1;
        }
        None
    }

    /// Adds a node and returns its index; a node with the same path already
    /// present is kept, and its index is returned.
    pub fn add_node(&mut self, node: GCNodeData) -> (r: usize)
        requires
            old(self).wf(),
            old(self).revision < u64::MAX,
        ensures
            final(self).wf(),
            r < final(self).nodes@.len(),
            final(self).nodes@[r as int].path@ == node.path@,
            final(self).edges@ == old(self).edges@,
            match old(self).find_path(node.path@) {
                Some(i) => r == i && final(self).nodes@ == old(self).nodes@
                    && final(self).revision == old(self).revision,
                None => r == old(self).nodes@.len() && final(self).nodes@ == old(self).nodes@.push(node)
                    && final(self).revision == old(self).revision + 1,
            },
    {
        match self.int_get_node_index(&node.path) {
            Some(i) => {
                proof {
                    self.lemma_find_path(node.path@, i as int);
                }
                i
            },
            None => {
                let ghost p = node.path@;
                self.nodes.push(node);
                self.revision = self.revision + 1;
                proof {
                    assert(old(self).find_path(p) is None);
                    let n = old(self).nodes@.len();
                    assert forall|i: int| 0 <= i < self.edges@.len() implies #[trigger] self.edges@[i].source
                        < self.nodes@.len() && self.edges@[i].target < self.nodes@.len() by {
                        assert(old(self).edges@[i].source < n);
                    }
                    assert forall|i: int, j: int|
                        0 <= i < self.nodes@.len() && 0 <= j < self.nodes@.len() && i != j
                        implies #[trigger] self.nodes@[i].path@ != #[trigger] self.nodes@[j].path@ by {
                        if i < n && j < n {
                            assert(old(self).nodes@[i].path@ != old(self).nodes@[j].path@);
                        } else if i < n {
                            assert(old(self).nodes@[i].path@ != p);
                        } else {
                            assert(old(self).nodes@[j].path@ != p);
                        }
                    }
                }
                self.nodes.len() - 1
            },
        }
    }

    /// Index of the node with path `p`, if there is one.
    pub open spec fn find_path(&self, p: Seq<char>) -> Option<int> {
        if exists|i: int| 0 <= i < self.nodes@.len() && self.nodes@[i].path@ == p {
            Some(choose|i: int| 0 <= i < self.nodes@.len() && self.nodes@[i].path@ == p)
        } else {
            None
        }
    }

    pub proof fn lemma_find_path(&self, p: Seq<char>, i: int)
        requires
            self.wf(),
            0 <= i < self.nodes@.len(),
            self.nodes@[i].path@ == p,
        ensures
            self.find_path(p) == Some(i),
    {
    }

    /// Adds an edge between two nodes of the graph and returns its index.
    pub fn add_edge(&mut self, source: usize, target: usize, data: EdgeData) -> (r: usize)
        requires
            old(self).wf(),
            old(self).revision < u64::MAX,
            source < old(self).nodes@.len(),
            target < old(self).nodes@.len(),
        ensures
            final(self).wf(),
            r == old(self).edges@.len(),
            final(self).nodes@ == old(self).nodes@,
            final(self).edges@ == old(self).edges@.push(GraphEdge { source, target, data }),
            final(self).revision == old(self).revision + 1,
    {
        self.edges.push(GraphEdge { source, target, data });
        self.revision = self.revision + 1;
        proof {
            assert forall|i: int| 0 <= i < self.edges@.len() implies #[trigger] self.edges@[i].source
                < self.nodes@.len() && self.edges@[i].target < self.nodes@.len() by {
                if i < old(self).edges@.len() {
                    assert(old(self).edges@[i].source < old(self).nodes@.len());
                }
            }
        }
        self.edges.len() - 1
    }

    /// Captures a record of an edge at the current revision.
    pub fn edge_struct(&self, edge_index: usize) -> (r: EdgeStruct)
        requires
            edge_index < self.edges@.len(),
        ensures
            self.record_ok(r),
            r.edge_index == edge_index,
    {
        EdgeStruct {
            source_index: self.edges[edge_index].source,
            target_index: self.edges[edge_index].target,
            edge_index,
            revision: self.revision,
        }
    }

    /// Fails unless the record names an edge of this graph at its current
    /// revision.
    pub fn check_revision(&self, r: &EdgeStruct) -> (res: Result<(), NoteGraphError>)
        ensures
            res is Ok <==> self.record_ok(*r),
            res matches Err(e) ==> e is StaleEdgeRecord,
    {
        if r.revision == self.revision && r.edge_index < self.edges.len()
            && self.edges[r.edge_index].source == r.source_index
            && self.edges[r.edge_index].target == r.target_index {
            Ok(())
        } else {
            Err(NoteGraphError::StaleEdgeRecord)
        }
    }

    /// The first outgoing edge of `node`, in edge order, whose type is `ty`.
    pub fn int_first_outgoing_match(&self, node: usize, ty: &String) -> (r: Option<usize>)
        ensures
            r matches Some(i) ==> self.first_out_match(node, ty@) == Some(i as int),
            r is None ==> self.first_out_match(node, ty@) is None,
    {
        let mut i: usize = 0;
        while i < self.edges.len()
            invariant
                i <= self.edges@.len(),
                first_match_from(self.edges@, node, ty@, 0) == first_match_from(self.edges@, node, ty@, i as int),
            decreases self.edges@.len() - i,
        {
            if self.edges[i].source == node && self.edges[i].data.edge_type == *ty {
                return Some(i);
            }
            i = i + 1;
        }
        None
    }
}

} // verus!

verus! {

/// One step of a traversal: the edge that was followed and the depth it
/// was reached at.
#[derive(Clone, Copy, Debug)]
pub struct RecTraversalData {
    pub edge: EdgeStruct,
    pub depth: u32,
}

} // verus!
