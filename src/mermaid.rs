//! Rendering a traversal as flowchart markup.

use crate::accumulate::{accumulate, AccumulatedEdge, entry_bounded, lemma_accumulate_bounded, EntryView};
use crate::edge_sorting::{str_eq, EdgeSorter};
use crate::graph::{EdgeData, EdgeStruct, NoteGraph, NoteGraphError};
use crate::text::{decimal, join, lemma_join_push, push_decimal};
use vstd::prelude::*;
use vstd::string::{StrSliceExecFns, StringExecFns};

verus! {

/// What a diagram shows and how.
#[derive(Clone, Debug)]
pub struct MermaidGraphOptions {
    pub active_node: Option<String>,
    pub init_line: String,
    pub chart_type: String,
    pub direction: String,
    pub collapse_opposing_edges: bool,
    pub edge_label_attributes: Vec<String>,
    pub edge_sorter: Option<EdgeSorter>,
    pub link_nodes: bool,
}

impl MermaidGraphOptions {
    pub fn new(
        active_node: Option<String>,
        init_line: String,
        chart_type: String,
        direction: String,
        collapse_opposing_edges: bool,
        edge_label_attributes: Vec<String>,
        edge_sorter: Option<EdgeSorter>,
        link_nodes: bool,
    ) -> (r: MermaidGraphOptions)
        ensures
            r.active_node == active_node,
            r.init_line == init_line,
            r.chart_type == chart_type,
            r.direction == direction,
            r.collapse_opposing_edges == collapse_opposing_edges,
            r.edge_label_attributes == edge_label_attributes,
            r.edge_sorter == edge_sorter,
            r.link_nodes == link_nodes,
    {
        MermaidGraphOptions {
            active_node,
            init_line,
            chart_type,
            direction,
            collapse_opposing_edges,
            edge_label_attributes,
            edge_sorter,
            link_nodes,
        }
    }

    /// Relies on the derived `Debug` impl, pretty-printed.
    #[verifier::external_body]
    pub fn to_fancy_string(&self) -> String {
        format!("{self:#?}")
    }
}

impl Default for MermaidGraphOptions {
    /// No active node, a left-to-right graph, opposing edges collapsed, no
    /// edge labels, no sorter, no linking.
    fn default() -> (r: MermaidGraphOptions)
        ensures
            r.active_node is None,
            r.init_line@ == "%%{ init: { \"flowchart\": {} } }%%"@,
            r.chart_type@ == "graph"@,
            r.direction@ == "LR"@,
            r.collapse_opposing_edges,
            r.edge_label_attributes@.len() == 0,
            r.edge_sorter is None,
            !r.link_nodes,
    {
        MermaidGraphOptions {
            active_node: None,
            init_line: String::from_str("%%{ init: { \"flowchart\": {} } }%%"),
            chart_type: String::from_str("graph"),
            direction: String::from_str("LR"),
            collapse_opposing_edges: true,
            edge_label_attributes: Vec::new(),
            edge_sorter: None,
            link_nodes: false,
        }
    }
}

/// A rendered diagram with the time its traversal took and the total time,
/// both in microseconds.
#[derive(Clone, Debug)]
pub struct MermaidGraphData {
    pub mermaid: String,
    pub traversal_time: u64,
    pub total_time: u64,
}

impl MermaidGraphData {
    pub fn new(mermaid: String, traversal_time: u64, total_time: u64) -> (r: MermaidGraphData)
        ensures
            r.mermaid@ == mermaid@,
            r.traversal_time == traversal_time,
            r.total_time == total_time,
    {
        MermaidGraphData { mermaid, traversal_time, total_time }
    }

    /// Relies on the derived `Debug` impl, pretty-printed.
    #[verifier::external_body]
    pub fn to_fancy_string(&self) -> String {
        format!("{self:#?}")
    }
}

/// The `key=value` text one label attribute gives for an edge, if any.
pub open spec fn attribute_part(e: EdgeData, a: Seq<char>) -> Option<Seq<char>> {
    if a == "field"@ {
        Some("field="@ + e.edge_type@)
    } else if a == "explicit"@ {
        Some("explicit="@ + if e.explicit { "true"@ } else { "false"@ })
    } else if a == "source"@ {
        Some("source="@ + e.edge_source@)
    } else if a == "round"@ {
        Some("round="@ + decimal(e.round as nat))
    } else {
        None
    }
}

/// The parts the attributes give, space-separated; unknown attributes give none.
pub open spec fn attribute_label(e: EdgeData, attrs: Seq<Seq<char>>) -> Seq<char>
    decreases attrs.len(),
{
    if attrs.len() == 0 {
        Seq::empty()
    } else {
        let prev = attribute_label(e, attrs.drop_last());
        match attribute_part(e, attrs.last()) {
            None => prev,
            Some(p) => if prev.len() == 0 {
                p
            } else {
                prev + " "@ + p
            },
        }
    }
}

pub open spec fn string_views(v: Seq<String>) -> Seq<Seq<char>> {
    v.map_values(|s: String| s@)
}

impl EdgeData {
    /// The label text of this edge for the given attribute names.
    pub fn attribute_label(&self, attributes: &Vec<String>) -> (r: String)
        ensures
            r@ == attribute_label(*self, string_views(attributes@)),
    {
        let mut out = String::new();
        let mut k: usize = 0;
        while k < attributes.len()
            invariant
                k <= attributes@.len(),
                out@ == attribute_label(*self, string_views(attributes@.take(k as int))),
            decreases attributes@.len() - k,
        {
            let a = attributes[k].as_str();
            let mut part = String::new();
            let mut found = true;
            if str_eq(a, "field") {
                part.append("field=");
                part.append(self.edge_type.as_str());
            } else if str_eq(a, "explicit") {
                part.append("explicit=");
                if self.explicit {
                    part.append("true");
                } else {
                    part.append("false");
                }
            } else if str_eq(a, "source") {
                part.append("source=");
                part.append(self.edge_source.as_str());
            } else if str_eq(a, "round") {
                part.append("round=");
                push_decimal(&mut part, self.round as usize);
            } else {
                found = false;
            }
            proof {
                let vs = string_views(attributes@.take(k + 1));
                assert(vs.drop_last() =~= string_views(attributes@.take(k as int)));
                assert(vs.last() == a@);
                if found {
                    assert(attribute_part(*self, a@) == Some(part@));
                } else {
                    assert(attribute_part(*self, a@) is None);
                }
            }
            if found {
                if out.as_str().unicode_len() > 0 {
                    out.append(" ");
                }
                out.append(part.as_str());
            }
            k = k + 1;
        }
        proof {
            assert(attributes@.take(attributes@.len() as int) =~= attributes@);
        }
        out
    }
}

/// The label texts of a list of edges.
pub open spec fn edge_labels(g: NoteGraph, es: Seq<usize>, attrs: Seq<Seq<char>>) -> Seq<Seq<char>> {
    es.map_values(|i: usize| attribute_label(g.edges@[i as int].data, attrs))
}

/// The two lists agree in edge type position by position, as far as both reach.
pub open spec fn same_elements(g: NoteGraph, f: Seq<usize>, b: Seq<usize>) -> bool {
    forall|k: int|
        0 <= k < f.len() && k < b.len() ==> g.edges@[f[k] as int].data.edge_type@
            == g.edges@[b[k] as int].data.edge_type@
}

/// No edge of either list is explicit.
pub open spec fn all_implied(g: NoteGraph, f: Seq<usize>, b: Seq<usize>) -> bool {
    &&& forall|k: int| 0 <= k < f.len() ==> !g.edges@[f[k] as int].data.explicit
    &&& forall|k: int| 0 <= k < b.len() ==> !g.edges@[b[k] as int].data.explicit
}

pub open spec fn arrow(backward_empty: bool, implied: bool) -> Seq<char> {
    if backward_empty {
        if implied { "-.->"@ } else { "-->"@ }
    } else {
        if implied { "-.-"@ } else { "---"@ }
    }
}

pub open spec fn edge_label(g: NoteGraph, f: Seq<usize>, b: Seq<usize>, attrs: Seq<Seq<char>>) -> Seq<char> {
    join(edge_labels(g, f, attrs), ", "@) + if !same_elements(g, f, b) && b.len() > 0 {
        " | "@ + join(edge_labels(g, b, attrs), ", "@)
    } else {
        Seq::empty()
    }
}

/// One connection line.
pub open spec fn edge_line(g: NoteGraph, s: usize, t: usize, f: Seq<usize>, b: Seq<usize>, attrs: Seq<Seq<char>>) -> Seq<char> {
    let label = edge_label(g, f, b, attrs);
    let a = arrow(b.len() == 0, all_implied(g, f, b));
    if label.len() == 0 {
        "    "@ + decimal(s as nat) + " "@ + a + " "@ + decimal(t as nat) + "\n"@
    } else {
        "    "@ + decimal(s as nat) + " "@ + a + "|\""@ + label + "\"| "@ + decimal(t as nat) + "\n"@
    }
}

/// The lines of one accumulated entry: one combined line, or one per direction.
pub open spec fn entry_lines(g: NoteGraph, e: EntryView, collapse: bool, attrs: Seq<Seq<char>>) -> Seq<char> {
    if collapse || e.3.len() == 0 {
        edge_line(g, e.0, e.1, e.2, e.3, attrs)
    } else {
        edge_line(g, e.0, e.1, e.2, Seq::empty(), attrs) + edge_line(g, e.1, e.0, e.3, Seq::empty(), attrs)
    }
}

pub open spec fn connection_lines(g: NoteGraph, es: Seq<EntryView>, collapse: bool, attrs: Seq<Seq<char>>) -> Seq<char>
    decreases es.len(),
{
    if es.len() == 0 {
        Seq::empty()
    } else {
        connection_lines(g, es.drop_last(), collapse, attrs) + entry_lines(g, es.last(), collapse, attrs)
    }
}

impl NoteGraph {
    fn push_labels(&self, out: &mut String, es: &Vec<usize>, attrs: &Vec<String>)
        requires
            forall|k: int| 0 <= k < es@.len() ==> #[trigger] es@[k] < self.edges@.len(),
        ensures
            final(out)@ == old(out)@ + join(edge_labels(*self, es@, string_views(attrs@)), ", "@),
    {
        let ghost start = out@;
        let ghost av = string_views(attrs@);
        let mut k: usize = 0;
        proof {
            assert(edge_labels(*self, es@.take(0), av) =~= Seq::<Seq<char>>::empty());
        }
        while k < es.len()
            invariant
                k <= es@.len(),
                forall|m: int| 0 <= m < es@.len() ==> #[trigger] es@[m] < self.edges@.len(),
                av == string_views(attrs@),
                out@ == start + join(edge_labels(*self, es@.take(k as int), av), ", "@),
            decreases es@.len() - k,
        {
            let label = self.edges[es[k]].data.attribute_label(attrs);
            proof {
                assert(es@.take(k + 1) =~= es@.take(k as int).push(es@[k as int]));
                assert(edge_labels(*self, es@.take(k + 1), av) =~= edge_labels(*self, es@.take(k as int), av).push(label@));
                lemma_join_push(edge_labels(*self, es@.take(k as int), av), ", "@, label@);
            }
            if k > 0 {
                out.append(", ");
            }
            out.append(label.as_str());
            k = k + 1;
        }
        proof {
            assert(es@.take(es@.len() as int) =~= es@);
        }
    }

    fn generate_mermaid_edge(
        &self,
        source: usize,
        target: usize,
        forward: &Vec<usize>,
        backward: &Vec<usize>,
        attrs: &Vec<String>,
    ) -> (r: String)
        requires
            forall|k: int| 0 <= k < forward@.len() ==> #[trigger] forward@[k] < self.edges@.len(),
            forall|k: int| 0 <= k < backward@.len() ==> #[trigger] backward@[k] < self.edges@.len(),
        ensures
            r@ == edge_line(*self, source, target, forward@, backward@, string_views(attrs@)),
    {
        let mut same = true;
        let mut k: usize = 0;
        while k < forward.len() && k < backward.len()
            invariant
                forall|m: int| 0 <= m < forward@.len() ==> #[trigger] forward@[m] < self.edges@.len(),
                forall|m: int| 0 <= m < backward@.len() ==> #[trigger] backward@[m] < self.edges@.len(),
                k <= forward@.len(),
                same ==> forall|m: int| 0 <= m < k && m < backward@.len() ==> self.edges@[forward@[m] as int].data.edge_type@
                    == self.edges@[backward@[m] as int].data.edge_type@,
                !same ==> !same_elements(*self, forward@, backward@),
            decreases forward@.len() - k,
        {
            if !(self.edges[forward[k]].data.edge_type == self.edges[backward[k]].data.edge_type) {
                same = false;
            }
            k = k + 1;
        }
        let mut implied = true;
        let mut k: usize = 0;
        while k < forward.len()
            invariant
                forall|m: int| 0 <= m < forward@.len() ==> #[trigger] forward@[m] < self.edges@.len(),
                k <= forward@.len(),
                implied <==> forall|m: int| 0 <= m < k ==> !self.edges@[#[trigger] forward@[m] as int].data.explicit,
            decreases forward@.len() - k,
        {
            if self.edges[forward[k]].data.explicit {
                implied = false;
            }
            k = k + 1;
        }
        let mut k: usize = 0;
        while k < backward.len()
            invariant
                forall|m: int| 0 <= m < forward@.len() ==> #[trigger] forward@[m] < self.edges@.len(),
                forall|m: int| 0 <= m < backward@.len() ==> #[trigger] backward@[m] < self.edges@.len(),
                k <= backward@.len(),
                implied <==> (forall|m: int| 0 <= m < forward@.len() ==> !self.edges@[#[trigger] forward@[m] as int].data.explicit)
                    && forall|m: int| 0 <= m < k ==> !self.edges@[#[trigger] backward@[m] as int].data.explicit,
            decreases backward@.len() - k,
        {
            if self.edges[backward[k]].data.explicit {
                implied = false;
            }
            k = k + 1;
        }
        let arrow_type = if backward.len() == 0 {
            if implied { "-.->" } else { "-->" }
        } else {
            if implied { "-.-" } else { "---" }
        };
        let mut label = String::new();
        self.push_labels(&mut label, forward, attrs);
        if !same && backward.len() > 0 {
            label.append(" | ");
            self.push_labels(&mut label, backward, attrs);
        }
        let mut r = String::new();
        r.append("    ");
        push_decimal(&mut r, source);
        r.append(" ");
        r.append(arrow_type);
        if label.as_str().unicode_len() == 0 {
            r.append(" ");
        } else {
            r.append("|\"");
            r.append(label.as_str());
            r.append("\"| ");
        }
        push_decimal(&mut r, target);
        r.append("\n");
        proof {
            let av = string_views(attrs@);
            assert(label@ == edge_label(*self, forward@, backward@, av));
            assert(arrow_type@ == arrow(backward@.len() == 0, all_implied(*self, forward@, backward@)));
        }
        r
    }
}

/// What the host's labelling function gave for one node, if there is one.
pub open spec fn label_at(labels: Option<Vec<Result<Option<String>, String>>>, k: int) -> Option<Result<Option<String>, String>> {
    match labels {
        Some(v) => Some(v@[k]),
        None => None,
    }
}

/// A node's label: the text the labelling function gave, else its path.
pub open spec fn label_text(g: NoteGraph, n: usize, l: Option<Result<Option<String>, String>>) -> Seq<char> {
    match l {
        Some(Ok(Some(t))) => t@,
        _ => g.nodes@[n as int].path@,
    }
}

pub open spec fn node_line(n: usize, label: Seq<char>) -> Seq<char> {
    "    "@ + decimal(n as nat) + "(\""@ + label + "\")\n"@
}

pub open spec fn node_lines(g: NoteGraph, nodes: Seq<usize>, labels: Option<Vec<Result<Option<String>, String>>>) -> Seq<char>
    decreases nodes.len(),
{
    if nodes.len() == 0 {
        Seq::empty()
    } else {
        let k = nodes.len() - 1;
        node_lines(g, nodes.drop_last(), labels) + node_line(nodes[k], label_text(g, nodes[k], label_at(labels, k)))
    }
}

/// The traversed nodes whose notes do not exist, in traversal order.
pub open spec fn unresolved(g: NoteGraph, nodes: Seq<usize>) -> Seq<usize>
    decreases nodes.len(),
{
    if nodes.len() == 0 {
        Seq::empty()
    } else {
        let prev = unresolved(g, nodes.drop_last());
        if g.nodes@[nodes.last() as int].resolved {
            prev
        } else {
            prev.push(nodes.last())
        }
    }
}

pub open spec fn class_line(ns: Seq<usize>, tag: Seq<char>) -> Seq<char> {
    "class "@ + join(ns.map_values(|n: usize| decimal(n as nat)), ","@) + " "@ + tag + "\n"@
}

pub open spec fn active_line(g: NoteGraph, active: Option<String>) -> Seq<char> {
    match active {
        Some(p) => match g.find_path(p@) {
            Some(i) => class_line(seq![i as usize], "BC-active-node"@),
            None => Seq::empty(),
        },
        None => Seq::empty(),
    }
}

/// The whole diagram for traversed `nodes` and accumulated `entries`.
pub open spec fn diagram_text(
    g: NoteGraph,
    nodes: Seq<usize>,
    labels: Option<Vec<Result<Option<String>, String>>>,
    entries: Seq<EntryView>,
    o: MermaidGraphOptions,
) -> Seq<char> {
    o.init_line@ + "\n"@ + o.chart_type@ + " "@ + o.direction@ + "\n"@
        + node_lines(g, nodes, labels)
        + connection_lines(g, entries, o.collapse_opposing_edges, string_views(o.edge_label_attributes@))
        + active_line(g, o.active_node)
        + (if o.link_nodes && nodes.len() > 0 { class_line(nodes, "internal-link"@) } else { Seq::empty() })
        + (if unresolved(g, nodes).len() > 0 {
            class_line(unresolved(g, nodes), "is-unresolved"@)
        } else {
            Seq::empty()
        })
}

/// Records of the given edges, captured at the graph's current revision.
pub open spec fn records_of(g: NoteGraph, edges: Seq<usize>) -> Seq<EdgeStruct> {
    edges.map_values(|i: usize| EdgeStruct {
        source_index: g.edges@[i as int].source,
        target_index: g.edges@[i as int].target,
        edge_index: i,
        revision: g.revision,
    })
}

/// `sorted` is `recs` put in the order the optional sorter asks for.
pub open spec fn sorted_as(sorter: Option<EdgeSorter>, g: NoteGraph, recs: Seq<EdgeStruct>, sorted: Seq<EdgeStruct>) -> bool {
    match sorter {
        Some(s) => s.is_stable_sort(g, recs, sorted),
        None => sorted == recs,
    }
}

/// The labelling function failed on some node.
pub open spec fn label_failed(labels: Option<Vec<Result<Option<String>, String>>>) -> bool {
    match labels {
        Some(v) => exists|k: int| 0 <= k < v@.len() && v@[k] is Err,
        None => false,
    }
}

/// Node `k` is the first on which the labelling function failed, with message `m`.
pub open spec fn first_label_error(labels: Option<Vec<Result<Option<String>, String>>>, k: int, m: Seq<char>) -> bool {
    match labels {
        Some(v) => {
            &&& 0 <= k < v@.len()
            &&& forall|j: int| 0 <= j < k ==> #[trigger] v@[j] is Ok
            &&& match v@[k] {
                Err(m2) => m2@ == m,
                Ok(_) => false,
            }
        },
        None => false,
    }
}

/// The error carries the message of the first node the labelling function failed on.
pub open spec fn label_error_explained(labels: Option<Vec<Result<Option<String>, String>>>, e: NoteGraphError) -> bool {
    match e {
        NoteGraphError::LabelFunction(m) => exists|k: int| #[trigger] first_label_error(labels, k, m@),
        _ => false,
    }
}

fn push_class_line(out: &mut String, ns: &Vec<usize>, tag: &str)
    ensures
        final(out)@ == old(out)@ + class_line(ns@, tag@),
{
    let ghost start = out@;
    let ghost ds = ns@.map_values(|n: usize| decimal(n as nat));
    out.append("class ");
    let mut k: usize = 0;
    proof {
        assert(ns@.take(0).map_values(|n: usize| decimal(n as nat)) =~= Seq::<Seq<char>>::empty());
    }
    while k < ns.len()
        invariant
            k <= ns@.len(),
            out@ == start + "class "@ + join(ns@.take(k as int).map_values(|n: usize| decimal(n as nat)), ","@),
        decreases ns@.len() - k,
    {
        proof {
            assert(ns@.take(k + 1).map_values(|n: usize| decimal(n as nat)) =~= ns@.take(k as int).map_values(
                |n: usize| decimal(n as nat)).push(decimal(ns@[k as int] as nat)));
            lemma_join_push(ns@.take(k as int).map_values(|n: usize| decimal(n as nat)), ","@, decimal(ns@[k as int] as nat));
        }
        if k > 0 {
            out.append(",");
        }
        push_decimal(out, ns[k]);
        k = k + 1;
    }
    proof {
        assert(ns@.take(ns@.len() as int) =~= ns@);
    }
    out.append(" ");
    out.append(tag);
    out.append("\n");
}

impl NoteGraph {
    fn push_entry_lines(&self, out: &mut String, entry: &AccumulatedEdge, collapse: bool, attrs: &Vec<String>)
        requires
            entry_bounded(entry.view(), self.edges@.len() as int),
        ensures
            final(out)@ == old(out)@ + entry_lines(*self, entry.view(), collapse, string_views(attrs@)),
    {
        assert forall|k: int| 0 <= k < entry.forward@.len() implies #[trigger] entry.forward@[k] < self.edges@.len() by {
            assert(entry.view().2[k] < self.edges@.len());
        }
        assert forall|k: int| 0 <= k < entry.backward@.len() implies #[trigger] entry.backward@[k] < self.edges@.len() by {
            assert(entry.view().3[k] < self.edges@.len());
        }
        if collapse || entry.backward.len() == 0 {
            let line = self.generate_mermaid_edge(entry.from, entry.to, &entry.forward, &entry.backward, attrs);
            out.append(line.as_str());
        } else {
            let empty: Vec<usize> = Vec::new();
            let line = self.generate_mermaid_edge(entry.from, entry.to, &entry.forward, &empty, attrs);
            out.append(line.as_str());
            let line = self.generate_mermaid_edge(entry.to, entry.from, &entry.backward, &empty, attrs);
            out.append(line.as_str());
            assert(empty@ =~= Seq::<usize>::empty());
        }
    }

    /// Renders traversed `nodes` and `edges` (indices into this graph, in
    /// traversal order) as flowchart markup. `node_labels`, when given, holds
    /// what the host's labelling function returned for each node.
    pub fn generate_mermaid_graph(
        &self,
        nodes: &Vec<usize>,
        edges: &Vec<usize>,
        diagram_options: &MermaidGraphOptions,
        node_labels: &Option<Vec<Result<Option<String>, String>>>,
    ) -> (r: Result<String, NoteGraphError>)
        requires
            self.wf(),
            forall|k: int| 0 <= k < nodes@.len() ==> #[trigger] nodes@[k] < self.nodes@.len(),
            forall|k: int| 0 <= k < edges@.len() ==> #[trigger] edges@[k] < self.edges@.len(),
            node_labels matches Some(v) ==> v@.len() == nodes@.len(),
        ensures
            r is Err <==> label_failed(*node_labels),
            r matches Err(e) ==> label_error_explained(*node_labels, e),
            r matches Ok(text) ==> exists|sorted: Seq<EdgeStruct>|
                sorted_as(diagram_options.edge_sorter, *self, records_of(*self, edges@), sorted) && text@
                    == diagram_text(
                    *self,
                    nodes@,
                    *node_labels,
                    accumulate(sorted, diagram_options.collapse_opposing_edges),
                    *diagram_options,
                ),
    {
        let mut records: Vec<EdgeStruct> = Vec::new();
        let mut k: usize = 0;
        while k < edges.len()
            invariant
                k <= edges@.len(),
                forall|m: int| 0 <= m < edges@.len() ==> #[trigger] edges@[m] < self.edges@.len(),
                records@ == records_of(*self, edges@.take(k as int)),
            decreases edges@.len() - k,
        {
            records.push(self.edge_struct(edges[k]));
            proof {
                assert(records_of(*self, edges@.take(k + 1)) =~= records_of(*self, edges@.take(k as int)).push(
                    records@.last()));
            }
            k = k + 1;
        }
        proof {
            assert(edges@.take(edges@.len() as int) =~= edges@);
        }
        let ghost recs = records@;
        assert(self.records_ok(recs));
        if let Some(edge_sorter) = &diagram_options.edge_sorter {
            edge_sorter.sort_edges(self, &mut records);
        }
        let ghost sorted = records@;
        proof {
            match &diagram_options.edge_sorter {
                Some(s) => {
                    let p = choose|p: Seq<usize>| #[trigger] s.is_stable_order(*self, recs, p) && sorted.len() == p.len()
                        && forall|k: int| 0 <= k < sorted.len() ==> sorted[k] == recs[p[k] as int];
                    assert forall|k: int| 0 <= k < sorted.len() implies self.record_ok(#[trigger] sorted[k]) by {
                        assert(p[k] < recs.len());
                    }
                },
                None => {},
            }
            assert(sorted_as(diagram_options.edge_sorter, *self, records_of(*self, edges@), sorted));
            assert forall|k: int| 0 <= k < sorted.len() implies #[trigger] sorted[k].edge_index < self.edges@.len() by {
                assert(self.record_ok(sorted[k]));
            }
            lemma_accumulate_bounded(sorted, diagram_options.collapse_opposing_edges, self.edges@.len() as int);
        }
        let collapse = diagram_options.collapse_opposing_edges;
        let accumulated = match NoteGraph::int_accumulate_edges(self, records, collapse) {
            Ok(m) => m,
            Err(e) => return Err(e),
        };
        let ghost entries = accumulated.view();

        let mut result = String::new();
        result.append(diagram_options.init_line.as_str());
        result.append("\n");
        result.append(diagram_options.chart_type.as_str());
        result.append(" ");
        result.append(diagram_options.direction.as_str());
        result.append("\n");
        let ghost header = result@;

        let mut unresolved_nodes: Vec<usize> = Vec::new();
        let mut k: usize = 0;
        while k < nodes.len()
            invariant
                self.wf(),
                k <= nodes@.len(),
                forall|m: int| 0 <= m < nodes@.len() ==> #[trigger] nodes@[m] < self.nodes@.len(),
                node_labels matches Some(v) ==> v@.len() == nodes@.len(),
                node_labels matches Some(v) ==> forall|j: int| 0 <= j < k ==> #[trigger] v@[j] is Ok,
                result@ == header + node_lines(*self, nodes@.take(k as int), *node_labels),
                unresolved_nodes@ == unresolved(*self, nodes@.take(k as int)),
            decreases nodes@.len() - k,
        {
            let n = nodes[k];
            let path = self.nodes[n].path.as_str();
            let label: &str = match node_labels {
                Some(v) => match &v[k] {
                    Ok(Some(t)) => t.as_str(),
                    Ok(None) => path,
                    Err(m) => {
                        let msg = m.clone();
                        proof {
                            assert(first_label_error(*node_labels, k as int, msg@));
                            let e = NoteGraphError::LabelFunction(msg);
                            assert(e->LabelFunction_0@ == msg@);
                            assert(label_error_explained(*node_labels, e));
                        }
                        return Err(NoteGraphError::LabelFunction(msg));
                    },
                },
                None => path,
            };
            proof {
                let t = nodes@.take(k + 1);
                assert(t.drop_last() =~= nodes@.take(k as int));
                assert(t.last() == n);
                assert(label@ == label_text(*self, n, label_at(*node_labels, k as int)));
            }
            result.append("    ");
            push_decimal(&mut result, n);
            result.append("(\"");
            result.append(label);
            result.append("\")\n");
            if !self.nodes[n].resolved {
                unresolved_nodes.push(n);
            }
            k = k + 1;
        }
        proof {
            assert(nodes@.take(nodes@.len() as int) =~= nodes@);
            if let Some(v) = node_labels {
                assert forall|j: int| 0 <= j < v@.len() implies !(v@[j] is Err) by {
                    assert(v@[j] is Ok);
                }
            }
        }
        let ghost before_edges = result@;
        let attrs = &diagram_options.edge_label_attributes;
        let ghost av = string_views(attrs@);
        let mut i: usize = 0;
        while i < accumulated.entries.len()
            invariant
                entries == accumulated.view(),
                entries == accumulate(sorted, collapse),
                av == string_views(attrs@),
                forall|j: int| 0 <= j < entries.len() ==> entry_bounded(#[trigger] entries[j], self.edges@.len() as int),
                i <= entries.len(),
                result@ == before_edges + connection_lines(*self, entries.take(i as int), collapse, av),
            decreases entries.len() - i,
        {
            let entry = &accumulated.entries[i];
            proof {
                assert(entries[i as int] == entry.view());
                assert(entries.take(i + 1).drop_last() =~= entries.take(i as int));
            }
            self.push_entry_lines(&mut result, entry, collapse, attrs);
            i = i + 1;
        }
        proof {
            assert(entries.take(entries.len() as int) =~= entries);
        }
        if let Some(active) = &diagram_options.active_node {
            if let Some(index) = self.int_get_node_index(active) {
                proof {
                    self.lemma_find_path(active@, index as int);
                }
                let mut one: Vec<usize> = Vec::new();
                one.push(index);
                proof {
                    assert(one@ =~= seq![index]);
                }
                push_class_line(&mut result, &one, "BC-active-node");
            }
        }
        if diagram_options.link_nodes && nodes.len() > 0 {
            push_class_line(&mut result, nodes, "internal-link");
        }
        if unresolved_nodes.len() > 0 {
            push_class_line(&mut result, &unresolved_nodes, "is-unresolved");
        }
        Ok(result)
    }
}

} // verus!
