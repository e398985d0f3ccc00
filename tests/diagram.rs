use breadcrumbs_graph::accumulate::AccumulatedEdgeHashMap;
use breadcrumbs_graph::construction::GCNodeData;
use breadcrumbs_graph::edge_sorting::{EdgeSorter, SortField};
use breadcrumbs_graph::graph::{EdgeData, EdgeStruct, NoteGraph, NoteGraphError};
use breadcrumbs_graph::mermaid::{MermaidGraphData, MermaidGraphOptions};

fn node(g: &mut NoteGraph, path: &str, resolved: bool) -> usize {
    g.add_node(GCNodeData::new(path.to_string(), vec![], resolved, false, false))
}

fn edge(g: &mut NoteGraph, s: usize, t: usize, ty: &str, explicit: bool) -> usize {
    g.add_edge(s, t, EdgeData::new(ty.to_string(), "typed-link".to_string(), explicit, 0))
}

fn accumulate(g: &NoteGraph, ids: &[usize], collapse: bool) -> AccumulatedEdgeHashMap {
    let recs: Vec<EdgeStruct> = ids.iter().map(|i| g.edge_struct(*i)).collect();
    match NoteGraph::int_accumulate_edges(g, recs, collapse) {
        Ok(m) => m,
        Err(_) => panic!("records are current"),
    }
}

fn pairs(m: &AccumulatedEdgeHashMap) -> Vec<(usize, usize, Vec<usize>, Vec<usize>)> {
    m.entries.iter().map(|e| (e.from, e.to, e.forward.clone(), e.backward.clone())).collect()
}

fn render(g: &NoteGraph, nodes: &Vec<usize>, edges: &Vec<usize>, o: &MermaidGraphOptions) -> String {
    match g.generate_mermaid_graph(nodes, edges, o, &None) {
        Ok(s) => s,
        Err(_) => panic!("no labelling function, so no failure"),
    }
}

const HEADER: &str = "%%{ init: { \"flowchart\": {} } }%%\ngraph LR\n";

#[test]
fn accumulation_keeps_first_seen_order() {
    let mut g = NoteGraph::new();
    let a = node(&mut g, "a", true);
    let b = node(&mut g, "b", true);
    let c = node(&mut g, "c", true);
    let e0 = edge(&mut g, b, c, "down", true);
    let e1 = edge(&mut g, a, b, "down", true);
    let e2 = edge(&mut g, b, c, "next", true);
    let m = accumulate(&g, &[e0, e1, e2], true);
    assert_eq!(pairs(&m), vec![(b, c, vec![e0, e2], vec![]), (a, b, vec![e1], vec![])]);
}

#[test]
fn collapsing_merges_opposing_edges() {
    let mut g = NoteGraph::new();
    let a = node(&mut g, "a", true);
    let b = node(&mut g, "b", true);
    let ab = edge(&mut g, a, b, "down", true);
    let ba = edge(&mut g, b, a, "up", true);
    let m = accumulate(&g, &[ab, ba], true);
    assert_eq!(pairs(&m), vec![(a, b, vec![ab], vec![ba])]);
}

#[test]
fn without_collapsing_opposing_edges_stay_apart() {
    let mut g = NoteGraph::new();
    let a = node(&mut g, "a", true);
    let b = node(&mut g, "b", true);
    let ab = edge(&mut g, a, b, "down", true);
    let ba = edge(&mut g, b, a, "up", true);
    let m = accumulate(&g, &[ab, ba], false);
    assert_eq!(pairs(&m), vec![(a, b, vec![ab], vec![]), (b, a, vec![ba], vec![])]);
}

#[test]
fn stale_records_fail_whole_accumulation() {
    let mut g = NoteGraph::new();
    let a = node(&mut g, "a", true);
    let b = node(&mut g, "b", true);
    let ab = edge(&mut g, a, b, "down", true);
    let recs = vec![g.edge_struct(ab)];
    node(&mut g, "c", true);
    let r = NoteGraph::int_accumulate_edges(&g, recs.clone(), true);
    assert!(matches!(r, Err(NoteGraphError::StaleEdgeRecord)));
    assert!(g.check_revision(&recs[0]).is_err());
}

fn tree() -> (NoteGraph, Vec<usize>, Vec<usize>) {
    let mut g = NoteGraph::new();
    let mut nodes = vec![];
    let mut edges = vec![];
    let root = node(&mut g, "root", true);
    nodes.push(root);
    for i in 0..2 {
        let child = node(&mut g, &format!("root{}", i), true);
        nodes.push(child);
        edges.push(edge(&mut g, root, child, "down", true));
        for j in 0..2 {
            let leaf = node(&mut g, &format!("root{}{}", i, j), true);
            nodes.push(leaf);
            edges.push(edge(&mut g, child, leaf, "down", true));
        }
    }
    (g, nodes, edges)
}

#[test]
fn end_to_end_tree() {
    let (g, nodes, edges) = tree();
    let out = render(&g, &nodes, &edges, &MermaidGraphOptions::default());
    let expected = format!(
        "{}    0(\"root\")\n    1(\"root0\")\n    2(\"root00\")\n    3(\"root01\")\n    4(\"root1\")\n    5(\"root10\")\n    6(\"root11\")\n    0 --> 1\n    1 --> 2\n    1 --> 3\n    0 --> 4\n    4 --> 5\n    4 --> 6\n",
        HEADER
    );
    assert_eq!(out, expected);
    let lines: Vec<&str> = out.lines().collect();
    assert_eq!(lines.iter().filter(|l| l.contains("(\"")).count(), 7);
    assert_eq!(lines.iter().filter(|l| l.contains(" --> ")).count(), 6);
}

#[test]
fn labels_arrows_and_tags() {
    let mut g = NoteGraph::new();
    let a = node(&mut g, "a", true);
    let b = node(&mut g, "b", false);
    let ab = edge(&mut g, a, b, "down", false);
    let ba = edge(&mut g, b, a, "up", false);
    let mut o = MermaidGraphOptions::default();
    o.edge_label_attributes = vec!["field".to_string(), "explicit".to_string(), "nonsense".to_string()];
    o.active_node = Some("b".to_string());
    o.link_nodes = true;
    let out = render(&g, &vec![a, b], &vec![ab, ba], &o);
    let expected = format!(
        "{}    0(\"a\")\n    1(\"b\")\n    0 -.-|\"field=down explicit=false | field=up explicit=false\"| 1\nclass 1 BC-active-node\nclass 0,1 internal-link\nclass 1 is-unresolved\n",
        HEADER
    );
    assert_eq!(out, expected);
}

#[test]
fn uncollapsed_pairs_render_two_lines() {
    let mut g = NoteGraph::new();
    let a = node(&mut g, "a", true);
    let b = node(&mut g, "b", true);
    let ab = edge(&mut g, a, b, "down", true);
    let ba = edge(&mut g, b, a, "up", false);
    let mut o = MermaidGraphOptions::default();
    o.collapse_opposing_edges = false;
    o.edge_label_attributes = vec!["field".to_string()];
    let out = render(&g, &vec![a, b], &vec![ab, ba], &o);
    let expected = format!(
        "{}    0(\"a\")\n    1(\"b\")\n    0 -->|\"field=down\"| 1\n    1 -.->|\"field=up\"| 0\n",
        HEADER
    );
    assert_eq!(out, expected);
}

#[test]
fn same_types_both_ways_show_one_label() {
    let mut g = NoteGraph::new();
    let a = node(&mut g, "a", true);
    let b = node(&mut g, "b", true);
    let ab = edge(&mut g, a, b, "sibling", true);
    let ba = edge(&mut g, b, a, "sibling", false);
    let mut o = MermaidGraphOptions::default();
    o.edge_label_attributes = vec!["field".to_string()];
    let out = render(&g, &vec![a, b], &vec![ab, ba], &o);
    assert!(out.ends_with("    0 ---|\"field=sibling\"| 1\n"));
}

#[test]
fn sorter_orders_labels_before_accumulation() {
    let mut g = NoteGraph::new();
    let a = node(&mut g, "a", true);
    let b = node(&mut g, "b", true);
    let e1 = edge(&mut g, a, b, "zeta", true);
    let e2 = edge(&mut g, a, b, "alpha", true);
    let mut o = MermaidGraphOptions::default();
    o.edge_label_attributes = vec!["field".to_string()];
    o.edge_sorter = Some(EdgeSorter::new(SortField::EdgeType, false));
    let out = render(&g, &vec![a, b], &vec![e1, e2], &o);
    assert!(out.ends_with("    0 -->|\"field=alpha, field=zeta\"| 1\n"));
}

#[test]
fn labelling_results_are_used() {
    let (g, nodes, edges) = tree();
    let mut labels: Vec<Result<Option<String>, String>> = nodes.iter().map(|_| Ok(None)).collect();
    labels[0] = Ok(Some("Root note".to_string()));
    let out = g.generate_mermaid_graph(&nodes, &edges, &MermaidGraphOptions::default(), &Some(labels)).unwrap();
    assert!(out.contains("    0(\"Root note\")\n    1(\"root0\")\n"));
}

#[test]
fn labelling_failure_aborts() {
    let (g, nodes, edges) = tree();
    let mut labels: Vec<Result<Option<String>, String>> = nodes.iter().map(|_| Ok(None)).collect();
    labels[2] = Err("boom".to_string());
    labels[4] = Err("later".to_string());
    match g.generate_mermaid_graph(&nodes, &edges, &MermaidGraphOptions::default(), &Some(labels)) {
        Err(NoteGraphError::LabelFunction(m)) => assert_eq!(m, "boom"),
        _ => panic!("expected the labelling failure"),
    }
}

#[test]
fn round_and_source_attributes() {
    let mut g = NoteGraph::new();
    let a = node(&mut g, "a", true);
    let mut ids = vec![];
    for k in 0..12 {
        let t = node(&mut g, &format!("t{}", k), true);
        ids.push(t);
    }
    let e = g.add_edge(a, ids[11], EdgeData::new("down".to_string(), "dataview".to_string(), true, 137));
    let attrs = vec!["round".to_string(), "source".to_string()];
    assert_eq!(g.edges[e].data.attribute_label(&attrs), "round=137 source=dataview");
    let mut o = MermaidGraphOptions::default();
    o.edge_label_attributes = attrs;
    let out = render(&g, &vec![a, ids[11]], &vec![e], &o);
    assert!(out.ends_with("    0 -->|\"round=137 source=dataview\"| 12\n"));
}

#[test]
fn empty_traversal() {
    let g = NoteGraph::new();
    let mut o = MermaidGraphOptions::default();
    o.link_nodes = true;
    o.active_node = Some("missing".to_string());
    assert_eq!(render(&g, &vec![], &vec![], &o), HEADER);
}

#[test]
fn graph_data_holds_times() {
    let d = MermaidGraphData::new("graph LR\n".to_string(), 3, 5);
    assert_eq!(d.mermaid, "graph LR\n");
    assert!(d.traversal_time <= d.total_time);
}
