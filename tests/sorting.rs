use breadcrumbs_graph::construction::{GCEdgeData, GCNodeData};
use breadcrumbs_graph::edge_sorting::{
    create_edge_sorter, sort_edges, sort_traversal_data, BasenameComparer, EdgeComparer, EdgeSorter, ImpliedComparer,
    NeighbourComparer, PathComparer, SortField,
};
use std::cmp::Ordering;
use breadcrumbs_graph::graph::{EdgeData, EdgeStruct, NoteGraph, NoteGraphError, RecTraversalData};

fn node(g: &mut NoteGraph, path: &str) -> usize {
    g.add_node(GCNodeData::new(path.to_string(), vec![], true, false, false))
}

fn edge(g: &mut NoteGraph, s: usize, t: usize, ty: &str, explicit: bool) -> usize {
    g.add_edge(s, t, EdgeData::new(ty.to_string(), "typed-link".to_string(), explicit, 0))
}

fn targets(g: &NoteGraph, es: &[EdgeStruct]) -> Vec<String> {
    es.iter().map(|e| g.nodes[e.target_index].path.clone()).collect()
}

fn records(g: &NoteGraph, ids: &[usize]) -> Vec<EdgeStruct> {
    ids.iter().map(|i| g.edge_struct(*i)).collect()
}

#[test]
fn parse_known_fields() {
    assert!(matches!(SortField::from_str("path"), Ok(SortField::Path)));
    assert!(matches!(SortField::from_str("basename"), Ok(SortField::Basename)));
    assert!(matches!(SortField::from_str("field"), Ok(SortField::EdgeType)));
    assert!(matches!(SortField::from_str("explicit"), Ok(SortField::Implied)));
    match SortField::from_str("neighbour-field:up") {
        Ok(SortField::Neighbour(n)) => assert_eq!(n, "up"),
        _ => panic!("expected a neighbour field"),
    }
}

#[test]
fn parse_unknown_field_fails() {
    assert!(matches!(SortField::from_str("bogus"), Err(NoteGraphError::InvalidSortField)));
    assert!(matches!(SortField::from_str(""), Err(NoteGraphError::InvalidSortField)));
    assert!(matches!(SortField::from_str("Path"), Err(NoteGraphError::InvalidSortField)));
    assert!(matches!(SortField::from_str("neighbour-field:"), Err(NoteGraphError::InvalidSortField)));
    assert!(matches!(create_edge_sorter("bogus".to_string(), false), Err(NoteGraphError::InvalidSortField)));
}

#[test]
fn create_sorter_keeps_direction() {
    let s = create_edge_sorter("field".to_string(), true).unwrap();
    assert!(matches!(s.field, SortField::EdgeType));
    assert!(s.reverse);
}

fn star() -> (NoteGraph, Vec<usize>) {
    let mut g = NoteGraph::new();
    let root = node(&mut g, "root");
    let c = node(&mut g, "dir/c");
    let a = node(&mut g, "z/a");
    let b = node(&mut g, "b");
    let e1 = edge(&mut g, root, c, "down", true);
    let e2 = edge(&mut g, root, a, "down", false);
    let e3 = edge(&mut g, root, b, "same", true);
    (g, vec![e1, e2, e3])
}

#[test]
fn sort_by_path_ascending_and_reversed() {
    let (g, ids) = star();
    let sorter = EdgeSorter::new(SortField::Path, false);
    let sorted = sort_edges(&g, records(&g, &ids), &sorter);
    assert_eq!(targets(&g, &sorted), vec!["b", "dir/c", "z/a"]);
    let rev = sort_edges(&g, records(&g, &ids), &EdgeSorter::new(SortField::Path, true));
    let mut expected = targets(&g, &sorted);
    expected.reverse();
    assert_eq!(targets(&g, &rev), expected);
}

#[test]
fn sort_by_basename() {
    let (g, ids) = star();
    let sorted = sort_edges(&g, records(&g, &ids), &EdgeSorter::new(SortField::Basename, false));
    assert_eq!(targets(&g, &sorted), vec!["z/a", "b", "dir/c"]);
}

#[test]
fn sort_by_edge_type_is_stable() {
    let (g, ids) = star();
    let sorted = sort_edges(&g, records(&g, &ids), &EdgeSorter::new(SortField::EdgeType, false));
    assert_eq!(targets(&g, &sorted), vec!["dir/c", "z/a", "b"]);
    let rev = sort_edges(&g, records(&g, &ids), &EdgeSorter::new(SortField::EdgeType, true));
    // equal keys keep their input order in both directions
    assert_eq!(targets(&g, &rev), vec!["b", "dir/c", "z/a"]);
}

#[test]
fn sort_explicit_before_implied() {
    let mut g = NoteGraph::new();
    let root = node(&mut g, "root");
    let d = node(&mut g, "d");
    let a = node(&mut g, "a");
    let c = node(&mut g, "c");
    let b = node(&mut g, "b");
    let ids = vec![
        edge(&mut g, root, d, "down", true),
        edge(&mut g, root, a, "down", false),
        edge(&mut g, root, c, "down", false),
        edge(&mut g, root, b, "down", true),
    ];
    let sorted = sort_edges(&g, records(&g, &ids), &EdgeSorter::new(SortField::Implied, false));
    assert_eq!(targets(&g, &sorted), vec!["b", "d", "a", "c"]);
}

#[test]
fn sort_by_neighbour_field() {
    let mut g = NoteGraph::new();
    let root = node(&mut g, "root");
    let x = node(&mut g, "x");
    let y = node(&mut g, "y");
    let z = node(&mut g, "z");
    let p = node(&mut g, "p");
    let q = node(&mut g, "q");
    let ids = vec![edge(&mut g, root, z, "down", true), edge(&mut g, root, y, "down", true), edge(&mut g, root, x, "down", true)];
    edge(&mut g, x, q, "next", true);
    edge(&mut g, y, p, "next", true);
    edge(&mut g, y, q, "other", true);
    let sorted = sort_edges(&g, records(&g, &ids), &EdgeSorter::new(SortField::Neighbour("next".to_string()), false));
    // y -> p, x -> q, then z without a neighbour
    assert_eq!(targets(&g, &sorted), vec!["y", "x", "z"]);
}

#[test]
fn sort_traversal_steps_keeps_depth() {
    let (g, ids) = star();
    let data: Vec<RecTraversalData> = ids.iter().enumerate().map(|(k, i)| RecTraversalData { edge: g.edge_struct(*i), depth: k as u32 }).collect();
    let sorted = sort_traversal_data(&g, data, &EdgeSorter::new(SortField::Path, false));
    let depths: Vec<u32> = sorted.iter().map(|d| d.depth).collect();
    assert_eq!(depths, vec![2, 0, 1]);
}

#[test]
fn method_sort_in_place() {
    let (g, ids) = star();
    let mut es = records(&g, &ids);
    EdgeSorter::new(SortField::Path, false).sort_edges(&g, &mut es);
    assert_eq!(targets(&g, &es), vec!["b", "dir/c", "z/a"]);
}

#[test]
fn construction_data() {
    let n = GCNodeData::new_unresolved("ghost".to_string());
    assert!(!n.resolved);
    assert!(n.aliases.is_empty());
    let e = GCEdgeData::new("a".to_string(), "b".to_string(), "up".to_string(), "dataview".to_string());
    let d = e.to_edge_data();
    assert_eq!(d.edge_type, "up");
    assert_eq!(d.edge_source, "dataview");
    assert!(d.explicit);
    assert_eq!(d.round, 0);
}

#[test]
fn add_node_twice_keeps_one() {
    let mut g = NoteGraph::new();
    let a = node(&mut g, "a");
    let r = g.revision;
    let again = node(&mut g, "a");
    assert_eq!(a, again);
    assert_eq!(g.nodes.len(), 1);
    assert_eq!(g.revision, r);
    assert_eq!(g.int_get_node_index(&"a".to_string()), Some(a));
    assert_eq!(g.int_get_node_index(&"b".to_string()), None);
}

#[test]
fn comparers_directly() {
    let mut g = NoteGraph::new();
    let root = node(&mut g, "root");
    let x = node(&mut g, "a/x");
    let y = node(&mut g, "y");
    let p = node(&mut g, "p");
    let ex = edge(&mut g, root, x, "down", false);
    let ey = edge(&mut g, root, y, "down", true);
    edge(&mut g, y, p, "next", true);
    let (rx, ry) = (g.edge_struct(ex), g.edge_struct(ey));
    assert_eq!(PathComparer.compare(&g, &rx, &ry), Ordering::Less);
    assert_eq!(BasenameComparer.compare(&g, &rx, &ry), Ordering::Less);
    assert_eq!(ImpliedComparer.compare(&g, &rx, &ry), Ordering::Greater);
    let n = NeighbourComparer::new("next".to_string(), &g);
    assert_eq!(n.compare(&g, &rx, &ry), Ordering::Greater);
    assert_eq!(n.compare(&g, &ry, &ry), Ordering::Equal);
}
