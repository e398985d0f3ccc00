//! Comparison strategies over edge records and the stable sorter built on them.

use crate::graph::{EdgeStruct, NoteGraph, NoteGraphError, RecTraversalData};
use crate::text::{basename, basename_of, compare_str, lemma_lex_cmp_antisym, lemma_lex_cmp_trans, lex_cmp};
use std::cmp::Ordering;
use vstd::prelude::*;
use vstd::string::StrSliceExecFns;

verus! {

/// The attribute an edge sorter orders by.
#[derive(Clone, Debug)]
pub enum SortField {
    Path,
    Basename,
    EdgeType,
    Implied,
    Neighbour(String),
}

/// A sort key: a rank, then a string; keys are compared rank first.
pub type SortKey = (int, Seq<char>);

pub open spec fn key_cmp(a: SortKey, b: SortKey) -> Ordering {
    if a.0 < b.0 {
        Ordering::Less
    } else if a.0 > b.0 {
        Ordering::Greater
    } else {
        lex_cmp(a.1, b.1)
    }
}

pub open spec fn flip(o: Ordering) -> Ordering {
    match o {
        Ordering::Less => Ordering::Greater,
        Ordering::Equal => Ordering::Equal,
        Ordering::Greater => Ordering::Less,
    }
}

/// The key an edge record is sorted by under a sort field.
pub open spec fn field_key(field: SortField, g: NoteGraph, e: EdgeStruct) -> SortKey {
    match field {
        SortField::Path => (0, g.target_path(e)),
        SortField::Basename => (0, basename_of(g.target_path(e))),
        SortField::EdgeType => (0, g.edge_of(e).edge_type@),
        SortField::Implied => (if g.edge_of(e).explicit { 0 } else { 1 }, g.target_path(e)),
        SortField::Neighbour(n) => neighbour_key(n@, g, e),
    }
}

/// Present neighbours rank before absent ones; an absent neighbour falls back
/// to the edge's own target path.
pub open spec fn neighbour_key(n: Seq<char>, g: NoteGraph, e: EdgeStruct) -> SortKey {
    match g.first_out_match(e.target_index, n) {
        Some(i) => (0, g.nodes@[g.edges@[i].target as int].path@),
        None => (1, g.target_path(e)),
    }
}

/// Swapping the keys swaps `Less` and `Greater`.
pub proof fn lemma_key_cmp_antisym(a: SortKey, b: SortKey)
    ensures
        (key_cmp(a, b) == Ordering::Less) == (key_cmp(b, a) == Ordering::Greater),
        (key_cmp(a, b) == Ordering::Equal) == (key_cmp(b, a) == Ordering::Equal),
{
    lemma_lex_cmp_antisym(a.1, b.1);
    lemma_lex_cmp_antisym(b.1, a.1);
}

/// The key order is transitive.
pub proof fn lemma_key_cmp_trans(a: SortKey, b: SortKey, c: SortKey)
    requires
        key_cmp(a, b) != Ordering::Greater,
        key_cmp(b, c) != Ordering::Greater,
    ensures
        key_cmp(a, c) != Ordering::Greater,
{
    if a.0 == b.0 && b.0 == c.0 {
        lemma_lex_cmp_trans(a.1, b.1, c.1);
    }
}

/// What the sort-field grammar accepts.
pub open spec fn is_sort_field(s: Seq<char>) -> bool {
    ||| s == "path"@
    ||| s == "basename"@
    ||| s == "field"@
    ||| s == "explicit"@
    ||| (s.len() > "neighbour-field:"@.len() && s.take("neighbour-field:"@.len() as int)
        == "neighbour-field:"@)
}

/// `f` is the field that the specifier `s` denotes.
pub open spec fn denotes(s: Seq<char>, f: SortField) -> bool {
    match f {
        SortField::Path => s == "path"@,
        SortField::Basename => s == "basename"@,
        SortField::EdgeType => s == "field"@,
        SortField::Implied => s == "explicit"@,
        SortField::Neighbour(n) => n@.len() > 0 && s == "neighbour-field:"@ + n@,
    }
}

/// Whether two strings hold the same characters.
pub(crate) fn str_eq(a: &str, b: &str) -> (r: bool)
    ensures
        r == (a@ == b@),
{
    proof {
        lemma_lex_cmp_antisym(a@, b@);
    }
    match compare_str(a, b) {
        Ordering::Equal => true,
        _ => false,
    }
}

impl SortField {
    /// Parses a sort-field specifier.
    pub fn from_str(s: &str) -> (r: Result<SortField, NoteGraphError>)
        ensures
            r is Ok <==> is_sort_field(s@),
            r matches Ok(f) ==> denotes(s@, f),
            r matches Err(e) ==> e is InvalidSortField,
    {
        let prefix = "neighbour-field:";
        proof {
            reveal_strlit("neighbour-field:");
            reveal_strlit("path");
            reveal_strlit("basename");
            reveal_strlit("field");
            reveal_strlit("explicit");
        }
        let plen = prefix.unicode_len();
        let n = s.unicode_len();
        if str_eq(s, "path") {
            Ok(SortField::Path)
        } else if str_eq(s, "basename") {
            Ok(SortField::Basename)
        } else if str_eq(s, "field") {
            Ok(SortField::EdgeType)
        } else if str_eq(s, "explicit") {
            Ok(SortField::Implied)
        } else if n > plen && str_eq(s.substring_char(0, plen), prefix) {
            let name = s.substring_char(plen, n).to_owned();
            assert(s@ =~= prefix@ + name@);
            Ok(SortField::Neighbour(name))
        } else {
            Err(NoteGraphError::InvalidSortField)
        }
    }
}

/// Parses `field` and builds a sorter from it.
pub fn create_edge_sorter(field: String, reverse: bool) -> (r: Result<EdgeSorter, NoteGraphError>)
    ensures
        r is Ok <==> is_sort_field(field@),
        r matches Ok(s) ==> denotes(field@, s.field) && s.reverse == reverse,
        r matches Err(e) ==> e is InvalidSortField,
{
    let sort_field = SortField::from_str(field.as_str())?;
    Ok(EdgeSorter::new(sort_field, reverse))
}

/// A sort field together with a direction.
#[derive(Clone, Debug)]
pub struct EdgeSorter {
    pub field: SortField,
    pub reverse: bool,
}

/// Compares two edge records of a graph.
pub trait EdgeComparer {
    spec fn sort_key(&self, graph: NoteGraph, e: EdgeStruct) -> SortKey;

    /// The comparer may be used on `graph`.
    spec fn valid_for(&self, graph: NoteGraph) -> bool;

    fn compare(&self, graph: &NoteGraph, a: &EdgeStruct, b: &EdgeStruct) -> (r: Ordering)
        requires
            self.valid_for(*graph),
            graph.wf(),
            graph.record_ok(*a),
            graph.record_ok(*b),
        ensures
            r == key_cmp(self.sort_key(*graph, *a), self.sort_key(*graph, *b)),
    ;
}

/// Orders by target path.
pub struct PathComparer;

/// Orders by the last `/`-delimited segment of the target path.
pub struct BasenameComparer;

/// Orders by edge type.
pub struct EdgeTypeComparer;

/// Explicit edges first, then by target path.
pub struct ImpliedComparer;

/// Orders by the path of the target's first outgoing edge of a given type.
pub struct NeighbourComparer<'a> {
    pub neighbour_field: String,
    pub graph: &'a NoteGraph,
}

impl<'a> NeighbourComparer<'a> {
    pub fn new(neighbour_field: String, graph: &'a NoteGraph) -> (r: NeighbourComparer<'a>)
        ensures
            r.neighbour_field@ == neighbour_field@,
            *r.graph == *graph,
    {
        NeighbourComparer { neighbour_field, graph }
    }
}

/// The five comparison strategies as one type.
pub enum Comparer<'a> {
    PathComparer(PathComparer),
    BasenameComparer(BasenameComparer),
    EdgeTypeComparer(EdgeTypeComparer),
    ImpliedComparer(ImpliedComparer),
    NeighbourOrdering(NeighbourComparer<'a>),
}

fn target_path<'a>(graph: &'a NoteGraph, e: &EdgeStruct) -> (r: &'a String)
    requires
        graph.wf(),
        graph.record_ok(*e),
    ensures
        r@ == graph.target_path(*e),
{
    proof {
        assert(graph.edges@[e.edge_index as int].target < graph.nodes@.len());
    }
    &graph.nodes[e.target_index].path
}

fn rank_cmp(ra: u8, sa: &str, rb: u8, sb: &str) -> (r: Ordering)
    ensures
        r == key_cmp((ra as int, sa@), (rb as int, sb@)),
{
    if ra < rb {
        Ordering::Less
    } else if ra > rb {
        Ordering::Greater
    } else {
        compare_str(sa, sb)
    }
}

impl EdgeComparer for PathComparer {
    open spec fn sort_key(&self, graph: NoteGraph, e: EdgeStruct) -> SortKey {
        field_key(SortField::Path, graph, e)
    }

    open spec fn valid_for(&self, graph: NoteGraph) -> bool {
        true
    }

    fn compare(&self, graph: &NoteGraph, a: &EdgeStruct, b: &EdgeStruct) -> (r: Ordering) {
        rank_cmp(0, target_path(graph, a), 0, target_path(graph, b))
    }
}

impl EdgeComparer for BasenameComparer {
    open spec fn sort_key(&self, graph: NoteGraph, e: EdgeStruct) -> SortKey {
        field_key(SortField::Basename, graph, e)
    }

    open spec fn valid_for(&self, graph: NoteGraph) -> bool {
        true
    }

    fn compare(&self, graph: &NoteGraph, a: &EdgeStruct, b: &EdgeStruct) -> (r: Ordering) {
        let a_basename = basename(target_path(graph, a));
        let b_basename = basename(target_path(graph, b));
        rank_cmp(0, a_basename, 0, b_basename)
    }
}

impl EdgeComparer for EdgeTypeComparer {
    open spec fn sort_key(&self, graph: NoteGraph, e: EdgeStruct) -> SortKey {
        field_key(SortField::EdgeType, graph, e)
    }

    open spec fn valid_for(&self, graph: NoteGraph) -> bool {
        true
    }

    fn compare(&self, graph: &NoteGraph, a: &EdgeStruct, b: &EdgeStruct) -> (r: Ordering) {
        rank_cmp(
            0,
            &graph.edges[a.edge_index].data.edge_type,
            0,
            &graph.edges[b.edge_index].data.edge_type,
        )
    }
}

impl EdgeComparer for ImpliedComparer {
    open spec fn sort_key(&self, graph: NoteGraph, e: EdgeStruct) -> SortKey {
        field_key(SortField::Implied, graph, e)
    }

    open spec fn valid_for(&self, graph: NoteGraph) -> bool {
        true
    }

    fn compare(&self, graph: &NoteGraph, a: &EdgeStruct, b: &EdgeStruct) -> (r: Ordering) {
        let ra: u8 = if graph.edges[a.edge_index].data.explicit { 0 } else { 1 };
        let rb: u8 = if graph.edges[b.edge_index].data.explicit { 0 } else { 1 };
        rank_cmp(ra, target_path(graph, a), rb, target_path(graph, b))
    }
}

impl<'g> NeighbourComparer<'g> {
    fn key<'b>(&'b self, graph: &'b NoteGraph, e: &EdgeStruct) -> (r: (u8, &'b String))
        requires
            *self.graph == *graph,
            graph.wf(),
            graph.record_ok(*e),
        ensures
            (r.0 as int, r.1@) == neighbour_key(self.neighbour_field@, *graph, *e),
    {
        let neighbours = self.graph;
        match neighbours.int_first_outgoing_match(e.target_index, &self.neighbour_field) {
            Some(i) => {
                proof {
                    lemma_first_match_in_range(*graph, e.target_index, self.neighbour_field@, 0);
                    assert(graph.edges@[i as int].source < graph.nodes@.len());
                    assert(graph.edges@[i as int].target < graph.nodes@.len());
                }
                (0, &neighbours.nodes[neighbours.edges[i].target].path)
            },
            None => (1, target_path(graph, e)),
        }
    }
}

proof fn lemma_first_match_in_range(g: NoteGraph, node: usize, ty: Seq<char>, i: int)
    ensures
        crate::graph::first_match_from(g.edges@, node, ty, i) matches Some(k) ==> 0 <= k
            < g.edges@.len(),
    decreases g.edges@.len() - i,
{
    if 0 <= i < g.edges@.len() {
        lemma_first_match_in_range(g, node, ty, i + 1);
    }
}

impl<'g> EdgeComparer for NeighbourComparer<'g> {
    open spec fn sort_key(&self, graph: NoteGraph, e: EdgeStruct) -> SortKey {
        neighbour_key(self.neighbour_field@, graph, e)
    }

    open spec fn valid_for(&self, graph: NoteGraph) -> bool {
        *self.graph == graph
    }

    fn compare(&self, graph: &NoteGraph, a: &EdgeStruct, b: &EdgeStruct) -> (r: Ordering) {
        let (ra, sa) = self.key(graph, a);
        let (rb, sb) = self.key(graph, b);
        rank_cmp(ra, sa, rb, sb)
    }
}

impl<'g> EdgeComparer for Comparer<'g> {
    open spec fn sort_key(&self, graph: NoteGraph, e: EdgeStruct) -> SortKey {
        match self {
            Comparer::PathComparer(c) => c.sort_key(graph, e),
            Comparer::BasenameComparer(c) => c.sort_key(graph, e),
            Comparer::EdgeTypeComparer(c) => c.sort_key(graph, e),
            Comparer::ImpliedComparer(c) => c.sort_key(graph, e),
            Comparer::NeighbourOrdering(c) => c.sort_key(graph, e),
        }
    }

    open spec fn valid_for(&self, graph: NoteGraph) -> bool {
        match self {
            Comparer::NeighbourOrdering(c) => c.valid_for(graph),
            _ => true,
        }
    }

    fn compare(&self, graph: &NoteGraph, a: &EdgeStruct, b: &EdgeStruct) -> (r: Ordering) {
        match self {
            Comparer::PathComparer(c) => c.compare(graph, a, b),
            Comparer::BasenameComparer(c) => c.compare(graph, a, b),
            Comparer::EdgeTypeComparer(c) => c.compare(graph, a, b),
            Comparer::ImpliedComparer(c) => c.compare(graph, a, b),
            Comparer::NeighbourOrdering(c) => c.compare(graph, a, b),
        }
    }
}

impl EdgeSorter {
    pub fn new(field: SortField, reverse: bool) -> (r: EdgeSorter)
        ensures
            r.field == field,
            r.reverse == reverse,
    {
        EdgeSorter { field, reverse }
    }

    /// The order this sorter puts two edge records in.
    pub open spec fn ord(&self, g: NoteGraph, a: EdgeStruct, b: EdgeStruct) -> Ordering {
        let o = key_cmp(field_key(self.field, g, a), field_key(self.field, g, b));
        if self.reverse {
            flip(o)
        } else {
            o
        }
    }

    /// `p` lists the positions of `s` in an order that this sorter sorts stably:
    /// a permutation, non-decreasing, and with equal records in input order.
    pub open spec fn is_stable_order(&self, g: NoteGraph, s: Seq<EdgeStruct>, p: Seq<usize>) -> bool {
        &&& p.len() == s.len()
        &&& forall|k: int| 0 <= k < p.len() ==> #[trigger] p[k] < s.len()
        &&& forall|k1: int, k2: int| 0 <= k1 < k2 < p.len() ==> p[k1] != p[k2]
        &&& forall|v: int| 0 <= v < s.len() ==> #[trigger] occurs(p, v)
        &&& forall|k1: int, k2: int|
            0 <= k1 < k2 < p.len() ==> self.ord(g, s[p[k1] as int], s[p[k2] as int])
                != Ordering::Greater
        &&& forall|k1: int, k2: int|
            0 <= k1 < k2 < p.len() && self.ord(g, s[p[k1] as int], s[p[k2] as int]) == Ordering::Equal
                ==> p[k1] < p[k2]
    }

    /// `r` is `s` sorted stably by this sorter.
    pub open spec fn is_stable_sort(&self, g: NoteGraph, s: Seq<EdgeStruct>, r: Seq<EdgeStruct>) -> bool {
        exists|p: Seq<usize>|
            #[trigger] self.is_stable_order(g, s, p) && r.len() == p.len() && forall|k: int|
                0 <= k < r.len() ==> r[k] == s[p[k] as int]
    }

    pub proof fn lemma_ord_antisym(&self, g: NoteGraph, a: EdgeStruct, b: EdgeStruct)
        ensures
            (self.ord(g, a, b) == Ordering::Less) == (self.ord(g, b, a) == Ordering::Greater),
            (self.ord(g, a, b) == Ordering::Equal) == (self.ord(g, b, a) == Ordering::Equal),
    {
        lemma_key_cmp_antisym(field_key(self.field, g, a), field_key(self.field, g, b));
    }

    pub proof fn lemma_ord_trans(&self, g: NoteGraph, a: EdgeStruct, b: EdgeStruct, c: EdgeStruct)
        requires
            self.ord(g, a, b) != Ordering::Greater,
            self.ord(g, b, c) != Ordering::Greater,
        ensures
            self.ord(g, a, c) != Ordering::Greater,
    {
        let (ka, kb, kc) = (field_key(self.field, g, a), field_key(self.field, g, b), field_key(self.field, g, c));
        if self.reverse {
            lemma_key_cmp_antisym(ka, kb);
            lemma_key_cmp_antisym(kb, kc);
            lemma_key_cmp_antisym(ka, kc);
            lemma_key_cmp_trans(kc, kb, ka);
        } else {
            lemma_key_cmp_trans(ka, kb, kc);
        }
    }

    fn get_edge_comparer<'a>(&self, graph: &'a NoteGraph) -> (r: Comparer<'a>)
        ensures
            r.valid_for(*graph),
            forall|g: NoteGraph, e: EdgeStruct| #[trigger] r.sort_key(g, e) == field_key(self.field, g, e),
    {
        match &self.field {
            SortField::Path => Comparer::PathComparer(PathComparer),
            SortField::Basename => Comparer::BasenameComparer(BasenameComparer),
            SortField::EdgeType => Comparer::EdgeTypeComparer(EdgeTypeComparer),
            SortField::Implied => Comparer::ImpliedComparer(ImpliedComparer),
            SortField::Neighbour(neighbour_field) => {
                let c = NeighbourComparer::new(neighbour_field.clone(), graph);
                Comparer::NeighbourOrdering(c)
            },
        }
    }

    fn apply_edge_ordering(&self, graph: &NoteGraph, comparer: &Comparer<'_>, a: &EdgeStruct, b: &EdgeStruct) -> (r: Ordering)
        requires
            graph.wf(),
            graph.record_ok(*a),
            graph.record_ok(*b),
            comparer.valid_for(*graph),
            forall|g: NoteGraph, e: EdgeStruct| #[trigger] comparer.sort_key(g, e) == field_key(self.field, g, e),
        ensures
            r == self.ord(*graph, *a, *b),
    {
        let ordering = comparer.compare(graph, a, b);
        if self.reverse {
            match ordering {
                Ordering::Less => Ordering::Greater,
                Ordering::Equal => Ordering::Equal,
                Ordering::Greater => Ordering::Less,
            }
        } else {
            ordering
        }
    }

    /// The positions of `edges` in stably sorted order.
    fn sorted_order(&self, graph: &NoteGraph, edges: &Vec<EdgeStruct>) -> (p: Vec<usize>)
        requires
            graph.wf(),
            graph.records_ok(edges@),
        ensures
            self.is_stable_order(*graph, edges@, p@),
    {
        let comparer = self.get_edge_comparer(graph);
        let ghost s = edges@;
        let mut out: Vec<usize> = Vec::new();
        let mut i: usize = 0;
        while i < edges.len()
            invariant
                s == edges@,
                graph.wf(),
                graph.records_ok(s),
                comparer.valid_for(*graph),
                forall|g: NoteGraph, e: EdgeStruct| #[trigger] comparer.sort_key(g, e) == field_key(self.field, g, e),
                i <= s.len(),
                out@.len() == i,
                forall|k: int| 0 <= k < out@.len() ==> #[trigger] out@[k] < i,
                forall|k1: int, k2: int| 0 <= k1 < k2 < out@.len() ==> out@[k1] != out@[k2],
                forall|v: int| 0 <= v < i ==> #[trigger] occurs(out@, v),
                forall|k1: int, k2: int|
                    0 <= k1 < k2 < out@.len() ==> self.ord(*graph, s[out@[k1] as int], s[out@[k2] as int])
                        != Ordering::Greater,
                forall|k1: int, k2: int|
                    0 <= k1 < k2 < out@.len() && self.ord(*graph, s[out@[k1] as int], s[out@[k2] as int])
                        == Ordering::Equal ==> out@[k1] < out@[k2],
            decreases s.len() - i,
        {
            let x = edges[i];
            let mut j: usize = i;
            let mut placed = false;
            while j > 0 && !placed
                invariant
                    placed ==> j > 0 && self.ord(*graph, s[out@[j - 1] as int], x) != Ordering::Greater,
                    s == edges@,
                    graph.wf(),
                    graph.records_ok(s),
                    comparer.valid_for(*graph),
                forall|g: NoteGraph, e: EdgeStruct| #[trigger] comparer.sort_key(g, e) == field_key(self.field, g, e),
                    i < s.len(),
                    x == s[i as int],
                    out@.len() == i,
                    j <= i,
                    forall|k: int| 0 <= k < out@.len() ==> #[trigger] out@[k] < i,
                    forall|k: int| j <= k < i ==> self.ord(*graph, s[#[trigger] out@[k] as int], x) == Ordering::Greater,
                decreases j + if placed { 0int } else { 1int },
            {
                match self.apply_edge_ordering(graph, &comparer, &edges[out[j - 1]], &x) {
                    Ordering::Greater => {
                        j = j - 1;
                    },
                    _ => {
                        placed = true;
                    },
                }
            }
            let ghost old_out = out@;
            proof {
                assert(graph.record_ok(s[i as int]));
                if j > 0 {
                    let y = s[old_out[j - 1] as int];
                    assert(self.ord(*graph, y, x) != Ordering::Greater);
                    assert forall|k: int| 0 <= k < j implies self.ord(*graph, s[old_out[k] as int], x)
                        != Ordering::Greater by {
                        if k < j - 1 {
                            self.lemma_ord_trans(*graph, s[old_out[k] as int], y, x);
                        }
                    }
                }
                assert forall|k: int| j <= k < i implies self.ord(*graph, x, s[old_out[k] as int])
                    == Ordering::Less by {
                    self.lemma_ord_antisym(*graph, x, s[old_out[k] as int]);
                    assert(self.ord(*graph, s[old_out[k] as int], x) == Ordering::Greater);
                }
            }
            out.insert(j, i);
            proof {
                let n = out@;
                assert(n == old_out.insert(j as int, i));
                assert forall|k: int| 0 <= k < n.len() implies #[trigger] n[k] < i + 1 by {
                    if k < j { assert(n[k] == old_out[k]); } else if k > j { assert(n[k] == old_out[k - 1]); }
                }
                assert forall|v: int| 0 <= v < i + 1 implies #[trigger] occurs(n, v) by {
                    if v == i {
                        assert(n[j as int] == v);
                    } else {
                        assert(occurs(old_out, v));
                        let k = choose|k: int| 0 <= k < old_out.len() && #[trigger] old_out[k] == v;
                        if k < j {
                            assert(n[k] == v);
                        } else {
                            assert(n[k + 1] == v);
                        }
                    }
                }
                assert forall|k1: int, k2: int| 0 <= k1 < k2 < n.len() implies n[k1] != n[k2] by {
                    if k1 < j && k2 < j {
                    } else if k1 < j && k2 == j {
                        assert(old_out[k1] < i);
                    } else if k1 < j {
                        assert(n[k2] == old_out[k2 - 1]);
                    } else if k1 == j {
                        assert(n[k2] == old_out[k2 - 1]);
                        assert(old_out[k2 - 1] < i);
                    } else {
                        assert(n[k1] == old_out[k1 - 1]);
                        assert(n[k2] == old_out[k2 - 1]);
                    }
                }
                assert forall|k1: int, k2: int| 0 <= k1 < k2 < n.len() implies self.ord(*graph, s[n[k1] as int], s[n[k2] as int])
                    != Ordering::Greater && (self.ord(*graph, s[n[k1] as int], s[n[k2] as int]) == Ordering::Equal
                    ==> n[k1] < n[k2]) by {
                    if k1 < j && k2 < j {
                    } else if k1 < j && k2 == j {
                        assert(old_out[k1] < i);
                    } else if k1 < j {
                        assert(n[k2] == old_out[k2 - 1]);
                    } else if k1 == j {
                        assert(n[k2] == old_out[k2 - 1]);
                    } else {
                        assert(n[k1] == old_out[k1 - 1]);
                        assert(n[k2] == old_out[k2 - 1]);
                    }
                }
            }
            i = i + 1;
        }
        out
    }

    /// Sorts edge records stably by this sorter's field and direction.
    pub fn sort_edges(&self, graph: &NoteGraph, edges: &mut Vec<EdgeStruct>)
        requires
            graph.wf(),
            graph.records_ok(old(edges)@),
        ensures
            self.is_stable_sort(*graph, old(edges)@, final(edges)@),
    {
        let order = self.sorted_order(graph, edges);
        let mut sorted: Vec<EdgeStruct> = Vec::new();
        let mut k: usize = 0;
        while k < order.len()
            invariant
                self.is_stable_order(*graph, edges@, order@),
                k <= order@.len(),
                sorted@.len() == k,
                forall|m: int| 0 <= m < k ==> sorted@[m] == edges@[#[trigger] order@[m] as int],
            decreases order@.len() - k,
        {
            assert(order@[k as int] < edges@.len());
            sorted.push(edges[order[k]]);
            k = k + 1;
        }
        proof {
            assert(self.is_stable_order(*graph, old(edges)@, order@));
        }
        *edges = sorted;
    }

    /// Sorts traversal steps stably by their edges, keeping each step whole.
    pub fn sort_traversal_data(&self, graph: &NoteGraph, data: &mut Vec<RecTraversalData>)
        requires
            graph.wf(),
            forall|i: int| 0 <= i < old(data)@.len() ==> graph.record_ok(#[trigger] old(data)@[i].edge),
        ensures
            exists|p: Seq<usize>|
                #[trigger] self.is_stable_order(*graph, traversal_edges(old(data)@), p)
                    && final(data)@.len() == p.len() && forall|k: int|
                    0 <= k < p.len() ==> final(data)@[k] == old(data)@[p[k] as int],
    {
        let ghost d0 = data@;
        let mut edges: Vec<EdgeStruct> = Vec::new();
        let mut k: usize = 0;
        while k < data.len()
            invariant
                data@ == d0,
                k <= d0.len(),
                edges@ == d0.take(k as int).map_values(|d: RecTraversalData| d.edge),
            decreases d0.len() - k,
        {
            edges.push(data[k].edge);
            assert(d0.take(k + 1).map_values(|d: RecTraversalData| d.edge) =~= d0.take(k as int).map_values(
                |d: RecTraversalData| d.edge).push(d0[k as int].edge));
            k = k + 1;
        }
        assert(d0.take(d0.len() as int) =~= d0);
        assert(edges@ == traversal_edges(d0));
        let order = self.sorted_order(graph, &edges);
        let mut sorted: Vec<RecTraversalData> = Vec::new();
        let mut k: usize = 0;
        while k < order.len()
            invariant
                data@ == d0,
                self.is_stable_order(*graph, edges@, order@),
                edges@.len() == d0.len(),
                k <= order@.len(),
                sorted@.len() == k,
                forall|m: int| 0 <= m < k ==> sorted@[m] == d0[#[trigger] order@[m] as int],
            decreases order@.len() - k,
        {
            assert(order@[k as int] < edges@.len());
            sorted.push(data[order[k]]);
            k = k + 1;
        }
        *data = sorted;
    }
}

/// `v` is one of the positions `p` lists.
pub open spec fn occurs(p: Seq<usize>, v: int) -> bool {
    exists|k: int| 0 <= k < p.len() && #[trigger] p[k] == v
}

/// The edges of a list of traversal steps.
pub open spec fn traversal_edges(d: Seq<RecTraversalData>) -> Seq<EdgeStruct> {
    d.map_values(|x: RecTraversalData| x.edge)
}

/// Sorting by `explicit` puts every explicit edge before every implied one,
/// and orders each group by target path.
pub proof fn lemma_explicit_first(sorter: EdgeSorter, g: NoteGraph, s: Seq<EdgeStruct>, r: Seq<EdgeStruct>)
    requires
        sorter.field is Implied,
        !sorter.reverse,
        sorter.is_stable_sort(g, s, r),
    ensures
        forall|i: int, j: int|
            0 <= i < j < r.len() ==> (g.edge_of(r[j]).explicit ==> g.edge_of(r[i]).explicit) && (g.edge_of(
                r[i],
            ).explicit == g.edge_of(r[j]).explicit ==> lex_cmp(g.target_path(r[i]), g.target_path(r[j]))
                != Ordering::Greater),
{
    let p = choose|p: Seq<usize>| #[trigger] sorter.is_stable_order(g, s, p) && r.len() == p.len() && forall|k: int|
        0 <= k < r.len() ==> r[k] == s[p[k] as int];
    assert forall|i: int, j: int| 0 <= i < j < r.len() implies (g.edge_of(r[j]).explicit ==> g.edge_of(r[i]).explicit) && (
    g.edge_of(r[i]).explicit == g.edge_of(r[j]).explicit ==> lex_cmp(g.target_path(r[i]), g.target_path(r[j]))
        != Ordering::Greater) by {
        assert(sorter.ord(g, s[p[i] as int], s[p[j] as int]) != Ordering::Greater);
    }
}

/// Two orders that a sorter accepts for the same records are the same order
/// when no two distinct records compare equal.
proof fn lemma_strict_order_unique(sorter: EdgeSorter, g: NoteGraph, s: Seq<EdgeStruct>, p: Seq<usize>, q: Seq<usize>)
    requires
        sorter.is_stable_order(g, s, p),
        sorter.is_stable_order(g, s, q),
        forall|a: int, b: int|
            0 <= a < s.len() && 0 <= b < s.len() && a != b ==> sorter.ord(g, s[a], s[b]) != Ordering::Equal,
    ensures
        p == q,
{
    assert forall|k: int| 0 <= k < p.len() implies p[k] == q[k] by {
        lemma_strict_order_unique_at(sorter, g, s, p, q, k);
    }
    assert(p =~= q);
}

proof fn lemma_strict_order_unique_at(
    sorter: EdgeSorter,
    g: NoteGraph,
    s: Seq<EdgeStruct>,
    p: Seq<usize>,
    q: Seq<usize>,
    k: int,
)
    requires
        sorter.is_stable_order(g, s, p),
        sorter.is_stable_order(g, s, q),
        forall|a: int, b: int|
            0 <= a < s.len() && 0 <= b < s.len() && a != b ==> sorter.ord(g, s[a], s[b]) != Ordering::Equal,
        0 <= k < p.len(),
    ensures
        p[k] == q[k],
    decreases k,
{
    assert forall|m: int| 0 <= m < k implies p[m] == q[m] by {
        lemma_strict_order_unique_at(sorter, g, s, p, q, m);
    }
    if p[k] != q[k] {
        let x = p[k] as int;
        let y = q[k] as int;
        assert(occurs(q, x));
        let m = choose|m: int| 0 <= m < q.len() && #[trigger] q[m] == x;
        assert(occurs(p, y));
        let m2 = choose|m: int| 0 <= m < p.len() && #[trigger] p[m] == y;
        if m < k {
            assert(p[m] == q[m]);
        } else if m2 < k {
            assert(p[m2] == q[m2]);
        } else {
            assert(m != k);
            assert(m2 != k);
            assert(sorter.ord(g, s[y], s[x]) != Ordering::Greater);
            assert(sorter.ord(g, s[x], s[y]) != Ordering::Greater);
            sorter.lemma_ord_antisym(g, s[y], s[x]);
        }
    }
}

/// When no two records share a sort key, sorting in reverse yields exactly
/// the forward result reversed.
pub proof fn lemma_reverse_sort(
    fwd: EdgeSorter,
    rev: EdgeSorter,
    g: NoteGraph,
    s: Seq<EdgeStruct>,
    r1: Seq<EdgeStruct>,
    r2: Seq<EdgeStruct>,
)
    requires
        fwd.field == rev.field,
        !fwd.reverse,
        rev.reverse,
        forall|a: int, b: int|
            0 <= a < s.len() && 0 <= b < s.len() && a != b ==> key_cmp(
                field_key(fwd.field, g, s[a]),
                field_key(fwd.field, g, s[b]),
            ) != Ordering::Equal,
        fwd.is_stable_sort(g, s, r1),
        rev.is_stable_sort(g, s, r2),
    ensures
        r2 == r1.reverse(),
{
    let p = choose|p: Seq<usize>| #[trigger] fwd.is_stable_order(g, s, p) && r1.len() == p.len() && forall|k: int|
        0 <= k < r1.len() ==> r1[k] == s[p[k] as int];
    let q = choose|p: Seq<usize>| #[trigger] rev.is_stable_order(g, s, p) && r2.len() == p.len() && forall|k: int|
        0 <= k < r2.len() ==> r2[k] == s[p[k] as int];
    let n = p.len() as int;
    let pr = Seq::new(p.len(), |k: int| p[n - 1 - k]);
    assert forall|a: int, b: int|
        0 <= a < s.len() && 0 <= b < s.len() && a != b implies rev.ord(g, s[a], s[b]) != Ordering::Equal by {}
    assert forall|k1: int, k2: int| 0 <= k1 < k2 < pr.len() implies pr[k1] != pr[k2] by {
        assert(p[n - 1 - k2] != p[n - 1 - k1]);
    }
    assert forall|v: int| 0 <= v < s.len() implies #[trigger] occurs(pr, v) by {
        assert(occurs(p, v));
        let k = choose|k: int| 0 <= k < p.len() && #[trigger] p[k] == v;
        assert(pr[n - 1 - k] == v);
    }
    assert forall|k1: int, k2: int| 0 <= k1 < k2 < pr.len() implies rev.ord(g, s[pr[k1] as int], s[pr[k2] as int])
        != Ordering::Greater && rev.ord(g, s[pr[k1] as int], s[pr[k2] as int]) != Ordering::Equal by {
        let a = s[p[n - 1 - k2] as int];
        let b = s[p[n - 1 - k1] as int];
        assert(p[n - 1 - k2] != p[n - 1 - k1]);
        assert(fwd.ord(g, a, b) != Ordering::Greater);
        lemma_key_cmp_antisym(field_key(fwd.field, g, a), field_key(fwd.field, g, b));
    }
    assert(rev.is_stable_order(g, s, pr));
    lemma_strict_order_unique(rev, g, s, pr, q);
    assert(r2 =~= r1.reverse());
}

/// Returns `edges` sorted stably by `sorter`.
pub fn sort_edges(graph: &NoteGraph, edges: Vec<EdgeStruct>, sorter: &EdgeSorter) -> (r: Vec<EdgeStruct>)
    requires
        graph.wf(),
        graph.records_ok(edges@),
    ensures
        sorter.is_stable_sort(*graph, edges@, r@),
{
    let mut edges = edges;
    sorter.sort_edges(graph, &mut edges);
    edges
}

/// Returns the traversal steps sorted stably by their edges.
pub fn sort_traversal_data(graph: &NoteGraph, traversal_data: Vec<RecTraversalData>, sorter: &EdgeSorter) -> (r: Vec<RecTraversalData>)
    requires
        graph.wf(),
        forall|i: int| 0 <= i < traversal_data@.len() ==> graph.record_ok(#[trigger] traversal_data@[i].edge),
    ensures
        exists|p: Seq<usize>|
            #[trigger] sorter.is_stable_order(*graph, traversal_edges(traversal_data@), p)
                && r@.len() == p.len() && forall|k: int|
                0 <= k < p.len() ==> r@[k] == traversal_data@[p[k] as int],
{
    let mut traversal_data = traversal_data;
    sorter.sort_traversal_data(graph, &mut traversal_data);
    traversal_data
}

} // verus!
