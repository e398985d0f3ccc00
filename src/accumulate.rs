//! Merging edge records into one entry per connected node pair, in the order
//! the pairs are first seen.

use crate::graph::{EdgeStruct, NoteGraph, NoteGraphError};
use indexmap::IndexMap;
use vstd::prelude::*;

verus! {

/// The insertion-ordered map of the `indexmap` crate, held opaque.
#[verifier::external_type_specification]
#[verifier::external_body]
#[verifier::reject_recursive_types(K)]
#[verifier::reject_recursive_types(V)]
#[verifier::reject_recursive_types(S)]
pub struct ExIndexMap<K, V, S>(IndexMap<K, V, S>);

/// The key-value pairs an index map of node pairs holds.
pub uninterp spec fn pair_map_contents(m: IndexMap<(usize, usize), usize>) -> Map<(usize, usize), usize>;

/// Relies on `IndexMap::new`: the new map is empty.
#[verifier::external_body]
fn pair_map_new() -> (r: IndexMap<(usize, usize), usize>)
    ensures
        forall|k: (usize, usize)| !#[trigger] pair_map_contents(r).contains_key(k),
{
    IndexMap::new()
}

/// Relies on `IndexMap::get`: the value stored under `key`, if any.
#[verifier::external_body]
fn pair_map_get(m: &IndexMap<(usize, usize), usize>, key: (usize, usize)) -> (r: Option<usize>)
    ensures
        r == (if pair_map_contents(*m).contains_key(key) {
            Some(pair_map_contents(*m)[key])
        } else {
            None
        }),
{
    m.get(&key).copied()
}

/// Relies on `IndexMap::insert`: afterwards `key` maps to `value` and every
/// other key keeps its value.
#[verifier::external_body]
fn pair_map_insert(m: &mut IndexMap<(usize, usize), usize>, key: (usize, usize), value: usize)
    ensures
        pair_map_contents(*final(m)) == pair_map_contents(*old(m)).insert(key, value),
{
    m.insert(key, value);
}

/// All edges between one pair of nodes: `forward` runs from `from` to `to`,
/// `backward` the other way. Edges are named by their index in the graph.
#[derive(Clone, Debug)]
pub struct AccumulatedEdge {
    pub from: usize,
    pub to: usize,
    pub forward: Vec<usize>,
    pub backward: Vec<usize>,
}

/// An accumulated entry as values: (from, to, forward, backward).
pub type EntryView = (usize, usize, Seq<usize>, Seq<usize>);

impl AccumulatedEdge {
    pub open spec fn view(&self) -> EntryView {
        (self.from, self.to, self.forward@, self.backward@)
    }
}

/// Position of the entry whose direction is `(s, t)`.
pub open spec fn entry_pos(es: Seq<EntryView>, s: usize, t: usize) -> Option<int>
    decreases es.len(),
{
    if es.len() == 0 {
        None
    } else if es.last().0 == s && es.last().1 == t {
        Some(es.len() - 1)
    } else {
        entry_pos(es.drop_last(), s, t)
    }
}

/// The entries that accumulating `recs` in order yields.
pub open spec fn accumulate(recs: Seq<EdgeStruct>, collapse: bool) -> Seq<EntryView>
    decreases recs.len(),
{
    if recs.len() == 0 {
        Seq::empty()
    } else {
        let prev = accumulate(recs.drop_last(), collapse);
        let e = recs.last();
        match entry_pos(prev, e.source_index, e.target_index) {
            Some(f) => prev.update(f, (prev[f].0, prev[f].1, prev[f].2.push(e.edge_index), prev[f].3)),
            None => {
                let b = if collapse {
                    entry_pos(prev, e.target_index, e.source_index)
                } else {
                    None
                };
                match b {
                    Some(k) => prev.update(
                        k,
                        (prev[k].0, prev[k].1, prev[k].2, prev[k].3.push(e.edge_index)),
                    ),
                    None => prev.push((e.source_index, e.target_index, seq![e.edge_index], Seq::empty())),
                }
            },
        }
    }
}

pub proof fn lemma_entry_pos(es: Seq<EntryView>, s: usize, t: usize)
    ensures
        entry_pos(es, s, t) matches Some(p) ==> 0 <= p < es.len() && es[p].0 == s && es[p].1 == t,
        entry_pos(es, s, t) is None ==> forall|k: int| 0 <= k < es.len() ==> !(es[k].0 == s && es[k].1 == t),
    decreases es.len(),
{
    if es.len() > 0 {
        lemma_entry_pos(es.drop_last(), s, t);
        if entry_pos(es, s, t) is None {
            assert forall|k: int| 0 <= k < es.len() implies !(#[trigger] es[k].0 == s && es[k].1 == t) by {
                if k < es.len() - 1 {
                    assert(es[k] == es.drop_last()[k]);
                }
            }
        }
    }
}

proof fn lemma_entry_pos_update(es: Seq<EntryView>, f: int, x: EntryView, s: usize, t: usize)
    requires
        0 <= f < es.len(),
        x.0 == es[f].0,
        x.1 == es[f].1,
    ensures
        entry_pos(es.update(f, x), s, t) == entry_pos(es, s, t),
    decreases es.len(),
{
    let u = es.update(f, x);
    if f < es.len() - 1 {
        assert(u.drop_last() =~= es.drop_last().update(f, x));
        lemma_entry_pos_update(es.drop_last(), f, x, s, t);
    } else {
        assert(u.drop_last() =~= es.drop_last());
    }
}

proof fn lemma_entry_pos_push(es: Seq<EntryView>, x: EntryView, s: usize, t: usize)
    ensures
        entry_pos(es.push(x), s, t) == (if x.0 == s && x.1 == t {
            Some(es.len() as int)
        } else {
            entry_pos(es, s, t)
        }),
{
    assert(es.push(x).drop_last() =~= es);
}

/// The accumulated entries in the order their pairs were first seen, with a
/// lookup from direction to position.
pub struct AccumulatedEdgeHashMap {
    pub map: IndexMap<(usize, usize), usize>,
    pub entries: Vec<AccumulatedEdge>,
}

impl AccumulatedEdgeHashMap {
    pub open spec fn view(&self) -> Seq<EntryView> {
        self.entries@.map_values(|e: AccumulatedEdge| e.view())
    }

    /// The lookup holds exactly the direction of each entry, mapped to its position.
    pub closed spec fn wf(&self) -> bool {
        forall|k: (usize, usize)|
            #![trigger pair_map_contents(self.map).contains_key(k)]
            match entry_pos(self.view(), k.0, k.1) {
                Some(p) => pair_map_contents(self.map).contains_key(k) && pair_map_contents(self.map)[k]
                    == p,
                None => !pair_map_contents(self.map).contains_key(k),
            }
    }

    fn new() -> (r: AccumulatedEdgeHashMap)
        ensures
            r.wf(),
            r.view() == Seq::<EntryView>::empty(),
    {
        let r = AccumulatedEdgeHashMap { map: pair_map_new(), entries: Vec::new() };
        assert(r.view() =~= Seq::<EntryView>::empty());
        r
    }

    /// Position of the entry whose direction is `(s, t)`.
    fn lookup(&self, s: usize, t: usize) -> (r: Option<usize>)
        requires
            self.wf(),
        ensures
            r matches Some(p) ==> entry_pos(self.view(), s, t) == Some(p as int) && p < self.view().len(),
            r is None ==> entry_pos(self.view(), s, t) is None,
    {
        let r = pair_map_get(&self.map, (s, t));
        proof {
            lemma_entry_pos(self.view(), s, t);
            let k = (s, t);
            assert(pair_map_contents(self.map).contains_key(k) || !pair_map_contents(self.map).contains_key(k));
        }
        r
    }
}

impl NoteGraph {
    /// Accumulates edge records into per-pair entries; fails, with no
    /// entries at all, when any record is stale.
    pub fn int_accumulate_edges(
        graph: &NoteGraph,
        edges: Vec<EdgeStruct>,
        collapse_opposing_edges: bool,
    ) -> (r: Result<AccumulatedEdgeHashMap, NoteGraphError>)
        ensures
            r is Ok <==> graph.records_ok(edges@),
            r matches Ok(m) ==> m.view() == accumulate(edges@, collapse_opposing_edges),
            r matches Err(e) ==> e is StaleEdgeRecord,
    {
        let mut acc = AccumulatedEdgeHashMap::new();
        let mut i: usize = 0;
        while i < edges.len()
            invariant
                i <= edges@.len(),
                acc.wf(),
                acc.view() == accumulate(edges@.take(i as int), collapse_opposing_edges),
                graph.records_ok(edges@.take(i as int)),
            decreases edges@.len() - i,
        {
            let e = edges[i];
            if let Err(err) = graph.check_revision(&e) {
                proof {
                    assert(edges@[i as int] == e);
                }
                return Err(err);
            }
            let ghost prev = acc.view();
            proof {
                assert(edges@.take(i + 1).drop_last() =~= edges@.take(i as int));
                assert(edges@.take(i + 1).last() == e);
                lemma_entry_pos(prev, e.source_index, e.target_index);
                lemma_entry_pos(prev, e.target_index, e.source_index);
            }
            let ghost recs = edges@.take(i + 1);
            proof {
                assert(accumulate(recs, collapse_opposing_edges) == ({
                    let e = recs.last();
                    match entry_pos(prev, e.source_index, e.target_index) {
                        Some(f) => prev.update(f, (prev[f].0, prev[f].1, prev[f].2.push(e.edge_index), prev[f].3)),
                        None => {
                            let b = if collapse_opposing_edges {
                                entry_pos(prev, e.target_index, e.source_index)
                            } else {
                                None
                            };
                            match b {
                                Some(k) => prev.update(
                                    k,
                                    (prev[k].0, prev[k].1, prev[k].2, prev[k].3.push(e.edge_index)),
                                ),
                                None => prev.push((e.source_index, e.target_index, seq![e.edge_index], Seq::empty())),
                            }
                        },
                    }
                }));
            }
            match acc.lookup(e.source_index, e.target_index) {
                Some(f) => {
                    acc.push_forward(f, e.edge_index);
                    assert(acc.view() == accumulate(recs, collapse_opposing_edges));
                },
                None => {
                    let b = if collapse_opposing_edges {
                        acc.lookup(e.target_index, e.source_index)
                    } else {
                        None
                    };
                    match b {
                        Some(k) => {
                            acc.push_backward(k, e.edge_index);
                            assert(acc.view() == accumulate(recs, collapse_opposing_edges));
                        },
                        None => {
                            acc.push_entry(e.source_index, e.target_index, e.edge_index);
                            assert(acc.view() == accumulate(recs, collapse_opposing_edges));
                        },
                    }
                },
            }
            proof {
                assert forall|k: int| 0 <= k < i + 1 implies graph.record_ok(#[trigger] edges@.take(i + 1)[k]) by {
                    if k < i {
                        assert(edges@.take(i + 1)[k] == edges@.take(i as int)[k]);
                    }
                }
            }
            i = i + 1;
        }
        proof {
            assert(edges@.take(edges@.len() as int) =~= edges@);
        }
        Ok(acc)
    }
}

impl AccumulatedEdgeHashMap {
    fn push_forward(&mut self, f: usize, edge: usize)
        requires
            old(self).wf(),
            f < old(self).view().len(),
        ensures
            final(self).wf(),
            final(self).view() == old(self).view().update(
                f as int,
                (old(self).view()[f as int].0, old(self).view()[f as int].1,
                    old(self).view()[f as int].2.push(edge), old(self).view()[f as int].3),
            ),
    {
        let ghost v0 = self.view();
        let mut entry = self.entries[f].clone_entry();
        entry.forward.push(edge);
        self.entries.set(f, entry);
        proof {
            let x = (v0[f as int].0, v0[f as int].1, v0[f as int].2.push(edge), v0[f as int].3);
            assert(self.view() =~= v0.update(f as int, x));
            assert forall|s: usize, t: usize| entry_pos(self.view(), s, t) == entry_pos(v0, s, t) by {
                lemma_entry_pos_update(v0, f as int, x, s, t);
            }
        }
    }

    fn push_backward(&mut self, f: usize, edge: usize)
        requires
            old(self).wf(),
            f < old(self).view().len(),
        ensures
            final(self).wf(),
            final(self).view() == old(self).view().update(
                f as int,
                (old(self).view()[f as int].0, old(self).view()[f as int].1,
                    old(self).view()[f as int].2, old(self).view()[f as int].3.push(edge)),
            ),
    {
        let ghost v0 = self.view();
        let mut entry = self.entries[f].clone_entry();
        entry.backward.push(edge);
        self.entries.set(f, entry);
        proof {
            let x = (v0[f as int].0, v0[f as int].1, v0[f as int].2, v0[f as int].3.push(edge));
            assert(self.view() =~= v0.update(f as int, x));
            assert forall|s: usize, t: usize| entry_pos(self.view(), s, t) == entry_pos(v0, s, t) by {
                lemma_entry_pos_update(v0, f as int, x, s, t);
            }
        }
    }

    fn push_entry(&mut self, s: usize, t: usize, edge: usize)
        requires
            old(self).wf(),
            entry_pos(old(self).view(), s, t) is None,
        ensures
            final(self).wf(),
            final(self).view() == old(self).view().push((s, t, seq![edge], Seq::<usize>::empty())),
    {
        let ghost v0 = self.view();
        let pos = self.entries.len();
        let mut forward: Vec<usize> = Vec::new();
        forward.push(edge);
        self.entries.push(AccumulatedEdge { from: s, to: t, forward, backward: Vec::new() });
        pair_map_insert(&mut self.map, (s, t), pos);
        proof {
            let x = (s, t, seq![edge], Seq::<usize>::empty());
            assert(self.view() =~= v0.push(x));
            assert forall|a: usize, b: usize| entry_pos(self.view(), a, b) == (if s == a && t == b {
                Some(pos as int)
            } else {
                entry_pos(v0, a, b)
            }) by {
                lemma_entry_pos_push(v0, x, a, b);
            }
        }
    }
}

impl AccumulatedEdge {
    fn clone_entry(&self) -> (r: AccumulatedEdge)
        ensures
            r.view() == self.view(),
    {
        AccumulatedEdge {
            from: self.from,
            to: self.to,
            forward: self.forward.clone(),
            backward: self.backward.clone(),
        }
    }
}

/// Every edge named in the entry is below `bound`.
pub open spec fn entry_bounded(e: EntryView, bound: int) -> bool {
    &&& forall|k: int| 0 <= k < e.2.len() ==> #[trigger] e.2[k] < bound
    &&& forall|k: int| 0 <= k < e.3.len() ==> #[trigger] e.3[k] < bound
}

/// The entries name only edges that the records name.
pub proof fn lemma_accumulate_bounded(recs: Seq<EdgeStruct>, collapse: bool, bound: int)
    requires
        forall|k: int| 0 <= k < recs.len() ==> #[trigger] recs[k].edge_index < bound,
    ensures
        forall|i: int|
            0 <= i < accumulate(recs, collapse).len() ==> entry_bounded(#[trigger] accumulate(recs, collapse)[i], bound),
    decreases recs.len(),
{
    if recs.len() > 0 {
        let prev_recs = recs.drop_last();
        assert forall|k: int| 0 <= k < prev_recs.len() implies #[trigger] prev_recs[k].edge_index < bound by {
            assert(prev_recs[k] == recs[k]);
        }
        lemma_accumulate_bounded(prev_recs, collapse, bound);
        let prev = accumulate(prev_recs, collapse);
        let e = recs.last();
        assert(e.edge_index < bound);
        lemma_entry_pos(prev, e.source_index, e.target_index);
        lemma_entry_pos(prev, e.target_index, e.source_index);
        let cur = accumulate(recs, collapse);
        assert forall|i: int| 0 <= i < cur.len() implies entry_bounded(#[trigger] cur[i], bound) by {
            if i < prev.len() {
                assert(entry_bounded(prev[i], bound));
            }
        }
    }
}

/// Entries keep their place: accumulating further records never moves,
/// drops or re-keys the entries of a prefix; a pair first seen later gets a
/// later entry.
pub proof fn lemma_first_seen_order(recs: Seq<EdgeStruct>, collapse: bool, n: int)
    requires
        0 <= n <= recs.len(),
    ensures
        accumulate(recs.take(n), collapse).len() <= accumulate(recs, collapse).len(),
        forall|i: int|
            0 <= i < accumulate(recs.take(n), collapse).len() ==> (#[trigger] accumulate(recs, collapse)[i]).0
                == accumulate(recs.take(n), collapse)[i].0 && accumulate(recs, collapse)[i].1
                == accumulate(recs.take(n), collapse)[i].1,
    decreases recs.len(),
{
    if n == recs.len() {
        assert(recs.take(n) =~= recs);
    } else {
        let prev_recs = recs.drop_last();
        assert(prev_recs.take(n) =~= recs.take(n));
        lemma_first_seen_order(prev_recs, collapse, n);
        let e = recs.last();
        let prev = accumulate(prev_recs, collapse);
        lemma_entry_pos(prev, e.source_index, e.target_index);
        lemma_entry_pos(prev, e.target_index, e.source_index);
        let cur = accumulate(recs, collapse);
        assert forall|i: int| 0 <= i < prev.len() implies #[trigger] cur[i].0 == prev[i].0 && cur[i].1 == prev[i].1 by {}
    }
}

/// With collapsing, an edge followed by its reverse yields one entry holding
/// the first as forward and the second as backward.
pub proof fn lemma_collapse_opposing(a: EdgeStruct, b: EdgeStruct)
    requires
        a.source_index == b.target_index,
        a.target_index == b.source_index,
        a.source_index != a.target_index,
    ensures
        accumulate(seq![a, b], true) == seq![(a.source_index, a.target_index, seq![a.edge_index], seq![b.edge_index])],
{
    assert(seq![a, b].drop_last() =~= seq![a]);
    assert(seq![a].drop_last() =~= Seq::<EdgeStruct>::empty());
    let z = accumulate(seq![a].drop_last(), true);
    assert(z.len() == 0);
    assert(entry_pos(z, a.source_index, a.target_index) is None);
    assert(entry_pos(z, a.target_index, a.source_index) is None);
    let one = accumulate(seq![a], true);
    assert(one == z.push((a.source_index, a.target_index, seq![a.edge_index], Seq::<usize>::empty())));
    assert(one =~= seq![(a.source_index, a.target_index, seq![a.edge_index], Seq::<usize>::empty())]);
    assert(one.drop_last() =~= Seq::<EntryView>::empty());
    assert(entry_pos(one, b.source_index, b.target_index) is None);
    assert(entry_pos(one, b.target_index, b.source_index) == Some(0int));
    assert(accumulate(seq![a, b], true) =~= seq![(a.source_index, a.target_index, seq![a.edge_index], seq![b.edge_index])]);
}

/// Without collapsing, an edge followed by its reverse yields two entries.
pub proof fn lemma_no_collapse_opposing(a: EdgeStruct, b: EdgeStruct)
    requires
        a.source_index == b.target_index,
        a.target_index == b.source_index,
        a.source_index != a.target_index,
    ensures
        accumulate(seq![a, b], false) == seq![
            (a.source_index, a.target_index, seq![a.edge_index], Seq::<usize>::empty()),
            (b.source_index, b.target_index, seq![b.edge_index], Seq::<usize>::empty()),
        ],
{
    assert(seq![a, b].drop_last() =~= seq![a]);
    assert(seq![a].drop_last() =~= Seq::<EdgeStruct>::empty());
    let z = accumulate(seq![a].drop_last(), false);
    assert(z.len() == 0);
    assert(entry_pos(z, a.source_index, a.target_index) is None);
    assert(entry_pos(z, a.target_index, a.source_index) is None);
    let one = accumulate(seq![a], false);
    assert(one == z.push((a.source_index, a.target_index, seq![a.edge_index], Seq::<usize>::empty())));
    assert(one =~= seq![(a.source_index, a.target_index, seq![a.edge_index], Seq::<usize>::empty())]);
    assert(one.drop_last() =~= Seq::<EntryView>::empty());
    assert(entry_pos(one, b.source_index, b.target_index) is None);
    assert(accumulate(seq![a, b], false) =~= seq![
        (a.source_index, a.target_index, seq![a.edge_index], Seq::<usize>::empty()),
        (b.source_index, b.target_index, seq![b.edge_index], Seq::<usize>::empty()),
    ]);
}

} // verus!
