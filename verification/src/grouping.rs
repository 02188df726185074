//! Dependency edges gathered under the file they start from, for a listing
//! by source.

use vstd::prelude::*;
use crate::models::ImportType;
use crate::sorting::{
    lemma_text_le_antisymmetric, lemma_text_le_reflexive, lemma_text_le_total,
    lemma_text_le_transitive, name_le, text_le,
};

verus! {

/// The edges that start from one source: the source's label, and for each
/// edge its target and kind.
#[derive(Debug, PartialEq, Eq)]
pub struct DependencyGroup {
    pub source: String,
    pub edges: Vec<(String, ImportType)>,
}

/// An edge with the label of its source: source, target, kind.
pub type Entry = (String, String, ImportType);

/// The target and kind of each of the first `n` entries that start from
/// `source`, in the order of the entries.
pub open spec fn edges_from(entries: Seq<Entry>, source: Seq<char>, n: int) -> Seq<(Seq<char>, ImportType)>
    decreases n,
{
    if n <= 0 {
        Seq::<(Seq<char>, ImportType)>::empty()
    } else {
        let before = edges_from(entries, source, n - 1);
        if entries[n - 1].0@ == source {
            before.push((entries[n - 1].1@, entries[n - 1].2))
        } else {
            before
        }
    }
}

/// The targets and kinds of a group, as mathematical values.
pub open spec fn edge_pairs(edges: Seq<(String, ImportType)>) -> Seq<(Seq<char>, ImportType)> {
    Seq::new(edges.len(), |i: int| (edges[i].0@, edges[i].1))
}

/// `a` comes before `b` in the order of strings and differs from it.
pub open spec fn strictly_before(a: Seq<char>, b: Seq<char>) -> bool {
    text_le(a, b) && a != b
}

/// The groups are those of the first `n` entries: they stand in the strict
/// order of their sources, each holds the edges of its source in the order
/// of the entries and at least one, and every source has its group.
pub open spec fn groups_of(groups: Seq<DependencyGroup>, entries: Seq<Entry>, n: int) -> bool {
    &&& forall|a: int, b: int|
        0 <= a < b < groups.len() ==> strictly_before(
            (#[trigger] groups[a]).source@,
            (#[trigger] groups[b]).source@,
        )
    &&& forall|k: int|
        0 <= k < groups.len() ==> edge_pairs((#[trigger] groups[k]).edges@) == edges_from(
            entries,
            groups[k].source@,
            n,
        ) && groups[k].edges@.len() > 0
    &&& forall|i: int|
        0 <= i < n ==> exists|k: int|
            0 <= k < groups.len() && (#[trigger] groups[k]).source@ == (#[trigger] entries[i]).0@
}

/// The edges gathered by source. The groups stand in the order of their
/// sources, without a source twice; each lists the edges of its source in
/// the order in which `entries` has them.
pub fn group_by_source(entries: &Vec<Entry>) -> (groups: Vec<DependencyGroup>)
    ensures
        groups_of(groups@, entries@, entries@.len() as int),
{
    let mut groups: Vec<DependencyGroup> = Vec::new();
    let mut i: usize = 0;
    while i < entries.len()
        invariant
            i <= entries.len(),
            groups_of(groups@, entries@, i as int),
        decreases entries.len() - i,
    {
        let entry = &entries[i];
        let ghost src = entry.0@;
        let ghost old_groups = groups@;
        let mut p: usize = 0;
        while p < groups.len() && !name_le(entry.0.as_str(), groups[p].source.as_str())
            invariant
                p <= groups.len(),
                groups@ == old_groups,
                src == entry.0@,
                forall|k: int| 0 <= k < p ==> !text_le(src, (#[trigger] groups@[k]).source@),
            decreases groups.len() - p,
        {
            p += 1;
        }
        let same = p < groups.len() && name_le(groups[p].source.as_str(), entry.0.as_str());
        proof {
            lemma_text_le_reflexive(src);
            if same {
                lemma_text_le_antisymmetric(src, old_groups[p as int].source@);
            }
            assert forall|k: int| 0 <= k < old_groups.len() && k != p implies (
            #[trigger] old_groups[k]).source@ != src by {
                if k < p {
                } else if p < old_groups.len() {
                    assert(strictly_before(old_groups[p as int].source@, old_groups[k].source@));
                    if old_groups[k].source@ == src {
                        lemma_text_le_antisymmetric(
                            old_groups[p as int].source@,
                            old_groups[k].source@,
                        );
                    }
                }
            }
        }
        if same {
            let mut group = groups.remove(p);
            let ghost old_pairs = edge_pairs(group.edges@);
            group.edges.push((entry.1.clone(), entry.2));
            proof {
                assert(edge_pairs(group.edges@) =~= old_pairs.push((entry.1@, entry.2)));
            }
            groups.insert(p, group);
            proof {
                let now = groups@;
                assert(now.len() == old_groups.len());
                assert forall|k: int| 0 <= k < now.len() implies (#[trigger] now[k]).source@
                    == old_groups[k].source@ && (k != p ==> now[k] == old_groups[k]) by {}
                assert forall|k: int| 0 <= k < now.len() implies edge_pairs(
                    (#[trigger] now[k]).edges@,
                ) == edges_from(entries@, now[k].source@, i + 1) && now[k].edges@.len() > 0 by {
                    if k != p {
                        assert(now[k] == old_groups[k]);
                        assert(old_groups[k].source@ != src);
                    }
                }
                assert forall|j: int| 0 <= j < i + 1 implies exists|k: int|
                    0 <= k < now.len() && (#[trigger] now[k]).source@ == (
                    #[trigger] entries@[j]).0@ by {
                    if j < i {
                        let k = choose|k: int|
                            0 <= k < old_groups.len() && (#[trigger] old_groups[k]).source@
                                == entries@[j].0@;
                        assert(now[k].source@ == entries@[j].0@);
                    } else {
                        assert(now[p as int].source@ == src);
                    }
                }
                assert forall|a: int, b: int| 0 <= a < b < now.len() implies strictly_before(
                    (#[trigger] now[a]).source@,
                    (#[trigger] now[b]).source@,
                ) by {
                    assert(strictly_before(old_groups[a].source@, old_groups[b].source@));
                }
            }
        } else {
            let mut edges: Vec<(String, ImportType)> = Vec::new();
            edges.push((entry.1.clone(), entry.2));
            let group = DependencyGroup { source: entry.0.clone(), edges };
            proof {
                assert(edge_pairs(group.edges@) =~= seq![(entry.1@, entry.2)]);
                lemma_no_edges_without_group(entries@, old_groups, src, i as int);
            }
            groups.insert(p, group);
            proof {
                let now = groups@;
                assert(now == old_groups.insert(p as int, group));
                assert forall|k: int| 0 <= k < now.len() implies edge_pairs(
                    (#[trigger] now[k]).edges@,
                ) == edges_from(entries@, now[k].source@, i + 1) && now[k].edges@.len() > 0 by {
                    if k < p {
                        assert(now[k] == old_groups[k]);
                        assert(old_groups[k].source@ != src);
                    } else if k > p {
                        assert(now[k] == old_groups[k - 1]);
                        assert(old_groups[k - 1].source@ != src);
                    } else {
                        assert(now[k] == group);
                        assert(Seq::<(Seq<char>, ImportType)>::empty().push((entry.1@, entry.2))
                            =~= seq![(entry.1@, entry.2)]);
                    }
                }
                assert forall|j: int| 0 <= j < i + 1 implies exists|k: int|
                    0 <= k < now.len() && (#[trigger] now[k]).source@ == (
                    #[trigger] entries@[j]).0@ by {
                    if j < i {
                        let k = choose|k: int|
                            0 <= k < old_groups.len() && (#[trigger] old_groups[k]).source@
                                == entries@[j].0@;
                        if k < p {
                            assert(now[k] == old_groups[k]);
                        } else {
                            assert(now[k + 1] == old_groups[k]);
                        }
                    } else {
                        assert(now[p as int].source@ == src);
                    }
                }
                assert forall|a: int, b: int| 0 <= a < b < now.len() implies strictly_before(
                    (#[trigger] now[a]).source@,
                    (#[trigger] now[b]).source@,
                ) by {
                    if b < p {
                        assert(now[a] == old_groups[a] && now[b] == old_groups[b]);
                    } else if b == p {
                        assert(now[a] == old_groups[a]);
                        lemma_text_le_total(old_groups[a].source@, src);
                    } else if a < p {
                        assert(now[a] == old_groups[a] && now[b] == old_groups[b - 1]);
                    } else if a == p {
                        assert(now[b] == old_groups[b - 1]);
                        assert(text_le(src, old_groups[p as int].source@));
                        if b - 1 > p {
                            assert(strictly_before(
                                old_groups[p as int].source@,
                                old_groups[b - 1].source@,
                            ));
                            lemma_text_le_transitive(
                                src,
                                old_groups[p as int].source@,
                                old_groups[b - 1].source@,
                            );
                        }
                    } else {
                        assert(now[a] == old_groups[a - 1] && now[b] == old_groups[b - 1]);
                    }
                }
            }
        }
        i += 1;
    }
    groups
}

proof fn lemma_no_edges_without_group(
    entries: Seq<Entry>,
    groups: Seq<DependencyGroup>,
    source: Seq<char>,
    n: int,
)
    requires
        0 <= n <= entries.len(),
        groups_of(groups, entries, n),
        forall|k: int| 0 <= k < groups.len() ==> (#[trigger] groups[k]).source@ != source,
    ensures
        edges_from(entries, source, n) == Seq::<(Seq<char>, ImportType)>::empty(),
    decreases n,
{
    if n > 0 {
        assert(entries[n - 1].0@ != source) by {
            let k = choose|k: int|
                0 <= k < groups.len() && (#[trigger] groups[k]).source@ == entries[n - 1].0@;
        }
        lemma_edges_from_absent(entries, source, n);
    }
}

proof fn lemma_edges_from_absent(entries: Seq<Entry>, source: Seq<char>, n: int)
    requires
        0 <= n <= entries.len(),
        forall|i: int| 0 <= i < n ==> (#[trigger] entries[i]).0@ != source,
    ensures
        edges_from(entries, source, n) == Seq::<(Seq<char>, ImportType)>::empty(),
    decreases n,
{
    if n > 0 {
        lemma_edges_from_absent(entries, source, n - 1);
    }
}

/// The pair stands among the first `n` edges.
pub open spec fn has_pair(edges: Seq<(String, ImportType)>, pair: (Seq<char>, ImportType), n: int) -> bool {
    exists|i: int| 0 <= i < n && i < edges.len() && edge_pairs(edges)[i] == pair
}

/// The edges stand in the order of their targets, and no target with its
/// kind stands twice.
pub open spec fn distinct_by_target(edges: Seq<(String, ImportType)>) -> bool {
    &&& forall|a: int, b: int|
        0 <= a < b < edges.len() ==> text_le((#[trigger] edges[a]).0@, (#[trigger] edges[b]).0@)
    &&& forall|a: int, b: int|
        0 <= a < b < edges.len() ==> edge_pairs(edges)[a] != edge_pairs(edges)[b]
}

fn same_pair(a: &(String, ImportType), b: &(String, ImportType)) -> (same: bool)
    ensures
        same == (a.0@ == b.0@ && a.1 == b.1),
{
    crate::text::str_equal(a.0.as_str(), b.0.as_str()) && a.1 == b.1
}

/// The edges of one source as a graph shows them: each target with its
/// kind once, in the order of the targets.
pub fn distinct_edges(edges: &Vec<(String, ImportType)>) -> (out: Vec<(String, ImportType)>)
    ensures
        distinct_by_target(out@),
        forall|pair: (Seq<char>, ImportType)|
            has_pair(out@, pair, out@.len() as int) <==> has_pair(
                edges@,
                pair,
                edges@.len() as int,
            ),
{
    let mut out: Vec<(String, ImportType)> = Vec::new();
    let mut i: usize = 0;
    while i < edges.len()
        invariant
            i <= edges.len(),
            distinct_by_target(out@),
            forall|pair: (Seq<char>, ImportType)|
                #![trigger has_pair(out@, pair, out@.len() as int)]
                #![trigger has_pair(edges@, pair, i as int)]
                has_pair(out@, pair, out@.len() as int) <==> has_pair(edges@, pair, i as int),
        decreases edges.len() - i,
    {
        let edge = &edges[i];
        let ghost here = (edge.0@, edge.1);
        let ghost before = out@;
        assert(edge_pairs(edges@)[i as int] == here);
        let mut seen = false;
        let mut k: usize = 0;
        while k < out.len() && !seen
            invariant
                k <= out.len(),
                out@ == before,
                here == (edge.0@, edge.1),
                seen ==> has_pair(out@, here, out@.len() as int),
                !seen ==> forall|j: int| 0 <= j < k ==> edge_pairs(out@)[j] != here,
            decreases out.len() - k + if seen { 0int } else { 1int },
        {
            if same_pair(&out[k], edge) {
                seen = true;
                assert(edge_pairs(out@)[k as int] == here);
            } else {
                k += 1;
            }
        }
        if !seen {
            let mut at: usize = out.len();
            while at > 0 && !name_le(out[at - 1].0.as_str(), edge.0.as_str())
                invariant
                    at <= out.len(),
                    out@ == before,
                    forall|j: int|
                        at <= j < out@.len() ==> text_le(edge.0@, (#[trigger] out@[j]).0@),
                decreases at,
            {
                proof {
                    lemma_text_le_total(out@[at - 1].0@, edge.0@);
                }
                at -= 1;
            }
            out.insert(at, (edge.0.clone(), edge.1));
            proof {
                let now = out@;
                let added = now[at as int];
                assert(now == before.insert(at as int, added));
                assert(edge_pairs(now)[at as int] == here);
                assert forall|a: int, b: int| 0 <= a < b < now.len() implies text_le(
                    (#[trigger] now[a]).0@,
                    (#[trigger] now[b]).0@,
                ) && edge_pairs(now)[a] != edge_pairs(now)[b] by {
                    let x = if a < at { a } else { a - 1 };
                    let y = if b < at { b } else { b - 1 };
                    if a != at && b != at {
                        assert(now[a] == before[x] && now[b] == before[y]);
                        assert(edge_pairs(before)[x] != edge_pairs(before)[y]);
                    } else if b == at {
                        assert(now[a] == before[a]);
                        assert(edge_pairs(before)[a] != here);
                        if a < at - 1 {
                            lemma_text_le_transitive(before[a].0@, before[at - 1].0@, edge.0@);
                        }
                    } else {
                        assert(now[b] == before[b - 1]);
                        assert(edge_pairs(before)[b - 1] != here);
                    }
                }
                assert forall|pair: (Seq<char>, ImportType)|
                    has_pair(now, pair, now.len() as int) <==> has_pair(edges@, pair, i + 1) by {
                    if has_pair(now, pair, now.len() as int) {
                        let j = choose|j: int|
                            0 <= j < now.len() && j < now.len() && edge_pairs(now)[j] == pair;
                        if j == at {
                            assert(edge_pairs(edges@)[i as int] == pair);
                        } else {
                            let x = if j < at { j } else { j - 1 };
                            assert(now[j] == before[x]);
                            assert(edge_pairs(before)[x] == pair);
                            assert(has_pair(before, pair, before.len() as int));
                            assert(has_pair(edges@, pair, i as int));
                            let e = choose|e: int|
                                0 <= e < i && e < edges@.len() && edge_pairs(edges@)[e] == pair;
                            assert(edge_pairs(edges@)[e] == pair);
                        }
                    }
                    if has_pair(edges@, pair, i + 1) {
                        let e = choose|e: int|
                            0 <= e < i + 1 && e < edges@.len() && edge_pairs(edges@)[e] == pair;
                        if e == i {
                            assert(edge_pairs(now)[at as int] == pair);
                        } else {
                            assert(has_pair(edges@, pair, i as int));
                            assert(has_pair(before, pair, before.len() as int));
                            let j = choose|j: int|
                                0 <= j < before.len() && j < before.len() && edge_pairs(before)[j]
                                    == pair;
                            let y = if j < at { j } else { j + 1 };
                            assert(now[y] == before[j]);
                            assert(edge_pairs(now)[y] == pair);
                        }
                    }
                }
            }
        } else {
            proof {
                assert forall|pair: (Seq<char>, ImportType)|
                    has_pair(out@, pair, out@.len() as int) <==> has_pair(edges@, pair, i + 1) by {
                    if has_pair(edges@, pair, i + 1) {
                        let e = choose|e: int|
                            0 <= e < i + 1 && e < edges@.len() && edge_pairs(edges@)[e] == pair;
                        if e < i {
                            assert(has_pair(edges@, pair, i as int));
                        }
                    }
                    if has_pair(out@, pair, out@.len() as int) {
                        assert(has_pair(edges@, pair, i as int));
                        let e = choose|e: int|
                            0 <= e < i && e < edges@.len() && edge_pairs(edges@)[e] == pair;
                        assert(edge_pairs(edges@)[e] == pair);
                    }
                }
            }
        }
        i += 1;
    }
    out
}

} // verus!
