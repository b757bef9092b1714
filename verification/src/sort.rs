//! The dependency sorter. It builds a directed graph with one node per
//! dependency entry (concrete structs and functions) and one edge per
//! layout dependency, pointing from the dependency to the dependent, and
//! orders the items topologically: every struct is emitted after the
//! structs its layout needs. A cycle among layout dependencies is a
//! `DependencyCycle` error citing one item on the cycle. Items outside the
//! graph (abstract structs) are appended after the sorted ones, keeping
//! their first-seen relative order.

use vstd::prelude::*;
use vstd::pervasive::unreached;
use vstd::seq_lib::*;
use vstd::set_lib::{lemma_int_range, lemma_subset_equality};
use vstd::string::*;
use crate::ast::Item;
use crate::diag::{Diagnostic, ErrorKind, Label};
use crate::graph::{graph_add_edge, graph_add_node, graph_edges, graph_new, graph_nodes,
    graph_toposort};
use crate::namespace::{spec_item_name, Namespace};
use crate::valid::Dependencies;

verus! {

/// Entry `m` of the dependency entries `es` is keyed `b` and its
/// dependency at position `x` is `a`.
pub open spec fn dep_edge_at(
    es: Seq<(Seq<char>, Seq<Seq<char>>)>,
    a: Seq<char>,
    b: Seq<char>,
    m: int,
    x: int,
) -> bool {
    &&& 0 <= m < es.len()
    &&& es[m].0 == b
    &&& 0 <= x < es[m].1.len()
    &&& es[m].1[x] == a
}

/// The layout of `b` depends on `a`: the dependency entry keyed `b` lists
/// `a`, so `a` must be emitted before `b`.
pub open spec fn dep_edge(es: Seq<(Seq<char>, Seq<Seq<char>>)>, a: Seq<char>, b: Seq<char>) -> bool {
    exists|m: int, x: int| #[trigger] dep_edge_at(es, a, b, m, x)
}

/// A walk of one or more dependency edges from `n` back to `n`.
pub open spec fn name_on_cycle(es: Seq<(Seq<char>, Seq<Seq<char>>)>, n: Seq<char>) -> bool {
    exists|p: Seq<Seq<char>>|
        p.len() >= 2 && p.first() == n && p.last() == n && (forall|i: int|
            0 <= i < p.len() - 1 ==> #[trigger] dep_edge(es, p[i], p[i + 1]))
}

/// The name keys one of the dependency entries.
pub open spec fn is_key_of(es: Seq<(Seq<char>, Seq<Seq<char>>)>, n: Seq<char>) -> bool {
    exists|u: int| 0 <= u < es.len() && (#[trigger] es[u]).0 == n
}

/// What the sorter assumes of its input, as the checker produces it: keys
/// are unique, every key names an item of the namespace, and every listed
/// dependency is itself a key.
pub open spec fn deps_closed(es: Seq<(Seq<char>, Seq<Seq<char>>)>, ns: Namespace) -> bool {
    &&& forall|i: int, j: int| 0 <= i < j < es.len() ==> es[i].0 != es[j].0
    &&& forall|k: int| 0 <= k < es.len() ==> ns.contains_name((#[trigger] es[k]).0)
    &&& forall|m: int, x: int|
        0 <= m < es.len() && 0 <= x < es[m].1.len() ==> is_key_of(
            es,
            #[trigger] es[m].1[x],
        )
}

/// The edges the graph holds once the entries before `k`, and the first
/// `xc` dependencies of entry `k`, have been added: a pair of the unique
/// key index of the dependency and the index of the dependent entry.
pub open spec fn edge_upto_at(
    es: Seq<(Seq<char>, Seq<Seq<char>>)>,
    k: int,
    xc: int,
    p: (int, int),
    x: int,
) -> bool {
    &&& 0 <= x < es[p.1].1.len()
    &&& p.1 < k || (p.1 == k && x < xc)
    &&& es[p.1].1[x] == es[p.0].0
}

pub open spec fn edge_upto(es: Seq<(Seq<char>, Seq<Seq<char>>)>, k: int, xc: int, p: (int, int)) -> bool {
    &&& 0 <= p.0 < es.len()
    &&& 0 <= p.1 < es.len()
    &&& exists|x: int| #[trigger] edge_upto_at(es, k, xc, p, x)
}

pub open spec fn edge_set_upto(es: Seq<(Seq<char>, Seq<Seq<char>>)>, k: int, xc: int) -> Set<
    (int, int),
> {
    Set::new(|p: (int, int)| edge_upto(es, k, xc, p))
}

/// Some already-emitted item carries this name.
pub open spec fn result_has_name(v: Seq<Item>, n: Seq<char>) -> bool {
    exists|u: int| 0 <= u < v.len() && spec_item_name(#[trigger] v[u]) == n
}

/// The index of a dependency key; `None` exactly when no entry has the
/// name.
fn key_position(d: &Dependencies, name: &String) -> (r: Option<usize>)
    ensures
        match r {
            Some(i) => i < d.keys().len() && d.keys()[i as int] == name@,
            None => forall|k: int| 0 <= k < d.keys().len() ==> d.keys()[k] != name@,
        },
{
    let n = d.entries.len();
    for i in 0..n
        invariant
            n == d.entries@.len(),
            forall|k: int| 0 <= k < i ==> d.keys()[k] != name@,
    {
        if d.entries[i].0.eq(name) {
            proof {
                assert(d.keys()[i as int] == name@);
            }
            return Some(i);
        }
    }
    None
}

/// Topologically order the items by their layout dependencies. On success
/// the result is a permutation of the namespace's items in which every
/// dependency comes before its dependent; items outside the graph follow
/// in their first-seen order. On a dependency cycle, the error names one
/// item on the cycle.
#[verifier::loop_isolation(false)]
#[verifier::rlimit(100)]
pub fn sort(items: Namespace, dependencies: &Dependencies) -> (r: Result<Vec<Item>, Diagnostic>)
    requires
        items.wf(),
        deps_closed(dependencies.view_entries(), items),
    ensures
        match r {
            Ok(v) => {
                &&& v@.len() == items.spec_len()
                &&& forall|i: int, j: int|
                    0 <= i < j < v@.len() ==> spec_item_name(v@[i]) != spec_item_name(v@[j])
                &&& forall|i: int|
                    0 <= i < v@.len() ==> items.contains_name(spec_item_name(#[trigger] v@[i]))
                        && v@[i] == items.spec_get(spec_item_name(v@[i]))
                &&& forall|n: Seq<char>|
                    #[trigger] items.contains_name(n) ==> result_has_name(v@, n)
                &&& forall|i: int, j: int|
                    0 <= i < v@.len() && 0 <= j < v@.len() && dep_edge(
                        dependencies.view_entries(),
                        spec_item_name(v@[i]),
                        spec_item_name(v@[j]),
                    ) ==> i < j
                &&& forall|i: int, j: int|
                    0 <= i < v@.len() && 0 <= j < v@.len() && is_key_of(
                        dependencies.view_entries(),
                        spec_item_name(v@[i]),
                    ) && !is_key_of(dependencies.view_entries(), spec_item_name(v@[j])) ==> i < j
            },
            Err(dg) => {
                &&& dg.kind == ErrorKind::DependencyCycle
                &&& dg.labels@.len() == 1
                &&& dg.labels@[0].kind == crate::diag::LabelKind::Primary
                &&& exists|n: Seq<char>|
                    #[trigger] name_on_cycle(dependencies.view_entries(), n) && items.contains_name(
                        n,
                    ) && dg.labels@[0].location == items.spec_get(n).spec_location()
            },
        },
{
    let ghost es = dependencies.view_entries();
    let ghost keys = dependencies.keys();
    let nk = dependencies.entries.len();
    proof {
        assert(keys.len() == es.len());
        assert forall|i: int| 0 <= i < keys.len() implies #[trigger] keys[i] == es[i].0 by {}
        assert forall|i: int, j: int| 0 <= i < j < keys.len() implies keys[i] != keys[j] by {
            assert(es[i].0 != es[j].0);
        }
    }

    // first step: one node per dependency entry, in entry order
    let mut g = graph_new();
    for k in 0..nk
        invariant
            graph_nodes(g) == keys.take(k as int),
            graph_edges(g) == Set::<(int, int)>::empty(),
    {
        let _idx = graph_add_node(&mut g, dependencies.entries[k].0.clone());
        proof {
            assert(graph_nodes(g) =~= keys.take(k + 1));
        }
    }
    proof {
        assert(keys.take(nk as int) =~= keys);
        assert(graph_edges(g) =~= edge_set_upto(es, 0, 0));
    }

    // second step: one edge per dependency, dependency to dependent
    for k in 0..nk
        invariant
            graph_nodes(g) == keys,
            graph_edges(g) == edge_set_upto(es, k as int, 0),
    {
        let list_len = dependencies.entries[k].1.len();
        for x in 0..list_len
            invariant
                graph_nodes(g) == keys,
                graph_edges(g) == edge_set_upto(es, k as int, x as int),
        {
            let depname = &dependencies.entries[k].1[x];
            proof {
                assert(es[k as int].1[x as int] == depname@);
            }
            let j = match key_position(dependencies, depname) {
                Some(j) => j,
                None => {
                    proof {
                        assert(is_key_of(es, depname@));
                        let u = choose|u: int|
                            0 <= u < es.len() && #[trigger] es[u].0 == depname@;
                        assert(keys[u] == depname@);
                    }
                    unreached()
                },
            };
            let ghost edges_before = graph_edges(g);
            graph_add_edge(&mut g, j, k);
            proof {
                let jj = j as int;
                let kk = k as int;
                let xx = x as int;
                assert forall|q: (int, int)| #[trigger] edge_upto(es, kk, xx + 1, q) implies
                edges_before.insert((jj, kk)).contains(q) by {
                    let x2 = choose|x2: int| #[trigger] edge_upto_at(es, kk, xx + 1, q, x2);
                    if q.1 < kk || x2 < xx {
                        assert(edge_upto_at(es, kk, xx, q, x2));
                        assert(edge_upto(es, kk, xx, q));
                    } else {
                        // the new edge: key uniqueness pins its tail
                        assert(es[q.0].0 == depname@);
                        assert(es[jj].0 == depname@);
                        if q.0 != jj {
                            if q.0 < jj {
                                assert(es[q.0].0 != es[jj].0);
                            } else {
                                assert(es[jj].0 != es[q.0].0);
                            }
                            assert(false);
                        }
                        assert(q == (jj, kk));
                    }
                }
                assert forall|q: (int, int)| edges_before.insert((jj, kk)).contains(q) implies
                #[trigger] edge_upto(es, kk, xx + 1, q) by {
                    if q == (jj, kk) {
                        assert(es[kk].1[xx] == es[jj].0);
                        assert(edge_upto_at(es, kk, xx + 1, q, xx));
                        assert(edge_upto(es, kk, xx + 1, q));
                    } else {
                        assert(edge_upto(es, kk, xx, q));
                        let x2 = choose|x2: int| #[trigger] edge_upto_at(es, kk, xx, q, x2);
                        assert(edge_upto_at(es, kk, xx + 1, q, x2));
                        assert(edge_upto(es, kk, xx + 1, q));
                    }
                }
                assert(graph_edges(g) =~= edge_set_upto(es, kk, xx + 1));
            }
        }
        proof {
            assert forall|q: (int, int)| #[trigger] edge_upto(es, k as int, list_len as int, q)
                <==> edge_upto(es, k + 1, 0, q) by {
                if edge_upto(es, k as int, list_len as int, q) {
                    let x2 = choose|x2: int|
                        #[trigger] edge_upto_at(es, k as int, list_len as int, q, x2);
                    assert(edge_upto_at(es, k + 1, 0, q, x2));
                }
                if edge_upto(es, k + 1, 0, q) {
                    let x2 = choose|x2: int| #[trigger] edge_upto_at(es, k + 1, 0, q, x2);
                    assert(edge_upto_at(es, k as int, list_len as int, q, x2));
                }
            }
            assert(edge_set_upto(es, k as int, list_len as int) =~= edge_set_upto(es, k + 1, 0));
        }
    }
    let ghost all_edges = graph_edges(g);
    proof {
        assert(all_edges == edge_set_upto(es, nk as int, 0));
    }

    // third step: order the graph, then emit the items
    match graph_toposort(&g) {
        Err(nidx) => {
            let name = &dependencies.entries[nidx].0;
            proof {
                assert(keys[nidx as int] == name@);
                assert(es[nidx as int].0 == name@);
                assert(items.contains_name(name@));
            }
            let item = match items.get(name) {
                Some(it) => it,
                None => unreached(),
            };
            let loc = *item.location();
            let dg = Diagnostic {
                kind: ErrorKind::DependencyCycle,
                message: String::from_str("cycle detected"),
                labels: vec![
                    Label::primary(loc, String::from_str("this type contains itself")),
                ],
                notes: Vec::new(),
            };
            proof {
                let p = choose|p: Seq<int>|
                    p.len() >= 2 && p.first() == nidx as int && p.last() == nidx as int && (
                    forall|i: int|
                        0 <= i < p.len() - 1 ==> #[trigger] all_edges.contains((p[i], p[i + 1])));
                // every node on the walk is a valid key index
                assert forall|i: int| 0 <= i < p.len() implies 0 <= #[trigger] p[i] < keys.len() by {
                    if i < p.len() - 1 {
                        assert(all_edges.contains((p[i], p[i + 1])));
                        assert(edge_upto(es, nk as int, 0, (p[i], p[i + 1])));
                    } else {
                        assert(p.last() == nidx as int);
                        assert(p[i] == nidx as int);
                    }
                }
                let q = p.map_values(|i: int| keys[i]);
                assert(q.len() == p.len());
                assert forall|i: int| 0 <= i < q.len() - 1 implies #[trigger] dep_edge(
                    es,
                    q[i],
                    q[i + 1],
                ) by {
                    assert(all_edges.contains((p[i], p[i + 1])));
                    assert(edge_upto(es, nk as int, 0, (p[i], p[i + 1])));
                    let x = choose|x: int|
                        #[trigger] edge_upto_at(es, nk as int, 0, (p[i], p[i + 1]), x);
                    assert(es[p[i + 1]].0 == keys[p[i + 1]]);
                    assert(dep_edge_at(es, q[i], q[i + 1], p[i + 1], x));
                }
                assert(q.first() == keys[nidx as int]);
                assert(q.last() == keys[nidx as int]);
                assert(name_on_cycle(es, keys[nidx as int]));
                assert(dg.labels@[0].location == items.spec_get(name@).spec_location());
            }
            Err(dg)
        },
        Ok(order) => {
            let ghost items0 = items;
            let mut ns = items;
            let mut result: Vec<Item> = Vec::new();
            let on = order.len();
            proof {
                assert(on == nk);
            }
            for t in 0..on
                invariant
                    ns.wf(),
                    result@.len() == t,
                    ns.spec_len() + t == items0.spec_len(),
                    forall|u: int|
                        0 <= u < t ==> spec_item_name(#[trigger] result@[u]) == keys[order@[u] as int],
                    forall|u: int|
                        0 <= u < t ==> #[trigger] result@[u] == items0.spec_get(
                            keys[order@[u] as int],
                        ),
                    forall|u: int, w: int|
                        0 <= u < w < t ==> spec_item_name(result@[u]) != spec_item_name(
                            result@[w],
                        ),
                    forall|u: int|
                        0 <= u < t ==> !ns.contains_name(spec_item_name(#[trigger] result@[u])),
                    forall|n: Seq<char>|
                        #[trigger] ns.contains_name(n) || result_has_name(result@, n)
                            <==> items0.contains_name(n),
                    forall|n: Seq<char>|
                        #[trigger] ns.contains_name(n) ==> ns.spec_get(n) == items0.spec_get(n),
            {
                let idx = order[t];
                let name = &dependencies.entries[idx].0;
                proof {
                    assert(keys[idx as int] == name@);
                    assert(es[idx as int].0 == name@);
                    assert(items0.contains_name(name@));
                    if result_has_name(result@, name@) {
                        let u = choose|u: int|
                            0 <= u < result@.len() && spec_item_name(result@[u]) == name@;
                        assert(keys[order@[u] as int] == keys[order@[t as int] as int]);
                        if order@[u] != order@[t as int] {
                            assert(false);
                        }
                        assert(false);
                    }
                    assert(ns.contains_name(name@));
                }
                let ghost ns_before = ns;
                let ghost res_before = result@;
                let item = match ns.take(name) {
                    Some(it) => it,
                    None => unreached(),
                };
                result.push(item);
                proof {
                    assert(result@ =~= res_before.push(item));
                    assert forall|n: Seq<char>| #[trigger] ns.contains_name(n) || result_has_name(
                        result@,
                        n,
                    ) <==> items0.contains_name(n) by {
                        if ns.contains_name(n) {
                            assert(ns_before.contains_name(n));
                        }
                        if result_has_name(result@, n) {
                            let u = choose|u: int|
                                0 <= u < result@.len() && spec_item_name(result@[u]) == n;
                            if u < res_before.len() {
                                assert(result_has_name(res_before, n));
                            } else {
                                assert(n == name@);
                                assert(items0.contains_name(n));
                            }
                        }
                        if items0.contains_name(n) {
                            if n == name@ {
                                assert(spec_item_name(result@[res_before.len() as int]) == name@);
                                assert(result_has_name(result@, n));
                            } else {
                                assert(ns_before.contains_name(n) || result_has_name(
                                    res_before,
                                    n,
                                ));
                                if ns_before.contains_name(n) {
                                    assert(ns.contains_name(n));
                                } else {
                                    let u = choose|u: int|
                                        0 <= u < res_before.len() && spec_item_name(
                                            res_before[u],
                                        ) == n;
                                    assert(spec_item_name(result@[u]) == n);
                                    assert(result_has_name(result@, n));
                                }
                            }
                        }
                    }
                }
            }
            // the order is a permutation of the key indices, so every key
            // was taken; what remains has no entry in the graph
            proof {
                let oseq = order@.map_values(|i: usize| i as int);
                assert(oseq.no_duplicates()) by {
                    assert forall|u: int, w: int|
                        0 <= u < oseq.len() && 0 <= w < oseq.len() && u != w implies oseq[u]
                        != oseq[w] by {
                        if u < w {
                            assert(order@[u] != order@[w]);
                        } else {
                            assert(order@[w] != order@[u]);
                        }
                    }
                }
                oseq.unique_seq_to_set();
                broadcast use vstd::seq_lib::seq_to_set_is_finite;

                assert(oseq.len() == nk);
                assert(oseq.to_set().len() == nk);
                let full = Set::new(|i: int| 0 <= i < nk as int);
                assert(oseq.to_set().subset_of(full)) by {
                    assert forall|i: int| oseq.to_set().contains(i) implies full.contains(i) by {
                        let u = choose|u: int| 0 <= u < oseq.len() && oseq[u] == i;
                        assert(order@[u] < nk);
                    }
                }
                lemma_int_range(0, nk as int);
                assert(full =~= vstd::set_lib::set_int_range(0, nk as int));
                assert(full.len() == nk);
                assert(full.finite());
                lemma_subset_equality(oseq.to_set(), full);
                assert forall|n: Seq<char>| #[trigger] ns.contains_name(n) implies !(exists|k: int|
                    0 <= k < keys.len() && keys[k] == n) by {
                    if exists|k: int| 0 <= k < keys.len() && keys[k] == n {
                        let k = choose|k: int| 0 <= k < keys.len() && keys[k] == n;
                        assert(full.contains(k));
                        assert(oseq.to_set().contains(k));
                        let u = choose|u: int| 0 <= u < oseq.len() && oseq[u] == k;
                        assert(order@[u] as int == k);
                        assert(spec_item_name(result@[u]) == n);
                        assert(!ns.contains_name(n));
                    }
                }
            }
            // fourth step: append the items that are not in the graph
            while ns.entries.len() > 0
                invariant
                    ns.wf(),
                    ns.spec_len() + result@.len() == items0.spec_len(),
                    result@.len() >= on,
                    forall|u: int|
                        0 <= u < on ==> spec_item_name(#[trigger] result@[u]) == keys[order@[u] as int],
                    forall|u: int|
                        0 <= u < result@.len() ==> #[trigger] result@[u] == items0.spec_get(
                            spec_item_name(result@[u]),
                        ) && items0.contains_name(spec_item_name(result@[u])),
                    forall|u: int, w: int|
                        0 <= u < w < result@.len() ==> spec_item_name(result@[u])
                            != spec_item_name(result@[w]),
                    forall|u: int|
                        0 <= u < result@.len() ==> !ns.contains_name(
                            spec_item_name(#[trigger] result@[u]),
                        ),
                    forall|n: Seq<char>|
                        #[trigger] ns.contains_name(n) || result_has_name(result@, n)
                            <==> items0.contains_name(n),
                    forall|n: Seq<char>|
                        #[trigger] ns.contains_name(n) ==> ns.spec_get(n) == items0.spec_get(n),
                    forall|n: Seq<char>|
                        #[trigger] ns.contains_name(n) ==> !(exists|k: int|
                            0 <= k < keys.len() && keys[k] == n),
                    forall|u: int|
                        on <= u < result@.len() ==> !(exists|k: int|
                            0 <= k < keys.len() && keys[k] == spec_item_name(
                                #[trigger] result@[u],
                            )),
                decreases ns.spec_len(),
            {
                let first_name = ns.entries[0].0.clone();
                proof {
                    assert(ns.names()[0] == first_name@);
                    assert(ns.contains_name(first_name@));
                }
                let ghost ns_before = ns;
                let ghost res_before = result@;
                let item = match ns.take(&first_name) {
                    Some(it) => it,
                    None => unreached(),
                };
                result.push(item);
                proof {
                    assert(result@ =~= res_before.push(item));
                    assert forall|n: Seq<char>| #[trigger] ns.contains_name(n) || result_has_name(
                        result@,
                        n,
                    ) <==> items0.contains_name(n) by {
                        if ns.contains_name(n) {
                            assert(ns_before.contains_name(n));
                        }
                        if result_has_name(result@, n) {
                            let u = choose|u: int|
                                0 <= u < result@.len() && spec_item_name(result@[u]) == n;
                            if u < res_before.len() {
                                assert(result_has_name(res_before, n));
                            } else {
                                assert(n == first_name@);
                                assert(items0.contains_name(n));
                            }
                        }
                        if items0.contains_name(n) {
                            if n == first_name@ {
                                assert(spec_item_name(result@[res_before.len() as int])
                                    == first_name@);
                                assert(result_has_name(result@, n));
                            } else {
                                assert(ns_before.contains_name(n) || result_has_name(
                                    res_before,
                                    n,
                                ));
                                if ns_before.contains_name(n) {
                                    assert(ns.contains_name(n));
                                } else {
                                    let u = choose|u: int|
                                        0 <= u < res_before.len() && spec_item_name(
                                            res_before[u],
                                        ) == n;
                                    assert(spec_item_name(result@[u]) == n);
                                    assert(result_has_name(result@, n));
                                }
                            }
                        }
                    }
                }
            }
            proof {
                // everything of the namespace was emitted exactly once
                assert(result@.len() == items0.spec_len());
                assert forall|n: Seq<char>| #[trigger] items0.contains_name(n) implies
                result_has_name(result@, n) by {
                    assert(!ns.contains_name(n));
                }
                // the graph items fill the first positions; everything the
                // sorter appended afterwards keys no dependency entry
                assert forall|i: int, j: int|
                    0 <= i < result@.len() && 0 <= j < result@.len() && is_key_of(
                        es,
                        spec_item_name(result@[i]),
                    ) && !is_key_of(es, spec_item_name(result@[j])) implies i < j by {
                    if i >= on {
                        let u = choose|u: int|
                            0 <= u < es.len() && (#[trigger] es[u]).0 == spec_item_name(
                                result@[i],
                            );
                        assert(keys[u] == es[u].0);
                        assert(false);
                    }
                    if j < on {
                        assert(spec_item_name(result@[j]) == keys[order@[j] as int]);
                        assert(es[order@[j] as int].0 == spec_item_name(result@[j]));
                        assert(is_key_of(es, spec_item_name(result@[j])));
                        assert(false);
                    }
                }
                // a dependency edge always points between graph keys, which
                // were emitted in topological positions
                assert forall|i: int, j: int|
                    0 <= i < result@.len() && 0 <= j < result@.len() && dep_edge(
                        es,
                        spec_item_name(result@[i]),
                        spec_item_name(result@[j]),
                    ) implies i < j by {
                    let a = spec_item_name(result@[i]);
                    let b = spec_item_name(result@[j]);
                    let (m, x) = choose|m: int, x: int| #[trigger] dep_edge_at(es, a, b, m, x);
                    assert(es[m].1[x] == a);
                    assert(keys[m] == b);
                    assert(is_key_of(es, a));
                    let u = choose|u: int|
                        0 <= u < es.len() && #[trigger] es[u].0 == a;
                    assert(keys[u] == a);
                    // both ends sit in the graph part of the result
                    assert(j < on) by {
                        if j >= on {
                            assert(!(exists|k: int|
                                0 <= k < keys.len() && keys[k] == spec_item_name(result@[j])));
                            assert(keys[m] == spec_item_name(result@[j]));
                            assert(false);
                        }
                    }
                    assert(i < on) by {
                        if i >= on {
                            assert(!(exists|k: int|
                                0 <= k < keys.len() && keys[k] == spec_item_name(result@[i])));
                            assert(keys[u] == spec_item_name(result@[i]));
                            assert(false);
                        }
                    }
                    assert(keys[order@[j] as int] == b);
                    assert(m == order@[j] as int) by {
                        if m != order@[j] as int {
                            if m < order@[j] as int {
                                assert(keys[m] != keys[order@[j] as int]);
                            } else {
                                assert(keys[order@[j] as int] != keys[m]);
                            }
                            assert(false);
                        }
                    }
                    assert(keys[order@[i] as int] == a);
                    assert(u == order@[i] as int) by {
                        if u != order@[i] as int {
                            if u < order@[i] as int {
                                assert(keys[u] != keys[order@[i] as int]);
                            } else {
                                assert(keys[order@[i] as int] != keys[u]);
                            }
                            assert(false);
                        }
                    }
                    assert(edge_upto_at(es, nk as int, 0, (u, m), x));
                    assert(edge_upto(es, nk as int, 0, (u, m)));
                    assert(all_edges.contains((order@[i] as int, order@[j] as int)));
                }
            }
            Ok(result)
        },
    }
}

} // verus!
