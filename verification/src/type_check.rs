//! The checking pipeline: flatten the import forest into one namespace,
//! validate it, and topologically order the items by layout dependency.
//! Compilation either fully succeeds, yielding the ordered item list, or
//! fully fails with at least one diagnostic: there is no partial success.
//! The exact conditions of each phase stand on `namespace::flatten`,
//! `valid::check` and `sort::sort`.

use vstd::prelude::*;
use crate::ast::{File, Item, Struct};
use crate::diag::Diagnostic;
use crate::namespace::{flatten, has_duplicate_name, flat_seq, imports_resolved, spec_item_name,
    Namespace};
use crate::sort::{dep_edge, deps_closed, is_key_of, name_on_cycle, sort};
use crate::valid::{check, lemma_dep_entries_wf, lemma_item_deps_concrete, namespace_valid,
    spec_dep_entries};

verus! {

/// A checked program, as the emitters consume it: the concrete structs in
/// dependency order.
pub struct Program {
    pub structs: Vec<Struct>,
}

/// The schema flattens without a name collision and the flattened
/// namespace passes every validity rule.
pub open spec fn flattened_valid(file: File) -> bool {
    &&& !has_duplicate_name(flat_seq(file.items@))
    &&& exists|ns: Namespace|
        #[trigger] ns.wf() && ns.items() == flat_seq(file.items@) && namespace_valid(ns)
}

/// The pipeline's three failure causes: a duplicate top-level name, a
/// validity violation in the flattened namespace, or a cycle among the
/// layout dependencies.
pub open spec fn pipeline_failed(file: File) -> bool {
    ||| has_duplicate_name(flat_seq(file.items@))
    ||| exists|ns: Namespace|
        #[trigger] ns.wf() && ns.items() == flat_seq(file.items@) && !namespace_valid(ns)
    ||| exists|n: Seq<char>|
        #[trigger] name_on_cycle(spec_dep_entries(flat_seq(file.items@)), n)
}

/// `v` is the checked output for the schema: exactly its declarations,
/// each name once, every layout dependency before its dependent.
pub open spec fn checked_output_ok(file: File, v: Seq<Item>) -> bool {
    &&& v.len() == flat_seq(file.items@).len()
    &&& forall|i: int, j: int|
        0 <= i < j < v.len() ==> spec_item_name(v[i]) != spec_item_name(v[j])
    &&& forall|i: int|
        0 <= i < v.len() ==> exists|j: int|
            0 <= j < flat_seq(file.items@).len() && #[trigger] v[i] == flat_seq(file.items@)[j]
    &&& forall|i: int, j: int|
        0 <= i < v.len() && 0 <= j < v.len() && dep_edge(
            spec_dep_entries(flat_seq(file.items@)),
            spec_item_name(v[i]),
            spec_item_name(v[j]),
        ) ==> i < j
}

/// Run the whole checking pipeline on a loaded schema. On success, the
/// returned items are exactly the schema's declarations, each name once,
/// ordered so that every layout dependency precedes its dependent; the
/// phase contracts of `flatten`, `check` and `sort` state the rest. On any
/// failure, at least one diagnostic.
pub fn type_check(file: File) -> (r: Result<Vec<Item>, Vec<Diagnostic>>)
    requires
        imports_resolved(file.items@),
    ensures
        match r {
            Ok(v) => flattened_valid(file) && checked_output_ok(file, v@),
            Err(ds) => ds@.len() > 0 && pipeline_failed(file),
        },
{
    let ns = match flatten(file) {
        Ok(ns) => ns,
        Err(d) => {
            let mut ds: Vec<Diagnostic> = Vec::new();
            ds.push(d);
            proof {
                assert(pipeline_failed(file));
            }
            return Err(ds);
        },
    };
    let ghost flat = ns.items();
    let deps = match check(&ns) {
        Ok(deps) => deps,
        Err(ds) => {
            proof {
                assert(ns.wf() && ns.items() == flat_seq(file.items@) && !namespace_valid(ns));
                assert(pipeline_failed(file));
            }
            return Err(ds);
        },
    };
    proof {
        // the checker's output lets the sorter look every name up
        assert(ns.items().take(ns.items().len() as int) =~= ns.items());
        lemma_dep_entries_wf(ns, ns.items().len() as int);
        assert forall|m: int, x: int|
            0 <= m < deps.view_entries().len() && 0 <= x < deps.view_entries()[m].1.len() implies
        is_key_of(deps.view_entries(), #[trigger] deps.view_entries()[m].1[x]) by {
            let e = deps.view_entries()[m];
            let item = ns.spec_get(e.0);
            let i = ns.index_of(e.0);
            assert(namespace_valid(ns));
            assert(ns.items()[i] == ns.entries@[i].1);
            lemma_item_deps_concrete(ns, item);
            let n2 = e.1[x];
            assert(crate::valid::names_concrete_struct(ns, n2));
            assert(crate::valid::has_dep_entry(ns.spec_get(n2)));
            assert(ns.index_of(n2) < ns.items().len());
            let m2 = choose|m2: int|
                0 <= m2 < spec_dep_entries(ns.items().take(ns.items().len() as int)).len() && (
                #[trigger] spec_dep_entries(ns.items().take(ns.items().len() as int))[m2]).0 == n2;
            assert(deps.view_entries()[m2].0 == n2);
            assert(is_key_of(deps.view_entries(), n2));
        }
        assert forall|i: int, j: int|
            0 <= i < j < deps.view_entries().len() implies deps.view_entries()[i].0
            != deps.view_entries()[j].0 by {
            assert(deps.keys()[i] == deps.view_entries()[i].0);
            assert(deps.keys()[j] == deps.view_entries()[j].0);
        }
        assert forall|k: int| 0 <= k < deps.view_entries().len() implies ns.contains_name(
            (#[trigger] deps.view_entries()[k]).0,
        ) by {
            assert(deps.keys()[k] == deps.view_entries()[k].0);
        }
        assert(deps_closed(deps.view_entries(), ns));
        assert(deps.view_entries() == spec_dep_entries(flat_seq(file.items@)));
    }
    let ghost ns0 = ns;
    let ghost es = deps.view_entries();
    match sort(ns, &deps) {
        Ok(v) => {
            proof {
                assert(ns0.wf() && ns0.items() == flat_seq(file.items@) && namespace_valid(ns0));
                assert(flattened_valid(file));
                assert forall|i: int| 0 <= i < v@.len() implies exists|j: int|
                    0 <= j < flat.len() && #[trigger] v@[i] == flat[j] by {
                    let n = spec_item_name(v@[i]);
                    let j = ns0.index_of(n);
                    assert(ns0.contains_name(n));
                    assert(v@[i] == ns0.spec_get(n));
                    assert(flat[j] == ns0.entries@[j].1);
                }
                assert forall|i: int, j: int|
                    0 <= i < v@.len() && 0 <= j < v@.len() && dep_edge(
                        spec_dep_entries(flat_seq(file.items@)),
                        spec_item_name(v@[i]),
                        spec_item_name(v@[j]),
                    ) implies i < j by {
                    assert(dep_edge(es, spec_item_name(v@[i]), spec_item_name(v@[j])));
                }
                assert(checked_output_ok(file, v@));
            }
            Ok(v)
        },
        Err(d) => {
            let mut ds: Vec<Diagnostic> = Vec::new();
            ds.push(d);
            proof {
                let n = choose|n: Seq<char>|
                    #[trigger] name_on_cycle(es, n) && ns0.contains_name(n) && d.labels@.len() == 1
                        && d.labels@[0].location == ns0.spec_get(n).spec_location();
                assert(name_on_cycle(spec_dep_entries(flat_seq(file.items@)), n));
                assert(pipeline_failed(file));
            }
            Err(ds)
        },
    }
}

} // verus!
