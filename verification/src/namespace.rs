//! The import flattener. A parsed schema is a forest: each file's `Import`
//! items carry the imported file's already-loaded item tree. Flattening
//! merges that forest into one global name-to-item mapping, in first-seen
//! (depth-first) order. The first definition of a name wins; a later item
//! with the same name is a `DuplicateName` error, never a silent overwrite.

use vstd::prelude::*;
use vstd::pervasive::unreached;
use vstd::string::*;
use crate::ast::{File, Identifier, Item, ItemType, Location};
use crate::diag::{Diagnostic, ErrorKind, Label};

verus! {

/// The name under which an item is declared. Import items do not declare a
/// name; they never enter the namespace.
pub open spec fn spec_item_name(item: Item) -> Seq<char> {
    match item.item {
        ItemType::Struct(s) => s.name.identifier@,
        ItemType::Function(f) => f.name.identifier@,
        ItemType::Import(_) => Seq::empty(),
    }
}

/// The source location of the item's declared name.
pub open spec fn spec_item_name_loc(item: Item) -> Location {
    match item.item {
        ItemType::Struct(s) => s.name.location,
        ItemType::Function(f) => f.name.location,
        ItemType::Import(i) => i.location,
    }
}

pub open spec fn is_import(item: Item) -> bool {
    match item.item {
        ItemType::Import(_) => true,
        _ => false,
    }
}

/// The name of a declaration, with the place it was declared.
pub fn name_of_item(item: &Item) -> (name: Identifier)
    requires
        !is_import(*item),
    ensures
        name.identifier@ == spec_item_name(*item),
        name.location == spec_item_name_loc(*item),
{
    match &item.item {
        ItemType::Struct(s) => Identifier {
            location: s.name.location,
            identifier: s.name.identifier.clone(),
        },
        ItemType::Function(f) => Identifier {
            location: f.name.location,
            identifier: f.name.identifier.clone(),
        },
        ItemType::Import(_) => unreached(),
    }
}

/// Every import in the item list has been resolved by the loader, down
/// through the whole tree.
pub open spec fn imports_resolved(items: Seq<Item>) -> bool
    decreases items,
{
    if items.len() == 0 {
        true
    } else {
        let head_ok = match items[0].item {
            ItemType::Import(imp) => match imp.resolved {
                Some(f) => imports_resolved(f.items@),
                None => false,
            },
            _ => true,
        };
        head_ok && imports_resolved(items.drop_first())
    }
}

/// The items a forest flattens to: imports replaced, depth first, by the
/// items of the file they import; all other items kept in order.
pub open spec fn flat_seq(items: Seq<Item>) -> Seq<Item>
    decreases items,
{
    if items.len() == 0 {
        Seq::empty()
    } else {
        let head = match items[0].item {
            ItemType::Import(imp) => match imp.resolved {
                Some(f) => flat_seq(f.items@),
                None => Seq::empty(),
            },
            _ => seq![items[0]],
        };
        head + flat_seq(items.drop_first())
    }
}

/// The number of nodes in an item forest, counting the sub-trees that
/// resolved imports carry. Flattening consumes one node per step.
pub open spec fn tree_size(items: Seq<Item>) -> nat
    decreases items,
{
    if items.len() == 0 {
        0
    } else {
        let head: nat = match items[0].item {
            ItemType::Import(imp) => match imp.resolved {
                Some(f) => 1 + tree_size(f.items@),
                None => 1,
            },
            _ => 1,
        };
        head + tree_size(items.drop_first())
    }
}

/// Flattening distributes over concatenation; so do resolvedness and size.
pub proof fn lemma_flat_seq_concat(a: Seq<Item>, b: Seq<Item>)
    ensures
        flat_seq(a + b) == flat_seq(a) + flat_seq(b),
        imports_resolved(a + b) <==> imports_resolved(a) && imports_resolved(b),
        tree_size(a + b) == tree_size(a) + tree_size(b),
    decreases a,
{
    if a.len() == 0 {
        assert(a + b =~= b);
        assert(flat_seq(a) =~= Seq::<Item>::empty());
        assert(flat_seq(a + b) =~= flat_seq(a) + flat_seq(b));
    } else {
        assert((a + b)[0] == a[0]);
        assert((a + b).drop_first() =~= a.drop_first() + b);
        lemma_flat_seq_concat(a.drop_first(), b);
        assert(flat_seq(a + b) =~= flat_seq(a) + flat_seq(b));
    }
}

/// There are two positions in `s` that declare the same name.
pub open spec fn has_duplicate_name(s: Seq<Item>) -> bool {
    exists|i: int, j: int|
        0 <= i < j < s.len() && spec_item_name(s[i]) == spec_item_name(s[j])
}

/// The flattened namespace: the declared items of the whole schema, keyed
/// by name, in first-seen order. Names are unique.
pub struct Namespace {
    pub entries: Vec<(String, Item)>,
}

impl Namespace {
    /// The declared names, in insertion order.
    pub open spec fn names(&self) -> Seq<Seq<char>> {
        self.entries@.map_values(|e: (String, Item)| e.0@)
    }

    /// The items, in insertion order.
    pub open spec fn items(&self) -> Seq<Item> {
        self.entries@.map_values(|e: (String, Item)| e.1)
    }

    pub open spec fn spec_len(&self) -> nat {
        self.entries@.len()
    }

    /// Well-formed: no name occurs twice, every key is the name its item
    /// declares, and no entry is an import.
    pub open spec fn wf(&self) -> bool {
        &&& forall|i: int, j: int|
            0 <= i < j < self.entries@.len() ==> self.names()[i] != self.names()[j]
        &&& forall|i: int|
            0 <= i < self.entries@.len() ==> #[trigger] self.entries@[i].0@ == spec_item_name(
                self.entries@[i].1,
            )
        &&& forall|i: int| 0 <= i < self.entries@.len() ==> !is_import(#[trigger] self.entries@[i].1)
    }

    pub open spec fn contains_name(&self, name: Seq<char>) -> bool {
        exists|i: int| 0 <= i < self.entries@.len() && self.names()[i] == name
    }

    /// The index at which a name sits, when present.
    pub open spec fn index_of(&self, name: Seq<char>) -> int {
        choose|i: int| 0 <= i < self.entries@.len() && self.names()[i] == name
    }

    /// The item declared under a name, when present.
    pub open spec fn spec_get(&self, name: Seq<char>) -> Item {
        self.entries@[self.index_of(name)].1
    }

    pub fn new() -> (ns: Namespace)
        ensures
            ns.entries@ == Seq::<(String, Item)>::empty(),
            ns.wf(),
    {
        Namespace { entries: Vec::new() }
    }

    pub fn len(&self) -> (n: usize)
        ensures
            n == self.spec_len(),
    {
        self.entries.len()
    }

    /// The position of a name among the entries; `None` exactly when the
    /// namespace has no entry of that name.
    pub fn position(&self, name: &String) -> (r: Option<usize>)
        ensures
            match r {
                Some(i) => i < self.entries@.len() && self.names()[i as int] == name@
                    && self.contains_name(name@),
                None => !self.contains_name(name@),
            },
    {
        let n = self.entries.len();
        for i in 0..n
            invariant
                n == self.entries@.len(),
                forall|k: int| 0 <= k < i ==> self.names()[k] != name@,
        {
            if self.entries[i].0.eq(name) {
                proof {
                    assert(self.names()[i as int] == name@);
                }
                return Some(i);
            }
        }
        None
    }

    /// Remove and return the entry of a name; `None` exactly when the
    /// namespace has no entry of that name. The remaining entries keep
    /// their relative order, their values, and well-formedness.
    pub fn take(&mut self, name: &String) -> (r: Option<Item>)
        requires
            old(self).wf(),
        ensures
            final(self).wf(),
            match r {
                Some(item) => {
                    &&& old(self).contains_name(name@)
                    &&& item == old(self).spec_get(name@)
                    &&& spec_item_name(item) == name@
                    &&& final(self).spec_len() + 1 == old(self).spec_len()
                    &&& forall|n: Seq<char>|
                        final(self).contains_name(n) <==> (old(self).contains_name(n) && n
                            != name@)
                    &&& forall|n: Seq<char>|
                        final(self).contains_name(n) ==> final(self).spec_get(n) == old(
                            self,
                        ).spec_get(n)
                },
                None => !old(self).contains_name(name@) && *final(self) == *old(self),
            },
    {
        match self.position(name) {
            Some(p) => {
                let ghost before = self.entries@;
                let (_nm, item) = self.entries.remove(p);
                proof {
                    let pi = p as int;
                    assert(self.entries@ =~= before.remove(pi));
                    // indices shift by one past the removed position
                    assert forall|i: int| 0 <= i < self.entries@.len() implies #[trigger] self.entries@[i]
                        == (if i < pi { before[i] } else { before[i + 1] }) by {}
                    assert forall|i: int, j: int| 0 <= i < j < self.entries@.len() implies
                    self.names()[i] != self.names()[j] by {
                        let i2: int = if i < pi { i } else { i + 1 };
                        let j2: int = if j < pi { j } else { j + 1 };
                        assert(self.names()[i] == old(self).names()[i2]);
                        assert(self.names()[j] == old(self).names()[j2]);
                    }
                    assert(self.wf());
                    assert forall|n: Seq<char>| self.contains_name(n) implies (
                    old(self).contains_name(n) && n != name@) by {
                        let i = choose|i: int|
                            0 <= i < self.entries@.len() && self.names()[i] == n;
                        if i < pi {
                            assert(old(self).names()[i] == n);
                        } else {
                            assert(old(self).names()[i + 1] == n);
                        }
                    }
                    assert forall|n: Seq<char>| old(self).contains_name(n) && n != name@ implies
                    self.contains_name(n) by {
                        let i = choose|i: int| 0 <= i < before.len() && old(self).names()[i] == n;
                        if i < pi {
                            assert(self.names()[i] == n);
                        } else {
                            assert(old(self).names()[pi] == name@);
                            assert(i != pi);
                            assert(self.names()[i - 1] == n);
                        }
                    }
                    assert forall|n: Seq<char>| self.contains_name(n) implies #[trigger] self.spec_get(
                        n,
                    ) == old(self).spec_get(n) by {
                        let i = self.index_of(n);
                        let j = old(self).index_of(n);
                        assert(old(self).contains_name(n));
                        assert(0 <= j < before.len() && old(self).names()[j] == n);
                        if i < pi {
                            assert(old(self).names()[i] == n);
                            assert(i == j);
                        } else {
                            assert(old(self).names()[i + 1] == n);
                            assert(i + 1 == j);
                        }
                    }
                    assert(spec_item_name(item) == name@) by {
                        assert(before[pi].0@ == spec_item_name(before[pi].1));
                    }
                    assert(item == old(self).spec_get(name@)) by {
                        let j = old(self).index_of(name@);
                        assert(old(self).names()[j] == name@);
                        assert(old(self).names()[pi] == name@);
                        assert(j == pi);
                    }
                }
                Some(item)
            },
            None => None,
        }
    }

    /// Look a name up; `None` exactly when the namespace has no entry of
    /// that name.
    pub fn get(&self, name: &String) -> (r: Option<&Item>)
        requires
            self.wf(),
        ensures
            match r {
                Some(item) => self.contains_name(name@) && *item == self.spec_get(name@),
                None => !self.contains_name(name@),
            },
    {
        match self.position(name) {
            Some(i) => {
                proof {
                    let j = self.index_of(name@);
                    assert(0 <= j < self.entries@.len() && self.names()[j] == name@);
                    assert(i as int == j);
                }
                Some(&self.entries[i].1)
            },
            None => None,
        }
    }
}

/// Merge a file forest into one namespace. Walks items depth first,
/// descending into each import's resolved sub-tree in place. Returns the
/// namespace exactly when no two declarations share a name; otherwise the
/// `DuplicateName` diagnostic cites the first use and the reuse.
#[verifier::loop_isolation(false)]
pub fn flatten(file: File) -> (r: Result<Namespace, Diagnostic>)
    requires
        imports_resolved(file.items@),
    ensures
        match r {
            Ok(ns) => {
                &&& !has_duplicate_name(flat_seq(file.items@))
                &&& ns.wf()
                &&& ns.items() == flat_seq(file.items@)
            },
            Err(d) => {
                &&& has_duplicate_name(flat_seq(file.items@))
                &&& d.kind == ErrorKind::DuplicateName
                &&& d.labels@.len() == 2
                &&& d.labels@[0].kind == crate::diag::LabelKind::Primary
                &&& d.labels@[1].kind == crate::diag::LabelKind::Secondary
                &&& exists|i: int, j: int|
                    0 <= i < j < flat_seq(file.items@).len() && spec_item_name(
                        flat_seq(file.items@)[i],
                    ) == spec_item_name(flat_seq(file.items@)[j]) && d.labels@[0].location
                        == spec_item_name_loc(flat_seq(file.items@)[i]) && d.labels@[1].location
                        == spec_item_name_loc(flat_seq(file.items@)[j])
            },
        },
{
    let ghost orig: Seq<Item> = flat_seq(file.items@);
    let mut ns = Namespace::new();
    let mut work: Vec<Item> = file.items;

    loop
        invariant
            imports_resolved(work@),
            ns.wf(),
            orig == ns.items() + flat_seq(work@),
        decreases tree_size(work@),
    {
        proof {
            assert(ns.items().len() <= orig.len()) by {
                assert(orig.len() == ns.items().len() + flat_seq(work@).len());
            }
        }
        if work.len() == 0 {
            proof {
                assert(flat_seq(work@) =~= Seq::<Item>::empty());
                assert(ns.items() =~= orig);
                assert forall|i: int, j: int|
                    0 <= i < j < orig.len() implies spec_item_name(orig[i]) != spec_item_name(
                    orig[j],
                ) by {
                    assert(ns.entries@[i].0@ == spec_item_name(ns.entries@[i].1));
                    assert(ns.entries@[j].0@ == spec_item_name(ns.entries@[j].1));
                    assert(ns.names()[i] == ns.entries@[i].0@);
                    assert(ns.names()[j] == ns.entries@[j].0@);
                }
            }
            return Ok(ns);
        }
        let ghost work_before: Seq<Item> = work@;
        let item = work.remove(0);
        proof {
            assert(work@ =~= work_before.drop_first());
        }
        match item.item {
            ItemType::Import(imp) => {
                let mut sub: Vec<Item> = match imp.resolved {
                    Some(f) => f.items,
                    None => unreached(),
                };
                let ghost size0: nat = tree_size(work_before);
                proof {
                    assert(flat_seq(work_before) == flat_seq(sub@) + flat_seq(work@));
                    assert(size0 == 1 + tree_size(sub@) + tree_size(work@));
                }
                // splice the imported items in front of the remaining work
                while sub.len() > 0
                    invariant
                        imports_resolved(sub@),
                        imports_resolved(work@),
                        orig == ns.items() + (flat_seq(sub@) + flat_seq(work@)),
                        tree_size(sub@) + tree_size(work@) + 1 == size0,
                    decreases sub@.len(),
                {
                    let ghost sub_before: Seq<Item> = sub@;
                    let ghost work_mid: Seq<Item> = work@;
                    let last = match sub.pop() {
                        Some(l) => l,
                        None => unreached(),
                    };
                    work.insert(0, last);
                    proof {
                        assert(sub_before =~= sub@ + seq![last]);
                        lemma_flat_seq_concat(sub@, seq![last]);
                        assert(work@ =~= seq![last] + work_mid);
                        lemma_flat_seq_concat(seq![last], work_mid);
                        assert(flat_seq(sub@) + flat_seq(work@) =~= flat_seq(sub_before)
                            + flat_seq(work_mid));
                        assert(tree_size(sub@) + tree_size(work@) + 1 == size0);
                    }
                }
                proof {
                    assert(flat_seq(sub@) =~= Seq::<Item>::empty());
                    assert(flat_seq(sub@) + flat_seq(work@) =~= flat_seq(work@));
                    assert(tree_size(sub@) == 0);
                }
            },
            _ => {
                proof {
                    // the head of the flat remainder is this item
                    assert(flat_seq(work_before) == seq![item] + flat_seq(work@));
                    assert(orig[ns.items().len() as int] == item);
                }
                let name = name_of_item(&item);
                match ns.position(&name.identifier) {
                    Some(p) => {
                        let existing = name_of_item(&ns.entries[p].1);
                        let d = Diagnostic {
                            kind: ErrorKind::DuplicateName,
                            message: String::from_str("name already used"),
                            labels: vec![
                                Label::primary(
                                    existing.location,
                                    String::from_str("first used here"),
                                ),
                                Label::secondary(name.location, String::from_str("used again here")),
                            ],
                            notes: Vec::new(),
                        };
                        proof {
                            let i = p as int;
                            let j = ns.items().len() as int;
                            assert(orig[i] == ns.items()[i]);
                            assert(spec_item_name(orig[i]) == ns.entries@[i].0@);
                            assert(spec_item_name(orig[i]) == spec_item_name(orig[j]));
                        }
                        return Err(d);
                    },
                    None => {
                        let ghost items_before: Seq<Item> = ns.items();
                        let ghost names_before: Seq<Seq<char>> = ns.names();
                        let ghost n0: Seq<char> = name.identifier@;
                        ns.entries.push((name.identifier, item));
                        proof {
                            assert(ns.items() =~= items_before.push(item));
                            assert(ns.names() =~= names_before.push(n0));
                            assert(orig =~= ns.items() + flat_seq(work@));
                        }
                    },
                }
            },
        }
    }
}

} // verus!
