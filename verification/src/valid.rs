//! The validity checker. Every type reference must resolve to a struct in
//! the flattened namespace; abstract (opaque) structs may be used only
//! behind indirection; array elements must have a known layout; field and
//! argument names must be unique. Checking also records, for every item,
//! the layout dependencies that the sorter orders by: the concrete structs
//! a type embeds by value, reached through arrays but never through
//! pointers, strings, slices, owned pointers or function pointers.

use vstd::prelude::*;
use vstd::pervasive::unreached;
use vstd::string::*;
use crate::ast::{Field, Identifier, Item, ItemType, Type};
use crate::diag::{Diagnostic, ErrorKind, Label};
use crate::namespace::{spec_item_name, Namespace};

verus! {

/// `new` is `old` with zero or more elements appended.
pub open spec fn extends<T>(new: Seq<T>, old: Seq<T>) -> bool {
    old.len() <= new.len() && forall|k: int| 0 <= k < old.len() ==> new[k] == old[k]
}

/// The referenced name exists and names a struct.
pub open spec fn ident_resolves(ns: Namespace, name: Seq<char>) -> bool {
    ns.contains_name(name) && (ns.spec_get(name).item matches ItemType::Struct(_))
}

/// The referenced name exists and names a concrete struct: one declared
/// with a field list, whose layout is therefore known.
pub open spec fn names_concrete_struct(ns: Namespace, name: Seq<char>) -> bool {
    ns.contains_name(name) && match ns.spec_get(name).item {
        ItemType::Struct(s) => s.fields is Some,
        _ => false,
    }
}

/// A type's layout is known. Everything pointer-shaped is sized, an array
/// of a sized type is sized, and a named type is sized exactly when it is
/// a concrete struct. (Array element sizedness is enforced separately, for
/// every array node of every type tree.)
pub open spec fn spec_is_sized(ns: Namespace, t: Type) -> bool {
    match t {
        Type::Identifier(i) => names_concrete_struct(ns, i.identifier@),
        _ => true,
    }
}

/// Every identifier in the type tree resolves to a struct.
pub open spec fn type_resolves(ns: Namespace, t: Type) -> bool
    decreases t,
{
    match t {
        Type::Primitive { .. } => true,
        Type::Pointer(p) => type_resolves(ns, *p.ty),
        Type::Str(_) => true,
        Type::Slice(s) => type_resolves(ns, *s.ty),
        Type::Owned(o) => type_resolves(ns, *o.ty),
        Type::FunctionPointer(fp) => {
            &&& (forall|k: int|
                0 <= k < fp.args@.len() ==> type_resolves(ns, (#[trigger] fp.args@[k]).1))
            &&& match fp.returns {
                Some(r) => type_resolves(ns, *r),
                None => true,
            }
        },
        Type::Array(a) => type_resolves(ns, *a.ty),
        Type::Identifier(i) => ident_resolves(ns, i.identifier@),
    }
}

/// Every array node in the type tree has a sized element type. Arrays
/// store their elements by value, so this holds regardless of position.
pub open spec fn arrays_sized(ns: Namespace, t: Type) -> bool
    decreases t,
{
    match t {
        Type::Primitive { .. } => true,
        Type::Pointer(p) => arrays_sized(ns, *p.ty),
        Type::Str(_) => true,
        Type::Slice(s) => arrays_sized(ns, *s.ty),
        Type::Owned(o) => arrays_sized(ns, *o.ty),
        Type::FunctionPointer(fp) => {
            &&& (forall|k: int|
                0 <= k < fp.args@.len() ==> arrays_sized(ns, (#[trigger] fp.args@[k]).1))
            &&& match fp.returns {
                Some(r) => arrays_sized(ns, *r),
                None => true,
            }
        },
        Type::Array(a) => spec_is_sized(ns, *a.ty) && arrays_sized(ns, *a.ty),
        Type::Identifier(_) => true,
    }
}

/// The layout dependencies of a type: the names it embeds by value. Only
/// a bare identifier, or an identifier reached through arrays, affects the
/// containing item's layout; every pointer-shaped form needs no more than
/// a forward declaration and contributes nothing.
pub open spec fn spec_layout_deps(t: Type) -> Seq<Seq<char>>
    decreases t,
{
    match t {
        Type::Array(a) => spec_layout_deps(*a.ty),
        Type::Identifier(i) => seq![i.identifier@],
        _ => Seq::empty(),
    }
}

/// Returns whether the type's layout is known. Callable once resolution
/// has passed, so a named type here always names a struct.
pub fn is_sized(ty: &Type, items: &Namespace) -> (r: bool)
    requires
        items.wf(),
        match *ty {
            Type::Identifier(i) => items.contains_name(i.identifier@) ==> (items.spec_get(
                i.identifier@,
            ).item matches ItemType::Struct(_)),
            _ => true,
        },
    ensures
        r == spec_is_sized(*items, *ty),
{
    match ty {
        Type::Identifier(ident) => {
            match items.get(&ident.identifier) {
                Some(item) => match &item.item {
                    ItemType::Struct(s) => s.fields.is_some(),
                    _ => unreached(),
                },
                None => false,
            }
        },
        _ => true,
    }
}

/// Append the names whose layout the queried type depends on.
pub fn add_layout_deps(ty: &Type, deps: &mut Vec<String>)
    ensures
        final(deps)@.map_values(|s: String| s@) == old(deps)@.map_values(|s: String| s@)
            + spec_layout_deps(*ty),
    decreases *ty,
{
    let ghost before = deps@.map_values(|s: String| s@);
    match ty {
        Type::Array(a) => {
            add_layout_deps(&a.ty, deps);
        },
        Type::Identifier(ident) => {
            deps.push(ident.identifier.clone());
            proof {
                assert(deps@.map_values(|s: String| s@) =~= before + spec_layout_deps(*ty));
            }
        },
        _ => {
            proof {
                assert(deps@.map_values(|s: String| s@) =~= before + spec_layout_deps(*ty));
            }
        },
    }
}

/// The identifier occurs somewhere in the type tree.
pub open spec fn type_has_ident(t: Type, id: Identifier) -> bool
    decreases t,
{
    match t {
        Type::Primitive { .. } => false,
        Type::Str(_) => false,
        Type::Pointer(p) => type_has_ident(*p.ty, id),
        Type::Slice(s) => type_has_ident(*s.ty, id),
        Type::Owned(o) => type_has_ident(*o.ty, id),
        Type::FunctionPointer(fp) => {
            ||| exists|k: int|
                0 <= k < fp.args@.len() && type_has_ident((#[trigger] fp.args@[k]).1, id)
            ||| match fp.returns {
                Some(r) => type_has_ident(*r, id),
                None => false,
            }
        },
        Type::Array(a) => type_has_ident(*a.ty, id),
        Type::Identifier(i) => i == id,
    }
}

/// The diagnostic reports the reference `id` correctly: an
/// `UnresolvedIdentifier` whose name is indeed absent, or a `WrongKind`
/// whose name indeed names a function; the primary label cites the usage
/// site, and a `WrongKind` adds a secondary label at the function's
/// definition.
pub open spec fn resolve_diag_at(ns: Namespace, d: Diagnostic, id: Identifier) -> bool {
    &&& d.labels@.len() >= 1
    &&& d.labels@[0].kind == crate::diag::LabelKind::Primary
    &&& d.labels@[0].location == id.location
    &&& match d.kind {
        ErrorKind::UnresolvedIdentifier => !ns.contains_name(id.identifier@),
        ErrorKind::WrongKind => ns.contains_name(id.identifier@) && match ns.spec_get(
            id.identifier@,
        ).item {
            ItemType::Function(f) => d.labels@.len() == 2 && d.labels@[1].kind
                == crate::diag::LabelKind::Secondary && d.labels@[1].location == f.location,
            _ => false,
        },
        _ => false,
    }
}

/// The diagnostic is justified by a reference occurring in the type tree.
pub open spec fn resolve_diag_for(ns: Namespace, t: Type, d: Diagnostic) -> bool {
    exists|id: Identifier| #[trigger] resolve_diag_at(ns, d, id) && type_has_ident(t, id)
}

/// The array occurs somewhere in the type tree.
pub open spec fn type_has_array(t: Type, a: crate::ast::Array) -> bool
    decreases t,
{
    match t {
        Type::Primitive { .. } => false,
        Type::Str(_) => false,
        Type::Pointer(p) => type_has_array(*p.ty, a),
        Type::Slice(s) => type_has_array(*s.ty, a),
        Type::Owned(o) => type_has_array(*o.ty, a),
        Type::FunctionPointer(fp) => {
            ||| exists|k: int|
                0 <= k < fp.args@.len() && type_has_array((#[trigger] fp.args@[k]).1, a)
            ||| match fp.returns {
                Some(r) => type_has_array(*r, a),
                None => false,
            }
        },
        Type::Array(arr) => arr == a || type_has_array(*arr.ty, a),
        Type::Identifier(_) => false,
    }
}

/// The diagnostic reports the array `a` correctly: an `UnsizedType` whose
/// element type's layout is indeed unknown, with one primary label at the
/// array itself.
pub open spec fn array_diag_at(ns: Namespace, d: Diagnostic, a: crate::ast::Array) -> bool {
    &&& d.kind == ErrorKind::UnsizedType
    &&& d.labels@.len() == 1
    &&& d.labels@[0].kind == crate::diag::LabelKind::Primary
    &&& d.labels@[0].location == a.location
    &&& !spec_is_sized(ns, *a.ty)
}

/// The diagnostic is justified by an array occurring in the type tree.
pub open spec fn array_diag_for(ns: Namespace, t: Type, d: Diagnostic) -> bool {
    exists|a: crate::ast::Array| #[trigger] array_diag_at(ns, d, a) && type_has_array(t, a)
}

/// Array diagnostics justified against a child type are justified against
/// any type that contains it.
proof fn lift_array_diags(ns: Namespace, t: Type, child: Type, ds: Seq<Diagnostic>, from: int)
    requires
        forall|k: int| from <= k < ds.len() ==> array_diag_for(ns, child, #[trigger] ds[k]),
        forall|a: crate::ast::Array| type_has_array(child, a) ==> #[trigger] type_has_array(t, a),
    ensures
        forall|k: int| from <= k < ds.len() ==> array_diag_for(ns, t, #[trigger] ds[k]),
{
    assert forall|k: int| from <= k < ds.len() implies array_diag_for(ns, t, #[trigger] ds[k]) by {
        let a = choose|a: crate::ast::Array|
            #[trigger] array_diag_at(ns, ds[k], a) && type_has_array(child, a);
        assert(type_has_array(t, a));
    }
}

/// Diagnostics justified against a child type are justified against any
/// type that contains it.
proof fn lift_resolve_diags(ns: Namespace, t: Type, child: Type, ds: Seq<Diagnostic>, from: int)
    requires
        forall|k: int| from <= k < ds.len() ==> resolve_diag_for(ns, child, #[trigger] ds[k]),
        forall|id: Identifier| type_has_ident(child, id) ==> #[trigger] type_has_ident(t, id),
    ensures
        forall|k: int| from <= k < ds.len() ==> resolve_diag_for(ns, t, #[trigger] ds[k]),
{
    assert forall|k: int| from <= k < ds.len() implies resolve_diag_for(ns, t, #[trigger] ds[k]) by {
        let id = choose|id: Identifier|
            #[trigger] resolve_diag_at(ns, ds[k], id) && type_has_ident(child, id);
        assert(type_has_ident(t, id));
    }
}

/// Check that every identifier in the type tree resolves to a struct,
/// reporting one diagnostic per offending reference: `UnresolvedIdentifier`
/// when the name is absent, `WrongKind` when it names a function. No new
/// diagnostic is appended exactly when the type resolves, and each one
/// cites the offending reference.
#[verifier::loop_isolation(false)]
pub fn check_type_resolves(ty: &Type, ns: &Namespace, diags: &mut Vec<Diagnostic>)
    requires
        ns.wf(),
    ensures
        extends(final(diags)@, old(diags)@),
        final(diags)@.len() == old(diags)@.len() <==> type_resolves(*ns, *ty),
        forall|k: int|
            old(diags)@.len() <= k < final(diags)@.len() ==> resolve_diag_for(
                *ns,
                *ty,
                #[trigger] final(diags)@[k],
            ),
    decreases *ty,
{
    let ghost len0 = diags@.len();
    match ty {
        Type::Primitive { .. } => {},
        Type::Str(_) => {},
        Type::Pointer(p) => {
            check_type_resolves(&p.ty, ns, diags);
            proof {
                lift_resolve_diags(*ns, *ty, *p.ty, diags@, len0 as int);
            }
        },
        Type::Slice(s) => {
            check_type_resolves(&s.ty, ns, diags);
            proof {
                lift_resolve_diags(*ns, *ty, *s.ty, diags@, len0 as int);
            }
        },
        Type::Owned(o) => {
            check_type_resolves(&o.ty, ns, diags);
            proof {
                lift_resolve_diags(*ns, *ty, *o.ty, diags@, len0 as int);
            }
        },
        Type::FunctionPointer(fp) => {
            let n = fp.args.len();
            for j in 0..n
                invariant
                    ns.wf(),
                    n == fp.args@.len(),
                    extends(diags@, old(diags)@),
                    len0 == old(diags)@.len(),
                    diags@.len() == len0 <==> (forall|k: int|
                        0 <= k < j ==> type_resolves(*ns, (#[trigger] fp.args@[k]).1)),
                    forall|k: int|
                        len0 <= k < diags@.len() ==> resolve_diag_for(
                            *ns,
                            *ty,
                            #[trigger] diags@[k],
                        ),
            {
                let ghost mid = diags@.len();
                check_type_resolves(&fp.args[j].1, ns, diags);
                proof {
                    assert forall|k: int| mid <= k < diags@.len() implies resolve_diag_for(
                        *ns,
                        *ty,
                        #[trigger] diags@[k],
                    ) by {
                        let id = choose|id: Identifier|
                            #[trigger] resolve_diag_at(*ns, diags@[k], id) && type_has_ident(
                                fp.args@[j as int].1,
                                id,
                            );
                        assert(type_has_ident((fp.args@[j as int]).1, id));
                        assert(type_has_ident(*ty, id));
                    }
                }
            }
            match &fp.returns {
                Some(r) => {
                    let ghost mid = diags@.len();
                    check_type_resolves(r, ns, diags);
                    proof {
                        assert forall|k: int| mid <= k < diags@.len() implies resolve_diag_for(
                            *ns,
                            *ty,
                            #[trigger] diags@[k],
                        ) by {
                            let id = choose|id: Identifier|
                                #[trigger] resolve_diag_at(*ns, diags@[k], id) && type_has_ident(
                                    **r,
                                    id,
                                );
                            assert(type_has_ident(*ty, id));
                        }
                    }
                },
                None => {},
            }
        },
        Type::Array(a) => {
            check_type_resolves(&a.ty, ns, diags);
            proof {
                lift_resolve_diags(*ns, *ty, *a.ty, diags@, len0 as int);
            }
        },
        Type::Identifier(ident) => {
            match ns.get(&ident.identifier) {
                Some(item) => match &item.item {
                    ItemType::Struct(_) => {},
                    ItemType::Function(f) => {
                        let mut msg = String::from_str("expected type `");
                        msg.append(ident.identifier.as_str());
                        msg.append("` to name a struct");
                        diags.push(Diagnostic {
                            kind: ErrorKind::WrongKind,
                            message: msg,
                            labels: vec![
                                Label::primary(ident.location, String::from_str("got a function")),
                                Label::secondary(f.location, String::from_str("defined here")),
                            ],
                            notes: Vec::new(),
                        });
                        proof {
                            assert(resolve_diag_at(*ns, diags@.last(), *ident));
                            assert(type_has_ident(*ty, *ident));
                        }
                    },
                    ItemType::Import(_) => unreached(),
                },
                None => {
                    let mut msg = String::from_str("no type `");
                    msg.append(ident.identifier.as_str());
                    msg.append("` found");
                    diags.push(Diagnostic {
                        kind: ErrorKind::UnresolvedIdentifier,
                        message: msg,
                        labels: vec![Label::primary(ident.location, String::from_str("used here"))],
                        notes: Vec::new(),
                    });
                    proof {
                        assert(resolve_diag_at(*ns, diags@.last(), *ident));
                        assert(type_has_ident(*ty, *ident));
                    }
                },
            }
        },
    }
}

/// Check that every array node in the type tree has a sized element,
/// reporting an `UnsizedType` diagnostic on the array for each violation.
/// No new diagnostic is appended exactly when all arrays are sized.
#[verifier::loop_isolation(false)]
pub fn check_arrays_sized(ty: &Type, ns: &Namespace, diags: &mut Vec<Diagnostic>)
    requires
        ns.wf(),
        type_resolves(*ns, *ty),
    ensures
        extends(final(diags)@, old(diags)@),
        final(diags)@.len() == old(diags)@.len() <==> arrays_sized(*ns, *ty),
        forall|k: int|
            old(diags)@.len() <= k < final(diags)@.len() ==> array_diag_for(
                *ns,
                *ty,
                #[trigger] final(diags)@[k],
            ),
    decreases *ty,
{
    let ghost len0 = diags@.len();
    match ty {
        Type::Primitive { .. } => {},
        Type::Str(_) => {},
        Type::Pointer(p) => {
            check_arrays_sized(&p.ty, ns, diags);
            proof {
                lift_array_diags(*ns, *ty, *p.ty, diags@, len0 as int);
            }
        },
        Type::Slice(s) => {
            check_arrays_sized(&s.ty, ns, diags);
            proof {
                lift_array_diags(*ns, *ty, *s.ty, diags@, len0 as int);
            }
        },
        Type::Owned(o) => {
            check_arrays_sized(&o.ty, ns, diags);
            proof {
                lift_array_diags(*ns, *ty, *o.ty, diags@, len0 as int);
            }
        },
        Type::FunctionPointer(fp) => {
            let n = fp.args.len();
            for j in 0..n
                invariant
                    ns.wf(),
                    n == fp.args@.len(),
                    forall|k: int|
                        0 <= k < fp.args@.len() ==> type_resolves(*ns, (#[trigger] fp.args@[k]).1),
                    extends(diags@, old(diags)@),
                    len0 == old(diags)@.len(),
                    diags@.len() == len0 <==> (forall|k: int|
                        0 <= k < j ==> arrays_sized(*ns, (#[trigger] fp.args@[k]).1)),
                    forall|k: int|
                        len0 <= k < diags@.len() ==> array_diag_for(
                            *ns,
                            *ty,
                            #[trigger] diags@[k],
                        ),
            {
                let ghost mid = diags@.len();
                check_arrays_sized(&fp.args[j].1, ns, diags);
                proof {
                    assert forall|k: int| mid <= k < diags@.len() implies array_diag_for(
                        *ns,
                        *ty,
                        #[trigger] diags@[k],
                    ) by {
                        let a = choose|a: crate::ast::Array|
                            #[trigger] array_diag_at(*ns, diags@[k], a) && type_has_array(
                                fp.args@[j as int].1,
                                a,
                            );
                        assert(type_has_array((fp.args@[j as int]).1, a));
                        assert(type_has_array(*ty, a));
                    }
                }
            }
            match &fp.returns {
                Some(r) => {
                    let ghost mid = diags@.len();
                    check_arrays_sized(r, ns, diags);
                    proof {
                        assert forall|k: int| mid <= k < diags@.len() implies array_diag_for(
                            *ns,
                            *ty,
                            #[trigger] diags@[k],
                        ) by {
                            let a = choose|a: crate::ast::Array|
                                #[trigger] array_diag_at(*ns, diags@[k], a) && type_has_array(
                                    **r,
                                    a,
                                );
                            assert(type_has_array(*ty, a));
                        }
                    }
                },
                None => {},
            }
        },
        Type::Array(a) => {
            proof {
                assert(type_resolves(*ns, *a.ty));
            }
            if !is_sized(&a.ty, ns) {
                diags.push(Diagnostic {
                    kind: ErrorKind::UnsizedType,
                    message: String::from_str("array element must be a sized type"),
                    labels: vec![
                        Label::primary(
                            a.location,
                            String::from_str(
                                "structs without fields are not sized, but can be referenced through pointers",
                            ),
                        ),
                    ],
                    notes: Vec::new(),
                });
                proof {
                    assert(array_diag_at(*ns, diags@.last(), *a));
                    assert(type_has_array(*ty, *a));
                }
            }
            let ghost mid = diags@.len();
            check_arrays_sized(&a.ty, ns, diags);
            proof {
                lift_array_diags(*ns, *ty, *a.ty, diags@, mid as int);
            }
        },
        Type::Identifier(_) => {},
    }
}

/// Every type written in the item resolves.
pub open spec fn item_resolves(ns: Namespace, item: Item) -> bool {
    match item.item {
        ItemType::Import(_) => true,
        ItemType::Struct(s) => match s.fields {
            None => true,
            Some(fs) => forall|k: int|
                0 <= k < fs@.len() ==> type_resolves(ns, (#[trigger] fs@[k]).ty),
        },
        ItemType::Function(f) => {
            &&& (forall|k: int|
                0 <= k < f.args@.len() ==> type_resolves(ns, (#[trigger] f.args@[k]).1))
            &&& type_resolves(ns, *f.returns)
        },
    }
}

/// Every array written in the item has a sized element.
pub open spec fn item_arrays_sized(ns: Namespace, item: Item) -> bool {
    match item.item {
        ItemType::Import(_) => true,
        ItemType::Struct(s) => match s.fields {
            None => true,
            Some(fs) => forall|k: int|
                0 <= k < fs@.len() ==> arrays_sized(ns, (#[trigger] fs@[k]).ty),
        },
        ItemType::Function(f) => {
            &&& (forall|k: int|
                0 <= k < f.args@.len() ==> arrays_sized(ns, (#[trigger] f.args@[k]).1))
            &&& arrays_sized(ns, *f.returns)
        },
    }
}

/// No two fields share a name.
pub open spec fn fields_unique(fs: Seq<Field>) -> bool {
    forall|i: int, j: int|
        0 <= i < j < fs.len() ==> fs[i].name.identifier@ != fs[j].name.identifier@
}

/// No two arguments share a name.
pub open spec fn args_unique(args: Seq<(Identifier, Type)>) -> bool {
    forall|i: int, j: int|
        0 <= i < j < args.len() ==> args[i].0.identifier@ != args[j].0.identifier@
}

/// Field and argument names are unique, and every value-position type (a
/// field, an argument, a return type) has a known layout.
pub open spec fn item_shape_ok(ns: Namespace, item: Item) -> bool {
    match item.item {
        ItemType::Import(_) => true,
        ItemType::Struct(s) => match s.fields {
            None => true,
            Some(fs) => fields_unique(fs@) && (forall|k: int|
                0 <= k < fs@.len() ==> spec_is_sized(ns, (#[trigger] fs@[k]).ty)),
        },
        ItemType::Function(f) => {
            &&& args_unique(f.args@)
            &&& (forall|k: int|
                0 <= k < f.args@.len() ==> spec_is_sized(ns, (#[trigger] f.args@[k]).1))
            &&& spec_is_sized(ns, *f.returns)
        },
    }
}

/// The namespace passes every validity rule.
pub open spec fn namespace_valid(ns: Namespace) -> bool {
    forall|i: int|
        0 <= i < ns.items().len() ==> {
            &&& item_resolves(ns, #[trigger] ns.items()[i])
            &&& item_arrays_sized(ns, ns.items()[i])
            &&& item_shape_ok(ns, ns.items()[i])
        }
}

/// The layout dependencies of a prefix of a field list, in field order.
pub open spec fn fields_deps(fs: Seq<Field>) -> Seq<Seq<char>>
    decreases fs,
{
    if fs.len() == 0 {
        Seq::empty()
    } else {
        fields_deps(fs.drop_last()) + spec_layout_deps(fs.last().ty)
    }
}

/// The layout dependencies of a prefix of an argument list, in order.
pub open spec fn args_deps(args: Seq<(Identifier, Type)>) -> Seq<Seq<char>>
    decreases args,
{
    if args.len() == 0 {
        Seq::empty()
    } else {
        args_deps(args.drop_last()) + spec_layout_deps(args.last().1)
    }
}

/// The layout dependencies of one item: those of its fields in order, or
/// those of its arguments followed by those of its return type.
pub open spec fn item_deps(item: Item) -> Seq<Seq<char>> {
    match item.item {
        ItemType::Import(_) => Seq::empty(),
        ItemType::Struct(s) => match s.fields {
            None => Seq::empty(),
            Some(fs) => fields_deps(fs@),
        },
        ItemType::Function(f) => args_deps(f.args@) + spec_layout_deps(*f.returns),
    }
}

/// Whether the item takes part in the dependency graph: concrete structs
/// and functions do; abstract structs do not.
pub open spec fn has_dep_entry(item: Item) -> bool {
    match item.item {
        ItemType::Import(_) => false,
        ItemType::Struct(s) => s.fields is Some,
        ItemType::Function(_) => true,
    }
}

/// The dependency entries one item contributes: one, keyed by its name,
/// when it takes part in the graph; none otherwise.
pub open spec fn dep_entry_of(item: Item) -> Seq<(Seq<char>, Seq<Seq<char>>)> {
    if has_dep_entry(item) {
        seq![(crate::namespace::spec_item_name(item), item_deps(item))]
    } else {
        Seq::empty()
    }
}

/// The dependency entries of an item sequence, in item order: one entry,
/// name to dependency list, per concrete struct or function.
pub open spec fn spec_dep_entries(items: Seq<Item>) -> Seq<(Seq<char>, Seq<Seq<char>>)>
    decreases items,
{
    if items.len() == 0 {
        Seq::empty()
    } else {
        spec_dep_entries(items.drop_last()) + dep_entry_of(items.last())
    }
}

/// The per-item layout-dependency lists, keyed by item name, in first-seen
/// namespace order.
pub struct Dependencies {
    pub entries: Vec<(String, Vec<String>)>,
}

impl Dependencies {
    /// The entries as mathematical sequences.
    pub open spec fn view_entries(&self) -> Seq<(Seq<char>, Seq<Seq<char>>)> {
        self.entries@.map_values(
            |e: (String, Vec<String>)| (e.0@, e.1@.map_values(|s: String| s@)),
        )
    }

    pub open spec fn keys(&self) -> Seq<Seq<char>> {
        self.entries@.map_values(|e: (String, Vec<String>)| e.0@)
    }
}

/// The diagnostic is justified by a reference in one of the item's types.
pub open spec fn item_resolve_diag_for(ns: Namespace, item: Item, d: Diagnostic) -> bool {
    match item.item {
        ItemType::Import(_) => false,
        ItemType::Struct(s) => match s.fields {
            None => false,
            Some(fs) => exists|k: int|
                0 <= k < fs@.len() && resolve_diag_for(ns, (#[trigger] fs@[k]).ty, d),
        },
        ItemType::Function(f) => {
            ||| exists|k: int|
                0 <= k < f.args@.len() && resolve_diag_for(ns, (#[trigger] f.args@[k]).1, d)
            ||| resolve_diag_for(ns, *f.returns, d)
        },
    }
}

/// The diagnostic is justified by an array in one of the item's types.
pub open spec fn item_array_diag_for(ns: Namespace, item: Item, d: Diagnostic) -> bool {
    match item.item {
        ItemType::Import(_) => false,
        ItemType::Struct(s) => match s.fields {
            None => false,
            Some(fs) => exists|k: int|
                0 <= k < fs@.len() && array_diag_for(ns, (#[trigger] fs@[k]).ty, d),
        },
        ItemType::Function(f) => {
            ||| exists|k: int|
                0 <= k < f.args@.len() && array_diag_for(ns, (#[trigger] f.args@[k]).1, d)
            ||| array_diag_for(ns, *f.returns, d)
        },
    }
}

/// `t` stands in a value position of the item: as a field type, an
/// argument type, or the return type.
pub open spec fn item_value_type(item: Item, t: Type) -> bool {
    match item.item {
        ItemType::Import(_) => false,
        ItemType::Struct(s) => match s.fields {
            None => false,
            Some(fs) => exists|k: int| 0 <= k < fs@.len() && (#[trigger] fs@[k]).ty == t,
        },
        ItemType::Function(f) => {
            ||| exists|k: int| 0 <= k < f.args@.len() && (#[trigger] f.args@[k]).1 == t
            ||| *f.returns == t
        },
    }
}

/// The diagnostic reports an abstract struct embedded by value: an
/// `AbstractTypeMisuse` whose one primary label cites a value-position type
/// of the item whose layout is indeed unknown.
pub open spec fn abstract_diag_for(ns: Namespace, item: Item, d: Diagnostic) -> bool {
    &&& d.kind == ErrorKind::AbstractTypeMisuse
    &&& d.labels@.len() == 1
    &&& d.labels@[0].kind == crate::diag::LabelKind::Primary
    &&& exists|t: Type|
        #[trigger] item_value_type(item, t) && d.labels@[0].location == t.spec_location()
            && !spec_is_sized(ns, t)
}

/// The diagnostic reports two fields of the item sharing one name: a
/// `DuplicateName` whose primary label cites the later occurrence and whose
/// secondary label cites an earlier one.
pub open spec fn dup_field_diag_for(item: Item, d: Diagnostic) -> bool {
    &&& d.kind == ErrorKind::DuplicateName
    &&& d.labels@.len() == 2
    &&& d.labels@[0].kind == crate::diag::LabelKind::Primary
    &&& d.labels@[1].kind == crate::diag::LabelKind::Secondary
    &&& match item.item {
        ItemType::Struct(s) => match s.fields {
            None => false,
            Some(fs) => exists|i: int, j: int|
                0 <= i < j < fs@.len() && (#[trigger] fs@[i]).name.identifier@ == (
                #[trigger] fs@[j]).name.identifier@ && d.labels@[0].location
                    == fs@[j].name.location && d.labels@[1].location == fs@[i].name.location,
        },
        _ => false,
    }
}

/// As `dup_field_diag_for`, for two arguments of a function.
pub open spec fn dup_arg_diag_for(item: Item, d: Diagnostic) -> bool {
    &&& d.kind == ErrorKind::DuplicateName
    &&& d.labels@.len() == 2
    &&& d.labels@[0].kind == crate::diag::LabelKind::Primary
    &&& d.labels@[1].kind == crate::diag::LabelKind::Secondary
    &&& match item.item {
        ItemType::Function(f) => exists|i: int, j: int|
            0 <= i < j < f.args@.len() && (#[trigger] f.args@[i]).0.identifier@ == (
            #[trigger] f.args@[j]).0.identifier@ && d.labels@[0].location
                == f.args@[j].0.location && d.labels@[1].location == f.args@[i].0.location,
        _ => false,
    }
}

/// The diagnostic is justified by a uniqueness or sizedness violation in
/// the item.
pub open spec fn item_shape_diag_for(ns: Namespace, item: Item, d: Diagnostic) -> bool {
    ||| dup_field_diag_for(item, d)
    ||| dup_arg_diag_for(item, d)
    ||| abstract_diag_for(ns, item, d)
}

/// The diagnostic is justified by a real violation at some item of the
/// namespace, of the kind it claims, with its labels at the offending
/// source locations.
pub open spec fn diag_justified(ns: Namespace, d: Diagnostic) -> bool {
    exists|i: int|
        0 <= i < ns.items().len() && {
            let item = #[trigger] ns.items()[i];
            ||| item_resolve_diag_for(ns, item, d)
            ||| item_array_diag_for(ns, item, d)
            ||| item_shape_diag_for(ns, item, d)
        }
}

/// Check that every type written in the item resolves.
#[verifier::loop_isolation(false)]
pub fn check_item_resolves(item: &Item, ns: &Namespace, diags: &mut Vec<Diagnostic>)
    requires
        ns.wf(),
        !crate::namespace::is_import(*item),
    ensures
        extends(final(diags)@, old(diags)@),
        final(diags)@.len() == old(diags)@.len() <==> item_resolves(*ns, *item),
        forall|k: int|
            old(diags)@.len() <= k < final(diags)@.len() ==> item_resolve_diag_for(
                *ns,
                *item,
                #[trigger] final(diags)@[k],
            ),
{
    let ghost len0 = diags@.len();
    match &item.item {
        ItemType::Import(_) => unreached(),
        ItemType::Struct(s) => match &s.fields {
            None => {},
            Some(fields) => {
                let n = fields.len();
                for j in 0..n
                    invariant
                        extends(diags@, old(diags)@),
                        diags@.len() == len0 <==> (forall|k: int|
                            0 <= k < j ==> type_resolves(*ns, (#[trigger] fields@[k]).ty)),
                        forall|k: int|
                            len0 <= k < diags@.len() ==> item_resolve_diag_for(
                                *ns,
                                *item,
                                #[trigger] diags@[k],
                            ),
                {
                    let ghost mid = diags@.len();
                    check_type_resolves(&fields[j].ty, ns, diags);
                    proof {
                        assert forall|k: int| mid <= k < diags@.len() implies
                        item_resolve_diag_for(*ns, *item, #[trigger] diags@[k]) by {
                            assert(resolve_diag_for(*ns, (fields@[j as int]).ty, diags@[k]));
                        }
                    }
                }
            },
        },
        ItemType::Function(f) => {
            let n = f.args.len();
            for j in 0..n
                invariant
                    extends(diags@, old(diags)@),
                    diags@.len() == len0 <==> (forall|k: int|
                        0 <= k < j ==> type_resolves(*ns, (#[trigger] f.args@[k]).1)),
                    forall|k: int|
                        len0 <= k < diags@.len() ==> item_resolve_diag_for(
                            *ns,
                            *item,
                            #[trigger] diags@[k],
                        ),
            {
                let ghost mid = diags@.len();
                check_type_resolves(&f.args[j].1, ns, diags);
                proof {
                    assert forall|k: int| mid <= k < diags@.len() implies item_resolve_diag_for(
                        *ns,
                        *item,
                        #[trigger] diags@[k],
                    ) by {
                        assert(resolve_diag_for(*ns, (f.args@[j as int]).1, diags@[k]));
                    }
                }
            }
            check_type_resolves(&f.returns, ns, diags);
        },
    }
}

/// Check that every array written in the item has a sized element.
#[verifier::loop_isolation(false)]
pub fn check_item_arrays(item: &Item, ns: &Namespace, diags: &mut Vec<Diagnostic>)
    requires
        ns.wf(),
        !crate::namespace::is_import(*item),
        item_resolves(*ns, *item),
    ensures
        extends(final(diags)@, old(diags)@),
        final(diags)@.len() == old(diags)@.len() <==> item_arrays_sized(*ns, *item),
        forall|k: int|
            old(diags)@.len() <= k < final(diags)@.len() ==> item_array_diag_for(
                *ns,
                *item,
                #[trigger] final(diags)@[k],
            ),
{
    let ghost len0 = diags@.len();
    match &item.item {
        ItemType::Import(_) => unreached(),
        ItemType::Struct(s) => match &s.fields {
            None => {},
            Some(fields) => {
                let n = fields.len();
                for j in 0..n
                    invariant
                        extends(diags@, old(diags)@),
                        diags@.len() == len0 <==> (forall|k: int|
                            0 <= k < j ==> arrays_sized(*ns, (#[trigger] fields@[k]).ty)),
                        forall|k: int|
                            len0 <= k < diags@.len() ==> item_array_diag_for(
                                *ns,
                                *item,
                                #[trigger] diags@[k],
                            ),
                {
                    let ghost mid = diags@.len();
                    check_arrays_sized(&fields[j].ty, ns, diags);
                    proof {
                        assert forall|k: int| mid <= k < diags@.len() implies item_array_diag_for(
                            *ns,
                            *item,
                            #[trigger] diags@[k],
                        ) by {
                            assert(array_diag_for(*ns, (fields@[j as int]).ty, diags@[k]));
                        }
                    }
                }
            },
        },
        ItemType::Function(f) => {
            let n = f.args.len();
            for j in 0..n
                invariant
                    extends(diags@, old(diags)@),
                    diags@.len() == len0 <==> (forall|k: int|
                        0 <= k < j ==> arrays_sized(*ns, (#[trigger] f.args@[k]).1)),
                    forall|k: int|
                        len0 <= k < diags@.len() ==> item_array_diag_for(
                            *ns,
                            *item,
                            #[trigger] diags@[k],
                        ),
            {
                let ghost mid = diags@.len();
                check_arrays_sized(&f.args[j].1, ns, diags);
                proof {
                    assert forall|k: int| mid <= k < diags@.len() implies item_array_diag_for(
                        *ns,
                        *item,
                        #[trigger] diags@[k],
                    ) by {
                        assert(array_diag_for(*ns, (f.args@[j as int]).1, diags@[k]));
                    }
                }
            }
            check_arrays_sized(&f.returns, ns, diags);
        },
    }
}

/// Check field or argument name uniqueness and value-position sizedness for
/// one item, and append the item's dependency entry. Duplicate names are
/// `DuplicateName` diagnostics citing both occurrences; an abstract struct
/// embedded by value is an `AbstractTypeMisuse` diagnostic. Detection does
/// not short-circuit the rest of the item's checks.
#[verifier::loop_isolation(false)]
#[verifier::rlimit(80)]
pub fn check_item_shape(
    item: &Item,
    ns: &Namespace,
    diags: &mut Vec<Diagnostic>,
    deps: &mut Dependencies,
)
    requires
        ns.wf(),
        !crate::namespace::is_import(*item),
        item_resolves(*ns, *item),
    ensures
        extends(final(diags)@, old(diags)@),
        final(diags)@.len() == old(diags)@.len() <==> item_shape_ok(*ns, *item),
        forall|k: int|
            old(diags)@.len() <= k < final(diags)@.len() ==> item_shape_diag_for(
                *ns,
                *item,
                #[trigger] final(diags)@[k],
            ),
        final(deps).view_entries() == old(deps).view_entries() + dep_entry_of(*item),
{
    let ghost len0 = diags@.len();
    let ghost deps0 = deps.view_entries();
    match &item.item {
        ItemType::Import(_) => unreached(),
        ItemType::Struct(s) => match &s.fields {
            None => {
                proof {
                    assert(deps.view_entries() =~= deps0 + dep_entry_of(*item));
                }
            },
            Some(fields) => {
                let mut these: Vec<String> = Vec::new();
                let n = fields.len();
                for j in 0..n
                    invariant
                        extends(diags@, old(diags)@),
                        diags@.len() == len0 <==> (fields_unique(fields@.take(j as int)) && (
                        forall|k: int|
                            0 <= k < j ==> spec_is_sized(*ns, (#[trigger] fields@[k]).ty))),
                        forall|k: int|
                            len0 <= k < diags@.len() ==> item_shape_diag_for(
                                *ns,
                                *item,
                                #[trigger] diags@[k],
                            ),
                        these@.map_values(|s: String| s@) == fields_deps(fields@.take(j as int)),
                        deps.view_entries() == deps0,
                {
                    let field = &fields[j];
                    // the most recent earlier field of the same name, if any
                    let mut found: Option<usize> = None;
                    for k in 0..j
                        invariant
                            match found {
                                Some(k0) => k0 < j && fields@[k0 as int].name.identifier@
                                    == fields@[j as int].name.identifier@,
                                None => forall|m: int|
                                    0 <= m < k ==> (#[trigger] fields@[m]).name.identifier@
                                        != fields@[j as int].name.identifier@,
                            },
                    {
                        if fields[k].name.identifier.eq(&field.name.identifier) {
                            found = Some(k);
                        }
                    }
                    match found {
                        Some(k0) => {
                            diags.push(Diagnostic {
                                kind: ErrorKind::DuplicateName,
                                message: String::from_str("field names must be unique"),
                                labels: vec![
                                    Label::primary(
                                        field.name.location,
                                        String::from_str("duplicate field name"),
                                    ),
                                    Label::secondary(
                                        fields[k0].name.location,
                                        String::from_str("first used here"),
                                    ),
                                ],
                                notes: Vec::new(),
                            });
                            proof {
                                assert(fields@.take(j + 1)[k0 as int] == fields@[k0 as int]);
                                assert(fields@.take(j + 1)[j as int] == fields@[j as int]);
                                assert(!fields_unique(fields@.take(j + 1)));
                                assert(dup_field_diag_for(*item, diags@.last()));
                            }
                        },
                        None => {
                            proof {
                                if fields_unique(fields@.take(j as int)) {
                                    assert forall|x: int, y: int|
                                        0 <= x < y < j + 1 implies (#[trigger] fields@.take(
                                        j + 1,
                                    )[x]).name.identifier@ != (#[trigger] fields@.take(
                                        j + 1,
                                    )[y]).name.identifier@ by {
                                        assert(fields@.take(j + 1)[x] == fields@[x]);
                                        assert(fields@.take(j + 1)[y] == fields@[y]);
                                        if y < j {
                                            assert(fields@.take(j as int)[x] == fields@[x]);
                                            assert(fields@.take(j as int)[y] == fields@[y]);
                                        }
                                    }
                                    assert(fields_unique(fields@.take(j + 1)));
                                } else {
                                    let (x, y) = choose|x: int, y: int|
                                        0 <= x < y < j && (#[trigger] fields@.take(
                                            j as int,
                                        )[x]).name.identifier@ == (#[trigger] fields@.take(
                                            j as int,
                                        )[y]).name.identifier@;
                                    assert(fields@.take(j + 1)[x] == fields@[x]);
                                    assert(fields@.take(j + 1)[y] == fields@[y]);
                                    assert(!fields_unique(fields@.take(j + 1)));
                                }
                            }
                        },
                    }
                    proof {
                        assert(type_resolves(*ns, fields@[j as int].ty));
                    }
                    if !is_sized(&field.ty, ns) {
                        diags.push(Diagnostic {
                            kind: ErrorKind::AbstractTypeMisuse,
                            message: String::from_str("field is not a sized type"),
                            labels: vec![
                                Label::primary(
                                    *field.ty.location(),
                                    String::from_str(
                                        "structs without fields are not sized, but can be referenced through pointers",
                                    ),
                                ),
                            ],
                            notes: Vec::new(),
                        });
                        proof {
                            assert(item_value_type(*item, fields@[j as int].ty));
                            assert(abstract_diag_for(*ns, *item, diags@.last()));
                        }
                    }
                    let ghost these_before = these@.map_values(|s: String| s@);
                    add_layout_deps(&field.ty, &mut these);
                    proof {
                        assert(fields@.take(j + 1).drop_last() =~= fields@.take(j as int));
                        assert(fields@.take(j + 1).last() == fields@[j as int]);
                    }
                }
                proof {
                    assert(fields@.take(n as int) =~= fields@);
                }
                let name = crate::namespace::name_of_item(item);
                deps.entries.push((name.identifier, these));
                proof {
                    assert(deps.view_entries() =~= deps0 + dep_entry_of(*item));
                }
            },
        },
        ItemType::Function(f) => {
            let mut these: Vec<String> = Vec::new();
            let n = f.args.len();
            for j in 0..n
                invariant
                    extends(diags@, old(diags)@),
                    diags@.len() == len0 <==> (args_unique(f.args@.take(j as int)) && (
                    forall|k: int|
                        0 <= k < j ==> spec_is_sized(*ns, (#[trigger] f.args@[k]).1))),
                    forall|k: int|
                        len0 <= k < diags@.len() ==> item_shape_diag_for(
                            *ns,
                            *item,
                            #[trigger] diags@[k],
                        ),
                    these@.map_values(|s: String| s@) == args_deps(f.args@.take(j as int)),
                    deps.view_entries() == deps0,
            {
                let arg_name = &f.args[j].0;
                let mut found: Option<usize> = None;
                for k in 0..j
                    invariant
                        match found {
                            Some(k0) => k0 < j && f.args@[k0 as int].0.identifier@
                                == f.args@[j as int].0.identifier@,
                            None => forall|m: int|
                                0 <= m < k ==> (#[trigger] f.args@[m]).0.identifier@
                                    != f.args@[j as int].0.identifier@,
                        },
                {
                    if f.args[k].0.identifier.eq(&arg_name.identifier) {
                        found = Some(k);
                    }
                }
                match found {
                    Some(k0) => {
                        diags.push(Diagnostic {
                            kind: ErrorKind::DuplicateName,
                            message: String::from_str("argument name must be unique"),
                            labels: vec![
                                Label::primary(
                                    arg_name.location,
                                    String::from_str("duplicate argument name"),
                                ),
                                Label::secondary(
                                    f.args[k0].0.location,
                                    String::from_str("first used here"),
                                ),
                            ],
                            notes: Vec::new(),
                        });
                        proof {
                            assert(f.args@.take(j + 1)[k0 as int] == f.args@[k0 as int]);
                            assert(f.args@.take(j + 1)[j as int] == f.args@[j as int]);
                            assert(!args_unique(f.args@.take(j + 1)));
                            assert(dup_arg_diag_for(*item, diags@.last()));
                        }
                    },
                    None => {
                        proof {
                            if args_unique(f.args@.take(j as int)) {
                                assert forall|x: int, y: int|
                                    0 <= x < y < j + 1 implies (#[trigger] f.args@.take(
                                    j + 1,
                                )[x]).0.identifier@ != (#[trigger] f.args@.take(
                                    j + 1,
                                )[y]).0.identifier@ by {
                                    assert(f.args@.take(j + 1)[x] == f.args@[x]);
                                    assert(f.args@.take(j + 1)[y] == f.args@[y]);
                                    if y < j {
                                        assert(f.args@.take(j as int)[x] == f.args@[x]);
                                        assert(f.args@.take(j as int)[y] == f.args@[y]);
                                    }
                                }
                                assert(args_unique(f.args@.take(j + 1)));
                            } else {
                                let (x, y) = choose|x: int, y: int|
                                    0 <= x < y < j && (#[trigger] f.args@.take(
                                        j as int,
                                    )[x]).0.identifier@ == (#[trigger] f.args@.take(
                                        j as int,
                                    )[y]).0.identifier@;
                                assert(f.args@.take(j + 1)[x] == f.args@[x]);
                                assert(f.args@.take(j + 1)[y] == f.args@[y]);
                                assert(!args_unique(f.args@.take(j + 1)));
                            }
                        }
                    },
                }
                proof {
                    assert(type_resolves(*ns, f.args@[j as int].1));
                }
                if !is_sized(&f.args[j].1, ns) {
                    diags.push(Diagnostic {
                        kind: ErrorKind::AbstractTypeMisuse,
                        message: String::from_str("argument is not a sized type"),
                        labels: vec![
                            Label::primary(
                                *f.args[j].1.location(),
                                String::from_str(
                                    "structs without fields are not sized, but can be referenced through pointers",
                                ),
                            ),
                        ],
                        notes: Vec::new(),
                    });
                    proof {
                        assert(item_value_type(*item, f.args@[j as int].1));
                        assert(abstract_diag_for(*ns, *item, diags@.last()));
                    }
                }
                add_layout_deps(&f.args[j].1, &mut these);
                proof {
                    assert(f.args@.take(j + 1).drop_last() =~= f.args@.take(j as int));
                    assert(f.args@.take(j + 1).last() == f.args@[j as int]);
                }
            }
            proof {
                assert(f.args@.take(n as int) =~= f.args@);
            }
            add_layout_deps(&f.returns, &mut these);
            if !is_sized(&f.returns, ns) {
                diags.push(Diagnostic {
                    kind: ErrorKind::AbstractTypeMisuse,
                    message: String::from_str("return type is not a sized type"),
                    labels: vec![
                        Label::primary(
                            *f.returns.location(),
                            String::from_str(
                                "structs without fields are not sized, but can be referenced through pointers",
                            ),
                        ),
                    ],
                    notes: Vec::new(),
                });
                proof {
                    assert(item_value_type(*item, *f.returns));
                    assert(abstract_diag_for(*ns, *item, diags@.last()));
                }
            }
            let name = crate::namespace::name_of_item(item);
            deps.entries.push((name.identifier, these));
            proof {
                assert(deps.view_entries() =~= deps0 + dep_entry_of(*item));
            }
        },
    }
}

/// Run every validity rule over the namespace. Returns the per-item layout
/// dependencies exactly when the whole namespace is valid; otherwise at
/// least one diagnostic. Diagnostics of independent items are batched
/// within a pass, but any error fails the phase as a whole.
#[verifier::loop_isolation(false)]
pub fn check(ns: &Namespace) -> (r: Result<Dependencies, Vec<Diagnostic>>)
    requires
        ns.wf(),
    ensures
        match r {
            Ok(deps) => namespace_valid(*ns) && deps.view_entries() == spec_dep_entries(
                ns.items(),
            ),
            Err(ds) => !namespace_valid(*ns) && ds@.len() > 0 && (forall|k: int|
                0 <= k < ds@.len() ==> diag_justified(*ns, #[trigger] ds@[k])),
        },
{
    let mut diags: Vec<Diagnostic> = Vec::new();
    let n = ns.entries.len();

    // resolution of every identifier, over all items
    for idx in 0..n
        invariant
            diags@.len() == 0 <==> (forall|i: int|
                0 <= i < idx ==> item_resolves(*ns, #[trigger] ns.items()[i])),
            forall|k: int| 0 <= k < diags@.len() ==> diag_justified(*ns, #[trigger] diags@[k]),
    {
        proof {
            assert(ns.items()[idx as int] == ns.entries@[idx as int].1);
        }
        let ghost mid = diags@.len();
        check_item_resolves(&ns.entries[idx].1, ns, &mut diags);
        proof {
            assert forall|k: int| mid <= k < diags@.len() implies diag_justified(
                *ns,
                #[trigger] diags@[k],
            ) by {
                assert(item_resolve_diag_for(*ns, ns.items()[idx as int], diags@[k]));
            }
        }
    }
    if diags.len() > 0 {
        proof {
            let i = choose|i: int| 0 <= i < n && !item_resolves(*ns, #[trigger] ns.items()[i]);
            assert(!namespace_valid(*ns));
        }
        return Err(diags);
    }

    // sizedness of every array element, over all items
    for idx in 0..n
        invariant
            forall|i: int| 0 <= i < n ==> item_resolves(*ns, #[trigger] ns.items()[i]),
            diags@.len() == 0 <==> (forall|i: int|
                0 <= i < idx ==> item_arrays_sized(*ns, #[trigger] ns.items()[i])),
            forall|k: int| 0 <= k < diags@.len() ==> diag_justified(*ns, #[trigger] diags@[k]),
    {
        proof {
            assert(ns.items()[idx as int] == ns.entries@[idx as int].1);
        }
        let ghost mid = diags@.len();
        check_item_arrays(&ns.entries[idx].1, ns, &mut diags);
        proof {
            assert forall|k: int| mid <= k < diags@.len() implies diag_justified(
                *ns,
                #[trigger] diags@[k],
            ) by {
                assert(item_array_diag_for(*ns, ns.items()[idx as int], diags@[k]));
            }
        }
    }
    if diags.len() > 0 {
        proof {
            let i = choose|i: int| 0 <= i < n && !item_arrays_sized(*ns, #[trigger] ns.items()[i]);
            assert(!namespace_valid(*ns));
        }
        return Err(diags);
    }

    // name uniqueness and value-position sizedness, recording dependencies
    let mut deps = Dependencies { entries: Vec::new() };
    proof {
        assert(deps.view_entries() =~= Seq::<(Seq<char>, Seq<Seq<char>>)>::empty());
    }
    for idx in 0..n
        invariant
            forall|i: int| 0 <= i < n ==> item_resolves(*ns, #[trigger] ns.items()[i]),
            forall|i: int| 0 <= i < n ==> item_arrays_sized(*ns, #[trigger] ns.items()[i]),
            diags@.len() == 0 <==> (forall|i: int|
                0 <= i < idx ==> item_shape_ok(*ns, #[trigger] ns.items()[i])),
            deps.view_entries() == spec_dep_entries(ns.items().take(idx as int)),
            forall|k: int| 0 <= k < diags@.len() ==> diag_justified(*ns, #[trigger] diags@[k]),
    {
        proof {
            assert(ns.items()[idx as int] == ns.entries@[idx as int].1);
        }
        let ghost deps_before = deps.view_entries();
        let ghost mid = diags@.len();
        check_item_shape(&ns.entries[idx].1, ns, &mut diags, &mut deps);
        proof {
            assert(ns.items().take(idx + 1).drop_last() =~= ns.items().take(idx as int));
            assert(ns.items().take(idx + 1).last() == ns.items()[idx as int]);
            assert forall|k: int| mid <= k < diags@.len() implies diag_justified(
                *ns,
                #[trigger] diags@[k],
            ) by {
                assert(item_shape_diag_for(*ns, ns.items()[idx as int], diags@[k]));
            }
        }
    }
    if diags.len() > 0 {
        proof {
            let i = choose|i: int| 0 <= i < n && !item_shape_ok(*ns, #[trigger] ns.items()[i]);
            assert(!namespace_valid(*ns));
        }
        return Err(diags);
    }
    proof {
        assert(ns.items().take(n as int) =~= ns.items());
    }
    Ok(deps)
}

/// Every name a type contributes to the layout dependencies names a
/// concrete struct, provided the type passed every check.
pub proof fn lemma_type_deps_concrete(ns: Namespace, t: Type)
    requires
        type_resolves(ns, t),
        arrays_sized(ns, t),
        spec_is_sized(ns, t),
    ensures
        forall|x: int|
            0 <= x < spec_layout_deps(t).len() ==> names_concrete_struct(
                ns,
                #[trigger] spec_layout_deps(t)[x],
            ),
    decreases t,
{
    match t {
        Type::Array(a) => {
            lemma_type_deps_concrete(ns, *a.ty);
            assert forall|x: int| 0 <= x < spec_layout_deps(t).len() implies
            names_concrete_struct(ns, #[trigger] spec_layout_deps(t)[x]) by {
                assert(spec_layout_deps(t)[x] == spec_layout_deps(*a.ty)[x]);
            }
        },
        _ => {},
    }
}

/// Every name among an item's layout dependencies names a concrete struct,
/// provided the item passed every check.
pub proof fn lemma_item_deps_concrete(ns: Namespace, item: Item)
    requires
        item_resolves(ns, item),
        item_arrays_sized(ns, item),
        item_shape_ok(ns, item),
    ensures
        forall|x: int|
            0 <= x < item_deps(item).len() ==> names_concrete_struct(
                ns,
                #[trigger] item_deps(item)[x],
            ),
{
    match item.item {
        ItemType::Import(_) => {},
        ItemType::Struct(s) => match s.fields {
            None => {},
            Some(fs) => {
                lemma_fields_deps_concrete(ns, fs@, fs@.len() as int);
                assert(fs@.take(fs@.len() as int) =~= fs@);
                assert forall|x: int| 0 <= x < item_deps(item).len() implies
                names_concrete_struct(ns, #[trigger] item_deps(item)[x]) by {
                    assert(item_deps(item)[x] == fields_deps(fs@.take(fs@.len() as int))[x]);
                }
            },
        },
        ItemType::Function(f) => {
            lemma_args_deps_concrete(ns, f.args@, f.args@.len() as int);
            lemma_type_deps_concrete(ns, *f.returns);
            assert(f.args@.take(f.args@.len() as int) =~= f.args@);
            assert forall|x: int| 0 <= x < item_deps(item).len() implies names_concrete_struct(
                ns,
                #[trigger] item_deps(item)[x],
            ) by {
                let ad = args_deps(f.args@.take(f.args@.len() as int));
                if x < ad.len() {
                    assert(item_deps(item)[x] == ad[x]);
                } else {
                    assert(item_deps(item)[x] == spec_layout_deps(*f.returns)[x - ad.len()]);
                }
            }
        },
    }
}

/// As `lemma_type_deps_concrete`, over a prefix of a field list. The
/// requirements cover each field in the prefix.
proof fn lemma_fields_deps_concrete(ns: Namespace, fs: Seq<Field>, t: int)
    requires
        0 <= t <= fs.len(),
        forall|k: int| 0 <= k < t ==> type_resolves(ns, (#[trigger] fs[k]).ty),
        forall|k: int| 0 <= k < t ==> arrays_sized(ns, (#[trigger] fs[k]).ty),
        forall|k: int| 0 <= k < t ==> spec_is_sized(ns, (#[trigger] fs[k]).ty),
    ensures
        forall|x: int|
            0 <= x < fields_deps(fs.take(t)).len() ==> names_concrete_struct(
                ns,
                #[trigger] fields_deps(fs.take(t))[x],
            ),
    decreases t,
{
    if t > 0 {
        lemma_fields_deps_concrete(ns, fs, t - 1);
        lemma_type_deps_concrete(ns, fs[t - 1].ty);
        assert(fs.take(t).drop_last() =~= fs.take(t - 1));
        assert(fs.take(t).last() == fs[t - 1]);
        assert forall|x: int| 0 <= x < fields_deps(fs.take(t)).len() implies
        names_concrete_struct(ns, #[trigger] fields_deps(fs.take(t))[x]) by {
            let pre = fields_deps(fs.take(t - 1));
            if x < pre.len() {
                assert(fields_deps(fs.take(t))[x] == pre[x]);
            } else {
                assert(fields_deps(fs.take(t))[x] == spec_layout_deps(fs[t - 1].ty)[x
                    - pre.len()]);
            }
        }
    }
}

/// As `lemma_fields_deps_concrete`, over a prefix of an argument list.
proof fn lemma_args_deps_concrete(ns: Namespace, args: Seq<(Identifier, Type)>, t: int)
    requires
        0 <= t <= args.len(),
        forall|k: int| 0 <= k < t ==> type_resolves(ns, (#[trigger] args[k]).1),
        forall|k: int| 0 <= k < t ==> arrays_sized(ns, (#[trigger] args[k]).1),
        forall|k: int| 0 <= k < t ==> spec_is_sized(ns, (#[trigger] args[k]).1),
    ensures
        forall|x: int|
            0 <= x < args_deps(args.take(t)).len() ==> names_concrete_struct(
                ns,
                #[trigger] args_deps(args.take(t))[x],
            ),
    decreases t,
{
    if t > 0 {
        lemma_args_deps_concrete(ns, args, t - 1);
        lemma_type_deps_concrete(ns, args[t - 1].1);
        assert(args.take(t).drop_last() =~= args.take(t - 1));
        assert(args.take(t).last() == args[t - 1]);
        assert forall|x: int| 0 <= x < args_deps(args.take(t)).len() implies
        names_concrete_struct(ns, #[trigger] args_deps(args.take(t))[x]) by {
            let pre = args_deps(args.take(t - 1));
            if x < pre.len() {
                assert(args_deps(args.take(t))[x] == pre[x]);
            } else {
                assert(args_deps(args.take(t))[x] == spec_layout_deps(args[t - 1].1)[x
                    - pre.len()]);
            }
        }
    }
}

/// The dependency entries of a prefix of the namespace: one entry per
/// concrete struct or function of the prefix, keyed by its name, carrying
/// its dependency list; keys are unique and look the item up.
pub proof fn lemma_dep_entries_wf(ns: Namespace, t: int)
    requires
        ns.wf(),
        0 <= t <= ns.items().len(),
    ensures
        forall|m: int|
            0 <= m < spec_dep_entries(ns.items().take(t)).len() ==> {
                let e = #[trigger] spec_dep_entries(ns.items().take(t))[m];
                &&& ns.contains_name(e.0)
                &&& has_dep_entry(ns.spec_get(e.0))
                &&& e.1 == item_deps(ns.spec_get(e.0))
            },
        forall|m1: int, m2: int|
            0 <= m1 < m2 < spec_dep_entries(ns.items().take(t)).len() ==> spec_dep_entries(
                ns.items().take(t),
            )[m1].0 != spec_dep_entries(ns.items().take(t))[m2].0,
        forall|n: Seq<char>|
            ns.contains_name(n) && ns.index_of(n) < t && has_dep_entry(ns.spec_get(n))
                ==> exists|m: int|
                0 <= m < spec_dep_entries(ns.items().take(t)).len() && (#[trigger] spec_dep_entries(
                    ns.items().take(t),
                )[m]).0 == n,
    decreases t,
{
    if t > 0 {
        lemma_dep_entries_wf(ns, t - 1);
        let s = ns.items().take(t);
        let prev = ns.items().take(t - 1);
        assert(s.drop_last() =~= prev);
        assert(s.last() == ns.items()[t - 1]);
        let es = spec_dep_entries(s);
        let pes = spec_dep_entries(prev);
        let it = ns.items()[t - 1];
        assert(ns.names()[t - 1] == spec_item_name(it)) by {
            assert(ns.entries@[t - 1].0@ == spec_item_name(ns.entries@[t - 1].1));
        }
        assert forall|m: int| 0 <= m < es.len() implies {
            let e = #[trigger] es[m];
            &&& ns.contains_name(e.0)
            &&& has_dep_entry(ns.spec_get(e.0))
            &&& e.1 == item_deps(ns.spec_get(e.0))
        } by {
            if m < pes.len() {
                assert(es[m] == pes[m]);
            } else {
                assert(has_dep_entry(it));
                assert(es[m] == (spec_item_name(it), item_deps(it)));
                assert(ns.names()[t - 1] == spec_item_name(it));
                assert(ns.contains_name(spec_item_name(it)));
                assert(ns.spec_get(spec_item_name(it)) == it) by {
                    let j = ns.index_of(spec_item_name(it));
                    assert(ns.names()[j] == spec_item_name(it));
                    if j != t - 1 {
                        if j < t - 1 {
                            assert(ns.names()[j] != ns.names()[t - 1]);
                        } else {
                            assert(ns.names()[t - 1] != ns.names()[j]);
                        }
                        assert(false);
                    }
                    assert(ns.items()[j] == ns.entries@[j].1);
                }
            }
        }
        assert forall|m1: int, m2: int| 0 <= m1 < m2 < es.len() implies es[m1].0 != es[m2].0 by {
            if m2 < pes.len() {
                assert(es[m1] == pes[m1]);
                assert(es[m2] == pes[m2]);
            } else {
                assert(es[m1] == pes[m1]);
                // the earlier entry keys an item before position t - 1
                assert(ns.contains_name(pes[m1].0));
                let j = ns.index_of(pes[m1].0);
                assert(ns.names()[j] == pes[m1].0);
                assert(exists|m: int|
                    0 <= m < pes.len() && (#[trigger] pes[m]).0 == pes[m1].0);
                if es[m1].0 == es[m2].0 {
                    // both name the item at t - 1: impossible, since keys of
                    // the prefix name items before t - 1
                    assert(es[m2].0 == spec_item_name(it));
                    lemma_dep_key_index(ns, t - 1, m1);
                    assert(false);
                }
            }
        }
        assert forall|n: Seq<char>|
            ns.contains_name(n) && ns.index_of(n) < t && has_dep_entry(ns.spec_get(n)) implies
        exists|m: int| 0 <= m < es.len() && (#[trigger] es[m]).0 == n by {
            if ns.index_of(n) < t - 1 {
                let m = choose|m: int| 0 <= m < pes.len() && (#[trigger] pes[m]).0 == n;
                assert(es[m].0 == n);
            } else {
                assert(ns.index_of(n) == t - 1);
                assert(ns.names()[t - 1] == n);
                assert(ns.entries@[t - 1].1 == it);
                assert(ns.spec_get(n) == it);
                assert(has_dep_entry(it));
                assert(es[es.len() - 1].0 == spec_item_name(it));
                assert(spec_item_name(it) == n);
            }
        }
    }
}

/// A key of the dependency entries of the first `t` items sits at an index
/// below `t` in the namespace.
proof fn lemma_dep_key_index(ns: Namespace, t: int, m: int)
    requires
        ns.wf(),
        0 <= t <= ns.items().len(),
        0 <= m < spec_dep_entries(ns.items().take(t)).len(),
    ensures
        exists|i: int|
            0 <= i < t && #[trigger] ns.names()[i] == spec_dep_entries(ns.items().take(t))[m].0,
    decreases t,
{
    if t > 0 {
        let s = ns.items().take(t);
        let prev = ns.items().take(t - 1);
        assert(s.drop_last() =~= prev);
        assert(s.last() == ns.items()[t - 1]);
        let pes = spec_dep_entries(prev);
        if m < pes.len() {
            lemma_dep_key_index(ns, t - 1, m);
        } else {
            assert(spec_dep_entries(s)[m].0 == spec_item_name(ns.items()[t - 1]));
            assert(ns.names()[t - 1] == spec_item_name(ns.items()[t - 1])) by {
                assert(ns.entries@[t - 1].0@ == spec_item_name(ns.entries@[t - 1].1));
            }
        }
    }
}

} // verus!
