//! The ABI-surface collection. A generic-free target (the C header) must
//! materialize one concrete helper declaration per distinct slice shape,
//! owned-pointer shape and owned-slice shape reachable from any struct
//! field or function signature. This walk descends through pointers,
//! slices, owned pointers, arrays and function pointers — but never through
//! a named struct, which is emitted via its own declaration — and collects
//! the distinct shapes, keyed and sorted by mangled name for deterministic
//! output.

use vstd::prelude::*;
use vstd::string::*;
use crate::ast::{Identifier, PointerModifier, Type};
use crate::mangle::{mangle_type, shape_of, spec_mangle};
use crate::render::c::{c_elem_repr, c_repr, c_type, const_tag, ty};

verus! {

/// Strict lexicographic order on character sequences, by code point.
pub open spec fn str_lt(a: Seq<char>, b: Seq<char>) -> bool
    decreases a.len(),
{
    if b.len() == 0 {
        false
    } else if a.len() == 0 {
        true
    } else if a[0] != b[0] {
        (a[0] as int) < (b[0] as int)
    } else {
        str_lt(a.drop_first(), b.drop_first())
    }
}

/// Two sequences are ordered one way or the other, or equal.
pub proof fn lemma_str_lt_total(a: Seq<char>, b: Seq<char>)
    ensures
        str_lt(a, b) || str_lt(b, a) || a == b,
    decreases a.len(),
{
    if a.len() > 0 && b.len() > 0 && a[0] == b[0] {
        lemma_str_lt_total(a.drop_first(), b.drop_first());
        if a.drop_first() == b.drop_first() {
            assert forall|k: int| 0 <= k < a.len() implies a[k] == b[k] by {
                if k > 0 {
                    assert(a[k] == a.drop_first()[k - 1]);
                    assert(b[k] == b.drop_first()[k - 1]);
                }
            }
            assert(a =~= b);
        }
    } else if a.len() == 0 && b.len() == 0 {
        assert(a =~= b);
    } else if a.len() > 0 && b.len() > 0 {
        assert((a[0] as int) != (b[0] as int));
    }
}

/// The order is transitive.
pub proof fn lemma_str_lt_trans(a: Seq<char>, b: Seq<char>, c: Seq<char>)
    requires
        str_lt(a, b),
        str_lt(b, c),
    ensures
        str_lt(a, c),
    decreases a.len(),
{
    if a.len() > 0 && b.len() > 0 && c.len() > 0 && a[0] == b[0] && b[0] == c[0] {
        lemma_str_lt_trans(a.drop_first(), b.drop_first(), c.drop_first());
    }
}

/// Compare two strings in the lexicographic order.
pub fn string_lt(a: &String, b: &String) -> (r: bool)
    ensures
        r == str_lt(a@, b@),
{
    let na = a.as_str().unicode_len();
    let nb = b.as_str().unicode_len();
    let mut i: usize = 0;
    proof {
        assert(a@.skip(0) =~= a@);
        assert(b@.skip(0) =~= b@);
    }
    loop
        invariant
            i <= na,
            i <= nb,
            na == a@.len(),
            nb == b@.len(),
            forall|k: int| 0 <= k < i ==> a@[k] == b@[k],
            str_lt(a@, b@) == str_lt(a@.skip(i as int), b@.skip(i as int)),
        decreases na - i,
    {
        if i == nb {
            proof {
                assert(b@.skip(i as int).len() == 0);
            }
            return false;
        }
        if i == na {
            proof {
                assert(a@.skip(i as int).len() == 0);
                assert(b@.skip(i as int).len() > 0);
            }
            return true;
        }
        let ca = a.as_str().get_char(i);
        let cb = b.as_str().get_char(i);
        if ca != cb {
            proof {
                assert(a@.skip(i as int)[0] == a@[i as int]);
                assert(b@.skip(i as int)[0] == b@[i as int]);
            }
            return (ca as u32) < (cb as u32);
        }
        proof {
            assert(a@.skip(i as int)[0] == b@.skip(i as int)[0]);
            assert(a@.skip(i as int).drop_first() =~= a@.skip(i + 1));
            assert(b@.skip(i as int).drop_first() =~= b@.skip(i + 1));
        }
        i = i + 1;
    }
}

/// The name under which a slice shape's helper is keyed: its constness tag
/// and the mangled element type.
pub open spec fn slice_key(m: PointerModifier, elem: Type) -> Seq<char> {
    const_tag(m) + "_"@ + spec_mangle(shape_of(elem))
}

/// The slice helper declarations a type tree needs: name and element text.
pub open spec fn slice_pairs(t: Type) -> Set<(Seq<char>, Seq<char>)>
    decreases t,
{
    match t {
        Type::Pointer(p) => slice_pairs(*p.ty),
        Type::Slice(s) => slice_pairs(*s.ty).insert(
            (slice_key(s.modifier, *s.ty), c_elem_repr(*s.ty, s.modifier is Const)),
        ),
        Type::Owned(o) => slice_pairs(*o.ty),
        Type::Array(a) => slice_pairs(*a.ty),
        Type::FunctionPointer(fp) => fnptr_slice_pairs(fp.args@, fp.args@.len() as int) + (
        match fp.returns {
            Some(r) => slice_pairs(*r),
            None => Set::empty(),
        }),
        _ => Set::empty(),
    }
}

pub open spec fn fnptr_slice_pairs(args: Seq<(Identifier, Type)>, j: int) -> Set<
    (Seq<char>, Seq<char>),
>
    decreases args, j,
{
    if j <= 0 || j > args.len() {
        Set::empty()
    } else {
        fnptr_slice_pairs(args, j - 1) + slice_pairs(args[j - 1].1)
    }
}

/// The owned-pointer helper declarations a type tree needs: name and the C
/// text of the pointed-to data.
pub open spec fn owned_ptr_pairs(t: Type) -> Set<(Seq<char>, Seq<char>)>
    decreases t,
{
    match t {
        Type::Pointer(p) => owned_ptr_pairs(*p.ty),
        Type::Slice(s) => owned_ptr_pairs(*s.ty),
        Type::Owned(o) => owned_ptr_pairs(*o.ty) + (match *o.ty {
            Type::Slice(_) => Set::<(Seq<char>, Seq<char>)>::empty(),
            _ => Set::<(Seq<char>, Seq<char>)>::empty().insert(
                (spec_mangle(shape_of(*o.ty)), c_repr(*o.ty)),
            ),
        }),
        Type::Array(a) => owned_ptr_pairs(*a.ty),
        Type::FunctionPointer(fp) => fnptr_owned_ptr_pairs(fp.args@, fp.args@.len() as int) + (
        match fp.returns {
            Some(r) => owned_ptr_pairs(*r),
            None => Set::empty(),
        }),
        _ => Set::empty(),
    }
}

pub open spec fn fnptr_owned_ptr_pairs(args: Seq<(Identifier, Type)>, j: int) -> Set<
    (Seq<char>, Seq<char>),
>
    decreases args, j,
{
    if j <= 0 || j > args.len() {
        Set::empty()
    } else {
        fnptr_owned_ptr_pairs(args, j - 1) + owned_ptr_pairs(args[j - 1].1)
    }
}

/// The owned-slice helper declarations a type tree needs: the key names the
/// underlying slice helper the owned form is derived from.
pub open spec fn owned_slice_pairs(t: Type) -> Set<(Seq<char>, Seq<char>)>
    decreases t,
{
    match t {
        Type::Pointer(p) => owned_slice_pairs(*p.ty),
        Type::Slice(s) => owned_slice_pairs(*s.ty),
        Type::Owned(o) => owned_slice_pairs(*o.ty) + (match *o.ty {
            Type::Slice(s) => Set::<(Seq<char>, Seq<char>)>::empty().insert(
                (slice_key(s.modifier, *s.ty), "vellum_slice_"@ + slice_key(s.modifier, *s.ty)),
            ),
            _ => Set::<(Seq<char>, Seq<char>)>::empty(),
        }),
        Type::Array(a) => owned_slice_pairs(*a.ty),
        Type::FunctionPointer(fp) => fnptr_owned_slice_pairs(fp.args@, fp.args@.len() as int) + (
        match fp.returns {
            Some(r) => owned_slice_pairs(*r),
            None => Set::empty(),
        }),
        _ => Set::empty(),
    }
}

pub open spec fn fnptr_owned_slice_pairs(args: Seq<(Identifier, Type)>, j: int) -> Set<
    (Seq<char>, Seq<char>),
>
    decreases args, j,
{
    if j <= 0 || j > args.len() {
        Set::empty()
    } else {
        fnptr_owned_slice_pairs(args, j - 1) + owned_slice_pairs(args[j - 1].1)
    }
}

/// The pairs held by a name-keyed list, as a set.
pub open spec fn pairs_of(v: Seq<(String, String)>) -> Set<(Seq<char>, Seq<char>)> {
    Set::new(
        |p: (Seq<char>, Seq<char>)|
            exists|k: int| 0 <= k < v.len() && (#[trigger] v[k]).0@ == p.0 && v[k].1@ == p.1,
    )
}

/// The names held by a name-keyed list, as a set.
pub open spec fn names_of(v: Seq<(String, String)>) -> Set<Seq<char>> {
    Set::new(|n: Seq<char>| exists|k: int| 0 <= k < v.len() && (#[trigger] v[k]).0@ == n)
}

/// Strictly ascending by name in the lexicographic order.
pub open spec fn strictly_sorted(v: Seq<(String, String)>) -> bool {
    forall|i: int, j: int| 0 <= i < j < v.len() ==> str_lt(v[i].0@, v[j].0@)
}

/// Insert a named declaration into a sorted list, keeping it sorted; an
/// already-present name leaves the list unchanged.
#[verifier::loop_isolation(false)]
pub fn insert_decl(v: &mut Vec<(String, String)>, name: String, data: String)
    requires
        strictly_sorted(old(v)@),
    ensures
        strictly_sorted(final(v)@),
        names_of(final(v)@) == names_of(old(v)@).insert(name@),
        pairs_of(old(v)@).subset_of(pairs_of(final(v)@)),
        pairs_of(final(v)@).subset_of(pairs_of(old(v)@).insert((name@, data@))),
{
    let ghost name0: Seq<char> = name@;
    let ghost data0: Seq<char> = data@;
    let ghost before = v@;
    let n = v.len();
    let mut i: usize = 0;
    while i < n && string_lt(&v[i].0, &name)
        invariant
            i <= n,
            n == v@.len(),
            v@ == before,
            forall|k: int| 0 <= k < i ==> str_lt(v@[k].0@, name0),
        decreases n - i,
    {
        i = i + 1;
    }
    if i < n {
        if v[i].0.eq(&name) {
            proof {
                assert(names_of(v@).insert(name0) =~= names_of(v@)) by {
                    assert(v@[i as int].0@ == name0);
                }
                assert(pairs_of(v@).subset_of(pairs_of(before).insert((name0, data0))));
            }
            return ;
        }
    }
    proof {
        if i < n {
            lemma_str_lt_total(before[i as int].0@, name0);
            assert(str_lt(name0, before[i as int].0@));
        }
    }
    let ghost pos = i as int;
    v.insert(i, (name, data));
    proof {
        assert(v@ =~= before.insert(pos, (v@[pos].0, v@[pos].1)));
        assert(v@[pos].0@ == name0);
        assert(v@[pos].1@ == data0);
        assert forall|k: int| 0 <= k < v@.len() && k != pos implies #[trigger] v@[k] == (if k
            < pos {
            before[k]
        } else {
            before[k - 1]
        }) by {}
        assert forall|x: int, y: int| 0 <= x < y < v@.len() implies str_lt(
            v@[x].0@,
            v@[y].0@,
        ) by {
            if y < pos {
                assert(str_lt(before[x].0@, before[y].0@));
            } else if y == pos {
                assert(v@[x] == before[x]);
                assert(str_lt(before[x].0@, name0));
            } else if x < pos {
                assert(v@[x] == before[x]);
                assert(v@[y] == before[y - 1]);
                assert(str_lt(before[x].0@, before[y - 1].0@));
            } else if x == pos {
                assert(v@[y] == before[y - 1]);
                assert(str_lt(name0, before[pos].0@));
                if y - 1 == pos {
                } else {
                    assert(str_lt(before[pos].0@, before[y - 1].0@));
                    lemma_str_lt_trans(name0, before[pos].0@, before[y - 1].0@);
                }
            } else {
                assert(v@[x] == before[x - 1]);
                assert(v@[y] == before[y - 1]);
                assert(str_lt(before[x - 1].0@, before[y - 1].0@));
            }
        }
        assert(names_of(v@) =~= names_of(before).insert(name0)) by {
            assert forall|m: Seq<char>| names_of(v@).contains(m) implies names_of(before).insert(
                name0,
            ).contains(m) by {
                let k = choose|k: int| 0 <= k < v@.len() && (#[trigger] v@[k]).0@ == m;
                if k < pos {
                    assert(before[k].0@ == m);
                } else if k > pos {
                    assert(before[k - 1].0@ == m);
                }
            }
            assert forall|m: Seq<char>| names_of(before).insert(name0).contains(m) implies
            names_of(v@).contains(m) by {
                if m == name0 {
                    assert(v@[pos].0@ == m);
                } else {
                    let k = choose|k: int|
                        0 <= k < before.len() && (#[trigger] before[k]).0@ == m;
                    if k < pos {
                        assert(v@[k].0@ == m);
                    } else {
                        assert(v@[k + 1].0@ == m);
                    }
                }
            }
        }
        assert forall|p: (Seq<char>, Seq<char>)| pairs_of(before).contains(p) implies pairs_of(
            v@,
        ).contains(p) by {
            let k = choose|k: int|
                0 <= k < before.len() && (#[trigger] before[k]).0@ == p.0 && before[k].1@ == p.1;
            if k < pos {
                assert(v@[k].0@ == p.0 && v@[k].1@ == p.1);
            } else {
                assert(v@[k + 1].0@ == p.0 && v@[k + 1].1@ == p.1);
            }
        }
        assert forall|p: (Seq<char>, Seq<char>)| pairs_of(v@).contains(p) implies pairs_of(
            before,
        ).insert((name0, data0)).contains(p) by {
            let k = choose|k: int|
                0 <= k < v@.len() && (#[trigger] v@[k]).0@ == p.0 && v@[k].1@ == p.1;
            if k < pos {
                assert(before[k].0@ == p.0 && before[k].1@ == p.1);
            } else if k > pos {
                assert(before[k - 1].0@ == p.0 && before[k - 1].1@ == p.1);
            } else {
                assert(p == (name0, data0));
            }
        }
    }
}

/// Walk one type tree, collecting the slice, owned-pointer and owned-slice
/// helper declarations it needs into the three sorted lists.
#[verifier::loop_isolation(false)]
#[verifier::rlimit(100)]
pub fn visit_type(
    t: &Type,
    slices: &mut Vec<(String, String)>,
    owned_ptrs: &mut Vec<(String, String)>,
    owned_slices: &mut Vec<(String, String)>,
)
    requires
        strictly_sorted(old(slices)@),
        strictly_sorted(old(owned_ptrs)@),
        strictly_sorted(old(owned_slices)@),
    ensures
        strictly_sorted(final(slices)@),
        strictly_sorted(final(owned_ptrs)@),
        strictly_sorted(final(owned_slices)@),
        names_of(final(slices)@) == names_of(old(slices)@) + slice_pairs(*t).map(
            |p: (Seq<char>, Seq<char>)| p.0,
        ),
        pairs_of(old(slices)@).subset_of(pairs_of(final(slices)@)),
        pairs_of(final(slices)@).subset_of(pairs_of(old(slices)@) + slice_pairs(*t)),
        names_of(final(owned_ptrs)@) == names_of(old(owned_ptrs)@) + owned_ptr_pairs(*t).map(
            |p: (Seq<char>, Seq<char>)| p.0,
        ),
        pairs_of(old(owned_ptrs)@).subset_of(pairs_of(final(owned_ptrs)@)),
        pairs_of(final(owned_ptrs)@).subset_of(pairs_of(old(owned_ptrs)@) + owned_ptr_pairs(*t)),
        names_of(final(owned_slices)@) == names_of(old(owned_slices)@) + owned_slice_pairs(
            *t,
        ).map(|p: (Seq<char>, Seq<char>)| p.0),
        pairs_of(old(owned_slices)@).subset_of(pairs_of(final(owned_slices)@)),
        pairs_of(final(owned_slices)@).subset_of(
            pairs_of(old(owned_slices)@) + owned_slice_pairs(*t),
        ),
    decreases *t,
{
    match t {
        Type::Pointer(p) => {
            visit_type(&p.ty, slices, owned_ptrs, owned_slices);
        },
        Type::Slice(s) => {
            let mut key = match s.modifier {
                PointerModifier::Const => String::from_str("const"),
                PointerModifier::Mut => String::from_str("mut"),
            };
            key.append("_");
            let m = mangle_type(&s.ty);
            key.append(m.as_str());
            let elem = c_type(&s.ty, matches!(s.modifier, PointerModifier::Const));
            let ghost pr: (Seq<char>, Seq<char>) = (
                slice_key(s.modifier, *s.ty),
                c_elem_repr(*s.ty, s.modifier is Const),
            );
            proof {
                assert(key@ == pr.0);
                assert(elem@ == pr.1);
            }
            insert_decl(slices, key, elem);
            let ghost mid_names = names_of(slices@);
            visit_type(&s.ty, slices, owned_ptrs, owned_slices);
            proof {
                lemma_map_insert(slice_pairs(*s.ty), pr);
                assert(names_of(slices@) =~= names_of(old(slices)@) + slice_pairs(*t).map(
                    |p: (Seq<char>, Seq<char>)| p.0,
                ));
                assert(pairs_of(slices@).subset_of(pairs_of(old(slices)@) + slice_pairs(*t)));
            }
        },
        Type::Owned(o) => {
            match &*o.ty {
                Type::Slice(s) => {
                    let mut key = match s.modifier {
                        PointerModifier::Const => String::from_str("const"),
                        PointerModifier::Mut => String::from_str("mut"),
                    };
                    key.append("_");
                    let m = mangle_type(&s.ty);
                    key.append(m.as_str());
                    let mut derived = String::from_str("vellum_slice_");
                    derived.append(key.as_str());
                    insert_decl(owned_slices, key, derived);
                },
                _ => {
                    let key = mangle_type(&o.ty);
                    let data = ty(&o.ty);
                    insert_decl(owned_ptrs, key, data);
                },
            }
            visit_type(&o.ty, slices, owned_ptrs, owned_slices);
            proof {
                match &*o.ty {
                    Type::Slice(s) => {
                        let pr = (
                            slice_key(s.modifier, *s.ty),
                            "vellum_slice_"@ + slice_key(s.modifier, *s.ty),
                        );
                        lemma_map_insert(owned_slice_pairs(*o.ty), pr);
                        assert(owned_slice_pairs(*t) =~= owned_slice_pairs(*o.ty).insert(pr));
                        assert(owned_ptr_pairs(*t) =~= owned_ptr_pairs(*o.ty));
                    },
                    _ => {
                        let pr = (spec_mangle(shape_of(*o.ty)), c_repr(*o.ty));
                        lemma_map_insert(owned_ptr_pairs(*o.ty), pr);
                        assert(owned_ptr_pairs(*t) =~= owned_ptr_pairs(*o.ty).insert(pr));
                        assert(owned_slice_pairs(*t) =~= owned_slice_pairs(*o.ty));
                    },
                }
                assert(names_of(owned_ptrs@) =~= names_of(old(owned_ptrs)@) + owned_ptr_pairs(
                    *t,
                ).map(|p: (Seq<char>, Seq<char>)| p.0));
                assert(names_of(owned_slices@) =~= names_of(old(owned_slices)@)
                    + owned_slice_pairs(*t).map(|p: (Seq<char>, Seq<char>)| p.0));
                assert(pairs_of(owned_ptrs@).subset_of(
                    pairs_of(old(owned_ptrs)@) + owned_ptr_pairs(*t),
                ));
                assert(pairs_of(owned_slices@).subset_of(
                    pairs_of(old(owned_slices)@) + owned_slice_pairs(*t),
                ));
            }
        },
        Type::Array(a) => {
            visit_type(&a.ty, slices, owned_ptrs, owned_slices);
        },
        Type::FunctionPointer(fp) => {
            let n = fp.args.len();
            for j in 0..n
                invariant
                    n == fp.args@.len(),
                    strictly_sorted(slices@),
                    strictly_sorted(owned_ptrs@),
                    strictly_sorted(owned_slices@),
                    names_of(slices@) == names_of(old(slices)@) + fnptr_slice_pairs(
                        fp.args@,
                        j as int,
                    ).map(|p: (Seq<char>, Seq<char>)| p.0),
                    pairs_of(old(slices)@).subset_of(pairs_of(slices@)),
                    pairs_of(slices@).subset_of(
                        pairs_of(old(slices)@) + fnptr_slice_pairs(fp.args@, j as int),
                    ),
                    names_of(owned_ptrs@) == names_of(old(owned_ptrs)@) + fnptr_owned_ptr_pairs(
                        fp.args@,
                        j as int,
                    ).map(|p: (Seq<char>, Seq<char>)| p.0),
                    pairs_of(old(owned_ptrs)@).subset_of(pairs_of(owned_ptrs@)),
                    pairs_of(owned_ptrs@).subset_of(
                        pairs_of(old(owned_ptrs)@) + fnptr_owned_ptr_pairs(fp.args@, j as int),
                    ),
                    names_of(owned_slices@) == names_of(old(owned_slices)@)
                        + fnptr_owned_slice_pairs(fp.args@, j as int).map(
                        |p: (Seq<char>, Seq<char>)| p.0,
                    ),
                    pairs_of(old(owned_slices)@).subset_of(pairs_of(owned_slices@)),
                    pairs_of(owned_slices@).subset_of(
                        pairs_of(old(owned_slices)@) + fnptr_owned_slice_pairs(
                            fp.args@,
                            j as int,
                        ),
                    ),
            {
                visit_type(&fp.args[j].1, slices, owned_ptrs, owned_slices);
                proof {
                    lemma_map_union(
                        fnptr_slice_pairs(fp.args@, j as int),
                        slice_pairs(fp.args@[j as int].1),
                    );
                    lemma_map_union(
                        fnptr_owned_ptr_pairs(fp.args@, j as int),
                        owned_ptr_pairs(fp.args@[j as int].1),
                    );
                    lemma_map_union(
                        fnptr_owned_slice_pairs(fp.args@, j as int),
                        owned_slice_pairs(fp.args@[j as int].1),
                    );
                    assert(names_of(slices@) =~= names_of(old(slices)@) + fnptr_slice_pairs(
                        fp.args@,
                        j + 1,
                    ).map(|p: (Seq<char>, Seq<char>)| p.0));
                    assert(names_of(owned_ptrs@) =~= names_of(old(owned_ptrs)@)
                        + fnptr_owned_ptr_pairs(fp.args@, j + 1).map(
                        |p: (Seq<char>, Seq<char>)| p.0,
                    ));
                    assert(names_of(owned_slices@) =~= names_of(old(owned_slices)@)
                        + fnptr_owned_slice_pairs(fp.args@, j + 1).map(
                        |p: (Seq<char>, Seq<char>)| p.0,
                    ));
                    assert(pairs_of(slices@).subset_of(
                        pairs_of(old(slices)@) + fnptr_slice_pairs(fp.args@, j + 1),
                    ));
                    assert(pairs_of(owned_ptrs@).subset_of(
                        pairs_of(old(owned_ptrs)@) + fnptr_owned_ptr_pairs(fp.args@, j + 1),
                    ));
                    assert(pairs_of(owned_slices@).subset_of(
                        pairs_of(old(owned_slices)@) + fnptr_owned_slice_pairs(fp.args@, j + 1),
                    ));
                }
            }
            match &fp.returns {
                Some(r) => {
                    visit_type(r, slices, owned_ptrs, owned_slices);
                },
                None => {},
            }
            proof {
                match &fp.returns {
                    Some(r) => {
                        lemma_map_union(
                            fnptr_slice_pairs(fp.args@, n as int),
                            slice_pairs(**r),
                        );
                        lemma_map_union(
                            fnptr_owned_ptr_pairs(fp.args@, n as int),
                            owned_ptr_pairs(**r),
                        );
                        lemma_map_union(
                            fnptr_owned_slice_pairs(fp.args@, n as int),
                            owned_slice_pairs(**r),
                        );
                    },
                    None => {
                        assert(slice_pairs(*t) =~= fnptr_slice_pairs(fp.args@, n as int));
                        assert(owned_ptr_pairs(*t) =~= fnptr_owned_ptr_pairs(fp.args@, n as int));
                        assert(owned_slice_pairs(*t) =~= fnptr_owned_slice_pairs(
                            fp.args@,
                            n as int,
                        ));
                    },
                }
                assert(names_of(slices@) =~= names_of(old(slices)@) + slice_pairs(*t).map(
                    |p: (Seq<char>, Seq<char>)| p.0,
                ));
                assert(names_of(owned_ptrs@) =~= names_of(old(owned_ptrs)@) + owned_ptr_pairs(
                    *t,
                ).map(|p: (Seq<char>, Seq<char>)| p.0));
                assert(names_of(owned_slices@) =~= names_of(old(owned_slices)@)
                    + owned_slice_pairs(*t).map(|p: (Seq<char>, Seq<char>)| p.0));
                assert(pairs_of(slices@).subset_of(pairs_of(old(slices)@) + slice_pairs(*t)));
                assert(pairs_of(owned_ptrs@).subset_of(
                    pairs_of(old(owned_ptrs)@) + owned_ptr_pairs(*t),
                ));
                assert(pairs_of(owned_slices@).subset_of(
                    pairs_of(old(owned_slices)@) + owned_slice_pairs(*t),
                ));
            }
        },
        _ => {
            proof {
                assert(names_of(slices@) =~= names_of(old(slices)@) + slice_pairs(*t).map(
                    |p: (Seq<char>, Seq<char>)| p.0,
                ));
                assert(names_of(owned_ptrs@) =~= names_of(old(owned_ptrs)@) + owned_ptr_pairs(
                    *t,
                ).map(|p: (Seq<char>, Seq<char>)| p.0));
                assert(names_of(owned_slices@) =~= names_of(old(owned_slices)@)
                    + owned_slice_pairs(*t).map(|p: (Seq<char>, Seq<char>)| p.0));
                assert(pairs_of(slices@).subset_of(pairs_of(old(slices)@) + slice_pairs(*t)));
                assert(pairs_of(owned_ptrs@).subset_of(
                    pairs_of(old(owned_ptrs)@) + owned_ptr_pairs(*t),
                ));
                assert(pairs_of(owned_slices@).subset_of(
                    pairs_of(old(owned_slices)@) + owned_slice_pairs(*t),
                ));
            }
        },
    }
}

/// Mapping the name projection over an insertion inserts the name.
pub proof fn lemma_map_insert(a: Set<(Seq<char>, Seq<char>)>, p: (Seq<char>, Seq<char>))
    ensures
        a.insert(p).map(|q: (Seq<char>, Seq<char>)| q.0) =~= a.map(
            |q: (Seq<char>, Seq<char>)| q.0,
        ).insert(p.0),
{
    let f = |q: (Seq<char>, Seq<char>)| q.0;
    assert forall|n: Seq<char>| a.insert(p).map(f).contains(n) implies a.map(f).insert(
        p.0,
    ).contains(n) by {
        let q = choose|q: (Seq<char>, Seq<char>)| a.insert(p).contains(q) && #[trigger] f(q) == n;
        if q != p {
            assert(a.map(f).contains(n));
        }
    }
    assert forall|n: Seq<char>| a.map(f).insert(p.0).contains(n) implies a.insert(p).map(
        f,
    ).contains(n) by {
        if n == p.0 {
            assert(a.insert(p).contains(p));
            assert(f(p) == n);
        } else {
            let q = choose|q: (Seq<char>, Seq<char>)| a.contains(q) && #[trigger] f(q) == n;
            assert(a.insert(p).contains(q));
        }
    }
}

/// Mapping a name projection over a union is the union of the mapped sets.
pub proof fn lemma_map_union(a: Set<(Seq<char>, Seq<char>)>, b: Set<(Seq<char>, Seq<char>)>)
    ensures
        (a + b).map(|p: (Seq<char>, Seq<char>)| p.0) =~= a.map(|p: (Seq<char>, Seq<char>)| p.0)
            + b.map(|p: (Seq<char>, Seq<char>)| p.0),
{
    let f = |p: (Seq<char>, Seq<char>)| p.0;
    assert forall|n: Seq<char>| (a + b).map(f).contains(n) implies (a.map(f) + b.map(f)).contains(
        n,
    ) by {
        let p = choose|p: (Seq<char>, Seq<char>)| (a + b).contains(p) && #[trigger] f(p) == n;
        if a.contains(p) {
            assert(a.map(f).contains(n));
        } else {
            assert(b.map(f).contains(n));
        }
    }
    assert forall|n: Seq<char>| (a.map(f) + b.map(f)).contains(n) implies (a + b).map(f).contains(
        n,
    ) by {
        if a.map(f).contains(n) {
            let p = choose|p: (Seq<char>, Seq<char>)| a.contains(p) && #[trigger] f(p) == n;
            assert((a + b).contains(p));
        } else {
            let p = choose|p: (Seq<char>, Seq<char>)| b.contains(p) && #[trigger] f(p) == n;
            assert((a + b).contains(p));
        }
    }
}

/// The union of `f` over the types of a field list.
pub open spec fn fields_union(
    fs: Seq<crate::compile::Field>,
    f: spec_fn(Type) -> Set<(Seq<char>, Seq<char>)>,
) -> Set<(Seq<char>, Seq<char>)>
    decreases fs,
{
    if fs.len() == 0 {
        Set::empty()
    } else {
        fields_union(fs.drop_last(), f) + f(fs.last().ty)
    }
}

/// The union of `f` over the types of an argument list.
pub open spec fn args_union(
    args: Seq<(String, Type)>,
    f: spec_fn(Type) -> Set<(Seq<char>, Seq<char>)>,
) -> Set<(Seq<char>, Seq<char>)>
    decreases args,
{
    if args.len() == 0 {
        Set::empty()
    } else {
        args_union(args.drop_last(), f) + f(args.last().1)
    }
}

/// The union of `f` over every field type of a struct list.
pub open spec fn structs_union(
    ss: Seq<crate::compile::Struct>,
    f: spec_fn(Type) -> Set<(Seq<char>, Seq<char>)>,
) -> Set<(Seq<char>, Seq<char>)>
    decreases ss,
{
    if ss.len() == 0 {
        Set::empty()
    } else {
        structs_union(ss.drop_last(), f) + fields_union(ss.last().fields@, f)
    }
}

/// The union of `f` over every argument and return type of a function list.
pub open spec fn fns_union(
    fs: Seq<crate::compile::Function>,
    f: spec_fn(Type) -> Set<(Seq<char>, Seq<char>)>,
) -> Set<(Seq<char>, Seq<char>)>
    decreases fs,
{
    if fs.len() == 0 {
        Set::empty()
    } else {
        fns_union(fs.drop_last(), f) + args_union(fs.last().args@, f) + f(fs.last().returns)
    }
}

/// The union of `f` over every type the schema's ABI surface reaches: all
/// struct fields, all function arguments and returns.
pub open spec fn items_union(
    items: crate::compile::Items,
    f: spec_fn(Type) -> Set<(Seq<char>, Seq<char>)>,
) -> Set<(Seq<char>, Seq<char>)> {
    structs_union(items.structs@, f) + fns_union(items.functions@, f)
}

/// Collect the helper declarations the whole schema's ABI surface needs:
/// one entry per distinct slice shape, owned-pointer shape and owned-slice
/// shape reachable from any concrete struct field or function signature,
/// each list strictly sorted by its mangled key.
#[verifier::loop_isolation(false)]
#[verifier::rlimit(100)]
pub fn collect_type_decls(items: &crate::compile::Items) -> (r: (
    Vec<(String, String)>,
    Vec<(String, String)>,
    Vec<(String, String)>,
))
    ensures
        strictly_sorted(r.0@),
        strictly_sorted(r.1@),
        strictly_sorted(r.2@),
        names_of(r.0@) == items_union(*items, |t: Type| slice_pairs(t)).map(
            |p: (Seq<char>, Seq<char>)| p.0,
        ),
        pairs_of(r.0@).subset_of(items_union(*items, |t: Type| slice_pairs(t))),
        names_of(r.1@) == items_union(*items, |t: Type| owned_ptr_pairs(t)).map(
            |p: (Seq<char>, Seq<char>)| p.0,
        ),
        pairs_of(r.1@).subset_of(items_union(*items, |t: Type| owned_ptr_pairs(t))),
        names_of(r.2@) == items_union(*items, |t: Type| owned_slice_pairs(t)).map(
            |p: (Seq<char>, Seq<char>)| p.0,
        ),
        pairs_of(r.2@).subset_of(items_union(*items, |t: Type| owned_slice_pairs(t))),
{
    let ghost fsl = |t: Type| slice_pairs(t);
    let ghost fop = |t: Type| owned_ptr_pairs(t);
    let ghost fos = |t: Type| owned_slice_pairs(t);
    let mut slices: Vec<(String, String)> = Vec::new();
    let mut owned_ptrs: Vec<(String, String)> = Vec::new();
    let mut owned_slices: Vec<(String, String)> = Vec::new();
    let ns = items.structs.len();
    for i in 0..ns
        invariant
            ns == items.structs@.len(),
            strictly_sorted(slices@),
            strictly_sorted(owned_ptrs@),
            strictly_sorted(owned_slices@),
            names_of(slices@) == structs_union(items.structs@.take(i as int), fsl).map(
                |p: (Seq<char>, Seq<char>)| p.0,
            ),
            pairs_of(slices@).subset_of(structs_union(items.structs@.take(i as int), fsl)),
            names_of(owned_ptrs@) == structs_union(items.structs@.take(i as int), fop).map(
                |p: (Seq<char>, Seq<char>)| p.0,
            ),
            pairs_of(owned_ptrs@).subset_of(structs_union(items.structs@.take(i as int), fop)),
            names_of(owned_slices@) == structs_union(items.structs@.take(i as int), fos).map(
                |p: (Seq<char>, Seq<char>)| p.0,
            ),
            pairs_of(owned_slices@).subset_of(structs_union(items.structs@.take(i as int), fos)),
    {
        let nf = items.structs[i].fields.len();
        proof {
            let fs = items.structs@[i as int].fields@;
            assert(fs.take(0) =~= Seq::<crate::compile::Field>::empty());
            assert(fields_union(fs.take(0), fsl) =~= Set::<(Seq<char>, Seq<char>)>::empty());
            assert(fields_union(fs.take(0), fop) =~= Set::<(Seq<char>, Seq<char>)>::empty());
            assert(fields_union(fs.take(0), fos) =~= Set::<(Seq<char>, Seq<char>)>::empty());
            assert(structs_union(items.structs@.take(i as int), fsl) + fields_union(
                fs.take(0),
                fsl,
            ) =~= structs_union(items.structs@.take(i as int), fsl));
            assert(structs_union(items.structs@.take(i as int), fop) + fields_union(
                fs.take(0),
                fop,
            ) =~= structs_union(items.structs@.take(i as int), fop));
            assert(structs_union(items.structs@.take(i as int), fos) + fields_union(
                fs.take(0),
                fos,
            ) =~= structs_union(items.structs@.take(i as int), fos));
        }
        for j in 0..nf
            invariant
                ns == items.structs@.len(),
                i < ns,
                nf == items.structs@[i as int].fields@.len(),
                strictly_sorted(slices@),
                strictly_sorted(owned_ptrs@),
                strictly_sorted(owned_slices@),
                names_of(slices@) == (structs_union(items.structs@.take(i as int), fsl)
                    + fields_union(items.structs@[i as int].fields@.take(j as int), fsl)).map(
                    |p: (Seq<char>, Seq<char>)| p.0,
                ),
                pairs_of(slices@).subset_of(
                    structs_union(items.structs@.take(i as int), fsl) + fields_union(
                        items.structs@[i as int].fields@.take(j as int),
                        fsl,
                    ),
                ),
                names_of(owned_ptrs@) == (structs_union(items.structs@.take(i as int), fop)
                    + fields_union(items.structs@[i as int].fields@.take(j as int), fop)).map(
                    |p: (Seq<char>, Seq<char>)| p.0,
                ),
                pairs_of(owned_ptrs@).subset_of(
                    structs_union(items.structs@.take(i as int), fop) + fields_union(
                        items.structs@[i as int].fields@.take(j as int),
                        fop,
                    ),
                ),
                names_of(owned_slices@) == (structs_union(items.structs@.take(i as int), fos)
                    + fields_union(items.structs@[i as int].fields@.take(j as int), fos)).map(
                    |p: (Seq<char>, Seq<char>)| p.0,
                ),
                pairs_of(owned_slices@).subset_of(
                    structs_union(items.structs@.take(i as int), fos) + fields_union(
                        items.structs@[i as int].fields@.take(j as int),
                        fos,
                    ),
                ),
        {
            visit_type(
                &items.structs[i].fields[j].ty,
                &mut slices,
                &mut owned_ptrs,
                &mut owned_slices,
            );
            proof {
                let fs = items.structs@[i as int].fields@;
                assert(fs.take(j + 1).drop_last() =~= fs.take(j as int));
                assert(fs.take(j + 1).last() == fs[j as int]);
                lemma_union_step(
                    structs_union(items.structs@.take(i as int), fsl),
                    fields_union(fs.take(j as int), fsl),
                    slice_pairs(fs[j as int].ty),
                    slices@,
                );
                lemma_union_step(
                    structs_union(items.structs@.take(i as int), fop),
                    fields_union(fs.take(j as int), fop),
                    owned_ptr_pairs(fs[j as int].ty),
                    owned_ptrs@,
                );
                lemma_union_step(
                    structs_union(items.structs@.take(i as int), fos),
                    fields_union(fs.take(j as int), fos),
                    owned_slice_pairs(fs[j as int].ty),
                    owned_slices@,
                );
            }
        }
        proof {
            let fs = items.structs@[i as int].fields@;
            assert(fs.take(nf as int) =~= fs);
            assert(items.structs@.take(i + 1).drop_last() =~= items.structs@.take(i as int));
            assert(items.structs@.take(i + 1).last() == items.structs@[i as int]);
            assert(structs_union(items.structs@.take(i + 1), fsl) =~= structs_union(
                items.structs@.take(i as int),
                fsl,
            ) + fields_union(fs, fsl));
            assert(structs_union(items.structs@.take(i + 1), fop) =~= structs_union(
                items.structs@.take(i as int),
                fop,
            ) + fields_union(fs, fop));
            assert(structs_union(items.structs@.take(i + 1), fos) =~= structs_union(
                items.structs@.take(i as int),
                fos,
            ) + fields_union(fs, fos));
        }
    }
    proof {
        assert(items.structs@.take(ns as int) =~= items.structs@);
    }
    proof {
        assert(items.functions@.take(0) =~= Seq::<crate::compile::Function>::empty());
        assert(fns_union(items.functions@.take(0), fsl) =~= Set::<(Seq<char>, Seq<char>)>::empty());
        assert(fns_union(items.functions@.take(0), fop) =~= Set::<(Seq<char>, Seq<char>)>::empty());
        assert(fns_union(items.functions@.take(0), fos) =~= Set::<(Seq<char>, Seq<char>)>::empty());
        assert(structs_union(items.structs@, fsl) + fns_union(items.functions@.take(0), fsl)
            =~= structs_union(items.structs@, fsl));
        assert(structs_union(items.structs@, fop) + fns_union(items.functions@.take(0), fop)
            =~= structs_union(items.structs@, fop));
        assert(structs_union(items.structs@, fos) + fns_union(items.functions@.take(0), fos)
            =~= structs_union(items.structs@, fos));
    }
    let nfn = items.functions.len();
    for i in 0..nfn
        invariant
            nfn == items.functions@.len(),
            strictly_sorted(slices@),
            strictly_sorted(owned_ptrs@),
            strictly_sorted(owned_slices@),
            names_of(slices@) == (structs_union(items.structs@, fsl) + fns_union(
                items.functions@.take(i as int),
                fsl,
            )).map(|p: (Seq<char>, Seq<char>)| p.0),
            pairs_of(slices@).subset_of(
                structs_union(items.structs@, fsl) + fns_union(
                    items.functions@.take(i as int),
                    fsl,
                ),
            ),
            names_of(owned_ptrs@) == (structs_union(items.structs@, fop) + fns_union(
                items.functions@.take(i as int),
                fop,
            )).map(|p: (Seq<char>, Seq<char>)| p.0),
            pairs_of(owned_ptrs@).subset_of(
                structs_union(items.structs@, fop) + fns_union(
                    items.functions@.take(i as int),
                    fop,
                ),
            ),
            names_of(owned_slices@) == (structs_union(items.structs@, fos) + fns_union(
                items.functions@.take(i as int),
                fos,
            )).map(|p: (Seq<char>, Seq<char>)| p.0),
            pairs_of(owned_slices@).subset_of(
                structs_union(items.structs@, fos) + fns_union(
                    items.functions@.take(i as int),
                    fos,
                ),
            ),
    {
        let na = items.functions[i].args.len();
        proof {
            let ar = items.functions@[i as int].args@;
            assert(ar.take(0) =~= Seq::<(String, Type)>::empty());
            assert(args_union(ar.take(0), fsl) =~= Set::<(Seq<char>, Seq<char>)>::empty());
            assert(args_union(ar.take(0), fop) =~= Set::<(Seq<char>, Seq<char>)>::empty());
            assert(args_union(ar.take(0), fos) =~= Set::<(Seq<char>, Seq<char>)>::empty());
            assert(structs_union(items.structs@, fsl) + fns_union(
                items.functions@.take(i as int),
                fsl,
            ) + args_union(ar.take(0), fsl) =~= structs_union(items.structs@, fsl) + fns_union(
                items.functions@.take(i as int),
                fsl,
            ));
            assert(structs_union(items.structs@, fop) + fns_union(
                items.functions@.take(i as int),
                fop,
            ) + args_union(ar.take(0), fop) =~= structs_union(items.structs@, fop) + fns_union(
                items.functions@.take(i as int),
                fop,
            ));
            assert(structs_union(items.structs@, fos) + fns_union(
                items.functions@.take(i as int),
                fos,
            ) + args_union(ar.take(0), fos) =~= structs_union(items.structs@, fos) + fns_union(
                items.functions@.take(i as int),
                fos,
            ));
        }
        for j in 0..na
            invariant
                nfn == items.functions@.len(),
                i < nfn,
                na == items.functions@[i as int].args@.len(),
                strictly_sorted(slices@),
                strictly_sorted(owned_ptrs@),
                strictly_sorted(owned_slices@),
                names_of(slices@) == (structs_union(items.structs@, fsl) + fns_union(
                    items.functions@.take(i as int),
                    fsl,
                ) + args_union(items.functions@[i as int].args@.take(j as int), fsl)).map(
                    |p: (Seq<char>, Seq<char>)| p.0,
                ),
                pairs_of(slices@).subset_of(
                    structs_union(items.structs@, fsl) + fns_union(
                        items.functions@.take(i as int),
                        fsl,
                    ) + args_union(items.functions@[i as int].args@.take(j as int), fsl),
                ),
                names_of(owned_ptrs@) == (structs_union(items.structs@, fop) + fns_union(
                    items.functions@.take(i as int),
                    fop,
                ) + args_union(items.functions@[i as int].args@.take(j as int), fop)).map(
                    |p: (Seq<char>, Seq<char>)| p.0,
                ),
                pairs_of(owned_ptrs@).subset_of(
                    structs_union(items.structs@, fop) + fns_union(
                        items.functions@.take(i as int),
                        fop,
                    ) + args_union(items.functions@[i as int].args@.take(j as int), fop),
                ),
                names_of(owned_slices@) == (structs_union(items.structs@, fos) + fns_union(
                    items.functions@.take(i as int),
                    fos,
                ) + args_union(items.functions@[i as int].args@.take(j as int), fos)).map(
                    |p: (Seq<char>, Seq<char>)| p.0,
                ),
                pairs_of(owned_slices@).subset_of(
                    structs_union(items.structs@, fos) + fns_union(
                        items.functions@.take(i as int),
                        fos,
                    ) + args_union(items.functions@[i as int].args@.take(j as int), fos),
                ),
        {
            visit_type(
                &items.functions[i].args[j].1,
                &mut slices,
                &mut owned_ptrs,
                &mut owned_slices,
            );
            proof {
                let ar = items.functions@[i as int].args@;
                assert(ar.take(j + 1).drop_last() =~= ar.take(j as int));
                assert(ar.take(j + 1).last() == ar[j as int]);
                lemma_union_step(
                    structs_union(items.structs@, fsl) + fns_union(
                        items.functions@.take(i as int),
                        fsl,
                    ),
                    args_union(ar.take(j as int), fsl),
                    slice_pairs(ar[j as int].1),
                    slices@,
                );
                lemma_union_step(
                    structs_union(items.structs@, fop) + fns_union(
                        items.functions@.take(i as int),
                        fop,
                    ),
                    args_union(ar.take(j as int), fop),
                    owned_ptr_pairs(ar[j as int].1),
                    owned_ptrs@,
                );
                lemma_union_step(
                    structs_union(items.structs@, fos) + fns_union(
                        items.functions@.take(i as int),
                        fos,
                    ),
                    args_union(ar.take(j as int), fos),
                    owned_slice_pairs(ar[j as int].1),
                    owned_slices@,
                );
            }
        }
        visit_type(&items.functions[i].returns, &mut slices, &mut owned_ptrs, &mut owned_slices);
        proof {
            let ar = items.functions@[i as int].args@;
            assert(ar.take(na as int) =~= ar);
            assert(items.functions@.take(i + 1).drop_last() =~= items.functions@.take(i as int));
            assert(items.functions@.take(i + 1).last() == items.functions@[i as int]);
            lemma_union_step(
                structs_union(items.structs@, fsl) + fns_union(
                    items.functions@.take(i as int),
                    fsl,
                ),
                args_union(ar, fsl),
                slice_pairs(items.functions@[i as int].returns),
                slices@,
            );
            lemma_union_step(
                structs_union(items.structs@, fop) + fns_union(
                    items.functions@.take(i as int),
                    fop,
                ),
                args_union(ar, fop),
                owned_ptr_pairs(items.functions@[i as int].returns),
                owned_ptrs@,
            );
            lemma_union_step(
                structs_union(items.structs@, fos) + fns_union(
                    items.functions@.take(i as int),
                    fos,
                ),
                args_union(ar, fos),
                owned_slice_pairs(items.functions@[i as int].returns),
                owned_slices@,
            );
            assert(fns_union(items.functions@.take(i + 1), fsl) =~= fns_union(
                items.functions@.take(i as int),
                fsl,
            ) + args_union(ar, fsl) + slice_pairs(items.functions@[i as int].returns));
            assert(fns_union(items.functions@.take(i + 1), fop) =~= fns_union(
                items.functions@.take(i as int),
                fop,
            ) + args_union(ar, fop) + owned_ptr_pairs(items.functions@[i as int].returns));
            assert(fns_union(items.functions@.take(i + 1), fos) =~= fns_union(
                items.functions@.take(i as int),
                fos,
            ) + args_union(ar, fos) + owned_slice_pairs(items.functions@[i as int].returns));
            assert(structs_union(items.structs@, fsl) + fns_union(
                items.functions@.take(i + 1),
                fsl,
            ) =~= (structs_union(items.structs@, fsl) + fns_union(
                items.functions@.take(i as int),
                fsl,
            )) + (args_union(ar, fsl) + slice_pairs(items.functions@[i as int].returns)));
            assert(structs_union(items.structs@, fop) + fns_union(
                items.functions@.take(i + 1),
                fop,
            ) =~= (structs_union(items.structs@, fop) + fns_union(
                items.functions@.take(i as int),
                fop,
            )) + (args_union(ar, fop) + owned_ptr_pairs(items.functions@[i as int].returns)));
            assert(structs_union(items.structs@, fos) + fns_union(
                items.functions@.take(i + 1),
                fos,
            ) =~= (structs_union(items.structs@, fos) + fns_union(
                items.functions@.take(i as int),
                fos,
            )) + (args_union(ar, fos) + owned_slice_pairs(items.functions@[i as int].returns)));
        }
    }
    proof {
        assert(items.functions@.take(nfn as int) =~= items.functions@);
        assert(names_of(slices@) =~= items_union(*items, fsl).map(
            |p: (Seq<char>, Seq<char>)| p.0,
        ));
        assert(names_of(owned_ptrs@) =~= items_union(*items, fop).map(
            |p: (Seq<char>, Seq<char>)| p.0,
        ));
        assert(names_of(owned_slices@) =~= items_union(*items, fos).map(
            |p: (Seq<char>, Seq<char>)| p.0,
        ));
    }
    (slices, owned_ptrs, owned_slices)
}

/// One walk step: the list that held `base + done` now holds one more
/// type's contribution, preserving the running-union shape.
proof fn lemma_union_step(
    base: Set<(Seq<char>, Seq<char>)>,
    done: Set<(Seq<char>, Seq<char>)>,
    add: Set<(Seq<char>, Seq<char>)>,
    v: Seq<(String, String)>,
)
    requires
        names_of(v) == (base + done).map(|p: (Seq<char>, Seq<char>)| p.0) + add.map(
            |p: (Seq<char>, Seq<char>)| p.0,
        ),
        pairs_of(v).subset_of((base + done) + add),
    ensures
        names_of(v) == (base + (done + add)).map(|p: (Seq<char>, Seq<char>)| p.0),
        pairs_of(v).subset_of(base + (done + add)),
{
    lemma_map_union(base + done, add);
    assert((base + done) + add =~= base + (done + add));
    assert((base + (done + add)).map(|p: (Seq<char>, Seq<char>)| p.0) =~= ((base + done)
        + add).map(|p: (Seq<char>, Seq<char>)| p.0));
    assert(names_of(v) =~= (base + (done + add)).map(|p: (Seq<char>, Seq<char>)| p.0));
}

} // verus!
