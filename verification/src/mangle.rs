//! The canonical mangler. Every type expression receives a deterministic
//! name built only from its structure, so that two structurally identical
//! types always share one name and two structurally different types never
//! collide. The scheme is injective by construction: every variant opens
//! with a distinct token, and the variable-length parts (identifier names,
//! argument lists, array lengths) are length- or count-prefixed with a
//! decimal number, which no identifier tail can imitate.
//!
//! The resulting names use only letters, digits and underscores, so target
//! representations can use them directly as helper-declaration names.

use vstd::prelude::*;
use vstd::string::*;
use crate::ast::{FunctionType, Identifier, PointerModifier, Primitive, Type};

verus! {

/// The structure of a type with its source locations forgotten: the
/// identity that mangling encodes. Two types have equal shapes exactly when
/// they are structurally identical.
#[verifier::ext_equal]
pub enum Shape {
    Prim(Primitive),
    Ptr(PointerModifier, Box<Shape>),
    StrPtr(PointerModifier),
    SlicePtr(PointerModifier, Box<Shape>),
    OwnedPtr(Box<Shape>),
    FnPtr(FunctionType, Seq<Shape>, Option<Box<Shape>>),
    ArrayOf(Box<Shape>, nat),
    Named(Seq<char>),
}

/// The shape of a type expression.
pub open spec fn shape_of(t: Type) -> Shape
    decreases t,
{
    match t {
        Type::Primitive { primitive, .. } => Shape::Prim(primitive),
        Type::Pointer(p) => Shape::Ptr(p.modifier, Box::new(shape_of(*p.ty))),
        Type::Str(s) => Shape::StrPtr(s.modifier),
        Type::Slice(s) => Shape::SlicePtr(s.modifier, Box::new(shape_of(*s.ty))),
        Type::Owned(o) => Shape::OwnedPtr(Box::new(shape_of(*o.ty))),
        Type::FunctionPointer(fp) => Shape::FnPtr(
            fp.fn_ty,
            shapes_of_args(fp.args@),
            match fp.returns {
                Some(r) => Some(Box::new(shape_of(*r))),
                None => None,
            },
        ),
        Type::Array(a) => Shape::ArrayOf(Box::new(shape_of(*a.ty)), a.len as nat),
        Type::Identifier(i) => Shape::Named(i.identifier@),
    }
}

/// The shapes of an argument list's types, in order.
pub open spec fn shapes_of_args(args: Seq<(Identifier, Type)>) -> Seq<Shape>
    decreases args,
{
    if args.len() == 0 {
        Seq::empty()
    } else {
        seq![shape_of(args[0].1)] + shapes_of_args(args.drop_first())
    }
}

/// The character of a single decimal digit.
pub open spec fn digit_char(d: nat) -> char {
    if d == 0 {
        '0'
    } else if d == 1 {
        '1'
    } else if d == 2 {
        '2'
    } else if d == 3 {
        '3'
    } else if d == 4 {
        '4'
    } else if d == 5 {
        '5'
    } else if d == 6 {
        '6'
    } else if d == 7 {
        '7'
    } else if d == 8 {
        '8'
    } else {
        '9'
    }
}

/// The decimal digits of a number, most significant first, no leading
/// zeros (zero itself is the single digit `0`).
pub open spec fn dec_str(n: nat) -> Seq<char>
    decreases n,
{
    if n < 10 {
        seq![digit_char(n)]
    } else {
        dec_str(n / 10).push(digit_char(n % 10))
    }
}

/// The token of a primitive type.
pub open spec fn prim_token(p: Primitive) -> Seq<char> {
    match p {
        Primitive::Bool => "bool"@,
        Primitive::I8 => "i8"@,
        Primitive::I16 => "i16"@,
        Primitive::I32 => "i32"@,
        Primitive::I64 => "i64"@,
        Primitive::Isize => "isize"@,
        Primitive::U8 => "u8"@,
        Primitive::U16 => "u16"@,
        Primitive::U32 => "u32"@,
        Primitive::U64 => "u64"@,
        Primitive::Usize => "usize"@,
    }
}

/// The canonical mangled name of a shape.
pub open spec fn spec_mangle(s: Shape) -> Seq<char>
    decreases s,
{
    match s {
        Shape::Prim(p) => prim_token(p),
        Shape::Ptr(m, inner) => (match m {
            PointerModifier::Const => "ptr_const_"@,
            PointerModifier::Mut => "ptr_mut_"@,
        }) + spec_mangle(*inner),
        Shape::StrPtr(m) => match m {
            PointerModifier::Const => "str_const"@,
            PointerModifier::Mut => "str_mut"@,
        },
        Shape::SlicePtr(m, inner) => (match m {
            PointerModifier::Const => "slice_const_"@,
            PointerModifier::Mut => "slice_mut_"@,
        }) + spec_mangle(*inner),
        Shape::OwnedPtr(inner) => "owned_"@ + spec_mangle(*inner),
        Shape::FnPtr(k, args, ret) => (match k {
            FunctionType::Function => "fn"@,
            FunctionType::Closure => "closure"@,
        }) + dec_str(args.len()) + "_"@ + spec_mangle_list(args) + spec_mangle_ret(ret),
        Shape::ArrayOf(inner, n) => "array"@ + dec_str(n) + "_"@ + spec_mangle(*inner),
        Shape::Named(name) => "id"@ + dec_str(name.len()) + "_"@ + name,
    }
}

/// The mangled names of an argument-shape list, concatenated in order.
pub open spec fn spec_mangle_list(args: Seq<Shape>) -> Seq<char>
    decreases args,
{
    if args.len() == 0 {
        Seq::empty()
    } else {
        spec_mangle(args[0]) + spec_mangle_list(args.drop_first())
    }
}

/// The mangled return suffix: `void` for none, `ret_` and the return
/// type's name otherwise.
pub open spec fn spec_mangle_ret(ret: Option<Box<Shape>>) -> Seq<char>
    decreases ret,
{
    match ret {
        None => "void"@,
        Some(r) => "ret_"@ + spec_mangle(*r),
    }
}

/// An argument list has as many shapes as arguments.
pub proof fn lemma_shapes_of_args_len(args: Seq<(Identifier, Type)>)
    ensures
        shapes_of_args(args).len() == args.len(),
    decreases args,
{
    if args.len() > 0 {
        lemma_shapes_of_args_len(args.drop_first());
    }
}

/// Appending one shape to a list appends its mangled name to the list's.
pub proof fn lemma_mangle_list_push(xs: Seq<Shape>, x: Shape)
    ensures
        spec_mangle_list(xs.push(x)) == spec_mangle_list(xs) + spec_mangle(x),
    decreases xs,
{
    if xs.len() == 0 {
        assert(xs.push(x)[0] == x);
        assert(xs.push(x).drop_first() =~= Seq::<Shape>::empty());
        assert(spec_mangle_list(Seq::<Shape>::empty()) == Seq::<char>::empty());
        assert(xs =~= Seq::<Shape>::empty());
        assert(spec_mangle_list(xs.push(x)) =~= spec_mangle_list(xs) + spec_mangle(x));
    } else {
        assert(xs.push(x)[0] == xs[0]);
        assert(xs.push(x).drop_first() =~= xs.drop_first().push(x));
        lemma_mangle_list_push(xs.drop_first(), x);
        assert(spec_mangle_list(xs.push(x)) == spec_mangle(xs[0]) + spec_mangle_list(
            xs.drop_first().push(x),
        ));
        assert(spec_mangle_list(xs.push(x)) =~= spec_mangle_list(xs) + spec_mangle(x));
    }
}

/// Appending one argument to a list appends its shape to the list's.
pub proof fn lemma_shapes_of_args_push(args: Seq<(Identifier, Type)>, a: (Identifier, Type))
    ensures
        shapes_of_args(args.push(a)) == shapes_of_args(args).push(shape_of(a.1)),
    decreases args,
{
    if args.len() == 0 {
        assert(args.push(a)[0] == a);
        assert(args.push(a).drop_first() =~= Seq::<(Identifier, Type)>::empty());
        assert(shapes_of_args(Seq::<(Identifier, Type)>::empty()) == Seq::<Shape>::empty());
        assert(args =~= Seq::<(Identifier, Type)>::empty());
        assert(shapes_of_args(args.push(a)) =~= shapes_of_args(args).push(shape_of(a.1)));
    } else {
        assert(args.push(a)[0] == args[0]);
        assert(args.push(a).drop_first() =~= args.drop_first().push(a));
        lemma_shapes_of_args_push(args.drop_first(), a);
        assert(shapes_of_args(args.push(a)) == seq![shape_of(args[0].1)] + shapes_of_args(
            args.drop_first().push(a),
        ));
        assert(shapes_of_args(args.push(a)) =~= shapes_of_args(args).push(shape_of(a.1)));
    }
}

/// Append one decimal digit.
fn push_digit(s: &mut String, d: u64)
    requires
        d < 10,
    ensures
        final(s)@ == old(s)@ + seq![digit_char(d as nat)],
{
    let t: &str = if d == 0 {
        "0"
    } else if d == 1 {
        "1"
    } else if d == 2 {
        "2"
    } else if d == 3 {
        "3"
    } else if d == 4 {
        "4"
    } else if d == 5 {
        "5"
    } else if d == 6 {
        "6"
    } else if d == 7 {
        "7"
    } else if d == 8 {
        "8"
    } else {
        "9"
    };
    proof {
        reveal_strlit("0");
        reveal_strlit("1");
        reveal_strlit("2");
        reveal_strlit("3");
        reveal_strlit("4");
        reveal_strlit("5");
        reveal_strlit("6");
        reveal_strlit("7");
        reveal_strlit("8");
        reveal_strlit("9");
        assert(t@ =~= seq![digit_char(d as nat)]);
    }
    s.append(t);
}

/// Append the decimal digits of a number, most significant first.
pub fn push_decimal(s: &mut String, n: u64)
    ensures
        final(s)@ == old(s)@ + dec_str(n as nat),
    decreases n,
{
    if n < 10 {
        push_digit(s, n);
    } else {
        push_decimal(s, n / 10);
        push_digit(s, n % 10);
        proof {
            assert((n / 10) as nat == (n as nat) / 10);
            assert((n % 10) as nat == (n as nat) % 10);
            assert(s@ =~= old(s)@ + dec_str(n as nat));
        }
    }
}

/// Append the canonical mangled name of the type to the accumulator.
#[verifier::loop_isolation(false)]
#[verifier::rlimit(100)]
fn mangle_into(ty: &Type, s: &mut String)
    ensures
        final(s)@ == old(s)@ + spec_mangle(shape_of(*ty)),
    decreases *ty,
{
    match ty {
        Type::Primitive { primitive, .. } => {
            let t: &str = match primitive {
                Primitive::Bool => "bool",
                Primitive::I8 => "i8",
                Primitive::I16 => "i16",
                Primitive::I32 => "i32",
                Primitive::I64 => "i64",
                Primitive::Isize => "isize",
                Primitive::U8 => "u8",
                Primitive::U16 => "u16",
                Primitive::U32 => "u32",
                Primitive::U64 => "u64",
                Primitive::Usize => "usize",
            };
            s.append(t);
        },
        Type::Pointer(p) => {
            match p.modifier {
                PointerModifier::Const => s.append("ptr_const_"),
                PointerModifier::Mut => s.append("ptr_mut_"),
            }
            mangle_into(&p.ty, s);
            proof {
                assert(s@ =~= old(s)@ + spec_mangle(shape_of(*ty)));
            }
        },
        Type::Str(sp) => {
            match sp.modifier {
                PointerModifier::Const => s.append("str_const"),
                PointerModifier::Mut => s.append("str_mut"),
            }
        },
        Type::Slice(sl) => {
            match sl.modifier {
                PointerModifier::Const => s.append("slice_const_"),
                PointerModifier::Mut => s.append("slice_mut_"),
            }
            mangle_into(&sl.ty, s);
            proof {
                assert(s@ =~= old(s)@ + spec_mangle(shape_of(*ty)));
            }
        },
        Type::Owned(o) => {
            s.append("owned_");
            mangle_into(&o.ty, s);
            proof {
                assert(s@ =~= old(s)@ + spec_mangle(shape_of(*ty)));
            }
        },
        Type::FunctionPointer(fp) => {
            let ghost head: Seq<char> = match fp.fn_ty {
                FunctionType::Function => "fn"@,
                FunctionType::Closure => "closure"@,
            };
            match fp.fn_ty {
                FunctionType::Function => s.append("fn"),
                FunctionType::Closure => s.append("closure"),
            }
            proof {
                assert(s@ == old(s)@ + head);
            }
            push_decimal(s, fp.args.len() as u64);
            proof {
                assert((fp.args.len() as u64) as nat == fp.args@.len());
                assert(s@ == old(s)@ + head + dec_str(fp.args@.len()));
            }
            s.append("_");
            let ghost base = s@;
            proof {
                assert(base == old(s)@ + head + dec_str(fp.args@.len()) + "_"@);
            }
            let n = fp.args.len();
            for j in 0..n
                invariant
                    n == fp.args@.len(),
                    s@ == base + spec_mangle_list(shapes_of_args(fp.args@.take(j as int))),
            {
                let ghost pre = s@;
                mangle_into(&fp.args[j].1, s);
                proof {
                    assert(fp.args@.take(j + 1) =~= fp.args@.take(j as int).push(
                        fp.args@[j as int],
                    ));
                    lemma_shapes_of_args_push(fp.args@.take(j as int), fp.args@[j as int]);
                    lemma_mangle_list_push(
                        shapes_of_args(fp.args@.take(j as int)),
                        shape_of(fp.args@[j as int].1),
                    );
                    assert(s@ =~= base + spec_mangle_list(
                        shapes_of_args(fp.args@.take(j + 1)),
                    ));
                }
            }
            proof {
                assert(fp.args@.take(n as int) =~= fp.args@);
                lemma_shapes_of_args_len(fp.args@);
                assert(s@ == base + spec_mangle_list(shapes_of_args(fp.args@)));
            }
            let ghost mid = s@;
            let ghost retshape: Option<Box<Shape>> = match &fp.returns {
                Some(r) => Some(Box::new(shape_of(**r))),
                None => None,
            };
            match &fp.returns {
                Some(r) => {
                    s.append("ret_");
                    mangle_into(r, s);
                    proof {
                        assert(s@ == mid + "ret_"@ + spec_mangle(shape_of(**r)));
                        assert(spec_mangle_ret(retshape) == "ret_"@ + spec_mangle(shape_of(**r)));
                        assert(s@ =~= mid + spec_mangle_ret(retshape));
                    }
                },
                None => {
                    s.append("void");
                    proof {
                        assert(s@ =~= mid + spec_mangle_ret(retshape));
                    }
                },
            }
            proof {
                assert(shape_of(*ty) == Shape::FnPtr(fp.fn_ty, shapes_of_args(fp.args@), retshape));
                assert(spec_mangle(shape_of(*ty)) == head + dec_str(shapes_of_args(fp.args@).len())
                    + "_"@ + spec_mangle_list(shapes_of_args(fp.args@)) + spec_mangle_ret(retshape));
                assert(s@ =~= old(s)@ + spec_mangle(shape_of(*ty)));
            }
        },
        Type::Array(a) => {
            s.append("array");
            push_decimal(s, a.len);
            s.append("_");
            mangle_into(&a.ty, s);
            proof {
                assert(s@ =~= old(s)@ + spec_mangle(shape_of(*ty)));
            }
        },
        Type::Identifier(i) => {
            s.append("id");
            let l = i.identifier.as_str().unicode_len();
            push_decimal(s, l as u64);
            s.append("_");
            s.append(i.identifier.as_str());
            proof {
                assert(s@ =~= old(s)@ + spec_mangle(shape_of(*ty)));
            }
        },
    }
}

/// The canonical mangled name of a type: a deterministic encoding of its
/// structure. Structurally identical types receive identical names, and
/// structurally different types always receive different names.
pub fn mangle_type(ty: &Type) -> (r: String)
    ensures
        r@ == spec_mangle(shape_of(*ty)),
{
    let mut s = String::new();
    mangle_into(ty, &mut s);
    proof {
        assert(s@ =~= spec_mangle(shape_of(*ty)));
    }
    s
}

} // verus!
