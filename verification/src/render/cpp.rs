//! The C++ representations of types: the plain ABI form, in which slices,
//! owned pointers and closures spell out their internal (`detail::abi`)
//! templates, and the RAII form a user-facing header spells.

use vstd::prelude::*;
use vstd::string::*;
use crate::ast::{FunctionType, Identifier, PointerModifier, Primitive, Type};

verus! {

/// The C++ spelling of a primitive type.
pub open spec fn cpp_prim(p: Primitive) -> Seq<char> {
    match p {
        Primitive::Bool => "bool"@,
        Primitive::I8 => "int8_t"@,
        Primitive::I16 => "int16_t"@,
        Primitive::I32 => "int32_t"@,
        Primitive::I64 => "int64_t"@,
        Primitive::Isize => "ssize_t"@,
        Primitive::U8 => "uint8_t"@,
        Primitive::U16 => "uint16_t"@,
        Primitive::U32 => "uint32_t"@,
        Primitive::U64 => "uint64_t"@,
        Primitive::Usize => "size_t"@,
    }
}

/// Whether to render the internal ABI templates or the RAII ones.
#[derive(Clone, Copy, Debug, PartialEq, Eq, Structural)]
pub enum CppStyle {
    Abi,
    Raii,
}

pub open spec fn cpp_slice_head(style: CppStyle) -> Seq<char> {
    match style {
        CppStyle::Abi => "vellum::detail::abi::slice<"@,
        CppStyle::Raii => "vellum::slice<"@,
    }
}

pub open spec fn cpp_owned_head(style: CppStyle) -> Seq<char> {
    match style {
        CppStyle::Abi => "vellum::detail::abi::owned<"@,
        CppStyle::Raii => "vellum::owned<"@,
    }
}

pub open spec fn cpp_fn_head(style: CppStyle, k: FunctionType) -> Seq<char> {
    match k {
        FunctionType::Function => "vellum::function<"@,
        FunctionType::Closure => match style {
            CppStyle::Abi => "vellum::detail::abi::closure<"@,
            CppStyle::Raii => "vellum::closure<"@,
        },
    }
}

/// The C++ text of a type in the given style.
pub open spec fn cpp_repr(style: CppStyle, t: Type) -> Seq<char>
    decreases t, 0int,
{
    match t {
        Type::Primitive { primitive, .. } => cpp_prim(primitive),
        Type::Pointer(p) => cpp_repr(style, *p.ty) + (match p.modifier {
            PointerModifier::Const => " const *"@,
            PointerModifier::Mut => " *"@,
        }),
        Type::Str(s) => match s.modifier {
            PointerModifier::Const => "char const *"@,
            PointerModifier::Mut => "char *"@,
        },
        Type::Slice(s) => cpp_slice_head(style) + (match s.modifier {
            PointerModifier::Const => "const "@,
            PointerModifier::Mut => ""@,
        }) + cpp_repr(style, *s.ty) + ">"@,
        Type::Owned(o) => cpp_owned_head(style) + cpp_repr(style, *o.ty) + ">"@,
        Type::FunctionPointer(fp) => cpp_fn_head(style, fp.fn_ty) + (match fp.returns {
            Some(r) => cpp_repr(style, *r),
            None => "void"@,
        }) + " ("@ + cpp_args_prefix(style, fp.args@, fp.args@.len() as int) + ")>"@,
        Type::Array(a) => "std::array<"@ + cpp_repr(style, *a.ty) + ", "@ + crate::mangle::dec_str(
            a.len as nat,
        ) + ">"@,
        Type::Identifier(i) => i.identifier@,
    }
}

/// The comma-separated C++ text of the first `j` argument types.
pub open spec fn cpp_args_prefix(style: CppStyle, args: Seq<(Identifier, Type)>, j: int) -> Seq<
    char,
>
    decreases args, j,
{
    if j <= 0 || j > args.len() {
        Seq::empty()
    } else if j == 1 {
        cpp_repr(style, args[0].1)
    } else {
        cpp_args_prefix(style, args, j - 1) + ", "@ + cpp_repr(style, args[j - 1].1)
    }
}

/// Append the C++ text of a function pointer to the accumulator.
#[verifier::loop_isolation(false)]
#[verifier::rlimit(100)]
fn cpp_fnptr_into(style: CppStyle, fp: &crate::ast::FunctionPointer, s: &mut String)
    ensures
        final(s)@ == old(s)@ + cpp_repr(style, Type::FunctionPointer(*fp)),
    decreases *fp,
{
    match fp.fn_ty {
        FunctionType::Function => s.append("vellum::function<"),
        FunctionType::Closure => match style {
            CppStyle::Abi => s.append("vellum::detail::abi::closure<"),
            CppStyle::Raii => s.append("vellum::closure<"),
        },
    }
    match &fp.returns {
        Some(r) => cpp_repr_into(style, r, s),
        None => s.append("void"),
    }
    s.append(" (");
    let ghost base = s@;
    let n = fp.args.len();
    for j in 0..n
        invariant
            n == fp.args@.len(),
            s@ == base + cpp_args_prefix(style, fp.args@, j as int),
    {
        if j > 0 {
            s.append(", ");
        }
        cpp_repr_into(style, &fp.args[j].1, s);
        proof {
            assert(s@ =~= base + cpp_args_prefix(style, fp.args@, j + 1));
        }
    }
    s.append(")>");
    proof {
        assert(s@ =~= old(s)@ + cpp_repr(style, Type::FunctionPointer(*fp)));
    }
}

/// Append the C++ text of a type to the accumulator.
#[verifier::loop_isolation(false)]
#[verifier::rlimit(100)]
fn cpp_repr_into(style: CppStyle, ty: &Type, s: &mut String)
    ensures
        final(s)@ == old(s)@ + cpp_repr(style, *ty),
    decreases *ty,
{
    match ty {
        Type::Primitive { primitive, .. } => {
            let t: &str = match primitive {
                Primitive::Bool => "bool",
                Primitive::I8 => "int8_t",
                Primitive::I16 => "int16_t",
                Primitive::I32 => "int32_t",
                Primitive::I64 => "int64_t",
                Primitive::Isize => "ssize_t",
                Primitive::U8 => "uint8_t",
                Primitive::U16 => "uint16_t",
                Primitive::U32 => "uint32_t",
                Primitive::U64 => "uint64_t",
                Primitive::Usize => "size_t",
            };
            s.append(t);
        },
        Type::Pointer(p) => {
            cpp_repr_into(style, &p.ty, s);
            match p.modifier {
                PointerModifier::Const => s.append(" const *"),
                PointerModifier::Mut => s.append(" *"),
            }
            proof {
                assert(s@ =~= old(s)@ + cpp_repr(style, *ty));
            }
        },
        Type::Str(sp) => {
            match sp.modifier {
                PointerModifier::Const => s.append("char const *"),
                PointerModifier::Mut => s.append("char *"),
            }
        },
        Type::Slice(sl) => {
            match style {
                CppStyle::Abi => s.append("vellum::detail::abi::slice<"),
                CppStyle::Raii => s.append("vellum::slice<"),
            }
            match sl.modifier {
                PointerModifier::Const => s.append("const "),
                PointerModifier::Mut => s.append(""),
            }
            cpp_repr_into(style, &sl.ty, s);
            s.append(">");
            proof {
                assert(s@ =~= old(s)@ + cpp_repr(style, *ty));
            }
        },
        Type::Owned(o) => {
            match style {
                CppStyle::Abi => s.append("vellum::detail::abi::owned<"),
                CppStyle::Raii => s.append("vellum::owned<"),
            }
            cpp_repr_into(style, &o.ty, s);
            s.append(">");
            proof {
                assert(s@ =~= old(s)@ + cpp_repr(style, *ty));
            }
        },
        Type::FunctionPointer(fp) => {
            cpp_fnptr_into(style, fp, s);
            proof {
                assert(s@ =~= old(s)@ + cpp_repr(style, *ty));
            }
        },
        Type::Array(a) => {
            s.append("std::array<");
            cpp_repr_into(style, &a.ty, s);
            s.append(", ");
            crate::mangle::push_decimal(s, a.len);
            s.append(">");
            proof {
                assert(s@ =~= old(s)@ + cpp_repr(style, *ty));
            }
        },
        Type::Identifier(i) => {
            s.append(i.identifier.as_str());
            proof {
                assert(s@ =~= old(s)@ + cpp_repr(style, *ty));
            }
        },
    }
}

/// The ABI-form C++ text of a type.
pub fn ty(t: &Type) -> (r: String)
    ensures
        r@ == cpp_repr(CppStyle::Abi, *t),
{
    let mut s = String::new();
    cpp_repr_into(CppStyle::Abi, t, &mut s);
    proof {
        assert(s@ =~= cpp_repr(CppStyle::Abi, *t));
    }
    s
}

/// The ABI-form C++ text of an optional return type; `void` when absent.
pub fn retty(t: &Option<Type>) -> (r: String)
    ensures
        match t {
            Some(t0) => r@ == cpp_repr(CppStyle::Abi, *t0),
            None => r@ == "void"@,
        },
{
    match t {
        Some(t0) => ty(t0),
        None => String::from_str("void"),
    }
}

/// The RAII-form C++ text of a type.
pub fn ty_raii(t: &Type) -> (r: String)
    ensures
        r@ == cpp_repr(CppStyle::Raii, *t),
{
    let mut s = String::new();
    cpp_repr_into(CppStyle::Raii, t, &mut s);
    proof {
        assert(s@ =~= cpp_repr(CppStyle::Raii, *t));
    }
    s
}

/// The RAII-form C++ text of an optional return type; `void` when absent.
pub fn retty_raii(t: &Option<Type>) -> (r: String)
    ensures
        match t {
            Some(t0) => r@ == cpp_repr(CppStyle::Raii, *t0),
            None => r@ == "void"@,
        },
{
    match t {
        Some(t0) => ty_raii(t0),
        None => String::from_str("void"),
    }
}

} // verus!
