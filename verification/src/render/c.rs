//! The C representation of types. C has no templates, so slices and owned
//! pointers render as the names of concrete helper typedefs derived from
//! the canonical mangled name; pointers spell `const` on the pointee.

use vstd::prelude::*;
use vstd::string::*;
use crate::ast::{FunctionType, Identifier, PointerModifier, Primitive, Type};
use crate::mangle::{mangle_type, shape_of, spec_mangle};

verus! {

/// The C spelling of a primitive type.
pub open spec fn c_prim(p: Primitive) -> Seq<char> {
    match p {
        Primitive::Bool => "bool"@,
        Primitive::I8 => "int8_t"@,
        Primitive::I16 => "int16_t"@,
        Primitive::I32 => "int32_t"@,
        Primitive::I64 => "int64_t"@,
        Primitive::Isize => "ssize_t"@,
        Primitive::U8 => "uint8_t"@,
        Primitive::U16 => "uint16_t"@,
        Primitive::U32 => "uint32_t"@,
        Primitive::U64 => "uint64_t"@,
        Primitive::Usize => "size_t"@,
    }
}

/// The tag a slice helper name carries for its constness.
pub open spec fn const_tag(m: PointerModifier) -> Seq<char> {
    match m {
        PointerModifier::Const => "const"@,
        PointerModifier::Mut => "mut"@,
    }
}

/// The name of the concrete slice helper typedef for an element type.
pub open spec fn slice_helper_name(m: PointerModifier, elem: Type) -> Seq<char> {
    "vellum_slice_"@ + const_tag(m) + "_"@ + spec_mangle(shape_of(elem))
}

/// The name of the concrete owned-slice helper typedef.
pub open spec fn owned_slice_helper_name(m: PointerModifier, elem: Type) -> Seq<char> {
    "vellum_owned_slice_"@ + const_tag(m) + "_"@ + spec_mangle(shape_of(elem))
}

/// The name of the concrete owned-pointer helper typedef.
pub open spec fn owned_ptr_helper_name(target: Type) -> Seq<char> {
    "vellum_owned_ptr_"@ + spec_mangle(shape_of(target))
}

/// The C text of a type, as `ty` renders it.
pub open spec fn c_repr(t: Type) -> Seq<char>
    decreases t, 0int,
{
    match t {
        Type::Primitive { primitive, .. } => c_prim(primitive),
        Type::Pointer(p) => c_repr(*p.ty) + (match p.modifier {
            PointerModifier::Const => " const *"@,
            PointerModifier::Mut => " *"@,
        }),
        Type::Str(s) => match s.modifier {
            PointerModifier::Const => "char const *"@,
            PointerModifier::Mut => "char *"@,
        },
        Type::Slice(s) => slice_helper_name(s.modifier, *s.ty),
        Type::Owned(o) => match *o.ty {
            Type::Slice(s) => owned_slice_helper_name(s.modifier, *s.ty),
            _ => owned_ptr_helper_name(*o.ty),
        },
        Type::FunctionPointer(fp) => match fp.fn_ty {
            FunctionType::Function => (match fp.returns {
                Some(r) => c_repr(*r),
                None => "void"@,
            }) + " (*) ("@ + c_args_prefix(fp.args@, fp.args@.len() as int) + ")"@,
            FunctionType::Closure => "struct vellum_closure"@,
        },
        Type::Array(a) => c_repr(*a.ty) + "["@ + crate::mangle::dec_str(a.len as nat) + "]"@,
        Type::Identifier(i) => "struct "@ + i.identifier@,
    }
}

/// The comma-separated C text of the first `j` argument types.
pub open spec fn c_args_prefix(args: Seq<(Identifier, Type)>, j: int) -> Seq<char>
    decreases args, j,
{
    if j <= 0 || j > args.len() {
        Seq::empty()
    } else if j == 1 {
        c_repr(args[0].1)
    } else {
        c_args_prefix(args, j - 1) + ", "@ + c_repr(args[j - 1].1)
    }
}

/// The C text used where a slice or owned helper embeds an element or
/// target type, with `const` spelled in front when the slice is constant.
pub open spec fn c_elem_repr(t: Type, is_const: bool) -> Seq<char> {
    match t {
        Type::Slice(s) => slice_helper_name(s.modifier, *s.ty),
        Type::Owned(o) => c_repr(*o.ty),
        Type::FunctionPointer(_) => "void*"@,
        _ => if is_const {
            "const "@ + c_repr(t)
        } else {
            c_repr(t)
        },
    }
}

/// Append the C text of a type to the accumulator.
#[verifier::loop_isolation(false)]
#[verifier::rlimit(100)]
fn c_repr_into(ty: &Type, s: &mut String)
    ensures
        final(s)@ == old(s)@ + c_repr(*ty),
    decreases *ty,
{
    match ty {
        Type::Primitive { primitive, .. } => {
            let t: &str = match primitive {
                Primitive::Bool => "bool",
                Primitive::I8 => "int8_t",
                Primitive::I16 => "int16_t",
                Primitive::I32 => "int32_t",
                Primitive::I64 => "int64_t",
                Primitive::Isize => "ssize_t",
                Primitive::U8 => "uint8_t",
                Primitive::U16 => "uint16_t",
                Primitive::U32 => "uint32_t",
                Primitive::U64 => "uint64_t",
                Primitive::Usize => "size_t",
            };
            s.append(t);
        },
        Type::Pointer(p) => {
            c_repr_into(&p.ty, s);
            match p.modifier {
                PointerModifier::Const => s.append(" const *"),
                PointerModifier::Mut => s.append(" *"),
            }
            proof {
                assert(s@ =~= old(s)@ + c_repr(*ty));
            }
        },
        Type::Str(sp) => {
            match sp.modifier {
                PointerModifier::Const => s.append("char const *"),
                PointerModifier::Mut => s.append("char *"),
            }
        },
        Type::Slice(sl) => {
            s.append("vellum_slice_");
            match sl.modifier {
                PointerModifier::Const => s.append("const"),
                PointerModifier::Mut => s.append("mut"),
            }
            s.append("_");
            let m = mangle_type(&sl.ty);
            s.append(m.as_str());
            proof {
                assert(s@ =~= old(s)@ + c_repr(*ty));
            }
        },
        Type::Owned(o) => {
            match &*o.ty {
                Type::Slice(sl) => {
                    s.append("vellum_owned_slice_");
                    match sl.modifier {
                        PointerModifier::Const => s.append("const"),
                        PointerModifier::Mut => s.append("mut"),
                    }
                    s.append("_");
                    let m = mangle_type(&sl.ty);
                    s.append(m.as_str());
                },
                _ => {
                    s.append("vellum_owned_ptr_");
                    let m = mangle_type(&o.ty);
                    s.append(m.as_str());
                },
            }
            proof {
                assert(s@ =~= old(s)@ + c_repr(*ty));
            }
        },
        Type::FunctionPointer(fp) => {
            match fp.fn_ty {
                FunctionType::Function => {
                    match &fp.returns {
                        Some(r) => c_repr_into(r, s),
                        None => s.append("void"),
                    }
                    s.append(" (*) (");
                    let ghost base = s@;
                    let n = fp.args.len();
                    for j in 0..n
                        invariant
                            n == fp.args@.len(),
                            s@ == base + c_args_prefix(fp.args@, j as int),
                    {
                        if j > 0 {
                            s.append(", ");
                        }
                        c_repr_into(&fp.args[j].1, s);
                        proof {
                            assert(s@ =~= base + c_args_prefix(fp.args@, j + 1));
                        }
                    }
                    s.append(")");
                    proof {
                        assert(s@ =~= old(s)@ + c_repr(*ty));
                    }
                },
                FunctionType::Closure => {
                    s.append("struct vellum_closure");
                },
            }
        },
        Type::Array(a) => {
            c_repr_into(&a.ty, s);
            s.append("[");
            crate::mangle::push_decimal(s, a.len);
            s.append("]");
            proof {
                assert(s@ =~= old(s)@ + c_repr(*ty));
            }
        },
        Type::Identifier(i) => {
            s.append("struct ");
            s.append(i.identifier.as_str());
            proof {
                assert(s@ =~= old(s)@ + c_repr(*ty));
            }
        },
    }
}

/// The C text of a type.
pub fn ty(t: &Type) -> (r: String)
    ensures
        r@ == c_repr(*t),
{
    let mut s = String::new();
    c_repr_into(t, &mut s);
    proof {
        assert(s@ =~= c_repr(*t));
    }
    s
}

/// The C text of an optional return type; `void` when absent.
pub fn retty(t: &Option<Type>) -> (r: String)
    ensures
        match t {
            Some(t0) => r@ == c_repr(*t0),
            None => r@ == "void"@,
        },
{
    match t {
        Some(t0) => ty(t0),
        None => String::from_str("void"),
    }
}

/// The C text used for a slice element or owned target inside a helper
/// typedef; nested slices fall back to their own helper's name.
pub fn c_type(t: &Type, is_const: bool) -> (r: String)
    ensures
        r@ == c_elem_repr(*t, is_const),
{
    match t {
        Type::Slice(sl) => {
            let mut s = String::from_str("vellum_slice_");
            match sl.modifier {
                PointerModifier::Const => s.append("const"),
                PointerModifier::Mut => s.append("mut"),
            }
            s.append("_");
            let m = mangle_type(&sl.ty);
            s.append(m.as_str());
            proof {
                assert(s@ =~= c_elem_repr(*t, is_const));
            }
            s
        },
        Type::Owned(o) => {
            let r = ty(&o.ty);
            r
        },
        Type::FunctionPointer(_) => String::from_str("void*"),
        _ => {
            if is_const {
                let mut s = String::from_str("const ");
                let b = ty(t);
                s.append(b.as_str());
                proof {
                    assert(s@ =~= c_elem_repr(*t, is_const));
                }
                s
            } else {
                ty(t)
            }
        },
    }
}

} // verus!
