//! The Python (ctypes-based) representation of types, and the helpers that
//! assemble docstring lines for generated modules. ctypes has no constness,
//! so the modifiers disappear in this representation.

use vstd::prelude::*;
use vstd::string::*;
use crate::ast::{Field, FunctionType, Identifier, Primitive, Type};
use crate::compile::Function;

verus! {

/// The ctypes spelling of a primitive type.
pub open spec fn py_prim(p: Primitive) -> Seq<char> {
    match p {
        Primitive::Bool => "ct.c_bool"@,
        Primitive::I8 => "ct.c_int8"@,
        Primitive::I16 => "ct.c_int16"@,
        Primitive::I32 => "ct.c_int32"@,
        Primitive::I64 => "ct.c_int64"@,
        Primitive::Isize => "ct.c_ssize_t"@,
        Primitive::U8 => "ct.c_uint8"@,
        Primitive::U16 => "ct.c_uint16"@,
        Primitive::U32 => "ct.c_uint32"@,
        Primitive::U64 => "ct.c_uint64"@,
        Primitive::Usize => "ct.c_size_t"@,
    }
}

/// The Python text of a type.
pub open spec fn py_repr(t: Type) -> Seq<char>
    decreases t, 0int,
{
    match t {
        Type::Primitive { primitive, .. } => py_prim(primitive),
        Type::Pointer(p) => "ct.POINTER("@ + py_repr(*p.ty) + ")"@,
        Type::Str(_) => "ct.c_char_p"@,
        Type::Slice(s) => "vellum.Slice("@ + py_repr(*s.ty) + ")"@,
        Type::Owned(o) => "vellum.Owned("@ + py_repr(*o.ty) + ")"@,
        Type::FunctionPointer(fp) => (match fp.fn_ty {
            FunctionType::Function => "ct.CFUNCTYPE("@,
            FunctionType::Closure => "vellum.Closure("@,
        }) + (match fp.returns {
            Some(r) => py_repr(*r),
            None => "None"@,
        }) + py_args_prefix(fp.args@, fp.args@.len() as int) + ")"@,
        Type::Array(a) => "("@ + py_repr(*a.ty) + " * "@ + crate::mangle::dec_str(a.len as nat)
            + ")"@,
        Type::Identifier(i) => i.identifier@,
    }
}

/// The Python text of the first `j` argument types, each preceded by a
/// comma (the return type always comes first in the call).
pub open spec fn py_args_prefix(args: Seq<(Identifier, Type)>, j: int) -> Seq<char>
    decreases args, j,
{
    if j <= 0 || j > args.len() {
        Seq::empty()
    } else {
        py_args_prefix(args, j - 1) + ", "@ + py_repr(args[j - 1].1)
    }
}

/// Append the Python text of a type to the accumulator.
#[verifier::loop_isolation(false)]
#[verifier::rlimit(100)]
fn py_repr_into(ty: &Type, s: &mut String)
    ensures
        final(s)@ == old(s)@ + py_repr(*ty),
    decreases *ty,
{
    match ty {
        Type::Primitive { primitive, .. } => {
            let t: &str = match primitive {
                Primitive::Bool => "ct.c_bool",
                Primitive::I8 => "ct.c_int8",
                Primitive::I16 => "ct.c_int16",
                Primitive::I32 => "ct.c_int32",
                Primitive::I64 => "ct.c_int64",
                Primitive::Isize => "ct.c_ssize_t",
                Primitive::U8 => "ct.c_uint8",
                Primitive::U16 => "ct.c_uint16",
                Primitive::U32 => "ct.c_uint32",
                Primitive::U64 => "ct.c_uint64",
                Primitive::Usize => "ct.c_size_t",
            };
            s.append(t);
        },
        Type::Pointer(p) => {
            s.append("ct.POINTER(");
            py_repr_into(&p.ty, s);
            s.append(")");
            proof {
                assert(s@ =~= old(s)@ + py_repr(*ty));
            }
        },
        Type::Str(_) => {
            s.append("ct.c_char_p");
        },
        Type::Slice(sl) => {
            s.append("vellum.Slice(");
            py_repr_into(&sl.ty, s);
            s.append(")");
            proof {
                assert(s@ =~= old(s)@ + py_repr(*ty));
            }
        },
        Type::Owned(o) => {
            s.append("vellum.Owned(");
            py_repr_into(&o.ty, s);
            s.append(")");
            proof {
                assert(s@ =~= old(s)@ + py_repr(*ty));
            }
        },
        Type::FunctionPointer(fp) => {
            match fp.fn_ty {
                FunctionType::Function => s.append("ct.CFUNCTYPE("),
                FunctionType::Closure => s.append("vellum.Closure("),
            }
            match &fp.returns {
                Some(r) => py_repr_into(r, s),
                None => s.append("None"),
            }
            let ghost base = s@;
            let n = fp.args.len();
            for j in 0..n
                invariant
                    n == fp.args@.len(),
                    s@ == base + py_args_prefix(fp.args@, j as int),
            {
                s.append(", ");
                py_repr_into(&fp.args[j].1, s);
                proof {
                    assert(s@ =~= base + py_args_prefix(fp.args@, j + 1));
                }
            }
            s.append(")");
            proof {
                assert(s@ =~= old(s)@ + py_repr(*ty));
            }
        },
        Type::Array(a) => {
            s.append("(");
            py_repr_into(&a.ty, s);
            s.append(" * ");
            crate::mangle::push_decimal(s, a.len);
            s.append(")");
            proof {
                assert(s@ =~= old(s)@ + py_repr(*ty));
            }
        },
        Type::Identifier(i) => {
            s.append(i.identifier.as_str());
            proof {
                assert(s@ =~= old(s)@ + py_repr(*ty));
            }
        },
    }
}

/// The Python text of a type.
pub fn ty(t: &Type) -> (r: String)
    ensures
        r@ == py_repr(*t),
{
    let mut s = String::new();
    py_repr_into(t, &mut s);
    proof {
        assert(s@ =~= py_repr(*t));
    }
    s
}

/// The Python text of an optional return type; `None` when absent.
pub fn retty(t: &Option<Type>) -> (r: String)
    ensures
        match t {
            Some(t0) => r@ == py_repr(*t0),
            None => r@ == "None"@,
        },
{
    match t {
        Some(t0) => ty(t0),
        None => String::from_str("None"),
    }
}

/// Doc lines for an abstract struct: its own docs, a separating blank line
/// when it has any, and the note that the type is incomplete.
#[verifier::loop_isolation(false)]
pub fn with_incomplete_note(docs: &Vec<String>) -> (r: Vec<String>)
    ensures
        docs@.len() == 0 ==> r@.len() == 1,
        docs@.len() > 0 ==> r@.len() == docs@.len() + 2,
        forall|k: int| 0 <= k < docs@.len() ==> r@[k] == docs@[k],
        r@[r@.len() - 1]@ == "Incomplete type; field definitions are provided elsewhere."@,
        docs@.len() > 0 ==> r@[docs@.len() as int]@ == Seq::<char>::empty(),
{
    let mut lines: Vec<String> = Vec::new();
    let n = docs.len();
    for k in 0..n
        invariant
            lines@.len() == k,
            forall|m: int| 0 <= m < k ==> lines@[m] == docs@[m],
    {
        lines.push(docs[k].clone());
    }
    if lines.len() > 0 {
        lines.push(String::new());
    }
    lines.push(String::from_str("Incomplete type; field definitions are provided elsewhere."));
    lines
}

/// The indented continuation lines of a doc list, from position 1 up to
/// (excluding) `upto`.
pub open spec fn cont_prefix(docs: Seq<String>, upto: int) -> Seq<Seq<char>>
    decreases upto,
{
    if upto <= 1 {
        Seq::empty()
    } else {
        cont_prefix(docs, upto - 1) + seq!["  "@ + docs[upto - 1]@]
    }
}

/// The docstring lines one field contributes: nothing when it has no docs,
/// else a `- name: first line` entry with its further lines indented.
pub open spec fn field_block(f: Field) -> Seq<Seq<char>> {
    if f.docs@.len() == 0 {
        Seq::empty()
    } else {
        seq!["- "@ + f.name.identifier@ + ": "@ + f.docs@[0]@] + cont_prefix(
            f.docs@,
            f.docs@.len() as int,
        )
    }
}

/// The blocks of a field-list prefix, in order.
pub open spec fn fields_blocks(fs: Seq<Field>) -> Seq<Seq<char>>
    decreases fs,
{
    if fs.len() == 0 {
        Seq::empty()
    } else {
        fields_blocks(fs.drop_last()) + field_block(fs.last())
    }
}

/// The whole `Fields:` section: empty when no field has docs, else the
/// heading followed by the blocks.
pub open spec fn spec_field_docs(fs: Seq<Field>) -> Seq<Seq<char>> {
    if fields_blocks(fs).len() == 0 {
        Seq::empty()
    } else {
        seq!["Fields:"@] + fields_blocks(fs)
    }
}

/// The `Fields:` docstring section: one `- name: first doc line` entry per
/// documented field, its further doc lines indented under it; fields
/// without docs are skipped, and the heading appears only when some field
/// has docs.
#[verifier::loop_isolation(false)]
pub fn field_docs(fields: &Vec<Field>) -> (r: Vec<String>)
    ensures
        r@.map_values(|s: String| s@) == spec_field_docs(fields@),
{
    let mut lines: Vec<String> = Vec::new();
    let mut has_any = false;
    let n = fields.len();
    for i in 0..n
        invariant
            n == fields@.len(),
            has_any <==> fields_blocks(fields@.take(i as int)).len() > 0,
            lines@.map_values(|s: String| s@) == spec_field_docs(fields@.take(i as int)),
    {
        proof {
            assert(fields@.take(i + 1).drop_last() =~= fields@.take(i as int));
            assert(fields@.take(i + 1).last() == fields@[i as int]);
        }
        let field = &fields[i];
        let ghost pre0 = lines@.map_values(|s: String| s@);
        let ghost had_any = has_any;
        if field.docs.len() > 0 {
            proof {
                if !has_any {
                    assert(fields_blocks(fields@.take(i as int)) =~= Seq::<Seq<char>>::empty());
                }
            }
            if !has_any {
                lines.push(String::from_str("Fields:"));
                has_any = true;
            }
            let mut first = String::from_str("- ");
            first.append(field.name.identifier.as_str());
            first.append(": ");
            first.append(field.docs[0].as_str());
            let ghost fv = first@;
            lines.push(first);
            let ghost base = lines@.map_values(|s: String| s@);
            proof {
                if had_any {
                    assert(base =~= pre0 + seq![fv]);
                } else {
                    assert(base =~= pre0 + seq!["Fields:"@, fv]);
                }
                assert(fv == "- "@ + field.name.identifier@ + ": "@ + field.docs@[0]@);
                assert(field_block(fields@[i as int]) == seq![fv] + cont_prefix(
                    field.docs@,
                    field.docs@.len() as int,
                ));
            }
            let m = field.docs.len();
            for d in 1..m
                invariant
                    m == field.docs@.len(),
                    lines@.map_values(|s: String| s@) == base + cont_prefix(
                        field.docs@,
                        d as int,
                    ),
            {
                let mut cont = String::from_str("  ");
                cont.append(field.docs[d].as_str());
                let ghost prev = lines@.map_values(|s: String| s@);
                let ghost cv = cont@;
                lines.push(cont);
                proof {
                    assert(cv == "  "@ + field.docs@[d as int]@);
                    assert(lines@.map_values(|s: String| s@) =~= prev.push(cv));
                    assert(cont_prefix(field.docs@, d + 1) == cont_prefix(field.docs@, d as int)
                        + seq![cv]);
                    assert(lines@.map_values(|s: String| s@) =~= base + cont_prefix(
                        field.docs@,
                        d + 1,
                    ));
                }
            }
            proof {
                assert(fields_blocks(fields@.take(i + 1)) == fields_blocks(
                    fields@.take(i as int),
                ) + field_block(fields@[i as int]));
                assert(field_block(fields@[i as int]).len() > 0);
                assert(fields_blocks(fields@.take(i + 1)).len() > 0);
                assert(lines@.map_values(|s: String| s@) =~= base + cont_prefix(
                    field.docs@,
                    field.docs@.len() as int,
                ));
                if !had_any {
                    assert(pre0 =~= Seq::<Seq<char>>::empty());
                    assert(fields_blocks(fields@.take(i as int)) =~= Seq::<Seq<char>>::empty());
                    assert(lines@.map_values(|s: String| s@) =~= seq!["Fields:"@] + (
                    fields_blocks(fields@.take(i as int)) + field_block(fields@[i as int])));
                } else {
                    assert(pre0 == seq!["Fields:"@] + fields_blocks(fields@.take(i as int)));
                    assert(lines@.map_values(|s: String| s@) =~= seq!["Fields:"@] + (
                    fields_blocks(fields@.take(i as int)) + field_block(fields@[i as int])));
                }
                assert(lines@.map_values(|s: String| s@) =~= spec_field_docs(
                    fields@.take(i + 1),
                ));
            }
        } else {
            proof {
                assert(field_block(fields@[i as int]) =~= Seq::<Seq<char>>::empty());
                assert(fields_blocks(fields@.take(i + 1)) =~= fields_blocks(
                    fields@.take(i as int),
                ));
            }
        }
    }
    proof {
        assert(fields@.take(n as int) =~= fields@);
    }
    lines
}

/// The indented doc lines of a function, from position 0 up to `upto`.
pub open spec fn fn_cont_prefix(docs: Seq<String>, upto: int) -> Seq<Seq<char>>
    decreases upto,
{
    if upto <= 0 {
        Seq::empty()
    } else {
        fn_cont_prefix(docs, upto - 1) + seq!["  "@ + docs[upto - 1]@]
    }
}

/// The docstring lines one function contributes: a blank line, a `- name`
/// line, and its doc lines indented.
pub open spec fn fn_block(f: Function) -> Seq<Seq<char>> {
    seq![Seq::<char>::empty(), "- "@ + f.name@] + fn_cont_prefix(f.docs@, f.docs@.len() as int)
}

/// The blocks of a function-list prefix, in order.
pub open spec fn spec_function_doc_lines(fs: Seq<Function>) -> Seq<Seq<char>>
    decreases fs,
{
    if fs.len() == 0 {
        Seq::empty()
    } else {
        spec_function_doc_lines(fs.drop_last()) + fn_block(fs.last())
    }
}

/// The function list of a module docstring: for each function a blank
/// line, a `- name` line, and its doc lines indented under it.
#[verifier::loop_isolation(false)]
pub fn function_doc_lines(functions: &Vec<Function>) -> (r: Vec<String>)
    ensures
        r@.map_values(|s: String| s@) == spec_function_doc_lines(functions@),
{
    let mut lines: Vec<String> = Vec::new();
    let n = functions.len();
    for i in 0..n
        invariant
            n == functions@.len(),
            lines@.map_values(|s: String| s@) == spec_function_doc_lines(
                functions@.take(i as int),
            ),
    {
        proof {
            assert(functions@.take(i + 1).drop_last() =~= functions@.take(i as int));
            assert(functions@.take(i + 1).last() == functions@[i as int]);
        }
        lines.push(String::new());
        let f = &functions[i];
        let mut head = String::from_str("- ");
        head.append(f.name.as_str());
        lines.push(head);
        let ghost base = lines@.map_values(|s: String| s@);
        let m = f.docs.len();
        for d in 0..m
            invariant
                m == f.docs@.len(),
                lines@.map_values(|s: String| s@) == base + fn_cont_prefix(f.docs@, d as int),
        {
            let mut cont = String::from_str("  ");
            cont.append(f.docs[d].as_str());
            let ghost prev = lines@.map_values(|s: String| s@);
            let ghost cv = cont@;
            lines.push(cont);
            proof {
                assert(cv == "  "@ + f.docs@[d as int]@);
                assert(lines@.map_values(|s: String| s@) =~= prev.push(cv));
                assert(fn_cont_prefix(f.docs@, d + 1) == fn_cont_prefix(f.docs@, d as int)
                    + seq![cv]);
                assert(lines@.map_values(|s: String| s@) =~= base + fn_cont_prefix(
                    f.docs@,
                    d + 1,
                ));
            }
        }
        proof {
            assert(lines@.map_values(|s: String| s@) =~= spec_function_doc_lines(
                functions@.take(i + 1),
            ));
        }
    }
    proof {
        assert(functions@.take(n as int) =~= functions@);
    }
    lines
}

} // verus!
