use vellum::ast::{
    Identifier, Location, Owned, Pointer, PointerModifier, Primitive, Slice, Type,
};
use vellum::render::{c, cpp, python};
use vellum::compile::{Field as CField, Function as CFunction, Items, Struct as CStruct};
use vellum::surface::{collect_type_decls, visit_type};
use vellum::symbols::{gnu, Format, Symbols};
use vellum::ast::{Function, Item, ItemType};

fn loc() -> Location {
    Location::new(0, 0, 1)
}

fn prim(p: Primitive) -> Type {
    Type::Primitive { location: loc(), primitive: p }
}

fn const_ptr(t: Type) -> Type {
    Type::Pointer(Pointer { location: loc(), modifier: PointerModifier::Const, ty: Box::new(t) })
}

fn const_slice(t: Type) -> Type {
    Type::Slice(Slice { location: loc(), modifier: PointerModifier::Const, ty: Box::new(t) })
}

fn owned(t: Type) -> Type {
    Type::Owned(Owned { location: loc(), ty: Box::new(t) })
}

fn named(s: &str) -> Type {
    Type::Identifier(Identifier { location: loc(), identifier: s.to_string() })
}

#[test]
fn c_renders_types() {
    assert_eq!(c::ty(&prim(Primitive::I32)), "int32_t");
    assert_eq!(c::ty(&const_ptr(prim(Primitive::I32))), "int32_t const *");
    assert_eq!(c::ty(&const_slice(prim(Primitive::U8))), "vellum_slice_const_u8");
    assert_eq!(c::ty(&owned(const_slice(prim(Primitive::U8)))), "vellum_owned_slice_const_u8");
    assert_eq!(c::ty(&owned(named("Point"))), "vellum_owned_ptr_id5_Point");
    assert_eq!(c::ty(&named("Point")), "struct Point");
    assert_eq!(c::retty(&None), "void");
    assert_eq!(c::c_type(&prim(Primitive::U8), true), "const uint8_t");
}

#[test]
fn cpp_renders_both_styles() {
    assert_eq!(cpp::ty(&const_slice(prim(Primitive::U8))), "vellum::detail::abi::slice<const uint8_t>");
    assert_eq!(cpp::ty_raii(&const_slice(prim(Primitive::U8))), "vellum::slice<const uint8_t>");
    assert_eq!(cpp::ty(&owned(named("P"))), "vellum::detail::abi::owned<P>");
    assert_eq!(cpp::retty_raii(&Some(prim(Primitive::Usize))), "size_t");
}

#[test]
fn python_renders_ctypes() {
    assert_eq!(python::ty(&const_ptr(prim(Primitive::I32))), "ct.POINTER(ct.c_int32)");
    assert_eq!(python::ty(&const_slice(prim(Primitive::U8))), "vellum.Slice(ct.c_uint8)");
    assert_eq!(python::retty(&None), "None");
}

#[test]
fn surface_collects_distinct_sorted_helpers() {
    let mut slices: Vec<(String, String)> = Vec::new();
    let mut owned_ptrs: Vec<(String, String)> = Vec::new();
    let mut owned_slices: Vec<(String, String)> = Vec::new();
    // an owned slice of bytes: one slice helper, one owned-slice helper
    visit_type(&owned(const_slice(prim(Primitive::U8))), &mut slices, &mut owned_ptrs, &mut owned_slices);
    // the same slice again, through a second field: no duplicate
    visit_type(&const_slice(prim(Primitive::U8)), &mut slices, &mut owned_ptrs, &mut owned_slices);
    // a second, different slice: sorted before const_u8? "const_i32" < "const_u8"
    visit_type(&const_slice(prim(Primitive::I32)), &mut slices, &mut owned_ptrs, &mut owned_slices);
    // an owned pointer
    visit_type(&owned(named("P")), &mut slices, &mut owned_ptrs, &mut owned_slices);
    let slice_names: Vec<&str> = slices.iter().map(|d| d.0.as_str()).collect();
    assert_eq!(slice_names, vec!["const_i32", "const_u8"]);
    assert_eq!(slices[1].1, "const uint8_t");
    assert_eq!(owned_slices.len(), 1);
    assert_eq!(owned_slices[0].0, "const_u8");
    assert_eq!(owned_slices[0].1, "vellum_slice_const_u8");
    assert_eq!(owned_ptrs.len(), 1);
    assert_eq!(owned_ptrs[0].0, "id1_P");
}

#[test]
fn gnu_version_script_shape() {
    let f = Item {
        docs: vec![],
        item: ItemType::Function(Function {
            location: loc(),
            name: Identifier { location: loc(), identifier: "frob".to_string() },
            args: vec![],
            returns: Box::new(prim(Primitive::I32)),
        }),
    };
    let items = vec![f];
    let script = gnu(&items);
    assert_eq!(script, vec!["{", "  global:", "    frob;", "  local: *;", "};"]);
    let opts = Symbols { format: Format::List, file: "x".to_string() };
    let lines = vellum::symbols::symbols(&opts, &items);
    assert_eq!(lines, vec!["frob"]);
}

#[test]
fn collect_type_decls_covers_fields_and_signatures() {
    let items = Items {
        abstract_structs: vec![],
        structs: vec![CStruct {
            docs: vec![],
            name: "Buf".to_string(),
            fields: vec![CField {
                docs: vec![],
                name: "bytes".to_string(),
                ty: owned(const_slice(prim(Primitive::U8))),
            }],
        }],
        functions: vec![CFunction {
            docs: vec![],
            name: "send".to_string(),
            args: vec![("data".to_string(), const_slice(prim(Primitive::I32)))],
            returns: owned(named("Reply")),
        }],
    };
    let (slices, owned_ptrs, owned_slices) = collect_type_decls(&items);
    let slice_names: Vec<&str> = slices.iter().map(|d| d.0.as_str()).collect();
    assert_eq!(slice_names, vec!["const_i32", "const_u8"]);
    assert_eq!(owned_slices.len(), 1);
    assert_eq!(owned_slices[0].0, "const_u8");
    assert_eq!(owned_ptrs.len(), 1);
    assert_eq!(owned_ptrs[0].0, "id5_Reply");
    assert_eq!(owned_ptrs[0].1, "struct Reply");
}
