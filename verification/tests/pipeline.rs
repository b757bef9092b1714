use vellum::ast::{
    Array, Field, File, Function, FunctionPointer, FunctionType, Identifier, Import, Item,
    ItemType, Location, Owned, Pointer, PointerModifier, Primitive, Slice, Struct, Type,
};
use vellum::diag::ErrorKind;
use vellum::mangle::mangle_type;
use vellum::namespace::name_of_item;
use vellum::type_check::type_check;

fn loc(n: usize) -> Location {
    Location::new(0, n, n + 1)
}

fn ident(n: usize, s: &str) -> Identifier {
    Identifier { location: loc(n), identifier: s.to_string() }
}

fn prim(p: Primitive) -> Type {
    Type::Primitive { location: loc(0), primitive: p }
}

fn named(s: &str) -> Type {
    Type::Identifier(ident(900, s))
}

fn const_ptr(t: Type) -> Type {
    Type::Pointer(Pointer { location: loc(0), modifier: PointerModifier::Const, ty: Box::new(t) })
}

fn mut_ptr(t: Type) -> Type {
    Type::Pointer(Pointer { location: loc(0), modifier: PointerModifier::Mut, ty: Box::new(t) })
}

fn field(n: usize, name: &str, ty: Type) -> Field {
    Field { docs: vec![], name: ident(n, name), ty }
}

fn concrete(n: usize, name: &str, fields: Vec<Field>) -> Item {
    Item {
        docs: vec![],
        item: ItemType::Struct(Struct {
            location: loc(n),
            name: ident(n, name),
            fields: Some(fields),
        }),
    }
}

fn abstract_struct(n: usize, name: &str) -> Item {
    Item {
        docs: vec![],
        item: ItemType::Struct(Struct { location: loc(n), name: ident(n, name), fields: None }),
    }
}

fn function(n: usize, name: &str, args: Vec<(Identifier, Type)>, returns: Type) -> Item {
    Item {
        docs: vec![],
        item: ItemType::Function(Function {
            location: loc(n),
            name: ident(n, name),
            args,
            returns: Box::new(returns),
        }),
    }
}

fn file_of(items: Vec<Item>) -> File {
    File { path: "main".to_string(), items }
}

fn names_of(items: &[Item]) -> Vec<String> {
    items.iter().map(|i| name_of_item(i).identifier).collect()
}

#[test]
fn sort_completeness_dependency_free() {
    let f = file_of(vec![
        concrete(1, "Alpha", vec![field(2, "x", prim(Primitive::U8))]),
        concrete(3, "Beta", vec![field(4, "y", prim(Primitive::I32))]),
        concrete(5, "Gamma", vec![field(6, "z", prim(Primitive::Bool))]),
    ]);
    let sorted = type_check(f).expect("valid schema");
    let mut names = names_of(&sorted);
    assert_eq!(names.len(), 3);
    names.sort();
    assert_eq!(names, vec!["Alpha".to_string(), "Beta".to_string(), "Gamma".to_string()]);
}

#[test]
fn cycle_detected_between_two_structs() {
    let f = file_of(vec![
        concrete(1, "A", vec![field(2, "b", named("B"))]),
        concrete(3, "B", vec![field(4, "a", named("A"))]),
    ]);
    let ds = type_check(f).expect_err("cyclic layout");
    assert_eq!(ds.len(), 1);
    assert_eq!(ds[0].kind, ErrorKind::DependencyCycle);
    // the cited location is A's or B's declaration
    let cited = ds[0].labels[0].location.start;
    assert!(cited == 1 || cited == 3);
}

#[test]
fn pointer_breaks_the_cycle() {
    let f = file_of(vec![
        concrete(1, "A", vec![field(2, "b", named("B"))]),
        concrete(3, "B", vec![field(4, "a", const_ptr(named("A")))]),
    ]);
    let sorted = type_check(f).expect("pointer needs no layout");
    let names = names_of(&sorted);
    // A embeds B by value, so B must come first; the pointer adds no edge
    let pos_a = names.iter().position(|n| n == "A").unwrap();
    let pos_b = names.iter().position(|n| n == "B").unwrap();
    assert!(pos_b < pos_a);
}

#[test]
fn abstract_struct_by_value_is_rejected() {
    let f = file_of(vec![
        abstract_struct(1, "Opaque"),
        concrete(2, "Bad", vec![field(3, "f", named("Opaque"))]),
    ]);
    let ds = type_check(f).expect_err("opaque by value");
    assert!(ds.iter().any(|d| d.kind == ErrorKind::AbstractTypeMisuse));
}

#[test]
fn abstract_struct_behind_pointer_is_accepted() {
    let f = file_of(vec![
        abstract_struct(1, "Opaque"),
        concrete(2, "Ok", vec![field(3, "f", const_ptr(named("Opaque")))]),
    ]);
    let sorted = type_check(f).expect("indirection is enough");
    assert_eq!(sorted.len(), 2);
}

#[test]
fn duplicate_field_names_cite_both_locations() {
    let f = file_of(vec![concrete(
        1,
        "S",
        vec![field(10, "a", prim(Primitive::U8)), field(20, "a", prim(Primitive::U16))],
    )]);
    let ds = type_check(f).expect_err("duplicate field");
    assert_eq!(ds.len(), 1);
    assert_eq!(ds[0].kind, ErrorKind::DuplicateName);
    assert_eq!(ds[0].labels.len(), 2);
    assert_eq!(ds[0].labels[0].location.start, 20);
    assert_eq!(ds[0].labels[1].location.start, 10);
}

#[test]
fn unresolved_identifier_cites_the_use() {
    let f = file_of(vec![function(1, "f", vec![(ident(2, "x"), named("Foo"))], prim(
        Primitive::I32,
    ))]);
    let ds = type_check(f).expect_err("Foo is undefined");
    assert_eq!(ds.len(), 1);
    assert_eq!(ds[0].kind, ErrorKind::UnresolvedIdentifier);
    assert_eq!(ds[0].labels[0].location.start, 900);
}

#[test]
fn wrong_kind_when_a_function_is_used_as_a_type() {
    let f = file_of(vec![
        function(1, "g", vec![], prim(Primitive::I32)),
        concrete(2, "S", vec![field(3, "f", named("g"))]),
    ]);
    let ds = type_check(f).expect_err("g is a function");
    assert!(ds.iter().any(|d| d.kind == ErrorKind::WrongKind));
}

#[test]
fn end_to_end_import_flatten_sort_mangle() {
    let lib = File {
        path: "lib".to_string(),
        items: vec![concrete(
            1,
            "Point",
            vec![field(2, "x", prim(Primitive::I32)), field(3, "y", prim(Primitive::I32))],
        )],
    };
    let main = file_of(vec![
        Item {
            docs: vec![],
            item: ItemType::Import(Import {
                location: loc(0),
                path: "lib".to_string(),
                resolved: Some(lib),
            }),
        },
        concrete(4, "Line", vec![
            field(5, "a", named("Point")),
            field(6, "b", named("Point")),
        ]),
        function(7, "length", vec![(ident(8, "l"), const_ptr(named("Line")))], prim(
            Primitive::I32,
        )),
    ]);
    let sorted = type_check(main).expect("valid schema");
    let names = names_of(&sorted);
    assert_eq!(names.len(), 3);
    let pos_point = names.iter().position(|n| n == "Point").unwrap();
    let pos_line = names.iter().position(|n| n == "Line").unwrap();
    assert!(pos_point < pos_line);
    // mangling the same type at two call sites gives one name
    let site_a = mangle_type(&const_ptr(named("Line")));
    let site_b = mangle_type(&const_ptr(named("Line")));
    assert_eq!(site_a, site_b);
}

#[test]
fn mangle_exact_names() {
    assert_eq!(mangle_type(&prim(Primitive::U8)), "u8");
    assert_eq!(mangle_type(&const_ptr(mut_ptr(prim(Primitive::U8)))), "ptr_const_ptr_mut_u8");
    assert_eq!(mangle_type(&mut_ptr(const_ptr(prim(Primitive::U8)))), "ptr_mut_ptr_const_u8");
    let slice = Type::Slice(Slice {
        location: loc(0),
        modifier: PointerModifier::Const,
        ty: Box::new(prim(Primitive::U8)),
    });
    assert_eq!(mangle_type(&slice), "slice_const_u8");
    let owned = Type::Owned(Owned { location: loc(0), ty: Box::new(prim(Primitive::I64)) });
    assert_eq!(mangle_type(&owned), "owned_i64");
    let arr = Type::Array(Array { location: loc(0), ty: Box::new(prim(Primitive::U16)), len: 12 });
    assert_eq!(mangle_type(&arr), "array12_u16");
    assert_eq!(mangle_type(&named("Point")), "id5_Point");
    let fp = Type::FunctionPointer(FunctionPointer {
        location: loc(0),
        fn_ty: FunctionType::Function,
        args: vec![(ident(1, "a"), prim(Primitive::U8)), (ident(2, "b"), prim(Primitive::Usize))],
        returns: Some(Box::new(prim(Primitive::Bool))),
    });
    assert_eq!(mangle_type(&fp), "fn2_u8usizeret_bool");
    let closure = Type::FunctionPointer(FunctionPointer {
        location: loc(0),
        fn_ty: FunctionType::Closure,
        args: vec![],
        returns: None,
    });
    assert_eq!(mangle_type(&closure), "closure0_void");
}

#[test]
fn mangle_distinguishes_structure() {
    // same token soup, different structure
    let a = mangle_type(&const_ptr(mut_ptr(prim(Primitive::U8))));
    let b = mangle_type(&mut_ptr(const_ptr(prim(Primitive::U8))));
    assert_ne!(a, b);
    // a struct whose name imitates a mangled form cannot collide
    let c = mangle_type(&named("slice_const_u8"));
    let slice = Type::Slice(Slice {
        location: loc(0),
        modifier: PointerModifier::Const,
        ty: Box::new(prim(Primitive::U8)),
    });
    assert_ne!(c, mangle_type(&slice));
}
