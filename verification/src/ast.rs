//! The abstract syntax tree of a schema: items (imports, structs, functions)
//! and the type expressions that appear in them. Every declaration and every
//! type reference carries a source location for diagnostics.

use vstd::prelude::*;

verus! {

/// A source position: the id of the file it lies in and the byte range
/// within that file.
#[derive(Clone, Copy, Debug)]
pub struct Location {
    pub file_id: usize,
    pub start: usize,
    pub end: usize,
}

impl Location {
    pub fn new(file_id: usize, start: usize, end: usize) -> (l: Location)
        ensures
            l.file_id == file_id,
            l.start == start,
            l.end == end,
    {
        Location { file_id, start, end }
    }
}

/// A name together with the place it was written.
#[derive(Clone, Debug)]
pub struct Identifier {
    pub location: Location,
    pub identifier: String,
}

/// The built-in value types: booleans and fixed-width or pointer-sized
/// integers, signed and unsigned.
#[derive(Clone, Copy, Debug, PartialEq, Eq, Structural)]
pub enum Primitive {
    Bool,
    I8,
    I16,
    I32,
    I64,
    Isize,
    U8,
    U16,
    U32,
    U64,
    Usize,
}

/// Whether a pointer-like type permits mutation of what it points at.
#[derive(Clone, Copy, Debug, PartialEq, Eq, Structural)]
pub enum PointerModifier {
    Const,
    Mut,
}

/// A plain pointer to a single value.
#[derive(Debug)]
pub struct Pointer {
    pub location: Location,
    pub modifier: PointerModifier,
    pub ty: Box<Type>,
}

/// A pointer to a NUL-terminated character string.
#[derive(Clone, Debug)]
pub struct StringPointer {
    pub location: Location,
    pub modifier: PointerModifier,
}

/// A runtime-length view of a contiguous sequence of elements.
#[derive(Debug)]
pub struct Slice {
    pub location: Location,
    pub modifier: PointerModifier,
    pub ty: Box<Type>,
}

/// A pointer whose ownership transfers across the interface. It may wrap a
/// slice to express an owned, unsized buffer.
#[derive(Debug)]
pub struct Owned {
    pub location: Location,
    pub ty: Box<Type>,
}

/// Whether a function pointer is a bare function or a closure that carries
/// an environment.
#[derive(Clone, Copy, Debug, PartialEq, Eq, Structural)]
pub enum FunctionType {
    Function,
    Closure,
}

/// A pointer to a function or closure: its kind, argument list and optional
/// return type.
#[derive(Debug)]
pub struct FunctionPointer {
    pub location: Location,
    pub fn_ty: FunctionType,
    pub args: Vec<(Identifier, Type)>,
    pub returns: Option<Box<Type>>,
}

/// A fixed-length array.
#[derive(Debug)]
pub struct Array {
    pub location: Location,
    pub ty: Box<Type>,
    pub len: u64,
}

/// A type expression: a closed union of the forms a schema may use. A
/// `Identifier` arm refers to a struct by name and is resolved against the
/// flattened namespace.
#[derive(Debug)]
pub enum Type {
    Primitive { location: Location, primitive: Primitive },
    Pointer(Pointer),
    Str(StringPointer),
    Slice(Slice),
    Owned(Owned),
    FunctionPointer(FunctionPointer),
    Array(Array),
    Identifier(Identifier),
}

impl Type {
    /// The source location of a type expression.
    pub open spec fn spec_location(&self) -> Location {
        match self {
            Type::Primitive { location, .. } => *location,
            Type::Pointer(p) => p.location,
            Type::Str(s) => s.location,
            Type::Slice(s) => s.location,
            Type::Owned(o) => o.location,
            Type::FunctionPointer(f) => f.location,
            Type::Array(a) => a.location,
            Type::Identifier(i) => i.location,
        }
    }

    pub fn location(&self) -> (l: &Location)
        ensures
            *l == self.spec_location(),
    {
        match self {
            Type::Primitive { location, .. } => location,
            Type::Pointer(p) => &p.location,
            Type::Str(s) => &s.location,
            Type::Slice(s) => &s.location,
            Type::Owned(o) => &o.location,
            Type::FunctionPointer(f) => &f.location,
            Type::Array(a) => &a.location,
            Type::Identifier(i) => &i.location,
        }
    }
}

/// A field of a concrete struct.
#[derive(Debug)]
pub struct Field {
    pub docs: Vec<String>,
    pub name: Identifier,
    pub ty: Type,
}

/// A struct declaration. `fields` of `None` marks an abstract (opaque)
/// struct whose layout is unknown; `Some` marks a concrete struct.
#[derive(Debug)]
pub struct Struct {
    pub location: Location,
    pub name: Identifier,
    pub fields: Option<Vec<Field>>,
}

/// A function declaration: named arguments and a return type.
#[derive(Debug)]
pub struct Function {
    pub location: Location,
    pub name: Identifier,
    pub args: Vec<(Identifier, Type)>,
    pub returns: Box<Type>,
}

/// An import of another schema file. The loader resolves the path and
/// stores the imported file's items in `resolved` before flattening.
#[derive(Debug)]
pub struct Import {
    pub location: Location,
    pub path: String,
    pub resolved: Option<File>,
}

/// The payload of an item: one of the declaration forms.
#[derive(Debug)]
pub enum ItemType {
    Import(Import),
    Struct(Struct),
    Function(Function),
}

/// A documented declaration.
#[derive(Debug)]
pub struct Item {
    pub docs: Vec<String>,
    pub item: ItemType,
}

impl Item {
    /// The source location of the declaration.
    pub open spec fn spec_location(&self) -> Location {
        match &self.item {
            ItemType::Import(i) => i.location,
            ItemType::Struct(s) => s.location,
            ItemType::Function(f) => f.location,
        }
    }

    pub fn location(&self) -> (l: &Location)
        ensures
            *l == self.spec_location(),
    {
        match &self.item {
            ItemType::Import(i) => &i.location,
            ItemType::Struct(s) => &s.location,
            ItemType::Function(f) => &f.location,
        }
    }
}

/// One parsed schema file: the path it was loaded from and its items.
#[derive(Debug)]
pub struct File {
    pub path: String,
    pub items: Vec<Item>,
}

} // verus!
