//! Structured compile diagnostics. Every rule violation is reported as a
//! `Diagnostic` carrying an error kind, a message, and source-located labels;
//! the caller renders them. Checking batches independent diagnostics within
//! one pass, but any error aborts the compilation as a whole.

use vstd::prelude::*;
use crate::ast::Location;

verus! {

/// The kinds of user-facing compile errors.
#[derive(Clone, Copy, Debug, PartialEq, Eq, Structural)]
pub enum ErrorKind {
    /// A name collision among top-level items, struct fields, or function
    /// arguments. Always carries two labels: first use and reuse.
    DuplicateName,
    /// A type reference whose name is absent from the flattened namespace.
    UnresolvedIdentifier,
    /// A type reference that resolves to a function rather than a struct.
    WrongKind,
    /// An abstract (opaque) struct embedded by value where a fully defined
    /// layout is required.
    AbstractTypeMisuse,
    /// An array element type whose layout is unknown.
    UnsizedType,
    /// A cycle among the by-value layout dependencies of concrete structs.
    DependencyCycle,
    /// A file could not be read or written; the OS error text travels in
    /// the notes.
    IoFailure,
}

/// The role of a label within a diagnostic.
#[derive(Clone, Copy, Debug, PartialEq, Eq, Structural)]
pub enum LabelKind {
    Primary,
    Secondary,
}

/// A source-located caption attached to a diagnostic.
#[derive(Debug)]
pub struct Label {
    pub kind: LabelKind,
    pub location: Location,
    pub message: String,
}

impl Label {
    pub fn primary(location: Location, message: String) -> (l: Label)
        ensures
            l.kind == LabelKind::Primary,
            l.location == location,
            l.message == message,
    {
        Label { kind: LabelKind::Primary, location, message }
    }

    pub fn secondary(location: Location, message: String) -> (l: Label)
        ensures
            l.kind == LabelKind::Secondary,
            l.location == location,
            l.message == message,
    {
        Label { kind: LabelKind::Secondary, location, message }
    }
}

/// One structured error diagnostic. Only the error severity exists.
#[derive(Debug)]
pub struct Diagnostic {
    pub kind: ErrorKind,
    pub message: String,
    pub labels: Vec<Label>,
    pub notes: Vec<String>,
}

impl Diagnostic {
    /// The location of the first primary label, which every diagnostic of
    /// this library carries at index zero.
    pub open spec fn spec_primary_location(&self) -> Location {
        self.labels@[0].location
    }
}

} // verus!
