//! The compile entry point: run the checking pipeline over a loaded schema
//! and partition the ordered items into the form the emitters consume —
//! abstract structs, concrete structs and functions, each with its docs,
//! in dependency order. Reading the schema text and writing the generated
//! files belong to the caller.

use vstd::prelude::*;
use vstd::string::*;
use crate::ast::{self, Item, ItemType};
use crate::diag::Diagnostic;
use crate::namespace::{flat_seq, has_duplicate_name, imports_resolved, Namespace};
use crate::valid::namespace_valid;
use crate::type_check::{checked_output_ok, flattened_valid, pipeline_failed, type_check};

verus! {

/// The target representation to emit.
#[derive(Clone, Copy, Debug, PartialEq, Eq, Structural)]
pub enum Language {
    C,
    Cpp,
    Python,
}

/// Whether to emit the importing side alone or also the exporting side's
/// inline definitions.
#[derive(Clone, Copy, Debug, PartialEq, Eq, Structural)]
pub enum Mode {
    Import,
    Export,
}

/// The options of one compile run.
pub struct Compile {
    pub language: Language,
    pub mode: Mode,
    pub file: String,
    pub output_dir: Option<String>,
}

/// The position just after the last `/` of the path, or zero when the path
/// has none.
pub open spec fn spec_after_last_slash(s: Seq<char>) -> int
    decreases s.len(),
{
    if s.len() == 0 {
        0
    } else if s.last() == '/' {
        s.len() as int
    } else {
        spec_after_last_slash(s.drop_last())
    }
}

impl Compile {
    /// The directory generated files go to: the explicit output directory
    /// when one was given, else the directory of the schema file (empty for
    /// a bare file name, meaning the current directory).
    pub fn resolve_output_dir(&self) -> (r: String)
        ensures
            match self.output_dir {
                Some(d) => r == d,
                None => ({
                    let cut = spec_after_last_slash(self.file@);
                    r@ == self.file@.take(if cut > 0 {
                        cut - 1
                    } else {
                        0
                    })
                }),
            },
    {
        match &self.output_dir {
            Some(d) => d.clone(),
            None => {
                let n = self.file.as_str().unicode_len();
                let mut cut: usize = 0;
                for i in 0..n
                    invariant
                        n == self.file@.len(),
                        cut == spec_after_last_slash(self.file@.take(i as int)),
                        cut <= i,
                {
                    if self.file.as_str().get_char(i) == '/' {
                        cut = i + 1;
                    }
                    proof {
                        assert(self.file@.take(i + 1).drop_last() =~= self.file@.take(i as int));
                    }
                }
                proof {
                    assert(self.file@.take(n as int) =~= self.file@);
                }
                if cut > 0 {
                    self.file.as_str().substring_char(0, cut - 1).to_owned()
                } else {
                    String::new()
                }
            },
        }
    }
}

/// Join an output directory and a file name; an empty directory means the
/// working directory and adds no separator.
pub fn output_path(output_dir: &String, file_name: &str) -> (r: String)
    ensures
        output_dir@.len() == 0 ==> r@ == file_name@,
        output_dir@.len() > 0 ==> r@ == output_dir@ + "/"@ + file_name@,
{
    if output_dir.as_str().unicode_len() == 0 {
        file_name.to_owned()
    } else {
        let mut s = output_dir.clone();
        s.append("/");
        s.append(file_name);
        s
    }
}

/// An abstract struct, as the emitters see it.
pub struct AbstractStruct {
    pub docs: Vec<String>,
    pub name: String,
}

/// A concrete struct's field, as the emitters see it.
pub struct Field {
    pub docs: Vec<String>,
    pub name: String,
    pub ty: ast::Type,
}

/// A concrete struct, as the emitters see it.
pub struct Struct {
    pub docs: Vec<String>,
    pub name: String,
    pub fields: Vec<Field>,
}

/// A function, as the emitters see it.
pub struct Function {
    pub docs: Vec<String>,
    pub name: String,
    pub args: Vec<(String, ast::Type)>,
    pub returns: ast::Type,
}

/// The checked, ordered declarations, partitioned for the emitters.
pub struct Items {
    pub abstract_structs: Vec<AbstractStruct>,
    pub structs: Vec<Struct>,
    pub functions: Vec<Function>,
}

/// The abstract-struct items of the list, in order.
pub open spec fn abstract_seq(items: Seq<Item>) -> Seq<Item>
    decreases items,
{
    if items.len() == 0 {
        Seq::empty()
    } else {
        abstract_seq(items.drop_last()) + (match items.last().item {
            ItemType::Struct(s) => if s.fields is None {
                seq![items.last()]
            } else {
                Seq::empty()
            },
            _ => Seq::empty(),
        })
    }
}

/// The concrete-struct items of the list, in order.
pub open spec fn concrete_seq(items: Seq<Item>) -> Seq<Item>
    decreases items,
{
    if items.len() == 0 {
        Seq::empty()
    } else {
        concrete_seq(items.drop_last()) + (match items.last().item {
            ItemType::Struct(s) => if s.fields is Some {
                seq![items.last()]
            } else {
                Seq::empty()
            },
            _ => Seq::empty(),
        })
    }
}

/// The function items of the list, in order.
pub open spec fn function_seq(items: Seq<Item>) -> Seq<Item>
    decreases items,
{
    if items.len() == 0 {
        Seq::empty()
    } else {
        function_seq(items.drop_last()) + (match items.last().item {
            ItemType::Function(_) => seq![items.last()],
            _ => Seq::empty(),
        })
    }
}

/// The emitter form of an abstract struct carries the item's docs and name.
pub open spec fn abs_matches(a: AbstractStruct, item: Item) -> bool {
    match item.item {
        ItemType::Struct(s) => {
            &&& s.fields is None
            &&& a.name@ == s.name.identifier@
            &&& a.docs@ == item.docs@
        },
        _ => false,
    }
}

/// The emitter form of a field carries the field's docs, name and type.
pub open spec fn field_matches(c: Field, f: crate::ast::Field) -> bool {
    &&& c.docs@ == f.docs@
    &&& c.name@ == f.name.identifier@
    &&& c.ty == f.ty
}

/// The emitter form of a concrete struct carries the item's docs and name
/// and all its fields, in order.
pub open spec fn struct_matches(c: Struct, item: Item) -> bool {
    match item.item {
        ItemType::Struct(s) => match s.fields {
            Some(fs) => {
                &&& c.name@ == s.name.identifier@
                &&& c.docs@ == item.docs@
                &&& c.fields@.len() == fs@.len()
                &&& forall|j: int|
                    0 <= j < fs@.len() ==> field_matches(#[trigger] c.fields@[j], fs@[j])
            },
            None => false,
        },
        _ => false,
    }
}

/// The emitter form of a function carries the item's docs and name, its
/// arguments in order, and its return type.
pub open spec fn fn_matches(c: Function, item: Item) -> bool {
    match item.item {
        ItemType::Function(f) => {
            &&& c.name@ == f.name.identifier@
            &&& c.docs@ == item.docs@
            &&& c.args@.len() == f.args@.len()
            &&& forall|j: int|
                0 <= j < f.args@.len() ==> (#[trigger] c.args@[j]).0@ == f.args@[j].0.identifier@
                    && c.args@[j].1 == f.args@[j].1
            &&& c.returns == *f.returns
        },
        _ => false,
    }
}

/// Every item landed in its list, in order, with its data intact.
pub open spec fn partition_matches(items: Items, sorted: Seq<Item>) -> bool {
    &&& items.abstract_structs@.len() == abstract_seq(sorted).len()
    &&& forall|k: int|
        0 <= k < abstract_seq(sorted).len() ==> abs_matches(
            #[trigger] items.abstract_structs@[k],
            abstract_seq(sorted)[k],
        )
    &&& items.structs@.len() == concrete_seq(sorted).len()
    &&& forall|k: int|
        0 <= k < concrete_seq(sorted).len() ==> struct_matches(
            #[trigger] items.structs@[k],
            concrete_seq(sorted)[k],
        )
    &&& items.functions@.len() == function_seq(sorted).len()
    &&& forall|k: int|
        0 <= k < function_seq(sorted).len() ==> fn_matches(
            #[trigger] items.functions@[k],
            function_seq(sorted)[k],
        )
}

/// Run the checking pipeline and partition the ordered items for the
/// emitters. On success, a checked, dependency-ordered item list exists
/// whose declarations fill the three lists exactly, in order; on any
/// failure, at least one diagnostic and a named cause: a duplicate name, a
/// validity violation, or a layout-dependency cycle.
#[verifier::loop_isolation(false)]
#[verifier::rlimit(100)]
#[verifier::spinoff_prover]
pub fn compile(file: ast::File) -> (r: Result<Items, Vec<Diagnostic>>)
    requires
        imports_resolved(file.items@),
    ensures
        match r {
            Ok(items) => flattened_valid(file) && (exists|sorted: Seq<Item>|
                #[trigger] checked_output_ok(file, sorted) && partition_matches(items, sorted)),
            Err(ds) => ds@.len() > 0 && pipeline_failed(file),
        },
{
    let sorted = match type_check(file) {
        Ok(v) => v,
        Err(ds) => {
            return Err(ds);
        },
    };
    let ghost sorted0 = sorted@;
    let items = partition(sorted);
    proof {
        assert(checked_output_ok(file, sorted0));
        assert(partition_matches(items, sorted0));
    }
    Ok(items)
}

/// Split the ordered items into the three kinds, preserving their relative
/// order and all their data: docs, names, field and argument lists, types.
#[verifier::loop_isolation(false)]
#[verifier::rlimit(100)]
pub fn partition(sorted: Vec<Item>) -> (items: Items)
    ensures
        partition_matches(items, sorted@),
{
    let ghost all = sorted@;
    let total_count = sorted.len();
    let mut rest = sorted;
    let mut abstract_structs: Vec<AbstractStruct> = Vec::new();
    let mut structs: Vec<Struct> = Vec::new();
    let mut functions: Vec<Function> = Vec::new();
    let mut t: usize = 0;
    while rest.len() > 0
        invariant
            total_count == all.len(),
            t + rest@.len() == all.len(),
            all.take(t as int) + rest@ =~= all,
            abstract_structs@.len() == abstract_seq(all.take(t as int)).len(),
            forall|k: int|
                0 <= k < abstract_structs@.len() ==> abs_matches(
                    #[trigger] abstract_structs@[k],
                    abstract_seq(all.take(t as int))[k],
                ),
            structs@.len() == concrete_seq(all.take(t as int)).len(),
            forall|k: int|
                0 <= k < structs@.len() ==> struct_matches(
                    #[trigger] structs@[k],
                    concrete_seq(all.take(t as int))[k],
                ),
            functions@.len() == function_seq(all.take(t as int)).len(),
            forall|k: int|
                0 <= k < functions@.len() ==> fn_matches(
                    #[trigger] functions@[k],
                    function_seq(all.take(t as int))[k],
                ),
        decreases rest@.len(),
    {
        let item = rest.remove(0);
        proof {
            assert(all.take(t + 1).drop_last() =~= all.take(t as int));
            assert(all.take(t + 1).last() == all[t as int]);
            assert(all[t as int] == item);
        }
        match item.item {
            ItemType::Import(_) => {},
            ItemType::Struct(s) => {
                match s.fields {
                    None => {
                        abstract_structs.push(AbstractStruct {
                            docs: item.docs,
                            name: s.name.identifier,
                        });
                        proof {
                            assert(abs_matches(
                                abstract_structs@.last(),
                                abstract_seq(all.take(t + 1)).last(),
                            ));
                        }
                    },
                    Some(fields) => {
                        let ghost fs0 = fields@;
                        let mut cfields: Vec<Field> = Vec::new();
                        let mut fs = fields;
                        while fs.len() > 0
                            invariant
                                cfields@.len() + fs@.len() == fs0.len(),
                                fs@ =~= fs0.skip(cfields@.len() as int),
                                forall|u: int|
                                    0 <= u < cfields@.len() ==> field_matches(
                                        #[trigger] cfields@[u],
                                        fs0[u],
                                    ),
                            decreases fs@.len(),
                        {
                            let ghost done = cfields@.len() as int;
                            let f = fs.remove(0);
                            proof {
                                assert(fs0.skip(done)[0] == fs0[done]);
                                assert(f == fs0[done]);
                                assert(fs@ =~= fs0.skip(done + 1));
                            }
                            cfields.push(Field {
                                docs: f.docs,
                                name: f.name.identifier,
                                ty: f.ty,
                            });
                        }
                        structs.push(Struct {
                            docs: item.docs,
                            name: s.name.identifier,
                            fields: cfields,
                        });
                        proof {
                            assert(struct_matches(
                                structs@.last(),
                                concrete_seq(all.take(t + 1)).last(),
                            ));
                        }
                    },
                }
            },
            ItemType::Function(f) => {
                let ghost args0 = f.args@;
                let mut cargs: Vec<(String, ast::Type)> = Vec::new();
                let mut args = f.args;
                while args.len() > 0
                    invariant
                        cargs@.len() + args@.len() == args0.len(),
                        args@ =~= args0.skip(cargs@.len() as int),
                        forall|u: int|
                            0 <= u < cargs@.len() ==> (#[trigger] cargs@[u]).0@
                                == args0[u].0.identifier@ && cargs@[u].1 == args0[u].1,
                    decreases args@.len(),
                {
                    let ghost done = cargs@.len() as int;
                    let a = args.remove(0);
                    proof {
                        assert(args0.skip(done)[0] == args0[done]);
                        assert(a == args0[done]);
                        assert(args@ =~= args0.skip(done + 1));
                    }
                    cargs.push((a.0.identifier, a.1));
                }
                functions.push(Function {
                    docs: item.docs,
                    name: f.name.identifier,
                    args: cargs,
                    returns: *f.returns,
                });
                proof {
                    assert(fn_matches(functions@.last(), function_seq(all.take(t + 1)).last()));
                }
            },
        }
        t = t + 1;
        proof {
            assert(all.take(t as int) + rest@ =~= all);
        }
    }
    proof {
        assert(all.take(t as int) =~= all);
    }
    Items { abstract_structs, structs, functions }
}

} // verus!