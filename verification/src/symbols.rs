//! The symbols listing: the names of the functions a checked schema
//! exports, either as a plain list or as a GNU linker version script that
//! exports exactly those names and hides everything else.

use vstd::prelude::*;
use vstd::string::*;
use crate::ast::{Item, ItemType};

verus! {

/// The output shape of the symbols listing.
#[derive(Clone, Copy, Debug, PartialEq, Eq, Structural)]
pub enum Format {
    List,
    GnuVersionScript,
}

/// The options of one symbols run.
pub struct Symbols {
    pub format: Format,
    pub file: String,
}

/// The names of the functions among the items, in order.
pub open spec fn fn_names(items: Seq<Item>) -> Seq<Seq<char>>
    decreases items,
{
    if items.len() == 0 {
        Seq::empty()
    } else {
        fn_names(items.drop_last()) + (match items.last().item {
            ItemType::Function(f) => seq![f.name.identifier@],
            _ => Seq::empty(),
        })
    }
}

/// One line per exported function: its bare name.
#[verifier::loop_isolation(false)]
pub fn list(items: &Vec<Item>) -> (r: Vec<String>)
    ensures
        r@.map_values(|s: String| s@) == fn_names(items@),
{
    let mut lines: Vec<String> = Vec::new();
    let n = items.len();
    for i in 0..n
        invariant
            lines@.map_values(|s: String| s@) == fn_names(items@.take(i as int)),
    {
        proof {
            assert(items@.take(i + 1).drop_last() =~= items@.take(i as int));
            assert(items@.take(i + 1).last() == items@[i as int]);
        }
        match &items[i].item {
            ItemType::Function(f) => {
                let ghost before = lines@.map_values(|s: String| s@);
                lines.push(f.name.identifier.clone());
                proof {
                    assert(lines@.map_values(|s: String| s@) =~= before + seq![
                        f.name.identifier@,
                    ]);
                }
            },
            _ => {
                proof {
                    assert(fn_names(items@.take(i + 1)) =~= fn_names(items@.take(i as int)));
                }
            },
        }
    }
    proof {
        assert(items@.take(n as int) =~= items@);
    }
    lines
}

/// A GNU version script exporting exactly the schema's functions: the
/// global section holds one `name;` line per function, and everything else
/// stays local.
#[verifier::loop_isolation(false)]
pub fn gnu(items: &Vec<Item>) -> (r: Vec<String>)
    ensures
        r@.len() == fn_names(items@).len() + 4,
        r@[0]@ == "{"@,
        r@[1]@ == "  global:"@,
        forall|k: int|
            0 <= k < fn_names(items@).len() ==> (#[trigger] r@[2 + k])@ == "    "@ + fn_names(
                items@,
            )[k] + ";"@,
        r@[r@.len() - 2]@ == "  local: *;"@,
        r@[r@.len() - 1]@ == "};"@,
{
    let names = list(items);
    let mut lines: Vec<String> = Vec::new();
    lines.push(String::from_str("{"));
    lines.push(String::from_str("  global:"));
    let n = names.len();
    for i in 0..n
        invariant
            n == names@.len(),
            lines@.len() == i + 2,
            lines@[0]@ == "{"@,
            lines@[1]@ == "  global:"@,
            forall|k: int|
                0 <= k < i ==> (#[trigger] lines@[2 + k])@ == "    "@ + names@[k]@ + ";"@,
    {
        let mut line = String::from_str("    ");
        line.append(names[i].as_str());
        line.append(";");
        lines.push(line);
    }
    lines.push(String::from_str("  local: *;"));
    lines.push(String::from_str("};"));
    proof {
        assert forall|k: int| 0 <= k < fn_names(items@).len() implies (#[trigger] lines@[2 + k])@
            == "    "@ + fn_names(items@)[k] + ";"@ by {
            assert(names@[k]@ == fn_names(items@)[k]);
        }
    }
    lines
}

/// The lines the symbols command prints for a checked item list, in the
/// requested format.
pub fn symbols(options: &Symbols, items: &Vec<Item>) -> (r: Vec<String>)
    ensures
        options.format == Format::List ==> r@.map_values(|s: String| s@) == fn_names(items@),
        options.format == Format::GnuVersionScript ==> {
            &&& r@.len() == fn_names(items@).len() + 4
            &&& r@[0]@ == "{"@
            &&& r@[1]@ == "  global:"@
            &&& forall|k: int|
                0 <= k < fn_names(items@).len() ==> (#[trigger] r@[2 + k])@ == "    "@ + fn_names(
                    items@,
                )[k] + ";"@
            &&& r@[r@.len() - 2]@ == "  local: *;"@
            &&& r@[r@.len() - 1]@ == "};"@
        },
{
    match options.format {
        Format::List => list(items),
        Format::GnuVersionScript => gnu(items),
    }
}

} // verus!
