//! Soundness of the canonical mangler: structurally identical shapes always
//! mangle identically (mangling is a function of the shape alone), and
//! structurally different shapes never collide. The second half is proved
//! by exhibiting a decoder: a specification-level parser that reads any
//! mangled name back to the unique shape it encodes.

use vstd::prelude::*;
use crate::ast::{FunctionType, PointerModifier, Primitive};
use crate::mangle::{dec_str, digit_char, spec_mangle, spec_mangle_list, spec_mangle_ret, Shape};

verus! {

pub open spec fn is_digit(c: char) -> bool {
    48 <= (c as int) <= 57
}

pub open spec fn digit_val(c: char) -> nat {
    ((c as int) - 48) as nat
}

/// The length of the leading run of decimal digits.
pub open spec fn digit_run_len(s: Seq<char>) -> nat
    decreases s.len(),
{
    if s.len() == 0 || !is_digit(s[0]) {
        0
    } else {
        1 + digit_run_len(s.drop_first())
    }
}

/// The number a digit sequence denotes, most significant digit first.
pub open spec fn digits_value(s: Seq<char>) -> nat
    decreases s.len(),
{
    if s.len() == 0 {
        0
    } else {
        digits_value(s.drop_last()) * 10 + digit_val(s.last())
    }
}

/// The digits of a number are digits, and there is at least one.
pub proof fn lemma_dec_str_digits(n: nat)
    ensures
        dec_str(n).len() >= 1,
        forall|k: int| 0 <= k < dec_str(n).len() ==> is_digit(#[trigger] dec_str(n)[k]),
    decreases n,
{
    if n < 10 {
        assert(is_digit(digit_char(n)));
        assert(dec_str(n)[0] == digit_char(n));
    } else {
        lemma_dec_str_digits(n / 10);
        assert(is_digit(digit_char(n % 10)));
        assert forall|k: int| 0 <= k < dec_str(n).len() implies is_digit(
            #[trigger] dec_str(n)[k],
        ) by {
            if k < dec_str(n / 10).len() {
                assert(dec_str(n)[k] == dec_str(n / 10)[k]);
            } else {
                assert(dec_str(n)[k] == digit_char(n % 10));
            }
        }
    }
}

/// Reading the digits of a number back gives the number.
pub proof fn lemma_digits_value_dec(n: nat)
    ensures
        digits_value(dec_str(n)) == n,
    decreases n,
{
    if n < 10 {
        assert(dec_str(n).drop_last() =~= Seq::<char>::empty());
        assert(dec_str(n).last() == digit_char(n));
        assert(digits_value(Seq::<char>::empty()) == 0);
        assert(digit_val(digit_char(n)) == n);
    } else {
        lemma_digits_value_dec(n / 10);
        assert(dec_str(n).drop_last() =~= dec_str(n / 10));
        assert(dec_str(n).last() == digit_char(n % 10));
        assert(digit_val(digit_char(n % 10)) == n % 10);
        assert((n / 10) * 10 + n % 10 == n) by {
            vstd::arithmetic::div_mod::lemma_fundamental_div_mod(n as int, 10);
        }
    }
}

/// A digit run stops exactly at the first non-digit.
pub proof fn lemma_digit_run_concat(d: Seq<char>, rest: Seq<char>)
    requires
        forall|k: int| 0 <= k < d.len() ==> is_digit(#[trigger] d[k]),
        rest.len() == 0 || !is_digit(rest[0]),
    ensures
        digit_run_len(d + rest) == d.len(),
    decreases d.len(),
{
    if d.len() == 0 {
        assert(d + rest =~= rest);
    } else {
        assert((d + rest)[0] == d[0]);
        assert((d + rest).drop_first() =~= d.drop_first() + rest);
        lemma_digit_run_concat(d.drop_first(), rest);
    }
}

/// The leading digits of a concatenation, as one piece.
pub proof fn lemma_take_concat(d: Seq<char>, rest: Seq<char>)
    ensures
        (d + rest).take(d.len() as int) == d,
        (d + rest).skip(d.len() as int) == rest,
{
    assert((d + rest).take(d.len() as int) =~= d);
    assert((d + rest).skip(d.len() as int) =~= rest);
}

/// Decode one shape from the front of `s`: the shape and how many
/// characters its encoding occupies. The decoder mirrors the encoder, so
/// every mangled name decodes to exactly the shape it came from.
pub open spec fn parse_shape(s: Seq<char>) -> Option<(Shape, nat)>
    decreases s.len(), 4nat,
{
    if s.len() == 0 {
        None
    } else if s[0] == 'b' {
        parse_exact(s, "bool"@, Shape::Prim(Primitive::Bool))
    } else if s[0] == 'i' {
        if s.len() >= 2 && s[1] == 'd' {
            // idN_name
            parse_named(s)
        } else if starts_with(s, "i8"@) {
            Some((Shape::Prim(Primitive::I8), 2))
        } else if starts_with(s, "i16"@) {
            Some((Shape::Prim(Primitive::I16), 3))
        } else if starts_with(s, "i32"@) {
            Some((Shape::Prim(Primitive::I32), 3))
        } else if starts_with(s, "i64"@) {
            Some((Shape::Prim(Primitive::I64), 3))
        } else if starts_with(s, "isize"@) {
            Some((Shape::Prim(Primitive::Isize), 5))
        } else {
            None
        }
    } else if s[0] == 'u' {
        if starts_with(s, "u8"@) {
            Some((Shape::Prim(Primitive::U8), 2))
        } else if starts_with(s, "u16"@) {
            Some((Shape::Prim(Primitive::U16), 3))
        } else if starts_with(s, "u32"@) {
            Some((Shape::Prim(Primitive::U32), 3))
        } else if starts_with(s, "u64"@) {
            Some((Shape::Prim(Primitive::U64), 3))
        } else if starts_with(s, "usize"@) {
            Some((Shape::Prim(Primitive::Usize), 5))
        } else {
            None
        }
    } else if s[0] == 'p' {
        if starts_with(s, "ptr_const_"@) {
            parse_wrap(s, 10, WrapKind::PtrConst)
        } else if starts_with(s, "ptr_mut_"@) {
            parse_wrap(s, 8, WrapKind::PtrMut)
        } else {
            None
        }
    } else if s[0] == 's' {
        if starts_with(s, "str_const"@) {
            Some((Shape::StrPtr(PointerModifier::Const), 9))
        } else if starts_with(s, "str_mut"@) {
            Some((Shape::StrPtr(PointerModifier::Mut), 7))
        } else if starts_with(s, "slice_const_"@) {
            parse_wrap(s, 12, WrapKind::SliceConst)
        } else if starts_with(s, "slice_mut_"@) {
            parse_wrap(s, 10, WrapKind::SliceMut)
        } else {
            None
        }
    } else if s[0] == 'o' {
        if starts_with(s, "owned_"@) {
            parse_wrap(s, 6, WrapKind::Owned)
        } else {
            None
        }
    } else if s[0] == 'a' {
        if starts_with(s, "array"@) {
            parse_array(s)
        } else {
            None
        }
    } else if s[0] == 'f' {
        if starts_with(s, "fn"@) {
            parse_fnptr(s, 2, FunctionType::Function)
        } else {
            None
        }
    } else if s[0] == 'c' {
        if starts_with(s, "closure"@) {
            parse_fnptr(s, 7, FunctionType::Closure)
        } else {
            None
        }
    } else {
        None
    }
}

pub open spec fn starts_with(s: Seq<char>, head: Seq<char>) -> bool {
    s.len() >= head.len() && s.take(head.len() as int) == head
}

pub open spec fn parse_exact(s: Seq<char>, tok: Seq<char>, sh: Shape) -> Option<(Shape, nat)> {
    if starts_with(s, tok) {
        Some((sh, tok.len()))
    } else {
        None
    }
}

/// The single-child forms, each identified by its head token.
#[derive(PartialEq, Eq, Structural)]
pub enum WrapKind {
    PtrConst,
    PtrMut,
    SliceConst,
    SliceMut,
    Owned,
}

pub open spec fn wrap_shape(k: WrapKind, inner: Shape) -> Shape {
    match k {
        WrapKind::PtrConst => Shape::Ptr(PointerModifier::Const, Box::new(inner)),
        WrapKind::PtrMut => Shape::Ptr(PointerModifier::Mut, Box::new(inner)),
        WrapKind::SliceConst => Shape::SlicePtr(PointerModifier::Const, Box::new(inner)),
        WrapKind::SliceMut => Shape::SlicePtr(PointerModifier::Mut, Box::new(inner)),
        WrapKind::Owned => Shape::OwnedPtr(Box::new(inner)),
    }
}

pub open spec fn parse_wrap(s: Seq<char>, head: nat, k: WrapKind) -> Option<(Shape, nat)>
    decreases s.len(), 3nat,
{
    if head < 1 || head > s.len() {
        None
    } else {
        match parse_shape(s.skip(head as int)) {
            Some((inner, used)) => Some((wrap_shape(k, inner), head + used)),
            None => None,
        }
    }
}

/// Decode `idN_name`.
pub open spec fn parse_named(s: Seq<char>) -> Option<(Shape, nat)> {
    let d = digit_run_len(s.skip(2));
    if d < 1 {
        None
    } else {
        let v = digits_value(s.skip(2).take(d as int));
        if 2 + d < s.len() && s[2 + d as int] == '_' && 3 + d + v <= s.len() {
            Some((Shape::Named(s.subrange(3 + d as int, 3 + d as int + v as int)), 3 + d + v))
        } else {
            None
        }
    }
}

/// Decode `arrayN_elem`.
pub open spec fn parse_array(s: Seq<char>) -> Option<(Shape, nat)>
    decreases s.len(), 3nat,
{
    let d = digit_run_len(s.skip(5));
    if d < 1 {
        None
    } else {
        let v = digits_value(s.skip(5).take(d as int));
        if 5 + d < s.len() && s[5 + d as int] == '_' {
            match parse_shape(s.skip(6 + d as int)) {
                Some((inner, used)) => Some((Shape::ArrayOf(Box::new(inner), v), 6 + d + used)),
                None => None,
            }
        } else {
            None
        }
    }
}

/// Decode a function pointer after its head token: the argument count, the
/// arguments, and the return suffix.
pub open spec fn parse_fnptr(s: Seq<char>, head: nat, k: FunctionType) -> Option<(Shape, nat)>
    decreases s.len(), 3nat,
{
    if head < 1 || head > s.len() {
        None
    } else {
        let d = digit_run_len(s.skip(head as int));
        if d < 1 {
            None
        } else {
            let cnt = digits_value(s.skip(head as int).take(d as int));
            if head + d < s.len() && s[head as int + d as int] == '_' {
                match parse_args(s.skip(head as int + d as int + 1), cnt) {
                    Some((args, used)) => {
                        if used > s.skip(head as int + d as int + 1).len() {
                            None
                        } else {
                            let s2 = s.skip(head as int + d as int + 1).skip(used as int);
                            match parse_ret(s2) {
                                Some((ret, used2)) => Some(
                                    (Shape::FnPtr(k, args, ret), head + d + 1 + used + used2),
                                ),
                                None => None,
                            }
                        }
                    },
                    None => None,
                }
            } else {
                None
            }
        }
    }
}

/// Decode `cnt` consecutive shapes.
pub open spec fn parse_args(s: Seq<char>, cnt: nat) -> Option<(Seq<Shape>, nat)>
    decreases s.len(), 5nat,
{
    if cnt == 0 {
        Some((Seq::empty(), 0))
    } else {
        match parse_shape(s) {
            Some((first, used)) => {
                if used < 1 || used > s.len() {
                    None
                } else {
                    match parse_args(s.skip(used as int), (cnt - 1) as nat) {
                        Some((rest, used2)) => Some((seq![first] + rest, used + used2)),
                        None => None,
                    }
                }
            },
            None => None,
        }
    }
}

/// Every mangled name is nonempty.
pub proof fn lemma_mangle_nonempty(sh: Shape)
    ensures
        spec_mangle(sh).len() >= 1,
{
    reveal_strlit("bool");
    reveal_strlit("i8");
    reveal_strlit("i16");
    reveal_strlit("i32");
    reveal_strlit("i64");
    reveal_strlit("isize");
    reveal_strlit("u8");
    reveal_strlit("u16");
    reveal_strlit("u32");
    reveal_strlit("u64");
    reveal_strlit("usize");
    reveal_strlit("ptr_const_");
    reveal_strlit("ptr_mut_");
    reveal_strlit("str_const");
    reveal_strlit("str_mut");
    reveal_strlit("slice_const_");
    reveal_strlit("slice_mut_");
    reveal_strlit("owned_");
    reveal_strlit("fn");
    reveal_strlit("closure");
    reveal_strlit("array");
    reveal_strlit("id");
    match sh {
        Shape::Prim(p) => {},
        _ => {},
    }
}

/// Decode the return suffix: `void`, or `ret_` and a shape.
pub open spec fn parse_ret(s: Seq<char>) -> Option<(Option<Box<Shape>>, nat)>
    decreases s.len(), 3nat,
{
    if starts_with(s, "void"@) {
        Some((None, 4))
    } else if starts_with(s, "ret_"@) {
        if s.len() <= 4 {
            None
        } else {
            match parse_shape(s.skip(4)) {
                Some((inner, used)) => Some((Some(Box::new(inner)), 4 + used)),
                None => None,
            }
        }
    } else {
        None
    }
}

/// The round trip for the leaf forms: primitives and string pointers.
proof fn lemma_pm_prim(p: Primitive, rest: Seq<char>)
    ensures
        ({
            let sh = Shape::Prim(p);
            parse_shape(spec_mangle(sh) + rest) == Some((sh, spec_mangle(sh).len()))
        }),
    decreases Shape::Prim(p), 0nat, 0nat,
{
    reveal_strlit("bool");
    reveal_strlit("i8");
    reveal_strlit("i16");
    reveal_strlit("i32");
    reveal_strlit("i64");
    reveal_strlit("isize");
    reveal_strlit("u8");
    reveal_strlit("u16");
    reveal_strlit("u32");
    reveal_strlit("u64");
    reveal_strlit("usize");
    reveal_strlit("ptr_const_");
    reveal_strlit("ptr_mut_");
    reveal_strlit("str_const");
    reveal_strlit("str_mut");
    reveal_strlit("slice_const_");
    reveal_strlit("slice_mut_");
    reveal_strlit("owned_");
    reveal_strlit("fn");
    reveal_strlit("closure");
    reveal_strlit("array");
    reveal_strlit("id");
    reveal_strlit("_");
    reveal_strlit("void");
    reveal_strlit("ret_");
    let sh = Shape::Prim(p);
    let e = spec_mangle(sh);
    let s = e + rest;
    lemma_take_concat(e, rest);
    let tok = crate::mangle::prim_token(p);
    assert(e == tok);
    assert(s.take(tok.len() as int) == tok);
    assert(starts_with(s, tok));
    match p {
        Primitive::Bool => {
            assert(s[0] == 'b');
        },
        Primitive::I8 => {
            assert(s[0] == 'i' && s[1] == '8');
        },
        Primitive::I16 => {
            assert(s[0] == 'i' && s[1] == '1');
            assert(s.take(2) =~= tok.take(2));
            assert(s.take(2)[1] != "i8"@[1]);
        },
        Primitive::I32 => {
            assert(s[0] == 'i' && s[1] == '3');
            assert(s.take(2) =~= tok.take(2));
            assert(s.take(2)[1] != "i8"@[1]);
            assert(s.take(3)[1] != "i16"@[1]);
        },
        Primitive::I64 => {
            assert(s[0] == 'i' && s[1] == '6');
            assert(s.take(2) =~= tok.take(2));
            assert(s.take(2)[1] != "i8"@[1]);
            assert(s.take(3)[1] != "i16"@[1]);
            assert(s.take(3)[1] != "i32"@[1]);
        },
        Primitive::Isize => {
            assert(s[0] == 'i' && s[1] == 's');
            assert(s.take(2) =~= tok.take(2));
            assert(s.take(2)[1] != "i8"@[1]);
            assert(s.take(3)[1] != "i16"@[1]);
            assert(s.take(3)[1] != "i32"@[1]);
            assert(s.take(3)[1] != "i64"@[1]);
        },
        Primitive::U8 => {
            assert(s[0] == 'u' && s[1] == '8');
        },
        Primitive::U16 => {
            assert(s[0] == 'u' && s[1] == '1');
            assert(s.take(2)[1] != "u8"@[1]);
        },
        Primitive::U32 => {
            assert(s[0] == 'u' && s[1] == '3');
            assert(s.take(2)[1] != "u8"@[1]);
            assert(s.take(3)[1] != "u16"@[1]);
        },
        Primitive::U64 => {
            assert(s[0] == 'u' && s[1] == '6');
            assert(s.take(2)[1] != "u8"@[1]);
            assert(s.take(3)[1] != "u16"@[1]);
            assert(s.take(3)[1] != "u32"@[1]);
        },
        Primitive::Usize => {
            assert(s[0] == 'u' && s[1] == 's');
            assert(s.take(2)[1] != "u8"@[1]);
            assert(s.take(3)[1] != "u16"@[1]);
            assert(s.take(3)[1] != "u32"@[1]);
            assert(s.take(3)[1] != "u64"@[1]);
        },
    }
}

proof fn lemma_pm_strptr(m: PointerModifier, rest: Seq<char>)
    ensures
        ({
            let sh = Shape::StrPtr(m);
            parse_shape(spec_mangle(sh) + rest) == Some((sh, spec_mangle(sh).len()))
        }),
    decreases Shape::StrPtr(m), 0nat, 0nat,
{
    reveal_strlit("bool");
    reveal_strlit("i8");
    reveal_strlit("i16");
    reveal_strlit("i32");
    reveal_strlit("i64");
    reveal_strlit("isize");
    reveal_strlit("u8");
    reveal_strlit("u16");
    reveal_strlit("u32");
    reveal_strlit("u64");
    reveal_strlit("usize");
    reveal_strlit("ptr_const_");
    reveal_strlit("ptr_mut_");
    reveal_strlit("str_const");
    reveal_strlit("str_mut");
    reveal_strlit("slice_const_");
    reveal_strlit("slice_mut_");
    reveal_strlit("owned_");
    reveal_strlit("fn");
    reveal_strlit("closure");
    reveal_strlit("array");
    reveal_strlit("id");
    reveal_strlit("_");
    reveal_strlit("void");
    reveal_strlit("ret_");
    let sh = Shape::StrPtr(m);
    let e = spec_mangle(sh);
    let s = e + rest;
    lemma_take_concat(e, rest);
    match m {
        PointerModifier::Const => {
            assert(e == "str_const"@);
            assert(s[0] == 's');
            assert(starts_with(s, "str_const"@));
        },
        PointerModifier::Mut => {
            assert(e == "str_mut"@);
            assert(s[0] == 's');
            assert(!starts_with(s, "str_const"@)) by {
                if s.len() >= 9 {
                    assert(s.take(9)[4] == s[4]);
                    assert(s[4] == e[4]);
                    assert(e[4] == 'm');
                    assert("str_const"@[4] == 'c');
                }
            }
            assert(starts_with(s, "str_mut"@));
        },
    }
}

/// The round trip for the single-child forms.
proof fn lemma_pm_ptr(m: PointerModifier, inner: Box<Shape>, rest: Seq<char>)
    ensures
        ({
            let sh = Shape::Ptr(m, inner);
            parse_shape(spec_mangle(sh) + rest) == Some((sh, spec_mangle(sh).len()))
        }),
    decreases Shape::Ptr(m, inner), 0nat, 0nat,
{
    reveal_strlit("bool");
    reveal_strlit("i8");
    reveal_strlit("i16");
    reveal_strlit("i32");
    reveal_strlit("i64");
    reveal_strlit("isize");
    reveal_strlit("u8");
    reveal_strlit("u16");
    reveal_strlit("u32");
    reveal_strlit("u64");
    reveal_strlit("usize");
    reveal_strlit("ptr_const_");
    reveal_strlit("ptr_mut_");
    reveal_strlit("str_const");
    reveal_strlit("str_mut");
    reveal_strlit("slice_const_");
    reveal_strlit("slice_mut_");
    reveal_strlit("owned_");
    reveal_strlit("fn");
    reveal_strlit("closure");
    reveal_strlit("array");
    reveal_strlit("id");
    reveal_strlit("_");
    reveal_strlit("void");
    reveal_strlit("ret_");
    let sh = Shape::Ptr(m, inner);
    let e = spec_mangle(sh);
    let s = e + rest;
    lemma_take_concat(e, rest);
    let head: Seq<char> = match m {
        PointerModifier::Const => "ptr_const_"@,
        PointerModifier::Mut => "ptr_mut_"@,
    };
    let ei = spec_mangle(*inner);
    assert(e == head + ei);
    assert(s =~= head + (ei + rest));
    lemma_take_concat(head, ei + rest);
    assert(s[0] == 'p');
    match m {
        PointerModifier::Const => {
            assert(starts_with(s, "ptr_const_"@));
            lemma_parse_mangle(*inner, rest);
            assert(s.skip(10) =~= ei + rest);
        },
        PointerModifier::Mut => {
            assert(!starts_with(s, "ptr_const_"@)) by {
                if s.len() >= 10 {
                    assert(s.take(10)[4] == s[4]);
                    assert(s[4] == head[4]);
                    assert(head[4] == 'm');
                    assert("ptr_const_"@[4] == 'c');
                }
            }
            assert(starts_with(s, "ptr_mut_"@));
            lemma_parse_mangle(*inner, rest);
            assert(s.skip(8) =~= ei + rest);
        },
    }
    lemma_mangle_nonempty(*inner);
}

proof fn lemma_pm_slice(m: PointerModifier, inner: Box<Shape>, rest: Seq<char>)
    ensures
        ({
            let sh = Shape::SlicePtr(m, inner);
            parse_shape(spec_mangle(sh) + rest) == Some((sh, spec_mangle(sh).len()))
        }),
    decreases Shape::SlicePtr(m, inner), 0nat, 0nat,
{
    reveal_strlit("bool");
    reveal_strlit("i8");
    reveal_strlit("i16");
    reveal_strlit("i32");
    reveal_strlit("i64");
    reveal_strlit("isize");
    reveal_strlit("u8");
    reveal_strlit("u16");
    reveal_strlit("u32");
    reveal_strlit("u64");
    reveal_strlit("usize");
    reveal_strlit("ptr_const_");
    reveal_strlit("ptr_mut_");
    reveal_strlit("str_const");
    reveal_strlit("str_mut");
    reveal_strlit("slice_const_");
    reveal_strlit("slice_mut_");
    reveal_strlit("owned_");
    reveal_strlit("fn");
    reveal_strlit("closure");
    reveal_strlit("array");
    reveal_strlit("id");
    reveal_strlit("_");
    reveal_strlit("void");
    reveal_strlit("ret_");
    let sh = Shape::SlicePtr(m, inner);
    let e = spec_mangle(sh);
    let s = e + rest;
    lemma_take_concat(e, rest);
    let head: Seq<char> = match m {
        PointerModifier::Const => "slice_const_"@,
        PointerModifier::Mut => "slice_mut_"@,
    };
    let ei = spec_mangle(*inner);
    assert(e == head + ei);
    assert(s =~= head + (ei + rest));
    lemma_take_concat(head, ei + rest);
    assert(s[0] == 's');
    assert(!starts_with(s, "str_const"@)) by {
        if s.len() >= 9 {
            assert(s.take(9)[1] == s[1]);
            assert(s[1] == head[1]);
        }
    }
    assert(!starts_with(s, "str_mut"@)) by {
        if s.len() >= 7 {
            assert(s.take(7)[1] == s[1]);
            assert(s[1] == head[1]);
        }
    }
    match m {
        PointerModifier::Const => {
            assert(starts_with(s, "slice_const_"@));
            lemma_parse_mangle(*inner, rest);
            assert(s.skip(12) =~= ei + rest);
        },
        PointerModifier::Mut => {
            assert(!starts_with(s, "slice_const_"@)) by {
                if s.len() >= 12 {
                    assert(s.take(12)[6] == s[6]);
                    assert(s[6] == head[6]);
                    assert(head[6] == 'm');
                    assert("slice_const_"@[6] == 'c');
                }
            }
            assert(starts_with(s, "slice_mut_"@));
            lemma_parse_mangle(*inner, rest);
            assert(s.skip(10) =~= ei + rest);
        },
    }
    lemma_mangle_nonempty(*inner);
}

proof fn lemma_pm_owned(inner: Box<Shape>, rest: Seq<char>)
    ensures
        ({
            let sh = Shape::OwnedPtr(inner);
            parse_shape(spec_mangle(sh) + rest) == Some((sh, spec_mangle(sh).len()))
        }),
    decreases Shape::OwnedPtr(inner), 0nat, 0nat,
{
    reveal_strlit("bool");
    reveal_strlit("i8");
    reveal_strlit("i16");
    reveal_strlit("i32");
    reveal_strlit("i64");
    reveal_strlit("isize");
    reveal_strlit("u8");
    reveal_strlit("u16");
    reveal_strlit("u32");
    reveal_strlit("u64");
    reveal_strlit("usize");
    reveal_strlit("ptr_const_");
    reveal_strlit("ptr_mut_");
    reveal_strlit("str_const");
    reveal_strlit("str_mut");
    reveal_strlit("slice_const_");
    reveal_strlit("slice_mut_");
    reveal_strlit("owned_");
    reveal_strlit("fn");
    reveal_strlit("closure");
    reveal_strlit("array");
    reveal_strlit("id");
    reveal_strlit("_");
    reveal_strlit("void");
    reveal_strlit("ret_");
    let sh = Shape::OwnedPtr(inner);
    let e = spec_mangle(sh);
    let s = e + rest;
    lemma_take_concat(e, rest);
    let ei = spec_mangle(*inner);
    assert(e == "owned_"@ + ei);
    assert(s =~= "owned_"@ + (ei + rest));
    lemma_take_concat("owned_"@, ei + rest);
    assert(s[0] == 'o');
    assert(starts_with(s, "owned_"@));
    lemma_parse_mangle(*inner, rest);
    assert(s.skip(6) =~= ei + rest);
    lemma_mangle_nonempty(*inner);
}

proof fn lemma_pm_array(inner: Box<Shape>, n: nat, rest: Seq<char>)
    ensures
        ({
            let sh = Shape::ArrayOf(inner, n);
            parse_shape(spec_mangle(sh) + rest) == Some((sh, spec_mangle(sh).len()))
        }),
    decreases Shape::ArrayOf(inner, n), 0nat, 0nat,
{
    reveal_strlit("bool");
    reveal_strlit("i8");
    reveal_strlit("i16");
    reveal_strlit("i32");
    reveal_strlit("i64");
    reveal_strlit("isize");
    reveal_strlit("u8");
    reveal_strlit("u16");
    reveal_strlit("u32");
    reveal_strlit("u64");
    reveal_strlit("usize");
    reveal_strlit("ptr_const_");
    reveal_strlit("ptr_mut_");
    reveal_strlit("str_const");
    reveal_strlit("str_mut");
    reveal_strlit("slice_const_");
    reveal_strlit("slice_mut_");
    reveal_strlit("owned_");
    reveal_strlit("fn");
    reveal_strlit("closure");
    reveal_strlit("array");
    reveal_strlit("id");
    reveal_strlit("_");
    reveal_strlit("void");
    reveal_strlit("ret_");
    let sh = Shape::ArrayOf(inner, n);
    let e = spec_mangle(sh);
    let s = e + rest;
    lemma_take_concat(e, rest);
    let d = dec_str(n);
    let ei = spec_mangle(*inner);
    assert(e == "array"@ + d + "_"@ + ei);
    assert(s =~= "array"@ + (d + ("_"@ + (ei + rest))));
    lemma_take_concat("array"@, d + ("_"@ + (ei + rest)));
    assert(s[0] == 'a');
    assert(starts_with(s, "array"@));
    lemma_dec_str_digits(n);
    assert(s.skip(5) =~= d + ("_"@ + (ei + rest)));
    lemma_digit_run_concat(d, "_"@ + (ei + rest));
    assert(!is_digit(("_"@ + (ei + rest))[0]));
    assert(digit_run_len(s.skip(5)) == d.len());
    lemma_take_concat(d, "_"@ + (ei + rest));
    assert(s.skip(5).take(d.len() as int) == d);
    lemma_digits_value_dec(n);
    assert(s[5 + d.len() as int] == '_') by {
        assert(s.skip(5)[d.len() as int] == ("_"@ + (ei + rest))[0]);
    }
    assert(s.skip(6 + d.len() as int) =~= ei + rest);
    lemma_parse_mangle(*inner, rest);
    lemma_mangle_nonempty(*inner);
    assert(e.len() == 6 + d.len() + ei.len());
}

/// The round trip for named types.
proof fn lemma_pm_named(name: Seq<char>, rest: Seq<char>)
    ensures
        ({
            let sh = Shape::Named(name);
            parse_shape(spec_mangle(sh) + rest) == Some((sh, spec_mangle(sh).len()))
        }),
    decreases Shape::Named(name), 0nat, 0nat,
{
    reveal_strlit("bool");
    reveal_strlit("i8");
    reveal_strlit("i16");
    reveal_strlit("i32");
    reveal_strlit("i64");
    reveal_strlit("isize");
    reveal_strlit("u8");
    reveal_strlit("u16");
    reveal_strlit("u32");
    reveal_strlit("u64");
    reveal_strlit("usize");
    reveal_strlit("ptr_const_");
    reveal_strlit("ptr_mut_");
    reveal_strlit("str_const");
    reveal_strlit("str_mut");
    reveal_strlit("slice_const_");
    reveal_strlit("slice_mut_");
    reveal_strlit("owned_");
    reveal_strlit("fn");
    reveal_strlit("closure");
    reveal_strlit("array");
    reveal_strlit("id");
    reveal_strlit("_");
    reveal_strlit("void");
    reveal_strlit("ret_");
    let sh = Shape::Named(name);
    let e = spec_mangle(sh);
    let s = e + rest;
    lemma_take_concat(e, rest);
    let d = dec_str(name.len());
    assert(e == "id"@ + d + "_"@ + name);
    assert(s =~= "id"@ + (d + ("_"@ + (name + rest))));
    lemma_take_concat("id"@, d + ("_"@ + (name + rest)));
    assert(s[0] == 'i' && s[1] == 'd');
    lemma_dec_str_digits(name.len());
    assert(s.skip(2) =~= d + ("_"@ + (name + rest)));
    lemma_digit_run_concat(d, "_"@ + (name + rest));
    assert(!is_digit(("_"@ + (name + rest))[0]));
    assert(digit_run_len(s.skip(2)) == d.len());
    lemma_take_concat(d, "_"@ + (name + rest));
    assert(s.skip(2).take(d.len() as int) == d);
    lemma_digits_value_dec(name.len());
    assert(s[2 + d.len() as int] == '_') by {
        assert(s.skip(2)[d.len() as int] == ("_"@ + (name + rest))[0]);
    }
    assert(e.len() == 3 + d.len() + name.len());
    assert(s.subrange(
        3 + d.len() as int,
        3 + d.len() as int + name.len() as int,
    ) =~= name);
}

/// The round trip for function pointers.
/// The round trip for the return suffix of a function pointer.
proof fn lemma_pm_ret(
    k: FunctionType,
    args: Seq<Shape>,
    ret: Option<Box<Shape>>,
    rest: Seq<char>,
)
    ensures
        parse_ret(spec_mangle_ret(ret) + rest) == Some((ret, spec_mangle_ret(ret).len())),
    decreases Shape::FnPtr(k, args, ret), 0nat, 0nat,
{
    reveal_strlit("void");
    reveal_strlit("ret_");
    let re = spec_mangle_ret(ret);
    let s2 = re + rest;
    lemma_take_concat(re, rest);
    match ret {
        None => {
            assert(re == "void"@);
            assert(s2.take(4) =~= "void"@);
            assert(starts_with(s2, "void"@));
            assert(parse_ret(s2) == Some((None::<Box<Shape>>, 4nat)));
        },
        Some(r) => {
            let er = spec_mangle(*r);
            assert(re == "ret_"@ + er);
            assert(s2 =~= "ret_"@ + (er + rest));
            lemma_take_concat("ret_"@, er + rest);
            assert(!starts_with(s2, "void"@)) by {
                if s2.len() >= 4 {
                    assert(s2.take(4)[0] == s2[0]);
                    assert(s2[0] == 'r');
                    assert("void"@[0] == 'v');
                }
            }
            assert(starts_with(s2, "ret_"@));
            lemma_mangle_nonempty(*r);
            assert(s2.len() > 4);
            assert(s2.skip(4) =~= er + rest);
            let fsh = Shape::FnPtr(k, args, ret);
            assert(decreases_to!(fsh => *r)) by {
                assert(fsh->FnPtr_2 == ret);
                assert(decreases_to!(fsh => fsh->FnPtr_2));
                assert(ret->Some_0 == r);
                assert(decreases_to!(ret => ret->Some_0));
            }
            lemma_parse_mangle(*r, rest);
            assert(parse_ret(s2) == Some((Some(Box::new(*r)), 4 + er.len())));
            assert(Box::new(*r) == r);
        },
    }
}

#[verifier::rlimit(100)]
#[verifier::spinoff_prover]
proof fn lemma_pm_fnptr(k: FunctionType, args: Seq<Shape>, ret: Option<Box<Shape>>, rest: Seq<char>)
    ensures
        ({
            let sh = Shape::FnPtr(k, args, ret);
            parse_shape(spec_mangle(sh) + rest) == Some((sh, spec_mangle(sh).len()))
        }),
    decreases Shape::FnPtr(k, args, ret), 0nat, 1nat,
{
    reveal_strlit("bool");
    reveal_strlit("i8");
    reveal_strlit("i16");
    reveal_strlit("i32");
    reveal_strlit("i64");
    reveal_strlit("isize");
    reveal_strlit("u8");
    reveal_strlit("u16");
    reveal_strlit("u32");
    reveal_strlit("u64");
    reveal_strlit("usize");
    reveal_strlit("ptr_const_");
    reveal_strlit("ptr_mut_");
    reveal_strlit("str_const");
    reveal_strlit("str_mut");
    reveal_strlit("slice_const_");
    reveal_strlit("slice_mut_");
    reveal_strlit("owned_");
    reveal_strlit("fn");
    reveal_strlit("closure");
    reveal_strlit("array");
    reveal_strlit("id");
    reveal_strlit("_");
    reveal_strlit("void");
    reveal_strlit("ret_");
    let sh = Shape::FnPtr(k, args, ret);
    let e = spec_mangle(sh);
    let s = e + rest;
    lemma_take_concat(e, rest);
    let head: Seq<char> = match k {
        FunctionType::Function => "fn"@,
        FunctionType::Closure => "closure"@,
    };
    let hl = head.len() as int;
    let d = dec_str(args.len());
    let lst = spec_mangle_list(args);
    let re = spec_mangle_ret(ret);
    assert(e == head + d + "_"@ + lst + re);
    assert(s =~= head + (d + ("_"@ + (lst + (re + rest)))));
    lemma_take_concat(head, d + ("_"@ + (lst + (re + rest))));
    match k {
        FunctionType::Function => {
            assert(s[0] == 'f');
            assert(starts_with(s, "fn"@));
        },
        FunctionType::Closure => {
            assert(s[0] == 'c');
            assert(starts_with(s, "closure"@));
        },
    }
    lemma_dec_str_digits(args.len());
    assert(s.skip(hl) =~= d + ("_"@ + (lst + (re + rest))));
    lemma_digit_run_concat(d, "_"@ + (lst + (re + rest)));
    assert(!is_digit(("_"@ + (lst + (re + rest)))[0]));
    assert(digit_run_len(s.skip(hl)) == d.len());
    lemma_take_concat(d, "_"@ + (lst + (re + rest)));
    assert(s.skip(hl).take(d.len() as int) == d);
    lemma_digits_value_dec(args.len());
    assert(s[hl + d.len() as int] == '_') by {
        assert(s.skip(hl)[d.len() as int] == ("_"@ + (lst + (re + rest)))[0]);
    }
    let tail = s.skip(hl + d.len() as int + 1);
    assert(tail =~= lst + (re + rest));
    lemma_parse_args_mangle(args, re + rest);
    assert(parse_args(tail, args.len()) == Some((args, lst.len())));
    assert(lst.len() <= tail.len());
    let s2 = tail.skip(lst.len() as int);
    lemma_take_concat(lst, re + rest);
    assert(s2 =~= re + rest);
    lemma_pm_ret(k, args, ret, rest);
    assert(parse_ret(s2) == Some((ret, re.len())));
    assert(e.len() == hl + d.len() + 1 + lst.len() + re.len());
}

/// The round trip: the encoding of any shape, followed by any text at all,
/// decodes to exactly that shape, consuming exactly the encoding.
pub proof fn lemma_parse_mangle(sh: Shape, rest: Seq<char>)
    ensures
        parse_shape(spec_mangle(sh) + rest) == Some((sh, spec_mangle(sh).len())),
    decreases sh, 1nat, 0nat,
{
    match sh {
        Shape::Prim(p) => lemma_pm_prim(p, rest),
        Shape::StrPtr(m) => lemma_pm_strptr(m, rest),
        Shape::Ptr(m, inner) => lemma_pm_ptr(m, inner, rest),
        Shape::SlicePtr(m, inner) => lemma_pm_slice(m, inner, rest),
        Shape::OwnedPtr(inner) => lemma_pm_owned(inner, rest),
        Shape::ArrayOf(inner, n) => lemma_pm_array(inner, n, rest),
        Shape::Named(name) => lemma_pm_named(name, rest),
        Shape::FnPtr(k, args, ret) => lemma_pm_fnptr(k, args, ret, rest),
    }
}

/// The round trip over an argument list: decoding as many shapes as the
/// list holds gives the list back.
pub proof fn lemma_parse_args_mangle(args: Seq<Shape>, rest: Seq<char>)
    ensures
        parse_args(spec_mangle_list(args) + rest, args.len()) == Some(
            (args, spec_mangle_list(args).len()),
        ),
    decreases args, 2nat, 0nat,
{
    if args.len() == 0 {
        assert(spec_mangle_list(args) =~= Seq::<char>::empty());
        assert(args =~= Seq::<Shape>::empty());
    } else {
        let m0 = spec_mangle(args[0]);
        let lr = spec_mangle_list(args.drop_first());
        assert(spec_mangle_list(args) == m0 + lr);
        let s = spec_mangle_list(args) + rest;
        assert(s =~= m0 + (lr + rest));
        lemma_parse_mangle(args[0], lr + rest);
        lemma_mangle_nonempty(args[0]);
        lemma_take_concat(m0, lr + rest);
        assert(s.skip(m0.len() as int) =~= lr + rest);
        lemma_parse_args_mangle(args.drop_first(), rest);
        assert(seq![args[0]] + args.drop_first() =~= args);
    }
}

/// Mangler soundness. Structurally identical shapes mangle identically —
/// mangling is a function of the shape alone — and structurally different
/// shapes never collide: equal names imply equal shapes.
pub proof fn lemma_mangle_injective(a: Shape, b: Shape)
    ensures
        spec_mangle(a) == spec_mangle(b) <==> a == b,
{
    if spec_mangle(a) == spec_mangle(b) {
        lemma_parse_mangle(a, Seq::empty());
        lemma_parse_mangle(b, Seq::empty());
        assert(spec_mangle(a) + Seq::<char>::empty() =~= spec_mangle(a));
        assert(spec_mangle(b) + Seq::<char>::empty() =~= spec_mangle(b));
    }
}

/// Mangler soundness over type expressions: two types receive the same
/// mangled name exactly when they are structurally identical — same
/// variants, constness, lengths and argument lists, recursively, with
/// source locations playing no part.
pub proof fn lemma_mangle_type_sound(a: crate::ast::Type, b: crate::ast::Type)
    ensures
        spec_mangle(crate::mangle::shape_of(a)) == spec_mangle(crate::mangle::shape_of(b))
            <==> crate::mangle::shape_of(a) == crate::mangle::shape_of(b),
{
    lemma_mangle_injective(crate::mangle::shape_of(a), crate::mangle::shape_of(b));
}

} // verus!
