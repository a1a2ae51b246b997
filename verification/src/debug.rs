//! Debugging texts: names quoted and escaped, types as they are declared.

use vstd::prelude::*;

use crate::strings::{debug_string, debug_text, texts};
use crate::types::{opt_ty, tys, EffectRow, FunctionType, Ty, Type};

verus! {

/// The `Debug` text of a character.
pub uninterp spec fn debug_char_text(c: char) -> Seq<char>;

/// `format!("{:?}")` of a `char`: the quoted character with the escapes of the
/// standard library.
#[verifier::external_body]
pub(crate) fn debug_char(c: char) -> (r: String)
    ensures
        r@ == debug_char_text(c),
{
    format!("{:?}", c)
}

/// A quoted name.
pub open spec fn debug_name(out: Seq<char>, s: Seq<char>) -> Seq<char> {
    out + debug_text(s)
}

/// Adds the text.
pub fn push_debug_name(out: &mut String, s: &str)
    ensures
        final(out)@ == debug_name(old(out)@, s@),
{
    let shown = debug_string(s);
    out.push_str(shown.as_str());
}

/// An optional name.
pub open spec fn debug_opt_name(out: Seq<char>, s: Option<String>) -> Seq<char> {
    match s {
        Some(s) => debug_name(out + "Some("@, s@) + ")"@,
        None => out + "None"@,
    }
}

/// Adds the text.
pub fn push_debug_opt_name(out: &mut String, s: &Option<String>)
    ensures
        final(out)@ == debug_opt_name(old(out)@, *s),
{
    match s {
        Some(s) => {
            out.push_str("Some(");
            push_debug_name(out, s.as_str());
            out.push_str(")");
        },
        None => out.push_str("None"),
    }
}

/// Names, without brackets.
pub open spec fn debug_names_items(out: Seq<char>, s: Seq<Seq<char>>) -> Seq<char>
    decreases s.len(),
{
    if s.len() == 0 {
        out
    } else {
        let before = debug_names_items(out, s.drop_last());
        let sep = if s.len() > 1 {
            before + ", "@
        } else {
            before
        };
        debug_name(sep, s.last())
    }
}

/// Names, in brackets.
pub open spec fn debug_names(out: Seq<char>, s: Seq<Seq<char>>) -> Seq<char> {
    debug_names_items(out + "["@, s) + "]"@
}

/// Adds the text.
pub fn push_debug_names(out: &mut String, s: &Vec<String>)
    ensures
        final(out)@ == debug_names(old(out)@, texts(s@)),
{
    let ghost all = texts(s@);
    out.push_str("[");
    let ghost start = out@;
    let mut i: usize = 0;
    assert(all.len() == s@.len());
    assert(all.take(0).len() == 0);
    while i < s.len()
        invariant
            i <= s.len(),
            all == texts(s@),
            all.len() == s@.len(),
            out@ == debug_names_items(start, all.take(i as int)),
        decreases s.len() - i,
    {
        proof {
            assert(all.take(i + 1).drop_last() =~= all.take(i as int));
            assert(all.take(i + 1).last() == s@[i as int]@);
        }
        if i > 0 {
            out.push_str(", ");
        }
        push_debug_name(out, s[i].as_str());
        i += 1;
    }
    assert(all.take(all.len() as int) =~= all);
    out.push_str("]");
}

/// An effect row.
pub open spec fn debug_row(out: Seq<char>, s: Seq<Seq<char>>) -> Seq<char> {
    debug_names(out + "EffectRow { effects: "@, s) + " }"@
}

/// Adds the text.
pub fn push_debug_row(out: &mut String, row: &EffectRow)
    ensures
        final(out)@ == debug_row(old(out)@, row@),
{
    out.push_str("EffectRow { effects: ");
    push_debug_names(out, &row.effects);
    out.push_str(" }");
}

/// A type.
pub open spec fn debug_ty(out: Seq<char>, t: Ty) -> Seq<char>
    decreases t, 2nat,
{
    match t {
        Ty::Unit => out + "Unit"@,
        Ty::Bool => out + "Bool"@,
        Ty::Int => out + "Int"@,
        Ty::Float => out + "Float"@,
        Ty::String => out + "String"@,
        Ty::Char => out + "Char"@,
        Ty::Bytes => out + "Bytes"@,
        Ty::Array(inner) => debug_ty(out + "Array("@, *inner) + ")"@,
        Ty::Record => out + "Record"@,
        Ty::Enum(name, args) => debug_tys(debug_name(out + "Enum("@, name) + ", "@, args) + ")"@,
        Ty::Option(inner) => debug_ty(out + "Option("@, *inner) + ")"@,
        Ty::Never => out + "Never"@,
        Ty::Function(f) => {
            let params = debug_tys(out + "Function(FunctionType { params: "@, f.params);
            let ret = debug_ty(params + ", ret: "@, *f.ret) + ", throws: "@;
            let throws = match f.throws {
                Some(t) => debug_ty(ret + "Some("@, *t) + ")"@,
                None => ret + "None"@,
            };
            debug_row(throws + ", effects: "@, f.effects) + " })"@
        },
        Ty::OpaqueFunction => out + "OpaqueFunction"@,
        Ty::Var(name) => debug_name(out + "Var("@, name) + ")"@,
    }
}

/// Types, without brackets.
pub open spec fn debug_tys_items(out: Seq<char>, s: Seq<Ty>) -> Seq<char>
    decreases s, 0nat,
{
    if s.len() == 0 {
        out
    } else {
        let before = debug_tys_items(out, s.drop_last());
        let sep = if s.len() > 1 {
            before + ", "@
        } else {
            before
        };
        debug_ty(sep, s.last())
    }
}

/// Types, in brackets.
pub open spec fn debug_tys(out: Seq<char>, s: Seq<Ty>) -> Seq<char>
    decreases s, 1nat,
{
    debug_tys_items(out + "["@, s) + "]"@
}

/// Adds the text.
pub fn push_debug_types(out: &mut String, s: &Vec<Type>)
    ensures
        final(out)@ == debug_tys(old(out)@, tys(s@)),
    decreases s@, 0nat,
{
    let ghost all = tys(s@);
    out.push_str("[");
    let ghost start = out@;
    let mut i: usize = 0;
    assert(all.len() == s@.len());
    assert(all.take(0).len() == 0);
    while i < s.len()
        invariant
            i <= s.len(),
            all == tys(s@),
            all.len() == s@.len(),
            out@ == debug_tys_items(start, all.take(i as int)),
        decreases s.len() - i,
    {
        proof {
            assert(all.take(i + 1).drop_last() =~= all.take(i as int));
            assert(all.take(i + 1).last() == s@[i as int]@);
        }
        if i > 0 {
            out.push_str(", ");
        }
        push_debug_type(out, &s[i]);
        i += 1;
    }
    assert(all.take(all.len() as int) =~= all);
    out.push_str("]");
}

fn push_debug_function(out: &mut String, f: &FunctionType)
    ensures
        final(out)@ == debug_ty(old(out)@, Ty::Function(f@)),
    decreases f, 0nat,
{
    out.push_str("Function(FunctionType { params: ");
    push_debug_types(out, &f.params);
    out.push_str(", ret: ");
    push_debug_type(out, &f.ret);
    out.push_str(", throws: ");
    match &f.throws {
        Some(t) => {
            out.push_str("Some(");
            push_debug_type(out, t);
            out.push_str(")");
        },
        None => out.push_str("None"),
    }
    out.push_str(", effects: ");
    push_debug_row(out, &f.effects);
    out.push_str(" })");
}

/// Adds the text of a type.
pub fn push_debug_type(out: &mut String, t: &Type)
    ensures
        final(out)@ == debug_ty(old(out)@, t@),
    decreases t, 1nat,
{
    match t {
        Type::Unit => out.push_str("Unit"),
        Type::Bool => out.push_str("Bool"),
        Type::Int => out.push_str("Int"),
        Type::Float => out.push_str("Float"),
        Type::String => out.push_str("String"),
        Type::Char => out.push_str("Char"),
        Type::Bytes => out.push_str("Bytes"),
        Type::Array(inner) => {
            out.push_str("Array(");
            push_debug_type(out, inner);
            out.push_str(")");
        },
        Type::Record => out.push_str("Record"),
        Type::Enum(name, args) => {
            out.push_str("Enum(");
            push_debug_name(out, name.as_str());
            out.push_str(", ");
            push_debug_types(out, args);
            out.push_str(")");
        },
        Type::Option(inner) => {
            out.push_str("Option(");
            push_debug_type(out, inner);
            out.push_str(")");
        },
        Type::Never => out.push_str("Never"),
        Type::Function(f) => push_debug_function(out, f),
        Type::OpaqueFunction => out.push_str("OpaqueFunction"),
        Type::Var(name) => {
            out.push_str("Var(");
            push_debug_name(out, name.as_str());
            out.push_str(")");
        },
    }
}

/// An optional type.
pub open spec fn debug_opt_ty(out: Seq<char>, t: Option<Ty>) -> Seq<char> {
    match t {
        Some(t) => debug_ty(out + "Some("@, t) + ")"@,
        None => out + "None"@,
    }
}

/// Adds the text.
pub fn push_debug_opt_type(out: &mut String, t: &Option<Type>)
    ensures
        final(out)@ == debug_opt_ty(old(out)@, opt_ty(*t)),
{
    match t {
        Some(t) => {
            out.push_str("Some(");
            push_debug_type(out, t);
            out.push_str(")");
        },
        None => out.push_str("None"),
    }
}

} // verus!
