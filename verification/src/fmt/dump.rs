//! A span-free structural dump of a program.
//!
//! Two sources are format-equal iff their dumps are equal: the formatter uses
//! it to show that nothing but the layout has changed. A text dump gives
//! inspectable differences and leaves out where things stand.

use vstd::prelude::*;

use crate::ast::{
    Block, BlockItem, Bound, EffectDecl, EnumDecl, EnumVariant, Expr, Extern, FieldBinding, FieldInit, Function,
    ImplDecl, Import, MatchArm, Param, Pattern, Program, RecordDecl, RecordField, TraitDecl,
    TraitMethodSig,
};
use crate::debug::{
    debug_char, debug_char_text, debug_name, debug_names, debug_opt_name, debug_opt_ty, debug_row,
    debug_ty, debug_tys, push_debug_name, push_debug_names, push_debug_opt_name,
    push_debug_opt_type, push_debug_row, push_debug_type, push_debug_types,
};
use crate::ir_text::{bool_text, push_bool};
use crate::strings::{decimal_int, owned, push_decimal_int, texts};
use crate::types::{opt_ty, tys, BinaryOp};

verus! {

/// A parameter: its name and the text of its type, both quoted.
pub open spec fn debug_param(out: Seq<char>, p: Param) -> Seq<char> {
    debug_name(
        debug_name(out + "("@, p.name@) + ", "@,
        debug_ty(Seq::empty(), p.ty@),
    ) + ")"@
}

fn push_debug_param(out: &mut String, p: &Param)
    ensures
        final(out)@ == debug_param(old(out)@, *p),
{
    let mut shown = String::new();
    assert(shown@ =~= Seq::<char>::empty());
    push_debug_type(&mut shown, &p.ty);
    out.push_str("(");
    push_debug_name(out, p.name.as_str());
    out.push_str(", ");
    push_debug_name(out, shown.as_str());
    out.push_str(")");
}

/// A bound: the parameter and its traits.
pub open spec fn debug_bound(out: Seq<char>, b: Bound) -> Seq<char> {
    debug_names(debug_name(out + "("@, b.param@) + ", "@, texts(b.traits@)) + ")"@
}

fn push_debug_bound(out: &mut String, b: &Bound)
    ensures
        final(out)@ == debug_bound(old(out)@, *b),
{
    out.push_str("(");
    push_debug_name(out, b.param.as_str());
    out.push_str(", ");
    push_debug_names(out, &b.traits);
    out.push_str(")");
}

/// Parameters, without brackets.
pub open spec fn debug_params_items(out: Seq<char>, s: Seq<Param>) -> Seq<char>
    decreases s.len(),
{
    if s.len() == 0 {
        out
    } else {
        let before = debug_params_items(out, s.drop_last());
        let sep = if s.len() > 1 {
            before + ", "@
        } else {
            before
        };
        debug_param(sep, s.last())
    }
}

/// Parameters, in brackets.
pub open spec fn debug_params(out: Seq<char>, s: Seq<Param>) -> Seq<char> {
    debug_params_items(out + "["@, s) + "]"@
}

fn push_debug_params(out: &mut String, s: &Vec<Param>)
    ensures
        final(out)@ == debug_params(old(out)@, s@),
{
    let ghost all = s@;
    out.push_str("[");
    let ghost start = out@;
    let mut i: usize = 0;
    assert(all.len() == s@.len());
    assert(all.take(0).len() == 0);
    while i < s.len()
        invariant
            i <= s.len(),
            all == s@,
            all.len() == s@.len(),
            out@ == debug_params_items(start, all.take(i as int)),
        decreases s.len() - i,
    {
        proof {
            assert(all.take(i + 1).drop_last() =~= all.take(i as int));
            assert(all.take(i + 1).last() == s@[i as int]);
        }
        if i > 0 {
            out.push_str(", ");
        }
        push_debug_param(out, &s[i]);
        i += 1;
    }
    assert(all.take(all.len() as int) =~= all);
    out.push_str("]");
}

/// Bounds, without brackets.
pub open spec fn debug_bounds_items(out: Seq<char>, s: Seq<Bound>) -> Seq<char>
    decreases s.len(),
{
    if s.len() == 0 {
        out
    } else {
        let before = debug_bounds_items(out, s.drop_last());
        let sep = if s.len() > 1 {
            before + ", "@
        } else {
            before
        };
        debug_bound(sep, s.last())
    }
}

/// Bounds, in brackets.
pub open spec fn debug_bounds(out: Seq<char>, s: Seq<Bound>) -> Seq<char> {
    debug_bounds_items(out + "["@, s) + "]"@
}

fn push_debug_bounds(out: &mut String, s: &Vec<Bound>)
    ensures
        final(out)@ == debug_bounds(old(out)@, s@),
{
    let ghost all = s@;
    out.push_str("[");
    let ghost start = out@;
    let mut i: usize = 0;
    assert(all.len() == s@.len());
    assert(all.take(0).len() == 0);
    while i < s.len()
        invariant
            i <= s.len(),
            all == s@,
            all.len() == s@.len(),
            out@ == debug_bounds_items(start, all.take(i as int)),
        decreases s.len() - i,
    {
        proof {
            assert(all.take(i + 1).drop_last() =~= all.take(i as int));
            assert(all.take(i + 1).last() == s@[i as int]);
        }
        if i > 0 {
            out.push_str(", ");
        }
        push_debug_bound(out, &s[i]);
        i += 1;
    }
    assert(all.take(all.len() as int) =~= all);
    out.push_str("]");
}

/// The names that a variant pattern binds, `_` for none.
pub open spec fn binding_names(s: Seq<FieldBinding>) -> Seq<Seq<char>> {
    s.map_values(
        |f: FieldBinding|
            match f {
                FieldBinding::Name(name) => name@,
                FieldBinding::Ignore => "_"@,
            },
    )
}

fn names_of_bindings(s: &Vec<FieldBinding>) -> (r: Vec<String>)
    ensures
        texts(r@) == binding_names(s@),
{
    let mut out: Vec<String> = Vec::new();
    let mut i: usize = 0;
    while i < s.len()
        invariant
            i <= s.len(),
            out@.len() == i,
            forall|k: int| 0 <= k < i ==> (#[trigger] out@[k])@ == binding_names(s@)[k],
        decreases s.len() - i,
    {
        match &s[i] {
            FieldBinding::Name(name) => out.push(name.clone()),
            FieldBinding::Ignore => out.push(owned("_")),
        }
        i += 1;
    }
    assert(texts(out@) =~= binding_names(s@));
    out
}

/// A pattern.
pub open spec fn dump_pattern(out: Seq<char>, p: Pattern) -> Seq<char> {
    match p {
        Pattern::Wildcard(_) => out + "_"@,
        Pattern::Binding { name, .. } => out + "bind "@ + name@,
        Pattern::Variant { enum_name, variant, fields, .. } => debug_names(
            debug_opt_name(out + "variant "@, enum_name) + "::"@ + variant@ + "("@,
            binding_names(fields@),
        ) + ")"@,
    }
}

fn push_pattern(out: &mut String, p: &Pattern)
    ensures
        final(out)@ == dump_pattern(old(out)@, *p),
{
    match p {
        Pattern::Wildcard(_) => out.push_str("_"),
        Pattern::Binding { name, .. } => {
            out.push_str("bind ");
            out.push_str(name.as_str());
        },
        Pattern::Variant { enum_name, variant, fields, .. } => {
            let shown = names_of_bindings(fields);
            out.push_str("variant ");
            push_debug_opt_name(out, enum_name);
            out.push_str("::");
            out.push_str(variant.as_str());
            out.push_str("(");
            push_debug_names(out, &shown);
            out.push_str(")");
        },
    }
}

/// The name of an operator.
pub open spec fn op_name(op: BinaryOp) -> Seq<char> {
    match op {
        BinaryOp::Add => "Add"@,
        BinaryOp::Sub => "Sub"@,
        BinaryOp::Mul => "Mul"@,
        BinaryOp::Div => "Div"@,
        BinaryOp::Rem => "Rem"@,
        BinaryOp::Concat => "Concat"@,
        BinaryOp::Eq => "Eq"@,
        BinaryOp::Lt => "Lt"@,
        BinaryOp::Ne => "Ne"@,
        BinaryOp::Gt => "Gt"@,
        BinaryOp::Le => "Le"@,
        BinaryOp::Ge => "Ge"@,
        BinaryOp::Shl => "Shl"@,
        BinaryOp::Shr => "Shr"@,
        BinaryOp::UShr => "UShr"@,
    }
}

fn name_of_op(op: BinaryOp) -> (r: &'static str)
    ensures
        r@ == op_name(op),
{
    match op {
        BinaryOp::Add => "Add",
        BinaryOp::Sub => "Sub",
        BinaryOp::Mul => "Mul",
        BinaryOp::Div => "Div",
        BinaryOp::Rem => "Rem",
        BinaryOp::Concat => "Concat",
        BinaryOp::Eq => "Eq",
        BinaryOp::Lt => "Lt",
        BinaryOp::Ne => "Ne",
        BinaryOp::Gt => "Gt",
        BinaryOp::Le => "Le",
        BinaryOp::Ge => "Ge",
        BinaryOp::Shl => "Shl",
        BinaryOp::Shr => "Shr",
        BinaryOp::UShr => "UShr",
    }
}

/// One level further in.
pub open spec fn inside(indent: Seq<char>) -> Seq<char> {
    indent + "  "@
}

fn further(indent: &str) -> (r: String)
    ensures
        r@ == inside(indent@),
{
    let mut out = owned(indent);
    out.push_str("  ");
    out
}

/// An expression.
pub open spec fn dump_expr(out: Seq<char>, indent: Seq<char>, e: Expr) -> Seq<char>
    decreases e, 1nat,
{
    let o = out + indent;
    let inner = inside(indent);
    match e {
        Expr::Int(value, _) => o + "int "@ + decimal_int(value as int) + "\n"@,
        Expr::Float(value, _) => o + "float "@ + value@ + "\n"@,
        Expr::Bool(value, _) => o + "bool "@ + bool_text(value) + "\n"@,
        Expr::String(value, _) => debug_name(o + "string "@, value@) + "\n"@,
        Expr::Char(value, _) => o + "char "@ + debug_char_text(value) + "\n"@,
        Expr::Unit(_) => o + "unit\n"@,
        Expr::Var(name, _) => o + "var "@ + name@ + "\n"@,
        Expr::Array(items, _) => dump_list(o + "array\n"@, inner, items@),
        Expr::Call { callee, args, .. } => dump_list(
            dump_expr(o + "call\n"@, inner, *callee),
            inner,
            args@,
        ),
        Expr::Fn { params, ret, throws, effects, body, .. } => {
            let o1 = debug_params(o + "lambda params="@, params@);
            let o2 = debug_ty(o1 + " ret="@, ret@);
            let o3 = debug_opt_ty(o2 + " throws="@, opt_ty(throws));
            let o4 = debug_row(o3 + " uses="@, effects@);
            dump_block(o4 + "\n"@, inner, body)
        },
        Expr::Binary { op, left, right, .. } => dump_expr(
            dump_expr(o + "binary "@ + op_name(op) + "\n"@, inner, *left),
            inner,
            *right,
        ),
        Expr::Block(block) => dump_block(out, indent, block),
        Expr::If { cond, then, els, .. } => dump_block(
            dump_block(dump_expr(o + "if\n"@, inner, *cond), inner, then),
            inner,
            els,
        ),
        Expr::Throw { value, .. } => dump_expr(o + "throw\n"@, inner, *value),
        Expr::Panic { message, .. } => dump_expr(o + "panic\n"@, inner, *message),
        Expr::Question { value, .. } => dump_expr(o + "question\n"@, inner, *value),
        Expr::RecordLiteral { name, fields, .. } => dump_fields(
            o + "record_literal "@ + name@ + "\n"@,
            inner,
            fields@,
        ),
        Expr::Field { target, name, .. } => dump_expr(
            o + "field_access "@ + name@ + "\n"@,
            inner,
            *target,
        ),
        Expr::Match { scrutinee, arms, .. } => dump_arms(
            dump_expr(o + "match\n"@, inner, *scrutinee),
            inner,
            arms@,
        ),
        Expr::Try { body, arms, .. } => dump_arms(
            dump_block(o + "try\n"@, inner, body),
            inner,
            arms@,
        ),
        Expr::Path { segments, .. } => debug_names(o + "path "@, texts(segments@)) + "\n"@,
        Expr::TypePath { segments, .. } => debug_names(o + "typepath "@, texts(segments@)) + "\n"@,
    }
}

/// A list of expressions.
pub open spec fn dump_list(out: Seq<char>, indent: Seq<char>, s: Seq<Expr>) -> Seq<char>
    decreases s, 0nat,
{
    if s.len() == 0 {
        out
    } else {
        dump_expr(dump_list(out, indent, s.drop_last()), indent, s.last())
    }
}

/// A field of a record literal.
pub open spec fn dump_field(out: Seq<char>, indent: Seq<char>, f: FieldInit) -> Seq<char>
    decreases f, 0nat,
{
    dump_expr(out + indent + "field "@ + f.name@ + "\n"@, inside(indent), f.value)
}

/// The fields of a record literal.
pub open spec fn dump_fields(out: Seq<char>, indent: Seq<char>, s: Seq<FieldInit>) -> Seq<char>
    decreases s, 0nat,
{
    if s.len() == 0 {
        out
    } else {
        dump_field(dump_fields(out, indent, s.drop_last()), indent, s.last())
    }
}

/// An arm of a `match` or a `catch`.
pub open spec fn dump_arm(out: Seq<char>, indent: Seq<char>, arm: MatchArm) -> Seq<char>
    decreases arm, 0nat,
{
    let o = dump_pattern(out + indent + "arm "@, arm.pattern) + "\n"@;
    let guarded = match arm.guard {
        Some(guard) => dump_expr(
            o + indent + "  guard\n"@,
            inside(inside(indent)),
            guard,
        ),
        None => o,
    };
    dump_expr(guarded, inside(indent), arm.body)
}

/// The arms of a `match` or a `catch`.
pub open spec fn dump_arms(out: Seq<char>, indent: Seq<char>, s: Seq<MatchArm>) -> Seq<char>
    decreases s, 0nat,
{
    if s.len() == 0 {
        out
    } else {
        dump_arm(dump_arms(out, indent, s.drop_last()), indent, s.last())
    }
}

/// An item of a block.
pub open spec fn dump_item(out: Seq<char>, indent: Seq<char>, item: BlockItem) -> Seq<char>
    decreases item, 0nat,
{
    match item {
        BlockItem::Let { name, ty, value, .. } => dump_expr(
            debug_opt_ty(out + indent + "  let "@ + name@ + " ty="@, opt_ty(ty)) + "\n"@,
            inside(inside(indent)),
            value,
        ),
        BlockItem::Expr(e) => dump_expr(out, inside(indent), e),
    }
}

/// The items of a block.
pub open spec fn dump_items(out: Seq<char>, indent: Seq<char>, s: Seq<BlockItem>) -> Seq<char>
    decreases s, 0nat,
{
    if s.len() == 0 {
        out
    } else {
        dump_item(dump_items(out, indent, s.drop_last()), indent, s.last())
    }
}

/// A block.
pub open spec fn dump_block(out: Seq<char>, indent: Seq<char>, block: Block) -> Seq<char>
    decreases block, 0nat,
{
    dump_items(out + indent + "block\n"@, indent, block.items@)
}

fn push_list(out: &mut String, indent: &str, s: &Vec<Expr>)
    ensures
        final(out)@ == dump_list(old(out)@, indent@, s@),
    decreases s@, 0nat,
{
    let mut i: usize = 0;
    assert(s@.take(0).len() == 0);
    while i < s.len()
        invariant
            i <= s.len(),
            out@ == dump_list(old(out)@, indent@, s@.take(i as int)),
        decreases s.len() - i,
    {
        push_expr(out, indent, &s[i]);
        proof {
            assert(s@.take(i + 1).drop_last() =~= s@.take(i as int));
            assert(s@.take(i + 1).last() == s@[i as int]);
        }
        i += 1;
    }
    assert(s@.take(s@.len() as int) =~= s@);
}

fn push_fields(out: &mut String, indent: &str, s: &Vec<FieldInit>)
    ensures
        final(out)@ == dump_fields(old(out)@, indent@, s@),
    decreases s@, 0nat,
{
    let mut i: usize = 0;
    assert(s@.take(0).len() == 0);
    while i < s.len()
        invariant
            i <= s.len(),
            out@ == dump_fields(old(out)@, indent@, s@.take(i as int)),
        decreases s.len() - i,
    {
        push_field(out, indent, &s[i]);
        proof {
            assert(s@.take(i + 1).drop_last() =~= s@.take(i as int));
            assert(s@.take(i + 1).last() == s@[i as int]);
        }
        i += 1;
    }
    assert(s@.take(s@.len() as int) =~= s@);
}

fn push_arms(out: &mut String, indent: &str, s: &Vec<MatchArm>)
    ensures
        final(out)@ == dump_arms(old(out)@, indent@, s@),
    decreases s@, 0nat,
{
    let mut i: usize = 0;
    assert(s@.take(0).len() == 0);
    while i < s.len()
        invariant
            i <= s.len(),
            out@ == dump_arms(old(out)@, indent@, s@.take(i as int)),
        decreases s.len() - i,
    {
        push_arm(out, indent, &s[i]);
        proof {
            assert(s@.take(i + 1).drop_last() =~= s@.take(i as int));
            assert(s@.take(i + 1).last() == s@[i as int]);
        }
        i += 1;
    }
    assert(s@.take(s@.len() as int) =~= s@);
}

fn push_items(out: &mut String, indent: &str, s: &Vec<BlockItem>)
    ensures
        final(out)@ == dump_items(old(out)@, indent@, s@),
    decreases s@, 0nat,
{
    let mut i: usize = 0;
    assert(s@.take(0).len() == 0);
    while i < s.len()
        invariant
            i <= s.len(),
            out@ == dump_items(old(out)@, indent@, s@.take(i as int)),
        decreases s.len() - i,
    {
        push_item(out, indent, &s[i]);
        proof {
            assert(s@.take(i + 1).drop_last() =~= s@.take(i as int));
            assert(s@.take(i + 1).last() == s@[i as int]);
        }
        i += 1;
    }
    assert(s@.take(s@.len() as int) =~= s@);
}

fn push_field(out: &mut String, indent: &str, f: &FieldInit)
    ensures
        final(out)@ == dump_field(old(out)@, indent@, *f),
    decreases f, 0nat,
{
    out.push_str(indent);
    out.push_str("field ");
    out.push_str(f.name.as_str());
    out.push_str("\n");
    let inner = further(indent);
    push_expr(out, inner.as_str(), &f.value);
}

fn push_arm(out: &mut String, indent: &str, arm: &MatchArm)
    ensures
        final(out)@ == dump_arm(old(out)@, indent@, *arm),
    decreases arm, 0nat,
{
    let inner = further(indent);
    out.push_str(indent);
    out.push_str("arm ");
    push_pattern(out, &arm.pattern);
    out.push_str("\n");
    if let Some(guard) = &arm.guard {
        let deep = further(inner.as_str());
        out.push_str(indent);
        out.push_str("  guard\n");
        push_expr(out, deep.as_str(), guard);
    }
    push_expr(out, inner.as_str(), &arm.body);
}

fn push_item(out: &mut String, indent: &str, item: &BlockItem)
    ensures
        final(out)@ == dump_item(old(out)@, indent@, *item),
    decreases item, 0nat,
{
    let inner = further(indent);
    match item {
        BlockItem::Let { name, ty, value, .. } => {
            let deep = further(inner.as_str());
            out.push_str(indent);
            out.push_str("  let ");
            out.push_str(name.as_str());
            out.push_str(" ty=");
            push_debug_opt_type(out, ty);
            out.push_str("\n");
            push_expr(out, deep.as_str(), value);
        },
        BlockItem::Expr(e) => push_expr(out, inner.as_str(), e),
    }
}

fn push_block(out: &mut String, indent: &str, block: &Block)
    ensures
        final(out)@ == dump_block(old(out)@, indent@, *block),
    decreases block, 0nat,
{
    out.push_str(indent);
    out.push_str("block\n");
    push_items(out, indent, &block.items);
}

/// An expression that contains no other.
pub open spec fn is_plain(e: Expr) -> bool {
    e is Int || e is Float || e is Bool || e is String || e is Char || e is Unit || e is Var
        || e is Path || e is TypePath
}

fn push_plain(out: &mut String, indent: &str, e: &Expr)
    requires
        is_plain(*e),
    ensures
        final(out)@ == dump_expr(old(out)@, indent@, *e),
{
    out.push_str(indent);
    match e {
        Expr::Int(value, _) => {
            out.push_str("int ");
            push_decimal_int(out, *value);
            out.push_str("\n");
        },
        Expr::Float(value, _) => {
            out.push_str("float ");
            out.push_str(value.as_str());
            out.push_str("\n");
        },
        Expr::Bool(value, _) => {
            out.push_str("bool ");
            push_bool(out, *value);
            out.push_str("\n");
        },
        Expr::String(value, _) => {
            out.push_str("string ");
            push_debug_name(out, value.as_str());
            out.push_str("\n");
        },
        Expr::Char(value, _) => {
            let shown = debug_char(*value);
            out.push_str("char ");
            out.push_str(shown.as_str());
            out.push_str("\n");
        },
        Expr::Unit(_) => out.push_str("unit\n"),
        Expr::Var(name, _) => {
            out.push_str("var ");
            out.push_str(name.as_str());
            out.push_str("\n");
        },
        Expr::Path { segments, .. } => {
            out.push_str("path ");
            push_debug_names(out, segments);
            out.push_str("\n");
        },
        Expr::TypePath { segments, .. } => {
            out.push_str("typepath ");
            push_debug_names(out, segments);
            out.push_str("\n");
        },
        _ => {},
    }
}

fn push_lambda(out: &mut String, indent: &str, e: &Expr)
    requires
        e is Fn,
    ensures
        final(out)@ == dump_expr(old(out)@, indent@, *e),
    decreases e, 0nat,
{
    if let Expr::Fn { params, ret, throws, effects, body, .. } = e {
        let inner = further(indent);
        out.push_str(indent);
        out.push_str("lambda params=");
        push_debug_params(out, params);
        out.push_str(" ret=");
        push_debug_type(out, ret);
        out.push_str(" throws=");
        push_debug_opt_type(out, throws);
        out.push_str(" uses=");
        push_debug_row(out, effects);
        out.push_str("\n");
        push_block(out, inner.as_str(), body);
    }
}

fn push_nested(out: &mut String, indent: &str, e: &Expr)
    requires
        !is_plain(*e),
        !(e is Fn),
        !(e is Block),
    ensures
        final(out)@ == dump_expr(old(out)@, indent@, *e),
    decreases e, 0nat,
{
    let deep = further(indent);
    let inner = deep.as_str();
    out.push_str(indent);
    match e {
        Expr::Array(items, _) => {
            out.push_str("array\n");
            push_list(out, inner, items);
        },
        Expr::Call { callee, args, .. } => {
            out.push_str("call\n");
            push_expr(out, inner, callee);
            push_list(out, inner, args);
        },
        Expr::Binary { op, left, right, .. } => {
            out.push_str("binary ");
            out.push_str(name_of_op(*op));
            out.push_str("\n");
            push_expr(out, inner, left);
            push_expr(out, inner, right);
        },
        Expr::If { cond, then, els, .. } => {
            out.push_str("if\n");
            push_expr(out, inner, cond);
            push_block(out, inner, then);
            push_block(out, inner, els);
        },
        Expr::Throw { value, .. } => {
            out.push_str("throw\n");
            push_expr(out, inner, value);
        },
        Expr::Panic { message, .. } => {
            out.push_str("panic\n");
            push_expr(out, inner, message);
        },
        Expr::Question { value, .. } => {
            out.push_str("question\n");
            push_expr(out, inner, value);
        },
        Expr::RecordLiteral { name, fields, .. } => {
            out.push_str("record_literal ");
            out.push_str(name.as_str());
            out.push_str("\n");
            push_fields(out, inner, fields);
        },
        Expr::Field { target, name, .. } => {
            out.push_str("field_access ");
            out.push_str(name.as_str());
            out.push_str("\n");
            push_expr(out, inner, target);
        },
        Expr::Match { scrutinee, arms, .. } => {
            out.push_str("match\n");
            push_expr(out, inner, scrutinee);
            push_arms(out, inner, arms);
        },
        Expr::Try { body, arms, .. } => {
            out.push_str("try\n");
            push_block(out, inner, body);
            push_arms(out, inner, arms);
        },
        _ => {},
    }
}

fn push_expr(out: &mut String, indent: &str, e: &Expr)
    ensures
        final(out)@ == dump_expr(old(out)@, indent@, *e),
    decreases e, 1nat,
{
    if matches!(
        e,
        Expr::Int(..)
            | Expr::Float(..)
            | Expr::Bool(..)
            | Expr::String(..)
            | Expr::Char(..)
            | Expr::Unit(..)
            | Expr::Var(..)
            | Expr::Path { .. }
            | Expr::TypePath { .. }
    ) {
        push_plain(out, indent, e)
    } else if matches!(e, Expr::Fn { .. }) {
        push_lambda(out, indent, e)
    } else if let Expr::Block(block) = e {
        push_block(out, indent, block)
    } else {
        push_nested(out, indent, e)
    }
}

/// An import.
pub open spec fn dump_import(out: Seq<char>, i: Import) -> Seq<char> {
    let o0 = out + "import "@;
    debug_names(o0, texts(i.path@)) + "\n"@
}

fn push_import(out: &mut String, i: &Import)
    ensures
        final(out)@ == dump_import(old(out)@, *i),
{
    out.push_str("import ");
    push_debug_names(out, &i.path);
    out.push_str("\n");
}

/// The imports.
pub open spec fn dump_imports(out: Seq<char>, s: Seq<Import>) -> Seq<char>
    decreases s.len(),
{
    if s.len() == 0 {
        out
    } else {
        dump_import(dump_imports(out, s.drop_last()), s.last())
    }
}

fn push_imports(out: &mut String, s: &Vec<Import>)
    ensures
        final(out)@ == dump_imports(old(out)@, s@),
{
    let mut i: usize = 0;
    assert(s@.take(0).len() == 0);
    while i < s.len()
        invariant
            i <= s.len(),
            out@ == dump_imports(old(out)@, s@.take(i as int)),
        decreases s.len() - i,
    {
        push_import(out, &s[i]);
        proof {
            assert(s@.take(i + 1).drop_last() =~= s@.take(i as int));
            assert(s@.take(i + 1).last() == s@[i as int]);
        }
        i += 1;
    }
    assert(s@.take(s@.len() as int) =~= s@);
}

/// A function.
pub open spec fn dump_function(out: Seq<char>, indent: Seq<char>, f: Function) -> Seq<char> {
    let o0 = out + indent + "fn "@ + f.name@ + " test="@ + bool_text(f.is_test) + " pub="@
        + bool_text(f.is_public) + " path="@;
    let p0 = debug_names(o0, texts(f.module_segments@)) + " module="@;
    let p1 = debug_opt_name(p0, f.declared_module) + " effect="@;
    let o1 = debug_opt_name(p1, f.effect_name) + " tparams="@;
    let o2 = debug_names(o1, texts(f.type_params@)) + " bounds="@;
    let o3 = debug_bounds(o2, f.bounds@) + " params="@;
    let o4 = debug_params(o3, f.params@) + " ret="@;
    let o5 = debug_ty(o4, f.ret@) + " throws="@;
    let o6 = debug_opt_ty(o5, opt_ty(f.throws)) + " uses="@;
    dump_block(debug_row(o6, f.effects@) + "\n"@, inside(indent), f.body)
}

fn push_function(out: &mut String, indent: &str, f: &Function)
    ensures
        final(out)@ == dump_function(old(out)@, indent@, *f),
{
    out.push_str(indent);
    out.push_str("fn ");
    out.push_str(f.name.as_str());
    out.push_str(" test=");
    push_bool(out, f.is_test);
    out.push_str(" pub=");
    push_bool(out, f.is_public);
    out.push_str(" path=");
    push_debug_names(out, &f.module_segments);
    out.push_str(" module=");
    push_debug_opt_name(out, &f.declared_module);
    out.push_str(" effect=");
    push_debug_opt_name(out, &f.effect_name);
    out.push_str(" tparams=");
    push_debug_names(out, &f.type_params);
    out.push_str(" bounds=");
    push_debug_bounds(out, &f.bounds);
    out.push_str(" params=");
    push_debug_params(out, &f.params);
    out.push_str(" ret=");
    push_debug_type(out, &f.ret);
    out.push_str(" throws=");
    push_debug_opt_type(out, &f.throws);
    out.push_str(" uses=");
    push_debug_row(out, &f.effects);
    out.push_str("\n");
    let inner = further(indent);
    push_block(out, inner.as_str(), &f.body);
}

/// A list of functions.
pub open spec fn dump_functions(out: Seq<char>, indent: Seq<char>, s: Seq<Function>) -> Seq<char>
    decreases s.len(),
{
    if s.len() == 0 {
        out
    } else {
        dump_function(dump_functions(out, indent, s.drop_last()), indent, s.last())
    }
}

fn push_functions(out: &mut String, indent: &str, s: &Vec<Function>)
    ensures
        final(out)@ == dump_functions(old(out)@, indent@, s@),
{
    let mut i: usize = 0;
    assert(s@.take(0).len() == 0);
    while i < s.len()
        invariant
            i <= s.len(),
            out@ == dump_functions(old(out)@, indent@, s@.take(i as int)),
        decreases s.len() - i,
    {
        push_function(out, indent, &s[i]);
        proof {
            assert(s@.take(i + 1).drop_last() =~= s@.take(i as int));
            assert(s@.take(i + 1).last() == s@[i as int]);
        }
        i += 1;
    }
    assert(s@.take(s@.len() as int) =~= s@);
}

/// A function without a body.
pub open spec fn dump_extern(out: Seq<char>, d: Extern) -> Seq<char> {
    let o0 = out + "ex"@ + "tern "@ + d.name@ + " intrinsic="@ + bool_text(d.is_intrinsic) + " module="@;
    let p0 = debug_opt_name(o0, d.module) + " effect="@;
    let o1 = debug_opt_name(p0, d.effect_name) + " params="@;
    let o2 = debug_params(o1, d.params@) + " ret="@;
    let o3 = debug_ty(o2, d.ret@) + " throws="@;
    let o4 = debug_opt_ty(o3, opt_ty(d.throws)) + " uses="@;
    debug_row(o4, d.effects@) + "\n"@
}

fn push_extern(out: &mut String, d: &Extern)
    ensures
        final(out)@ == dump_extern(old(out)@, *d),
{
    out.push_str("ex");
    out.push_str("tern ");
    out.push_str(d.name.as_str());
    out.push_str(" intrinsic=");
    push_bool(out, d.is_intrinsic);
    out.push_str(" module=");
    push_debug_opt_name(out, &d.module);
    out.push_str(" effect=");
    push_debug_opt_name(out, &d.effect_name);
    out.push_str(" params=");
    push_debug_params(out, &d.params);
    out.push_str(" ret=");
    push_debug_type(out, &d.ret);
    out.push_str(" throws=");
    push_debug_opt_type(out, &d.throws);
    out.push_str(" uses=");
    push_debug_row(out, &d.effects);
    out.push_str("\n");
}

/// The functions without a body.
pub open spec fn dump_externs(out: Seq<char>, s: Seq<Extern>) -> Seq<char>
    decreases s.len(),
{
    if s.len() == 0 {
        out
    } else {
        dump_extern(dump_externs(out, s.drop_last()), s.last())
    }
}

fn push_externs(out: &mut String, s: &Vec<Extern>)
    ensures
        final(out)@ == dump_externs(old(out)@, s@),
{
    let mut i: usize = 0;
    assert(s@.take(0).len() == 0);
    while i < s.len()
        invariant
            i <= s.len(),
            out@ == dump_externs(old(out)@, s@.take(i as int)),
        decreases s.len() - i,
    {
        push_extern(out, &s[i]);
        proof {
            assert(s@.take(i + 1).drop_last() =~= s@.take(i as int));
            assert(s@.take(i + 1).last() == s@[i as int]);
        }
        i += 1;
    }
    assert(s@.take(s@.len() as int) =~= s@);
}

/// A variant of an enum.
pub open spec fn dump_variant(out: Seq<char>, v: EnumVariant) -> Seq<char> {
    let o0 = out + "  variant "@ + v.name@ + " "@;
    debug_tys(o0, tys(v.fields@)) + "\n"@
}

fn push_variant(out: &mut String, v: &EnumVariant)
    ensures
        final(out)@ == dump_variant(old(out)@, *v),
{
    out.push_str("  variant ");
    out.push_str(v.name.as_str());
    out.push_str(" ");
    push_debug_types(out, &v.fields);
    out.push_str("\n");
}

/// The variants of an enum.
pub open spec fn dump_variants(out: Seq<char>, s: Seq<EnumVariant>) -> Seq<char>
    decreases s.len(),
{
    if s.len() == 0 {
        out
    } else {
        dump_variant(dump_variants(out, s.drop_last()), s.last())
    }
}

fn push_variants(out: &mut String, s: &Vec<EnumVariant>)
    ensures
        final(out)@ == dump_variants(old(out)@, s@),
{
    let mut i: usize = 0;
    assert(s@.take(0).len() == 0);
    while i < s.len()
        invariant
            i <= s.len(),
            out@ == dump_variants(old(out)@, s@.take(i as int)),
        decreases s.len() - i,
    {
        push_variant(out, &s[i]);
        proof {
            assert(s@.take(i + 1).drop_last() =~= s@.take(i as int));
            assert(s@.take(i + 1).last() == s@[i as int]);
        }
        i += 1;
    }
    assert(s@.take(s@.len() as int) =~= s@);
}

/// An enum.
pub open spec fn dump_enum(out: Seq<char>, d: EnumDecl) -> Seq<char> {
    let o0 = out + "enum "@ + d.name@ + " module="@;
    let p0 = debug_opt_name(o0, d.module) + " lang="@;
    let o1 = debug_opt_name(p0, d.lang_item) + " params="@;
    let o2 = debug_names(o1, texts(d.type_params@)) + "\n"@;
    dump_variants(o2, d.variants@)
}

fn push_enum(out: &mut String, d: &EnumDecl)
    ensures
        final(out)@ == dump_enum(old(out)@, *d),
{
    out.push_str("enum ");
    out.push_str(d.name.as_str());
    out.push_str(" module=");
    push_debug_opt_name(out, &d.module);
    out.push_str(" lang=");
    push_debug_opt_name(out, &d.lang_item);
    out.push_str(" params=");
    push_debug_names(out, &d.type_params);
    out.push_str("\n");
    push_variants(out, &d.variants);
}

/// The enums.
pub open spec fn dump_enums(out: Seq<char>, s: Seq<EnumDecl>) -> Seq<char>
    decreases s.len(),
{
    if s.len() == 0 {
        out
    } else {
        dump_enum(dump_enums(out, s.drop_last()), s.last())
    }
}

fn push_enums(out: &mut String, s: &Vec<EnumDecl>)
    ensures
        final(out)@ == dump_enums(old(out)@, s@),
{
    let mut i: usize = 0;
    assert(s@.take(0).len() == 0);
    while i < s.len()
        invariant
            i <= s.len(),
            out@ == dump_enums(old(out)@, s@.take(i as int)),
        decreases s.len() - i,
    {
        push_enum(out, &s[i]);
        proof {
            assert(s@.take(i + 1).drop_last() =~= s@.take(i as int));
            assert(s@.take(i + 1).last() == s@[i as int]);
        }
        i += 1;
    }
    assert(s@.take(s@.len() as int) =~= s@);
}

/// A field of a record.
pub open spec fn dump_record_field(out: Seq<char>, f: RecordField) -> Seq<char> {
    let o0 = out + "  field "@ + f.name@ + " "@;
    debug_ty(o0, f.ty@) + "\n"@
}

fn push_record_field(out: &mut String, f: &RecordField)
    ensures
        final(out)@ == dump_record_field(old(out)@, *f),
{
    out.push_str("  field ");
    out.push_str(f.name.as_str());
    out.push_str(" ");
    push_debug_type(out, &f.ty);
    out.push_str("\n");
}

/// The fields of a record.
pub open spec fn dump_record_fields(out: Seq<char>, s: Seq<RecordField>) -> Seq<char>
    decreases s.len(),
{
    if s.len() == 0 {
        out
    } else {
        dump_record_field(dump_record_fields(out, s.drop_last()), s.last())
    }
}

fn push_record_fields(out: &mut String, s: &Vec<RecordField>)
    ensures
        final(out)@ == dump_record_fields(old(out)@, s@),
{
    let mut i: usize = 0;
    assert(s@.take(0).len() == 0);
    while i < s.len()
        invariant
            i <= s.len(),
            out@ == dump_record_fields(old(out)@, s@.take(i as int)),
        decreases s.len() - i,
    {
        push_record_field(out, &s[i]);
        proof {
            assert(s@.take(i + 1).drop_last() =~= s@.take(i as int));
            assert(s@.take(i + 1).last() == s@[i as int]);
        }
        i += 1;
    }
    assert(s@.take(s@.len() as int) =~= s@);
}

/// A record.
pub open spec fn dump_record(out: Seq<char>, d: RecordDecl) -> Seq<char> {
    let o0 = out + "record "@ + d.name@ + " module="@;
    let o1 = debug_opt_name(o0, d.module) + " params="@;
    let o2 = debug_names(o1, texts(d.type_params@)) + "\n"@;
    dump_record_fields(o2, d.fields@)
}

fn push_record(out: &mut String, d: &RecordDecl)
    ensures
        final(out)@ == dump_record(old(out)@, *d),
{
    out.push_str("record ");
    out.push_str(d.name.as_str());
    out.push_str(" module=");
    push_debug_opt_name(out, &d.module);
    out.push_str(" params=");
    push_debug_names(out, &d.type_params);
    out.push_str("\n");
    push_record_fields(out, &d.fields);
}

/// The records.
pub open spec fn dump_records(out: Seq<char>, s: Seq<RecordDecl>) -> Seq<char>
    decreases s.len(),
{
    if s.len() == 0 {
        out
    } else {
        dump_record(dump_records(out, s.drop_last()), s.last())
    }
}

fn push_records(out: &mut String, s: &Vec<RecordDecl>)
    ensures
        final(out)@ == dump_records(old(out)@, s@),
{
    let mut i: usize = 0;
    assert(s@.take(0).len() == 0);
    while i < s.len()
        invariant
            i <= s.len(),
            out@ == dump_records(old(out)@, s@.take(i as int)),
        decreases s.len() - i,
    {
        push_record(out, &s[i]);
        proof {
            assert(s@.take(i + 1).drop_last() =~= s@.take(i as int));
            assert(s@.take(i + 1).last() == s@[i as int]);
        }
        i += 1;
    }
    assert(s@.take(s@.len() as int) =~= s@);
}

/// A method of a trait.
pub open spec fn dump_method(out: Seq<char>, m: TraitMethodSig) -> Seq<char> {
    let o0 = debug_params(out + "  method "@ + m.name@ + " params="@, m.params@) + " ret="@;
    let o1 = debug_ty(o0, m.ret@) + " throws="@;
    let o2 = debug_opt_ty(o1, opt_ty(m.throws)) + " uses="@;
    let o3 = debug_row(o2, m.effects@) + "\n"@;
    match m.default_body {
        Some(body) => dump_block(o3, "    "@, body),
        None => o3,
    }
}

fn push_method(out: &mut String, m: &TraitMethodSig)
    ensures
        final(out)@ == dump_method(old(out)@, *m),
{
    out.push_str("  method ");
    out.push_str(m.name.as_str());
    out.push_str(" params=");
    push_debug_params(out, &m.params);
    out.push_str(" ret=");
    push_debug_type(out, &m.ret);
    out.push_str(" throws=");
    push_debug_opt_type(out, &m.throws);
    out.push_str(" uses=");
    push_debug_row(out, &m.effects);
    out.push_str("\n");
    if let Some(body) = &m.default_body {
        push_block(out, "    ", body);
    }
}

/// The methods of a trait.
pub open spec fn dump_methods(out: Seq<char>, s: Seq<TraitMethodSig>) -> Seq<char>
    decreases s.len(),
{
    if s.len() == 0 {
        out
    } else {
        dump_method(dump_methods(out, s.drop_last()), s.last())
    }
}

fn push_methods(out: &mut String, s: &Vec<TraitMethodSig>)
    ensures
        final(out)@ == dump_methods(old(out)@, s@),
{
    let mut i: usize = 0;
    assert(s@.take(0).len() == 0);
    while i < s.len()
        invariant
            i <= s.len(),
            out@ == dump_methods(old(out)@, s@.take(i as int)),
        decreases s.len() - i,
    {
        push_method(out, &s[i]);
        proof {
            assert(s@.take(i + 1).drop_last() =~= s@.take(i as int));
            assert(s@.take(i + 1).last() == s@[i as int]);
        }
        i += 1;
    }
    assert(s@.take(s@.len() as int) =~= s@);
}

/// A trait.
pub open spec fn dump_trait(out: Seq<char>, d: TraitDecl) -> Seq<char> {
    let o0 = out + "trait "@ + d.name@ + " module="@;
    let o1 = debug_opt_name(o0, d.module) + "\n"@;
    dump_methods(o1, d.methods@)
}

fn push_trait(out: &mut String, d: &TraitDecl)
    ensures
        final(out)@ == dump_trait(old(out)@, *d),
{
    out.push_str("trait ");
    out.push_str(d.name.as_str());
    out.push_str(" module=");
    push_debug_opt_name(out, &d.module);
    out.push_str("\n");
    push_methods(out, &d.methods);
}

/// The traits.
pub open spec fn dump_traits(out: Seq<char>, s: Seq<TraitDecl>) -> Seq<char>
    decreases s.len(),
{
    if s.len() == 0 {
        out
    } else {
        dump_trait(dump_traits(out, s.drop_last()), s.last())
    }
}

fn push_traits(out: &mut String, s: &Vec<TraitDecl>)
    ensures
        final(out)@ == dump_traits(old(out)@, s@),
{
    let mut i: usize = 0;
    assert(s@.take(0).len() == 0);
    while i < s.len()
        invariant
            i <= s.len(),
            out@ == dump_traits(old(out)@, s@.take(i as int)),
        decreases s.len() - i,
    {
        push_trait(out, &s[i]);
        proof {
            assert(s@.take(i + 1).drop_last() =~= s@.take(i as int));
            assert(s@.take(i + 1).last() == s@[i as int]);
        }
        i += 1;
    }
    assert(s@.take(s@.len() as int) =~= s@);
}

/// An `impl` block.
pub open spec fn dump_impl(out: Seq<char>, d: ImplDecl) -> Seq<char> {
    let o0 = out + "impl "@ + d.trait_name@ + " for "@;
    let o1 = debug_ty(o0, d.target@) + " params="@;
    let o2 = debug_names(o1, texts(d.type_params@)) + " bounds="@;
    let o3 = debug_bounds(o2, d.bounds@) + " module="@;
    let o4 = debug_opt_name(o3, d.module) + "\n"@;
    dump_functions(o4, "  "@, d.methods@)
}

fn push_impl(out: &mut String, d: &ImplDecl)
    ensures
        final(out)@ == dump_impl(old(out)@, *d),
{
    out.push_str("impl ");
    out.push_str(d.trait_name.as_str());
    out.push_str(" for ");
    push_debug_type(out, &d.target);
    out.push_str(" params=");
    push_debug_names(out, &d.type_params);
    out.push_str(" bounds=");
    push_debug_bounds(out, &d.bounds);
    out.push_str(" module=");
    push_debug_opt_name(out, &d.module);
    out.push_str("\n");
    push_functions(out, "  ", &d.methods);
}

/// The `impl` blocks.
pub open spec fn dump_impls(out: Seq<char>, s: Seq<ImplDecl>) -> Seq<char>
    decreases s.len(),
{
    if s.len() == 0 {
        out
    } else {
        dump_impl(dump_impls(out, s.drop_last()), s.last())
    }
}

fn push_impls(out: &mut String, s: &Vec<ImplDecl>)
    ensures
        final(out)@ == dump_impls(old(out)@, s@),
{
    let mut i: usize = 0;
    assert(s@.take(0).len() == 0);
    while i < s.len()
        invariant
            i <= s.len(),
            out@ == dump_impls(old(out)@, s@.take(i as int)),
        decreases s.len() - i,
    {
        push_impl(out, &s[i]);
        proof {
            assert(s@.take(i + 1).drop_last() =~= s@.take(i as int));
            assert(s@.take(i + 1).last() == s@[i as int]);
        }
        i += 1;
    }
    assert(s@.take(s@.len() as int) =~= s@);
}

/// An effect.
pub open spec fn dump_effect(out: Seq<char>, d: EffectDecl) -> Seq<char> {
    debug_name(out + "effect "@, d.name@) + "\n"@
}

/// The effects.
pub open spec fn dump_effects(out: Seq<char>, s: Seq<EffectDecl>) -> Seq<char>
    decreases s.len(),
{
    if s.len() == 0 {
        out
    } else {
        dump_effect(dump_effects(out, s.drop_last()), s.last())
    }
}

fn push_effects(out: &mut String, s: &Vec<EffectDecl>)
    ensures
        final(out)@ == dump_effects(old(out)@, s@),
{
    let mut i: usize = 0;
    assert(s@.take(0).len() == 0);
    while i < s.len()
        invariant
            i <= s.len(),
            out@ == dump_effects(old(out)@, s@.take(i as int)),
        decreases s.len() - i,
    {
        out.push_str("effect ");
        push_debug_name(out, s[i].name.as_str());
        out.push_str("\n");
        proof {
            assert(s@.take(i + 1).drop_last() =~= s@.take(i as int));
            assert(s@.take(i + 1).last() == s@[i as int]);
        }
        i += 1;
    }
    assert(s@.take(s@.len() as int) =~= s@);
}

/// The mark of a function in the first line of a dump.
pub open spec fn mark_of(f: Function) -> char {
    match (f.is_test, f.is_public) {
        (true, true) => 'T',
        (true, false) => 't',
        (false, true) => 'P',
        (false, false) => 'p',
    }
}

/// The marks of some functions: whether each is a test, and public.
pub open spec fn marks(s: Seq<Function>) -> Seq<char> {
    Seq::new(s.len(), |i: int| mark_of(s[i]))
}

fn push_marks(out: &mut String, s: &Vec<Function>)
    ensures
        final(out)@ == old(out)@ + marks(s@),
{
    let mut i: usize = 0;
    assert(marks(s@).take(0) =~= Seq::empty());
    while i < s.len()
        invariant
            i <= s.len(),
            out@ == old(out)@ + marks(s@).take(i as int),
        decreases s.len() - i,
    {
        let mark = match (s[i].is_test, s[i].is_public) {
            (true, true) => 'T',
            (true, false) => 't',
            (false, true) => 'P',
            (false, false) => 'p',
        };
        out.push(mark);
        proof {
            assert(marks(s@).take(i + 1) =~= marks(s@).take(i as int).push(mark));
        }
        i += 1;
    }
    assert(marks(s@).take(s@.len() as int) =~= marks(s@));
}

/// The structure of a program, declaration by declaration.
pub open spec fn dump_declarations(program: Program) -> Seq<char> {
    let o0 = debug_opt_name("module "@, program.module) + "\n"@;
    let o1 = dump_imports(o0, program.imports@);
    let o2 = dump_functions(o1, Seq::empty(), program.functions@);
    let o3 = dump_externs(o2, program.externs@);
    let o4 = dump_enums(o3, program.enums@);
    let o5 = dump_records(o4, program.records@);
    let o6 = dump_traits(o5, program.traits@);
    let o7 = dump_impls(o6, program.impls@);
    dump_effects(o7, program.effects@)
}

/// The dump of a program: a line of marks, one for each function, then the
/// declarations.
pub open spec fn dump(program: Program) -> Seq<char> {
    marks(program.functions@) + "\n"@ + dump_declarations(program)
}

/// A span-free structural dump of the program.
pub fn ast_dump(program: &Program) -> (r: String)
    ensures
        r@ == dump(*program),
{
    proof {
        reveal_strlit("");
        assert(""@ =~= Seq::<char>::empty());
    }
    let mut text = owned("module ");
    let out = &mut text;
    push_debug_opt_name(out, &program.module);
    out.push_str("\n");
    push_imports(out, &program.imports);
    push_functions(out, "", &program.functions);
    push_externs(out, &program.externs);
    push_enums(out, &program.enums);
    push_records(out, &program.records);
    push_traits(out, &program.traits);
    push_impls(out, &program.impls);
    push_effects(out, &program.effects);
    let mut all = String::new();
    assert(all@ =~= Seq::<char>::empty());
    push_marks(&mut all, &program.functions);
    assert(all@ =~= marks(program.functions@));
    all.push_str("\n");
    all.push_str(text.as_str());
    all
}

/// Programs with the same dump have as many functions, the same of them tests and
/// the same of them public: formatting neither drops nor adds a `@test` or a
/// `pub`.
pub proof fn equal_dumps_give_equal_flags(p: Program, q: Program)
    requires
        dump(p) == dump(q),
    ensures
        p.functions@.len() == q.functions@.len(),
        forall|i: int|
            0 <= i < p.functions@.len() ==> (#[trigger] p.functions@[i]).is_test
                == q.functions@[i].is_test && p.functions@[i].is_public
                == q.functions@[i].is_public,
        dump_declarations(p) == dump_declarations(q),
{
    reveal_strlit("\n");
    let (a, b) = (marks(p.functions@), marks(q.functions@));
    let (x, y) = (dump(p), dump(q));
    assert(x[a.len() as int] == '\n');
    assert(y[b.len() as int] == '\n');
    if a.len() < b.len() {
        assert(y[a.len() as int] == b[a.len() as int]);
        assert(false);
    }
    if b.len() < a.len() {
        assert(x[b.len() as int] == a[b.len() as int]);
        assert(false);
    }
    assert forall|i: int| 0 <= i < p.functions@.len() implies (#[trigger] p.functions@[i]).is_test
        == q.functions@[i].is_test && p.functions@[i].is_public == q.functions@[i].is_public by {
        assert(x[i] == a[i] && y[i] == b[i]);
        assert(a[i] == mark_of(p.functions@[i]) && b[i] == mark_of(q.functions@[i]));
    }
    assert(dump_declarations(p) =~= x.skip(a.len() as int + 1));
    assert(dump_declarations(q) =~= y.skip(b.len() as int + 1));
}

} // verus!
