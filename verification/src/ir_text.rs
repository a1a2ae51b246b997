//! A textual dump of the IR, used by `emela ir`.

use vstd::prelude::*;

use crate::ir::{
    arm_nodes, nodes, opt_bind, opt_binds, param_binds, ArmNode, Bind, FnNode, IrArm, IrExpr,
    IrParam, IrPattern, IrProgram, Node, Pat,
};
use crate::strings::{
    debug_string, debug_text, decimal, decimal_int, join, joined, push_decimal, push_decimal_int,
    push_repeated, repeated, texts,
};
use crate::types::{tys, BinaryOp, Ty, Type};

verus! {

/// The text of a truth value.
pub open spec fn bool_text(b: bool) -> Seq<char> {
    if b {
        "true"@
    } else {
        "false"@
    }
}

/// Appends a truth value.
pub fn push_bool(out: &mut String, b: bool)
    ensures
        final(out)@ == old(out)@ + bool_text(b),
{
    if b {
        out.push_str("true");
    } else {
        out.push_str("false");
    }
}

/// The names of a list of bindings, separated by commas.
pub open spec fn name_list(s: Seq<Bind>) -> Seq<char> {
    joined(s.map_values(|b: Bind| b.name), ", "@)
}

/// The operation name of a binary operator.
pub open spec fn op_name(op: BinaryOp) -> Seq<char> {
    match op {
        BinaryOp::Add => "add"@,
        BinaryOp::Sub => "sub"@,
        BinaryOp::Mul => "mul"@,
        BinaryOp::Div => "div"@,
        BinaryOp::Rem => "rem"@,
        BinaryOp::Concat => "concat"@,
        BinaryOp::Eq => "eq"@,
        BinaryOp::Lt => "lt"@,
        BinaryOp::Ne => "ne"@,
        BinaryOp::Gt => "gt"@,
        BinaryOp::Le => "le"@,
        BinaryOp::Ge => "ge"@,
        BinaryOp::Shl => "shl"@,
        BinaryOp::Shr => "shr_s"@,
        BinaryOp::UShr => "shr_u"@,
    }
}

/// The machine type an operator works on.
pub open spec fn type_suffix(ty: Ty) -> Seq<char> {
    match ty {
        Ty::Float => "f64"@,
        _ => "i32"@,
    }
}

/// `out` followed by a type as the dump writes it.
pub open spec fn type_text(out: Seq<char>, ty: Ty) -> Seq<char>
    decreases ty,
{
    match ty {
        Ty::Unit => out + "Unit"@,
        Ty::Bool => out + "Bool"@,
        Ty::Int => out + "Int"@,
        Ty::Float => out + "Float"@,
        Ty::String => out + "String"@,
        Ty::Char => out + "Char"@,
        Ty::Bytes => out + "Bytes"@,
        Ty::Array(element) => type_text(out + "Array<"@, *element) + ">"@,
        Ty::Record => out + "Record"@,
        Ty::Enum(name, args) => if args.len() == 0 {
            out + name
        } else {
            type_list(out + name + "<"@, args) + ">"@
        },
        Ty::Option(inner) => type_text(out + "Option<"@, *inner) + ">"@,
        Ty::Never => out + "Never"@,
        Ty::Function(f) => type_text(type_list(out + "("@, f.params) + ") -> "@, *f.ret)
            + " uses {"@ + joined(f.effects, ", "@) + "}"@,
        Ty::OpaqueFunction => out + "Function"@,
        Ty::Var(name) => out + name,
    }
}

/// `out` followed by the types of a list, separated by commas.
pub open spec fn type_list(out: Seq<char>, s: Seq<Ty>) -> Seq<char>
    decreases s,
{
    if s.len() == 0 {
        out
    } else if s.len() == 1 {
        type_text(out, s.last())
    } else {
        type_text(type_list(out, s.drop_last()) + ", "@, s.last())
    }
}

/// `out` followed by an expression on one line.
pub open spec fn inline(out: Seq<char>, e: Node) -> Seq<char>
    decreases e, (if e is Let { 1nat } else { 0 }),
{
    match e {
        Node::Int(value) => out + decimal_int(value as int),
        Node::Float(value) => out + value,
        Node::Bool(value) => out + bool_text(value),
        Node::String(value) => out + debug_text(value),
        Node::Char(value) => out + "char "@ + decimal(value as nat),
        Node::CharFromCode(value) => inline(out + "char_from_code "@, *value),
        Node::StringFromChar(value) => inline(out + "string_from_char "@, *value),
        Node::Concat { left, right } => inline(inline(out + "concat "@, *left) + ", "@, *right),
        Node::Array { elems, .. } => inline_list(out + "["@, elems) + "]"@,
        Node::Unit => out + "()"@,
        Node::Var { name, .. } => out + "%"@ + name,
        Node::FunctionRef { name, .. } => out + "@"@ + name,
        Node::Let { .. } => lines(out + "{\n"@, e, 1) + "}"@,
        Node::Call { callee, args, .. } => inline_list(
            inline(out + "call "@, *callee) + "("@,
            args,
        ) + ")"@,
        Node::Platform { name, args, .. } => inline_list(out + "platform "@ + name + "("@, args)
            + ")"@,
        Node::Intrinsic { name, args, .. } => inline_list(out + "intrinsic "@ + name + "("@, args)
            + ")"@,
        Node::Fn { params, body, .. } => inline(
            out + "fn ("@ + name_list(params) + ") { "@,
            *body,
        ) + " }"@,
        Node::Binary { op, ty, left, right } => inline(
            inline(out + op_name(op) + "."@ + type_suffix(ty) + " "@, *left) + ", "@,
            *right,
        ),
        Node::EnumValue { variant, payload, .. } => if payload.len() == 0 {
            out + variant
        } else {
            inline_list(out + variant + "("@, payload) + ")"@
        },
        Node::RecordValue { fields, .. } => inline_list(out + "record("@, fields) + ")"@,
        Node::FieldAccess { target, index, .. } => inline(out, *target) + "."@ + decimal(
            index as nat,
        ),
        Node::Match { scrutinee, arms, .. } => inline_arms(
            inline(out + "match "@, *scrutinee) + " { "@,
            arms,
        ) + " }"@,
        Node::If { cond, then, els, .. } => inline(
            inline(inline(out + "if "@, *cond) + " { "@, *then) + " } else { "@,
            *els,
        ) + " }"@,
        Node::Throw { value } => inline(out + "throw "@, *value),
        Node::Try { body, arms, .. } => inline_arms(
            inline(out + "try { "@, *body) + " } catch { "@,
            arms,
        ) + " }"@,
        Node::Question { value, .. } => inline(out, *value) + "?"@,
        Node::Panic { message } => inline(out + "panic "@, *message),
        Node::TailSelfCall { args, .. } => inline_list(out + "tail_self_call("@, args) + ")"@,
        Node::Retain { value } => inline(out + "retain "@, *value),
        Node::Release { name, next, .. } => inline(out + "release %"@ + name + "; "@, *next),
    }
}

/// `out` followed by the expressions of a list on one line, separated by commas.
pub open spec fn inline_list(out: Seq<char>, s: Seq<Node>) -> Seq<char>
    decreases s, 0nat,
{
    if s.len() == 0 {
        out
    } else if s.len() == 1 {
        inline(out, s.last())
    } else {
        inline(inline_list(out, s.drop_last()) + ", "@, s.last())
    }
}

/// A pattern on one line.
pub open spec fn pattern_text(p: Pat) -> Seq<char> {
    match p {
        Pat::Variant { variant, bindings, .. } => if bindings.len() == 0 {
            variant
        } else {
            variant + "("@ + joined(
                bindings.map_values(
                    |b: Option<Bind>|
                        match b {
                            Some(b) => b.name,
                            None => "_"@,
                        },
                ),
                ", "@,
            ) + ")"@
        },
        Pat::Wildcard { binding } => match binding {
            Some(b) => b.name,
            None => "_"@,
        },
    }
}

/// `out` followed by an arm on one line.
pub open spec fn inline_arm(out: Seq<char>, arm: ArmNode) -> Seq<char>
    decreases arm, 0nat,
{
    let head = out + pattern_text(arm.pattern);
    let guarded = match arm.guard {
        Some(guard) => inline(head + " if "@, *guard),
        None => head,
    };
    inline(guarded + " -> "@, *arm.body)
}

/// `out` followed by the arms of a list on one line, separated by spaces.
pub open spec fn inline_arms(out: Seq<char>, s: Seq<ArmNode>) -> Seq<char>
    decreases s, 0nat,
{
    if s.len() == 0 {
        out
    } else if s.len() == 1 {
        inline_arm(out, s.last())
    } else {
        inline_arm(inline_arms(out, s.drop_last()) + " "@, s.last())
    }
}

/// `out` followed by an expression as a body: its `let`s on lines of their own,
/// then the value.
pub open spec fn lines(out: Seq<char>, e: Node, indent: nat) -> Seq<char>
    decreases e, (if e is Let { 0nat } else { 1 }),
{
    let pad = out + repeated("  "@, indent);
    match e {
        Node::Let { name, value, next, .. } => lines(
            inline(pad + "let "@ + name + " = "@, *value) + "\n"@,
            *next,
            indent,
        ),
        _ => inline(pad + "return "@, e) + "\n"@,
    }
}

/// `out` followed by a function of the dump.
pub open spec fn function_text(out: Seq<char>, f: FnNode) -> Seq<char> {
    let head = type_text(out + "fn "@ + f.name + "("@ + name_list(f.params) + ") -> "@, f.ret);
    lines(head + " uses {"@ + joined(f.effects, ", "@) + "} {\n"@, f.body, 1) + "}\n\n"@
}

/// The dump of a program.
pub open spec fn program_text(p: Seq<FnNode>) -> Seq<char>
    decreases p.len(),
{
    if p.len() == 0 {
        Seq::empty()
    } else {
        function_text(program_text(p.drop_last()), p.last())
    }
}

fn ir_op(op: BinaryOp) -> (r: &'static str)
    ensures
        r@ == op_name(op),
{
    match op {
        BinaryOp::Add => "add",
        BinaryOp::Sub => "sub",
        BinaryOp::Mul => "mul",
        BinaryOp::Div => "div",
        BinaryOp::Rem => "rem",
        BinaryOp::Concat => "concat",
        BinaryOp::Eq => "eq",
        BinaryOp::Lt => "lt",
        BinaryOp::Ne => "ne",
        BinaryOp::Gt => "gt",
        BinaryOp::Le => "le",
        BinaryOp::Ge => "ge",
        BinaryOp::Shl => "shl",
        BinaryOp::Shr => "shr_s",
        BinaryOp::UShr => "shr_u",
    }
}

fn ir_type_suffix(ty: &Type) -> (r: &'static str)
    ensures
        r@ == type_suffix(ty@),
{
    match ty {
        Type::Float => "f64",
        _ => "i32",
    }
}

fn push_types(types: &Vec<Type>, out: &mut String)
    ensures
        final(out)@ == type_list(old(out)@, tys(types@)),
    decreases types@,
{
    let ghost all = tys(types@);
    let mut i: usize = 0;
    assert(all.take(0).len() == 0);
    while i < types.len()
        invariant
            i <= types.len(),
            all == tys(types@),
            out@ == type_list(old(out)@, all.take(i as int)),
        decreases types.len() - i,
    {
        if i > 0 {
            out.push_str(", ");
        }
        push_type(&types[i], out);
        proof {
            assert(all.take(i + 1).drop_last() =~= all.take(i as int));
            assert(all.take(i + 1).last() == types@[i as int]@);
        }
        i += 1;
    }
    assert(all.take(all.len() as int) =~= all);
}

/// Appends a type.
pub fn push_type(ty: &Type, out: &mut String)
    ensures
        final(out)@ == type_text(old(out)@, ty@),
    decreases ty,
{
    match ty {
        Type::Unit => out.push_str("Unit"),
        Type::Bool => out.push_str("Bool"),
        Type::Int => out.push_str("Int"),
        Type::Float => out.push_str("Float"),
        Type::String => out.push_str("String"),
        Type::Char => out.push_str("Char"),
        Type::Bytes => out.push_str("Bytes"),
        Type::Array(element) => {
            out.push_str("Array<");
            push_type(element, out);
            out.push_str(">");
        },
        Type::Record => out.push_str("Record"),
        Type::Enum(name, args) => {
            assert(tys(args@).len() == args@.len());
            out.push_str(name.as_str());
            if args.len() > 0 {
                out.push_str("<");
                push_types(args, out);
                out.push_str(">");
            }
        },
        Type::Option(inner) => {
            out.push_str("Option<");
            push_type(inner, out);
            out.push_str(">");
        },
        Type::Never => out.push_str("Never"),
        Type::Function(f) => {
            assert(f@.params == tys(f.params@) && f@.effects == f.effects@);
            out.push_str("(");
            push_types(&f.params, out);
            out.push_str(") -> ");
            push_type(&f.ret, out);
            out.push_str(" uses {");
            let effects = join(&f.effects.effects, ", ");
            out.push_str(effects.as_str());
            out.push_str("}");
        },
        Type::OpaqueFunction => out.push_str("Function"),
        Type::Var(name) => out.push_str(name.as_str()),
    }
}

fn push_names(params: &Vec<IrParam>, out: &mut String)
    ensures
        final(out)@ == old(out)@ + name_list(param_binds(params@)),
{
    let mut names: Vec<String> = Vec::new();
    let mut i: usize = 0;
    while i < params.len()
        invariant
            i <= params.len(),
            names@.len() == i,
            forall|j: int| 0 <= j < i ==> (#[trigger] names@[j])@ == params@[j].name@,
        decreases params.len() - i,
    {
        names.push(params[i].name.clone());
        i += 1;
    }
    let list = join(&names, ", ");
    out.push_str(list.as_str());
    assert(texts(names@) =~= param_binds(params@).map_values(|b: Bind| b.name));
}

fn push_exprs(exprs: &Vec<IrExpr>, out: &mut String)
    ensures
        final(out)@ == inline_list(old(out)@, nodes(exprs@)),
    decreases exprs@, 0nat,
{
    let ghost all = nodes(exprs@);
    let mut i: usize = 0;
    assert(all.take(0).len() == 0);
    while i < exprs.len()
        invariant
            i <= exprs.len(),
            all == nodes(exprs@),
            out@ == inline_list(old(out)@, all.take(i as int)),
        decreases exprs.len() - i,
    {
        if i > 0 {
            out.push_str(", ");
        }
        push_inline(&exprs[i], out);
        proof {
            assert(all.take(i + 1).drop_last() =~= all.take(i as int));
            assert(all.take(i + 1).last() == exprs@[i as int]@);
        }
        i += 1;
    }
    assert(all.take(all.len() as int) =~= all);
}

fn push_pattern(pattern: &IrPattern, out: &mut String)
    ensures
        final(out)@ == old(out)@ + pattern_text(pattern@),
{
    match pattern {
        IrPattern::Variant { variant, bindings, .. } => {
            out.push_str(variant.as_str());
            if bindings.len() > 0 {
                let mut names: Vec<String> = Vec::new();
                let ghost shown = opt_binds(bindings@).map_values(
                    |b: Option<Bind>|
                        match b {
                            Some(b) => b.name,
                            None => "_"@,
                        },
                );
                let mut i: usize = 0;
                while i < bindings.len()
                    invariant
                        i <= bindings.len(),
                        names@.len() == i,
                        shown.len() == bindings@.len(),
                        forall|j: int|
                            0 <= j < bindings@.len() ==> #[trigger] shown[j] == match opt_bind(
                                bindings@[j],
                            ) {
                                Some(b) => b.name,
                                None => "_"@,
                            },
                        forall|j: int| 0 <= j < i ==> (#[trigger] names@[j])@ == shown[j],
                    decreases bindings.len() - i,
                {
                    match &bindings[i] {
                        Some((name, _)) => names.push(name.clone()),
                        None => names.push(crate::strings::owned("_")),
                    }
                    assert(names@[i as int]@ == shown[i as int]);
                    i += 1;
                }
                assert(texts(names@) =~= shown);
                out.push_str("(");
                let list = join(&names, ", ");
                out.push_str(list.as_str());
                out.push_str(")");
            }
        },
        IrPattern::Wildcard { binding } => {
            match binding {
                Some((name, _)) => out.push_str(name.as_str()),
                None => out.push_str("_"),
            }
        },
    }
    assert(out@ =~= old(out)@ + pattern_text(pattern@));
}

fn push_arm(arm: &IrArm, out: &mut String)
    ensures
        final(out)@ == inline_arm(old(out)@, arm@),
    decreases arm, 0nat,
{
    push_pattern(&arm.pattern, out);
    if let Some(guard) = &arm.guard {
        out.push_str(" if ");
        push_inline(guard, out);
    }
    out.push_str(" -> ");
    push_inline(&arm.body, out);
}

fn push_arms(arms: &Vec<IrArm>, out: &mut String)
    ensures
        final(out)@ == inline_arms(old(out)@, arm_nodes(arms@)),
    decreases arms@, 0nat,
{
    let ghost all = arm_nodes(arms@);
    let mut i: usize = 0;
    assert(all.take(0).len() == 0);
    while i < arms.len()
        invariant
            i <= arms.len(),
            all == arm_nodes(arms@),
            out@ == inline_arms(old(out)@, all.take(i as int)),
        decreases arms.len() - i,
    {
        if i > 0 {
            out.push_str(" ");
        }
        push_arm(&arms[i], out);
        proof {
            assert(all.take(i + 1).drop_last() =~= all.take(i as int));
            assert(all.take(i + 1).last() == arms@[i as int]@);
        }
        i += 1;
    }
    assert(all.take(all.len() as int) =~= all);
}

/// Appends an expression on one line.
pub fn push_inline(expr: &IrExpr, out: &mut String)
    ensures
        final(out)@ == inline(old(out)@, expr@),
    decreases expr, 3nat,
{
    if matches!(
        expr,
        IrExpr::Int(_)
            | IrExpr::Float(_)
            | IrExpr::Bool(_)
            | IrExpr::String(_)
            | IrExpr::Char(_)
            | IrExpr::Unit
            | IrExpr::Var { .. }
            | IrExpr::FunctionRef { .. }
    ) {
        push_literal(expr, out)
    } else if matches!(
        expr,
        IrExpr::Call { .. }
            | IrExpr::Platform { .. }
            | IrExpr::Intrinsic { .. }
            | IrExpr::Array { .. }
            | IrExpr::EnumValue { .. }
            | IrExpr::RecordValue { .. }
            | IrExpr::TailSelfCall { .. }
    ) {
        push_operation(expr, out)
    } else if matches!(
        expr,
        IrExpr::CharFromCode(_)
            | IrExpr::StringFromChar(_)
            | IrExpr::Concat { .. }
            | IrExpr::Binary { .. }
            | IrExpr::FieldAccess { .. }
            | IrExpr::Question { .. }
            | IrExpr::Retain { .. }
    ) {
        push_value(expr, out)
    } else {
        push_control(expr, out)
    }
}

/// A literal or a name.
fn push_literal(expr: &IrExpr, out: &mut String)
    requires
        expr is Int || expr is Float || expr is Bool || expr is String || expr is Char || expr is Unit || expr is Var || expr is FunctionRef,
    ensures
        final(out)@ == inline(old(out)@, expr@),
    decreases expr, 2nat,
{
    match expr {
        IrExpr::Int(value) => push_decimal_int(out, *value),
        IrExpr::Float(value) => out.push_str(value.as_str()),
        IrExpr::Bool(value) => push_bool(out, *value),
        IrExpr::String(value) => {
            let quoted = debug_string(value.as_str());
            out.push_str(quoted.as_str());
        },
        IrExpr::Char(value) => {
            out.push_str("char ");
            push_decimal(out, *value as u64);
        },
        IrExpr::Unit => out.push_str("()"),
        IrExpr::Var { name, .. } => {
            out.push_str("%");
            out.push_str(name.as_str());
        },
        IrExpr::FunctionRef { name, .. } => {
            out.push_str("@");
            out.push_str(name.as_str());
        },
        _ => {},
    }
}

/// A call or a constructor.
fn push_operation(expr: &IrExpr, out: &mut String)
    requires
        expr is Call || expr is Platform || expr is Intrinsic || expr is Array || expr is EnumValue || expr is RecordValue || expr is TailSelfCall,
    ensures
        final(out)@ == inline(old(out)@, expr@),
    decreases expr, 2nat,
{
    match expr {
        IrExpr::Call { callee, args, .. } => {
            out.push_str("call ");
            push_inline(callee, out);
            out.push_str("(");
            push_exprs(args, out);
            out.push_str(")");
        },
        IrExpr::Platform { name, args, .. } => {
            out.push_str("platform ");
            out.push_str(name.as_str());
            out.push_str("(");
            push_exprs(args, out);
            out.push_str(")");
        },
        IrExpr::Intrinsic { name, args, .. } => {
            out.push_str("intrinsic ");
            out.push_str(name.as_str());
            out.push_str("(");
            push_exprs(args, out);
            out.push_str(")");
        },
        IrExpr::Array { elems, .. } => {
            out.push_str("[");
            push_exprs(elems, out);
            out.push_str("]");
        },
        IrExpr::EnumValue { variant, payload, .. } => {
            assert(nodes(payload@).len() == payload@.len());
            out.push_str(variant.as_str());
            if payload.len() > 0 {
                out.push_str("(");
                push_exprs(payload, out);
                out.push_str(")");
            }
        },
        IrExpr::RecordValue { fields, .. } => {
            out.push_str("record(");
            push_exprs(fields, out);
            out.push_str(")");
        },
        IrExpr::TailSelfCall { args, .. } => {
            out.push_str("tail_self_call(");
            push_exprs(args, out);
            out.push_str(")");
        },
        _ => {},
    }
}

/// A node over fixed operands.
fn push_value(expr: &IrExpr, out: &mut String)
    requires
        expr is CharFromCode || expr is StringFromChar || expr is Concat || expr is Binary || expr is FieldAccess || expr is Question || expr is Retain,
    ensures
        final(out)@ == inline(old(out)@, expr@),
    decreases expr, 2nat,
{
    match expr {
        IrExpr::CharFromCode(value) => {
            out.push_str("char_from_code ");
            push_inline(value, out);
        },
        IrExpr::StringFromChar(value) => {
            out.push_str("string_from_char ");
            push_inline(value, out);
        },
        IrExpr::Concat { left, right } => {
            out.push_str("concat ");
            push_inline(left, out);
            out.push_str(", ");
            push_inline(right, out);
        },
        IrExpr::Binary { op, ty, left, right } => {
            out.push_str(ir_op(*op));
            out.push_str(".");
            out.push_str(ir_type_suffix(ty));
            out.push_str(" ");
            push_inline(left, out);
            out.push_str(", ");
            push_inline(right, out);
        },
        IrExpr::FieldAccess { target, index, .. } => {
            push_inline(target, out);
            out.push_str(".");
            push_decimal(out, *index as u64);
        },
        IrExpr::Question { value, .. } => {
            push_inline(value, out);
            out.push_str("?");
        },
        IrExpr::Retain { value } => {
            out.push_str("retain ");
            push_inline(value, out);
        },
        _ => {},
    }
}

/// A binding, a branch or a jump.
fn push_control(expr: &IrExpr, out: &mut String)
    requires
        expr is Let || expr is Fn || expr is Match || expr is If || expr is Throw || expr is Try || expr is Panic || expr is Release,
    ensures
        final(out)@ == inline(old(out)@, expr@),
    decreases expr, 2nat,
{
    match expr {
        IrExpr::Let { .. } => {
            out.push_str("{\n");
            push_lines(expr, 1, out);
            out.push_str("}");
        },
        IrExpr::Fn { params, body, .. } => {
            out.push_str("fn (");
            push_names(params, out);
            out.push_str(") { ");
            push_inline(body, out);
            out.push_str(" }");
        },
        IrExpr::Match { scrutinee, arms, .. } => {
            out.push_str("match ");
            push_inline(scrutinee, out);
            out.push_str(" { ");
            push_arms(arms, out);
            out.push_str(" }");
        },
        IrExpr::If { cond, then, els, .. } => {
            out.push_str("if ");
            push_inline(cond, out);
            out.push_str(" { ");
            push_inline(then, out);
            out.push_str(" } else { ");
            push_inline(els, out);
            out.push_str(" }");
        },
        IrExpr::Throw { value } => {
            out.push_str("throw ");
            push_inline(value, out);
        },
        IrExpr::Try { body, arms, .. } => {
            out.push_str("try { ");
            push_inline(body, out);
            out.push_str(" } catch { ");
            push_arms(arms, out);
            out.push_str(" }");
        },
        IrExpr::Panic { message } => {
            out.push_str("panic ");
            push_inline(message, out);
        },
        IrExpr::Release { name, next, .. } => {
            out.push_str("release %");
            out.push_str(name.as_str());
            out.push_str("; ");
            push_inline(next, out);
        },
        _ => {},
    }
}

fn push_lines(expr: &IrExpr, indent: usize, out: &mut String)
    ensures
        final(out)@ == lines(old(out)@, expr@, indent as nat),
    decreases expr, (if expr is Let { 1nat } else { 4 }),
{
    push_repeated(out, "  ", indent);
    match expr {
        IrExpr::Let { name, value, next, .. } => {
            out.push_str("let ");
            out.push_str(name.as_str());
            out.push_str(" = ");
            push_inline(value, out);
            out.push_str("\n");
            push_lines(next, indent, out);
        },
        _ => {
            out.push_str("return ");
            push_inline(expr, out);
            out.push_str("\n");
        },
    }
}

/// Renders a program as text.
pub fn emit_text(program: &IrProgram) -> (r: String)
    ensures
        r@ == program_text(program@),
{
    let ghost p = program@;
    let mut out = String::new();
    let mut i: usize = 0;
    assert(p.take(0) =~= Seq::<FnNode>::empty());
    while i < program.functions.len()
        invariant
            i <= program.functions.len(),
            p == program@,
            out@ == program_text(p.take(i as int)),
        decreases program.functions.len() - i,
    {
        let function = &program.functions[i];
        out.push_str("fn ");
        out.push_str(function.name.as_str());
        out.push_str("(");
        push_names(&function.params, &mut out);
        out.push_str(") -> ");
        push_type(&function.ret, &mut out);
        out.push_str(" uses {");
        let effects = join(&function.effects.effects, ", ");
        out.push_str(effects.as_str());
        out.push_str("} {\n");
        push_lines(&function.body, 1, &mut out);
        out.push_str("}\n\n");
        proof {
            assert(p.take(i + 1).drop_last() =~= p.take(i as int));
            assert(p.take(i + 1).last() == program.functions@[i as int]@);
        }
        i += 1;
    }
    assert(p.take(p.len() as int) =~= p);
    out
}

} // verus!
